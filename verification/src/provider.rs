//! Provider response handling: transport-failure classification, provider
//! error mapping with its fixed precedence, and parsing of quote and
//! time-series payloads into domain snapshots.
//!
//! The HTTP exchange itself happens outside the library; what came back is
//! handed in as an [`HttpOutcome`], and everything from there on is
//! decided here.

use vstd::prelude::*;

use crate::errors::AppError;
use crate::json::{json_get, json_price_field, json_str_field, JsonValue};
use crate::models::{
    AppProvider, Price, PricePoint, PricePointView, ProviderTestResult, QuoteStatus, QuoteSummary,
    QuoteSummaryView, SymbolPerformance, SymbolPerformanceView, TimeRange,
};
use crate::text::{ci_contains, ci_equal, contains_ci, dec_digits, equals_ci, trim_chars, u64_to_dec_string};
use vstd::string::StringExecFns;

verus! {

/// What one HTTP exchange with the provider produced: a transport failure,
/// or a response with its status and its body read as JSON (`None` when
/// the body was not JSON).
pub enum HttpOutcome {
    Transport { timeout: bool, connect: bool, detail: String },
    Received { status: u16, body: Option<JsonValue> },
}

/// The HTTP status is a success (2xx).
pub open spec fn http_success(status: u16) -> bool {
    200 <= status && status < 300
}

/// Fixed provider-side request shape for each range: (interval, point count).
pub fn range_request_config(range: TimeRange) -> (r: (&'static str, &'static str))
    ensures
        range == TimeRange::OneDay ==> r.0@ == "1h"@ && r.1@ == "24"@,
        range == TimeRange::OneWeek ==> r.0@ == "1day"@ && r.1@ == "7"@,
        range == TimeRange::OneMonth ==> r.0@ == "1day"@ && r.1@ == "30"@,
        range == TimeRange::ThreeMonths ==> r.0@ == "1day"@ && r.1@ == "90"@,
        range == TimeRange::OneYear ==> r.0@ == "1week"@ && r.1@ == "52"@,
{
    match range {
        TimeRange::OneDay => ("1h", "24"),
        TimeRange::OneWeek => ("1day", "7"),
        TimeRange::OneMonth => ("1day", "30"),
        TimeRange::ThreeMonths => ("1day", "90"),
        TimeRange::OneYear => ("1week", "52"),
    }
}

/// Returns `Ok(())` exactly when the API key is non-empty once trimmed;
/// otherwise an `invalid_settings` error carrying `message`.
pub fn ensure_api_key_present(api_key: &str, message: &str) -> (r: Result<(), AppError>)
    ensures
        match r {
            Ok(_) => trim_chars(api_key@).len() > 0,
            Err(e) => trim_chars(api_key@).len() == 0 && e@.code == "invalid_settings"@
                && e@.message == message@,
        },
{
    let trimmed = crate::text::trim_to_string(api_key);
    if trimmed.as_str().unicode_len() == 0 {
        Err(AppError::validation("invalid_settings", message))
    } else {
        Ok(())
    }
}

/// The payload's own `status` field says `error` (any ASCII case).
pub open spec fn spec_payload_has_error_status(payload: JsonValue) -> bool {
    match json_str_field(payload, "status"@) {
        Some(s) => ci_equal(s, "error"@),
        None => false,
    }
}

/// Tests the payload's own `status` field for `error`.
pub fn payload_has_error_status(payload: &JsonValue) -> (r: bool)
    ensures
        r == spec_payload_has_error_status(*payload),
{
    match payload.str_field("status") {
        Some(s) => equals_ci(s.as_str(), "error"),
        None => false,
    }
}

/// Classifies a transport failure: timeout beats connection failure beats
/// the catch-all network error.
pub fn classify_transport_error(timeout: bool, connect: bool, detail: &str) -> (r: AppError)
    ensures
        timeout ==> r@.code == "network_timeout"@ && r@.message
            == "Connection test timed out while contacting provider."@,
        !timeout && connect ==> r@.code == "network_connect_error"@ && r@.message
            == "Unable to connect to provider. Check your network connection."@,
        !timeout && !connect ==> r@.code == "network_error"@ && r@.message
            == "Provider request failed: "@ + detail@,
{
    if timeout {
        AppError::provider(
            "network_timeout",
            "Connection test timed out while contacting provider.",
        )
    } else if connect {
        AppError::provider(
            "network_connect_error",
            "Unable to connect to provider. Check your network connection.",
        )
    } else {
        let message = String::from_str("Provider request failed: ").concat(detail);
        AppError::provider("network_error", message.as_str())
    }
}

/// The message the provider's error payload carries, or the fixed fallback.
pub open spec fn provider_message(payload: JsonValue) -> Seq<char> {
    match json_str_field(payload, "message"@) {
        Some(m) => m,
        None => "Provider request failed."@,
    }
}

/// The error code for a failed provider response, by fixed precedence:
/// a 401 status or a key-related message means the key is bad; a 429
/// status or a throttling-related message means rate limiting; a message
/// about the symbol means the symbol is bad; anything else is a plain
/// provider error.
pub open spec fn classify_provider_code(status: u16, msg: Seq<char>) -> Seq<char> {
    if status == 401 || ci_contains(msg, "api key"@) || ci_contains(msg, "apikey"@) {
        "invalid_api_key"@
    } else if status == 429 || ci_contains(msg, "rate"@) || ci_contains(msg, "frequency"@)
        || ci_contains(msg, "limit"@) {
        "rate_limited"@
    } else if ci_contains(msg, "symbol"@) {
        "invalid_symbol"@
    } else {
        "provider_error"@
    }
}

/// Maps a failed provider response (non-2xx status, or an error payload)
/// to an [`AppError`] with the provider's message and the classified code.
pub fn map_provider_error(status: u16, payload: &JsonValue) -> (r: AppError)
    ensures
        r@.message == provider_message(*payload),
        r@.code == classify_provider_code(status, provider_message(*payload)),
{
    let message: String = match payload.str_field("message") {
        Some(m) => m,
        None => "Provider request failed.".to_owned(),
    };
    let m = message.as_str();
    let code: &str = if status == 401 || contains_ci(m, "api key") || contains_ci(m, "apikey") {
        "invalid_api_key"
    } else if status == 429 || contains_ci(m, "rate") || contains_ci(m, "frequency")
        || contains_ci(m, "limit") {
        "rate_limited"
    } else if contains_ci(m, "symbol") {
        "invalid_symbol"
    } else {
        "provider_error"
    };
    AppError::provider(code, m)
}

/// First of the listed fields that holds a numeric value.
pub open spec fn lookup_price_keys(v: JsonValue, keys: Seq<Seq<char>>) -> Option<int>
    decreases keys.len(),
{
    if keys.len() == 0 {
        None
    } else {
        match json_price_field(v, keys[0]) {
            Some(x) => Some(x),
            None => lookup_price_keys(v, keys.drop_first()),
        }
    }
}

/// The fields a quote's price may sit under, in order of preference.
pub open spec fn quote_price_keys() -> Seq<Seq<char>> {
    seq!["close"@, "price"@, "last"@]
}

/// A quote payload's price: the first numeric of `close`, `price`, `last`.
pub open spec fn quote_price(payload: JsonValue) -> Option<int> {
    lookup_price_keys(payload, quote_price_keys())
}

/// The fields a percent change may sit under, in order of preference.
pub open spec fn percent_change_keys() -> Seq<Seq<char>> {
    seq!["percent_change"@, "change_percent"@]
}

/// The symbol text a quote payload reports, or the requested one.
pub open spec fn quote_symbol_text(payload: JsonValue, fallback: Seq<char>) -> Seq<char> {
    match json_str_field(payload, "symbol"@) {
        Some(s) => s,
        None => fallback,
    }
}

/// The timestamp a quote payload reports, or the fetch time in decimal.
pub open spec fn quote_timestamp(payload: JsonValue, now: u64) -> Seq<char> {
    match json_str_field(payload, "datetime"@) {
        Some(t) => t,
        None => dec_digits(now as nat),
    }
}

/// The quote a successful payload denotes (meaningful when `quote_price`
/// is present): fresh status, no error fields.
pub open spec fn expected_quote_view(
    payload: JsonValue,
    fallback_symbol: Seq<char>,
    now: u64,
) -> QuoteSummaryView {
    QuoteSummaryView {
        symbol: quote_symbol_text(payload, fallback_symbol),
        price: quote_price(payload).unwrap_or(0),
        change_abs: json_price_field(payload, "change"@),
        change_pct: lookup_price_keys(payload, percent_change_keys()),
        currency: json_str_field(payload, "currency"@),
        last_updated_at: quote_timestamp(payload, now),
        status: QuoteStatus::Fresh,
        error_code: None,
        error_message: None,
    }
}

/// Parses a successful quote payload. The price comes from the first
/// numeric of `close`, `price`, `last` (numbers or numeric strings);
/// a payload without one is `provider_payload_invalid`.
pub fn parse_quote_payload(symbol: &str, payload: &JsonValue, now: u64) -> (r: Result<
    QuoteSummary,
    AppError,
>)
    ensures
        match r {
            Ok(q) => quote_price(*payload) is Some && q@ == expected_quote_view(
                *payload,
                symbol@,
                now,
            ),
            Err(e) => quote_price(*payload) is None && e@.code == "provider_payload_invalid"@
                && e@.message == "Quote payload missing price."@,
        },
{
    proof {
        lemma_quote_key_seqs();
    }
    let price: Price = match payload.price_field("close") {
        Some(p) => p,
        None => match payload.price_field("price") {
            Some(p) => p,
            None => match payload.price_field("last") {
                Some(p) => p,
                None => {
                    return Err(
                        AppError::provider("provider_payload_invalid", "Quote payload missing price."),
                    );
                },
            },
        },
    };
    let symbol_value: String = match payload.str_field("symbol") {
        Some(s) => s,
        None => symbol.to_owned(),
    };
    let change_abs = payload.price_field("change");
    let change_pct: Option<Price> = match payload.price_field("percent_change") {
        Some(p) => Some(p),
        None => payload.price_field("change_percent"),
    };
    let currency = payload.str_field("currency");
    let last_updated_at: String = match payload.str_field("datetime") {
        Some(t) => t,
        None => u64_to_dec_string(now),
    };
    Ok(
        QuoteSummary {
            symbol: symbol_value,
            price,
            change_abs,
            change_pct,
            currency,
            last_updated_at,
            status: QuoteStatus::Fresh,
            error_code: None,
            error_message: None,
        },
    )
}

proof fn lemma_quote_key_seqs()
    ensures
        forall|payload: JsonValue| #[trigger] quote_price(payload) == (match json_price_field(
            payload,
            "close"@,
        ) {
            Some(x) => Some(x),
            None => match json_price_field(payload, "price"@) {
                Some(x) => Some(x),
                None => json_price_field(payload, "last"@),
            },
        }),
        forall|payload: JsonValue| #[trigger] lookup_price_keys(payload, percent_change_keys())
            == (match json_price_field(payload, "percent_change"@) {
            Some(x) => Some(x),
            None => json_price_field(payload, "change_percent"@),
        }),
{
    assert forall|payload: JsonValue| #[trigger] quote_price(payload) == (match json_price_field(
        payload,
        "close"@,
    ) {
        Some(x) => Some(x),
        None => match json_price_field(payload, "price"@) {
            Some(x) => Some(x),
            None => json_price_field(payload, "last"@),
        },
    }) by {
        reveal_with_fuel(lookup_price_keys, 5);
        let keys = quote_price_keys();
        assert(keys.drop_first() =~= seq!["price"@, "last"@]);
        assert(keys.drop_first().drop_first() =~= seq!["last"@]);
        assert(keys.drop_first().drop_first().drop_first() =~= Seq::<Seq<char>>::empty());
    }
    assert forall|payload: JsonValue| #[trigger] lookup_price_keys(
        payload,
        percent_change_keys(),
    ) == (match json_price_field(payload, "percent_change"@) {
        Some(x) => Some(x),
        None => json_price_field(payload, "change_percent"@),
    }) by {
        reveal_with_fuel(lookup_price_keys, 4);
        let keys = percent_change_keys();
        assert(keys.drop_first() =~= seq!["change_percent"@]);
        assert(keys.drop_first().drop_first() =~= Seq::<Seq<char>>::empty());
    }
}

/// The point one `values` entry carries, when it has both a timestamp and
/// a close; entries missing either are dropped.
pub open spec fn entry_point_view(e: JsonValue) -> Option<PricePointView> {
    match json_str_field(e, "datetime"@) {
        Some(ts) => match json_price_field(e, "close"@) {
            Some(c) => Some(PricePointView { ts, close: c }),
            None => None,
        },
        None => None,
    }
}

/// Points of the valid entries, in payload order.
pub open spec fn collect_points(vs: Seq<JsonValue>) -> Seq<PricePointView>
    decreases vs.len(),
{
    if vs.len() == 0 {
        Seq::empty()
    } else {
        collect_points(vs.drop_last()) + (match entry_point_view(vs.last()) {
            Some(p) => seq![p],
            None => Seq::empty(),
        })
    }
}

/// The `values` array of a time-series payload, if it is one.
pub open spec fn values_of(payload: JsonValue) -> Option<Seq<JsonValue>> {
    match json_get(payload, "values"@) {
        Some(w) => match w {
            JsonValue::Arr(vs) => Some(vs@),
            _ => None,
        },
        None => None,
    }
}

/// Least close over the points (zero on an empty sequence).
pub open spec fn min_close(ps: Seq<PricePointView>) -> int
    decreases ps.len(),
{
    if ps.len() == 0 {
        0
    } else if ps.len() == 1 {
        ps[0].close
    } else {
        let m = min_close(ps.drop_last());
        if ps.last().close < m {
            ps.last().close
        } else {
            m
        }
    }
}

/// Greatest close over the points (zero on an empty sequence).
pub open spec fn max_close(ps: Seq<PricePointView>) -> int
    decreases ps.len(),
{
    if ps.len() == 0 {
        0
    } else if ps.len() == 1 {
        ps[0].close
    } else {
        let m = max_close(ps.drop_last());
        if ps.last().close > m {
            ps.last().close
        } else {
            m
        }
    }
}

/// The series a successful payload denotes (meaningful when it has valid
/// points): the provider sends points newest first, so they are reversed
/// into chronological ascending order; start and end are the first and
/// last chronological closes, and the snapshot's timestamp is the last
/// point's.
pub open spec fn expected_performance_view(
    payload: JsonValue,
    symbol: Seq<char>,
    range: TimeRange,
) -> SymbolPerformanceView {
    let pts = (match values_of(payload) {
        Some(vs) => collect_points(vs),
        None => Seq::empty(),
    }).reverse();
    SymbolPerformanceView {
        symbol,
        range,
        points: pts,
        min: min_close(pts),
        max: max_close(pts),
        start: if pts.len() > 0 {
            pts[0].close
        } else {
            0
        },
        end: if pts.len() > 0 {
            pts.last().close
        } else {
            0
        },
        last_updated_at: if pts.len() > 0 {
            pts.last().ts
        } else {
            Seq::empty()
        },
        status: QuoteStatus::Fresh,
    }
}

/// Parses a successful time-series payload: requires a non-empty `values`
/// array, drops entries without a timestamp or close, and fails with
/// `provider_payload_invalid` when nothing valid is left.
pub fn parse_symbol_performance_payload(
    symbol: &str,
    range: TimeRange,
    payload: &JsonValue,
) -> (r: Result<SymbolPerformance, AppError>)
    ensures
        match r {
            Ok(p) => (match values_of(*payload) {
                Some(vs) => vs.len() > 0 && collect_points(vs).len() > 0,
                None => false,
            }) && p@ == expected_performance_view(*payload, symbol@, range),
            Err(e) => e@.code == "provider_payload_invalid"@ && (match values_of(*payload) {
                None => e@.message == "Time series payload missing values."@,
                Some(vs) => if vs.len() == 0 {
                    e@.message == "Time series payload contains no values."@
                } else {
                    collect_points(vs).len() == 0 && e@.message
                        == "Time series payload contains no valid close values."@
                },
            }),
        },
{
    match payload.get("values") {
        Some(values_node) => match values_node {
            JsonValue::Arr(vs) => {
                if vs.len() == 0 {
                    return Err(
                        AppError::provider(
                            "provider_payload_invalid",
                            "Time series payload contains no values.",
                        ),
                    );
                }
                let n = vs.len();
                let mut collected: Vec<PricePoint> = Vec::new();
                let mut i: usize = 0;
                while i < n
                    invariant
                        0 <= i <= n,
                        n == vs@.len(),
                        collected@.map_values(|p: PricePoint| p@) == collect_points(
                            vs@.take(i as int),
                        ),
                    decreases n - i,
                {
                    let ghost prefix = collected@.map_values(|p: PricePoint| p@);
                    let ts = vs[i].str_field("datetime");
                    let close = vs[i].price_field("close");
                    proof {
                        assert(vs@.take(i + 1).drop_last() =~= vs@.take(i as int));
                        assert(vs@.take(i + 1).last() == vs@[i as int]);
                    }
                    match (ts, close) {
                        (Some(t), Some(c)) => {
                            let ghost expected = entry_point_view(vs@[i as int]);
                            collected.push(PricePoint { ts: t, close: c });
                            proof {
                                assert(collected@.map_values(|p: PricePoint| p@) =~= prefix
                                    + seq![expected.unwrap()]);
                            }
                        },
                        _ => {
                            proof {
                                assert(entry_point_view(vs@[i as int]) is None);
                                assert(collect_points(vs@.take(i + 1)) =~= prefix);
                            }
                        },
                    }
                    i = i + 1;
                }
                proof {
                    assert(vs@.take(n as int) =~= vs@);
                }
                if collected.len() == 0 {
                    return Err(
                        AppError::provider(
                            "provider_payload_invalid",
                            "Time series payload contains no valid close values.",
                        ),
                    );
                }
                let total = collected.len();
                let ghost pts = collect_points(vs@).reverse();
                proof {
                    assert(pts.len() == total);
                }
                let mut points: Vec<PricePoint> = Vec::new();
                let mut j: usize = 0;
                while j < total
                    invariant
                        0 <= j <= total,
                        total == collected@.len(),
                        total == pts.len(),
                        collected@.map_values(|p: PricePoint| p@) == collect_points(vs@),
                        pts == collect_points(vs@).reverse(),
                        points@.len() == j as int,
                        forall|i: int| 0 <= i < j ==> (#[trigger] points@[i])@ == pts[i],
                    decreases total - j,
                {
                    proof {
                        assert(pts[j as int] == collected@.map_values(|p: PricePoint| p@)[total
                            - 1 - j]);
                    }
                    points.push(collected[total - 1 - j].clone());
                    j = j + 1;
                }
                proof {
                    assert(points@.map_values(|p: PricePoint| p@) =~= pts);
                }
                let start = points[0].close;
                let end = points[total - 1].close;
                let last_updated_at = points[total - 1].ts.clone();
                let mut mn = points[0].close;
                let mut mx = points[0].close;
                let mut k: usize = 1;
                while k < total
                    invariant
                        1 <= k <= total,
                        total == points@.len(),
                        points@.map_values(|p: PricePoint| p@) == pts,
                        total == pts.len(),
                        mn@ == min_close(pts.take(k as int)),
                        mx@ == max_close(pts.take(k as int)),
                    decreases total - k,
                {
                    proof {
                        assert(pts.take(k + 1).drop_last() =~= pts.take(k as int));
                        assert(pts.take(k + 1).last() == pts[k as int]);
                        assert(pts[k as int] == points@.map_values(|p: PricePoint| p@)[k as int]);
                    }
                    if points[k].close.scaled < mn.scaled {
                        mn = points[k].close;
                    }
                    if points[k].close.scaled > mx.scaled {
                        mx = points[k].close;
                    }
                    k = k + 1;
                }
                proof {
                    assert(pts.take(total as int) =~= pts);
                }
                Ok(
                    SymbolPerformance {
                        symbol: symbol.to_owned(),
                        range,
                        points,
                        min: mn,
                        max: mx,
                        start,
                        end,
                        last_updated_at,
                        status: QuoteStatus::Fresh,
                    },
                )
            },
            _ => Err(
                AppError::provider(
                    "provider_payload_invalid",
                    "Time series payload missing values.",
                ),
            ),
        },
        None => Err(
            AppError::provider("provider_payload_invalid", "Time series payload missing values."),
        ),
    }
}

/// Decides a quote exchange end to end: transport failures and error
/// responses classify as their [`AppError`]s; a successful response
/// parses into the quote.
pub fn evaluate_quote_response(symbol: &str, outcome: &HttpOutcome, now: u64) -> (r: Result<
    QuoteSummary,
    AppError,
>)
    ensures
        match *outcome {
            HttpOutcome::Transport { timeout, connect, detail } => r matches Err(e) && (timeout
                ==> e@.code == "network_timeout"@) && (!timeout && connect ==> e@.code
                == "network_connect_error"@) && (!timeout && !connect ==> e@.code
                == "network_error"@ && e@.message == "Provider request failed: "@ + detail@),
            HttpOutcome::Received { status, body } => match body {
                None => r matches Err(e) && e@.code == "provider_payload_parse_failed"@,
                Some(payload) => if !http_success(status) || spec_payload_has_error_status(
                    payload,
                ) {
                    r matches Err(e) && e@.message == provider_message(payload) && e@.code
                        == classify_provider_code(status, provider_message(payload))
                } else {
                    match r {
                        Ok(q) => quote_price(payload) is Some && q@ == expected_quote_view(
                            payload,
                            symbol@,
                            now,
                        ),
                        Err(e) => quote_price(payload) is None && e@.code
                            == "provider_payload_invalid"@,
                    }
                },
            },
        },
{
    match outcome {
        HttpOutcome::Transport { timeout, connect, detail } => Err(
            classify_transport_error(*timeout, *connect, detail.as_str()),
        ),
        HttpOutcome::Received { status, body } => match body {
            None => Err(
                AppError::provider(
                    "provider_payload_parse_failed",
                    "Unable to parse provider response.",
                ),
            ),
            Some(payload) => {
                if !(200 <= *status && *status < 300) || payload_has_error_status(payload) {
                    Err(map_provider_error(*status, payload))
                } else {
                    parse_quote_payload(symbol, payload, now)
                }
            },
        },
    }
}

/// Decides a time-series exchange end to end, as
/// [`evaluate_quote_response`] does for quotes.
pub fn evaluate_performance_response(
    symbol: &str,
    range: TimeRange,
    outcome: &HttpOutcome,
) -> (r: Result<SymbolPerformance, AppError>)
    ensures
        match *outcome {
            HttpOutcome::Transport { timeout, connect, detail } => r matches Err(e) && (timeout
                ==> e@.code == "network_timeout"@) && (!timeout && connect ==> e@.code
                == "network_connect_error"@) && (!timeout && !connect ==> e@.code
                == "network_error"@ && e@.message == "Provider request failed: "@ + detail@),
            HttpOutcome::Received { status, body } => match body {
                None => r matches Err(e) && e@.code == "provider_payload_parse_failed"@,
                Some(payload) => if !http_success(status) || spec_payload_has_error_status(
                    payload,
                ) {
                    r matches Err(e) && e@.message == provider_message(payload) && e@.code
                        == classify_provider_code(status, provider_message(payload))
                } else {
                    match r {
                        Ok(p) => (match values_of(payload) {
                            Some(vs) => vs.len() > 0 && collect_points(vs).len() > 0,
                            None => false,
                        }) && p@ == expected_performance_view(payload, symbol@, range),
                        Err(e) => e@.code == "provider_payload_invalid"@ && (match values_of(
                            payload,
                        ) {
                            None => true,
                            Some(vs) => vs.len() == 0 || collect_points(vs).len() == 0,
                        }),
                    }
                },
            },
        },
{
    match outcome {
        HttpOutcome::Transport { timeout, connect, detail } => Err(
            classify_transport_error(*timeout, *connect, detail.as_str()),
        ),
        HttpOutcome::Received { status, body } => match body {
            None => Err(
                AppError::provider(
                    "provider_payload_parse_failed",
                    "Unable to parse provider response.",
                ),
            ),
            Some(payload) => {
                if !(200 <= *status && *status < 300) || payload_has_error_status(payload) {
                    Err(map_provider_error(*status, payload))
                } else {
                    parse_symbol_performance_payload(symbol, range, payload)
                }
            },
        },
    }
}

/// Decides a connection-test exchange: any classified failure is an error;
/// a clean response is a successful [`ProviderTestResult`], never a quote.
pub fn evaluate_connection_test(outcome: &HttpOutcome) -> (r: Result<
    ProviderTestResult,
    AppError,
>)
    ensures
        match *outcome {
            HttpOutcome::Transport { timeout, connect, detail } => r matches Err(e) && (timeout
                ==> e@.code == "network_timeout"@) && (!timeout && connect ==> e@.code
                == "network_connect_error"@) && (!timeout && !connect ==> e@.code
                == "network_error"@),
            HttpOutcome::Received { status, body } => match body {
                None => r matches Err(e) && e@.code == "provider_payload_parse_failed"@,
                Some(payload) => if !http_success(status) || spec_payload_has_error_status(
                    payload,
                ) {
                    r matches Err(e) && e@.message == provider_message(payload) && e@.code
                        == classify_provider_code(status, provider_message(payload))
                } else {
                    r matches Ok(t) && t@.ok == true && t@.provider == AppProvider::Twelvedata
                        && t@.message == "Connection successful."@
                },
            },
        },
{
    match outcome {
        HttpOutcome::Transport { timeout, connect, detail } => Err(
            classify_transport_error(*timeout, *connect, detail.as_str()),
        ),
        HttpOutcome::Received { status, body } => match body {
            None => Err(
                AppError::provider(
                    "provider_payload_parse_failed",
                    "Unable to parse provider response.",
                ),
            ),
            Some(payload) => {
                if !(200 <= *status && *status < 300) || payload_has_error_status(payload) {
                    Err(map_provider_error(*status, payload))
                } else {
                    Ok(
                        ProviderTestResult {
                            ok: true,
                            provider: AppProvider::Twelvedata,
                            message: "Connection successful.".to_owned(),
                        },
                    )
                }
            },
        },
    }
}

} // verus!
