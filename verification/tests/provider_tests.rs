use stockwatch::json::{JsonMember, JsonValue};
use stockwatch::models::{Price, QuoteStatus, TimeRange};
use stockwatch::provider::{
    ensure_api_key_present, evaluate_connection_test, evaluate_quote_response,
    map_provider_error, parse_quote_payload, parse_symbol_performance_payload,
    payload_has_error_status, range_request_config, HttpOutcome,
};

fn obj(entries: Vec<(&str, JsonValue)>) -> JsonValue {
    JsonValue::Obj(
        entries
            .into_iter()
            .map(|(k, v)| JsonMember { key: k.to_string(), value: v })
            .collect(),
    )
}

fn s(text: &str) -> JsonValue {
    JsonValue::Str(text.to_string())
}

#[test]
fn map_provider_error_detects_invalid_key() {
    let payload = obj(vec![("status", s("error")), ("message", s("API key is incorrect."))]);
    let err = map_provider_error(400, &payload);
    assert_eq!(err.code, "invalid_api_key");
}

#[test]
fn map_provider_error_detects_rate_limit() {
    let payload = obj(vec![
        ("status", s("error")),
        ("message", s("API request frequency is too high.")),
    ]);
    let err = map_provider_error(429, &payload);
    assert_eq!(err.code, "rate_limited");
}

#[test]
fn map_provider_error_falls_back_to_generic_code() {
    let payload = obj(vec![("status", s("error")), ("message", s("Unexpected provider error."))]);
    let err = map_provider_error(502, &payload);
    assert_eq!(err.code, "provider_error");
}

#[test]
fn map_provider_error_precedence() {
    // A 401 wins even with an unrelated message.
    let payload = obj(vec![("message", s("something odd"))]);
    assert_eq!(map_provider_error(401, &payload).code, "invalid_api_key");
    // Message mentioning the symbol classifies as invalid_symbol.
    let payload = obj(vec![("message", s("**symbol** not found"))]);
    assert_eq!(map_provider_error(404, &payload).code, "invalid_symbol");
    // Key-related text beats rate-related text.
    let payload = obj(vec![("message", s("apikey rate limit"))]);
    assert_eq!(map_provider_error(500, &payload).code, "invalid_api_key");
    // Missing message falls back to the fixed text.
    let payload = obj(vec![]);
    let err = map_provider_error(500, &payload);
    assert_eq!(err.code, "provider_error");
    assert_eq!(err.message, "Provider request failed.");
}

#[test]
fn error_status_detection_ignores_case() {
    assert!(payload_has_error_status(&obj(vec![("status", s("Error"))])));
    assert!(payload_has_error_status(&obj(vec![("status", s("error"))])));
    assert!(!payload_has_error_status(&obj(vec![("status", s("ok"))])));
    assert!(!payload_has_error_status(&obj(vec![])));
}

#[test]
fn parse_quote_payload_maps_numeric_fields() {
    let payload = obj(vec![
        ("symbol", s("AAPL")),
        ("close", s("191.25")),
        ("change", s("1.20")),
        ("percent_change", s("0.63")),
        ("currency", s("USD")),
        ("datetime", s("2026-02-22 10:00:00")),
    ]);

    let quote = parse_quote_payload("AAPL", &payload, 0).unwrap();
    assert_eq!(quote.symbol, "AAPL");
    assert_eq!(quote.price, Price::from_scaled(1_912_500));
    assert_eq!(quote.change_abs, Some(Price::from_scaled(12_000)));
    assert_eq!(quote.change_pct, Some(Price::from_scaled(6_300)));
    assert_eq!(quote.currency.as_deref(), Some("USD"));
    assert_eq!(quote.last_updated_at, "2026-02-22 10:00:00");
    assert_eq!(quote.status, QuoteStatus::Fresh);
}

#[test]
fn parse_quote_payload_requires_price() {
    let payload = obj(vec![("symbol", s("AAPL")), ("currency", s("USD"))]);
    let result = parse_quote_payload("AAPL", &payload, 0);
    assert!(result.is_err());
    let err = result.unwrap_err();
    assert_eq!(err.code, "provider_payload_invalid");
    assert_eq!(err.message, "Quote payload missing price.");
}

#[test]
fn parse_quote_payload_price_key_preference_and_fallbacks() {
    // `close` is unusable, `price` is numeric: the next key serves.
    let payload = obj(vec![
        ("close", JsonValue::Bool(true)),
        ("price", JsonValue::Num("42".to_string())),
    ]);
    let quote = parse_quote_payload("msft", &payload, 1730000000).unwrap();
    assert_eq!(quote.price, Price::from_scaled(420_000));
    // Symbol falls back to the requested one, timestamp to the fetch time.
    assert_eq!(quote.symbol, "msft");
    assert_eq!(quote.last_updated_at, "1730000000");
    // Exponent-formatted numbers are not part of the accepted grammar.
    let payload = obj(vec![("last", s("1e5"))]);
    assert!(parse_quote_payload("X", &payload, 0).is_err());
    // Extra fraction digits are read to four places.
    let payload = obj(vec![("close", s("191.25000"))]);
    assert_eq!(
        parse_quote_payload("X", &payload, 0).unwrap().price,
        Price::from_scaled(1_912_500)
    );
    // Negative prices parse.
    let payload = obj(vec![("close", s("-2.75"))]);
    assert_eq!(
        parse_quote_payload("X", &payload, 0).unwrap().price,
        Price::from_scaled(-27_500)
    );
}

#[test]
fn parse_symbol_performance_payload_maps_points_and_metrics() {
    let payload = obj(vec![
        ("meta", obj(vec![("exchange_timezone", s("UTC"))])),
        (
            "values",
            JsonValue::Arr(vec![
                obj(vec![("datetime", s("2026-02-21 10:00:00")), ("close", s("201.0"))]),
                obj(vec![("datetime", s("2026-02-20 10:00:00")), ("close", s("199.0"))]),
                obj(vec![("datetime", s("2026-02-19 10:00:00")), ("close", s("200.0"))]),
            ]),
        ),
    ]);

    let performance =
        parse_symbol_performance_payload("AAPL", TimeRange::OneWeek, &payload).unwrap();
    assert_eq!(performance.points.len(), 3);
    assert_eq!(performance.points[0].ts, "2026-02-19 10:00:00");
    assert_eq!(performance.points[0].close, Price::from_scaled(2_000_000));
    assert_eq!(performance.points[1].close, Price::from_scaled(1_990_000));
    assert_eq!(performance.points[2].close, Price::from_scaled(2_010_000));
    assert_eq!(performance.start, Price::from_scaled(2_000_000));
    assert_eq!(performance.end, Price::from_scaled(2_010_000));
    assert_eq!(performance.min, Price::from_scaled(1_990_000));
    assert_eq!(performance.max, Price::from_scaled(2_010_000));
    assert_eq!(performance.last_updated_at, "2026-02-21 10:00:00");
    assert_eq!(performance.status, QuoteStatus::Fresh);
}

#[test]
fn parse_symbol_performance_payload_rejects_missing_values() {
    let payload = obj(vec![]);
    let result = parse_symbol_performance_payload("AAPL", TimeRange::OneWeek, &payload);
    assert!(result.is_err());
    let err = result.unwrap_err();
    assert_eq!(err.code, "provider_payload_invalid");
    assert_eq!(err.message, "Time series payload missing values.");
}

#[test]
fn parse_symbol_performance_payload_drops_invalid_points() {
    // Entries missing a timestamp or close are dropped silently.
    let payload = obj(vec![(
        "values",
        JsonValue::Arr(vec![
            obj(vec![("datetime", s("2026-02-21 10:00:00")), ("close", s("201.0"))]),
            obj(vec![("close", s("199.0"))]),
            obj(vec![("datetime", s("2026-02-19 10:00:00"))]),
        ]),
    )]);
    let performance =
        parse_symbol_performance_payload("AAPL", TimeRange::OneMonth, &payload).unwrap();
    assert_eq!(performance.points.len(), 1);

    // An empty array fails.
    let payload = obj(vec![("values", JsonValue::Arr(vec![]))]);
    let err = parse_symbol_performance_payload("AAPL", TimeRange::OneMonth, &payload)
        .unwrap_err();
    assert_eq!(err.message, "Time series payload contains no values.");

    // All entries dropped fails too.
    let payload = obj(vec![("values", JsonValue::Arr(vec![obj(vec![])]))]);
    let err = parse_symbol_performance_payload("AAPL", TimeRange::OneMonth, &payload)
        .unwrap_err();
    assert_eq!(err.message, "Time series payload contains no valid close values.");
}

#[test]
fn transport_failures_classify_by_precedence() {
    let timeout = HttpOutcome::Transport {
        timeout: true,
        connect: false,
        detail: "timed out".to_string(),
    };
    let err = evaluate_quote_response("AAPL", &timeout, 0).unwrap_err();
    assert_eq!(err.code, "network_timeout");

    let connect = HttpOutcome::Transport {
        timeout: false,
        connect: true,
        detail: "refused".to_string(),
    };
    let err = evaluate_quote_response("AAPL", &connect, 0).unwrap_err();
    assert_eq!(err.code, "network_connect_error");

    let other = HttpOutcome::Transport {
        timeout: false,
        connect: false,
        detail: "tls handshake broke".to_string(),
    };
    let err = evaluate_quote_response("AAPL", &other, 0).unwrap_err();
    assert_eq!(err.code, "network_error");
    assert_eq!(err.message, "Provider request failed: tls handshake broke");
}

#[test]
fn unparseable_body_classifies_as_parse_failure() {
    let outcome = HttpOutcome::Received { status: 200, body: None };
    let err = evaluate_quote_response("AAPL", &outcome, 0).unwrap_err();
    assert_eq!(err.code, "provider_payload_parse_failed");
}

#[test]
fn error_payload_beats_parsing() {
    let payload = obj(vec![
        ("status", s("error")),
        ("message", s("You have run out of API credits limit")),
        ("close", s("191.25")),
    ]);
    let outcome = HttpOutcome::Received { status: 200, body: Some(payload) };
    let err = evaluate_quote_response("AAPL", &outcome, 0).unwrap_err();
    assert_eq!(err.code, "rate_limited");
}

#[test]
fn successful_quote_exchange_parses() {
    let payload = obj(vec![("close", s("10.5"))]);
    let outcome = HttpOutcome::Received { status: 200, body: Some(payload) };
    let quote = evaluate_quote_response("AAPL", &outcome, 0).unwrap();
    assert_eq!(quote.price, Price::from_scaled(105_000));
}

#[test]
fn connection_test_returns_result_object() {
    let payload = obj(vec![("values", JsonValue::Arr(vec![]))]);
    let outcome = HttpOutcome::Received { status: 200, body: Some(payload) };
    let result = evaluate_connection_test(&outcome).unwrap();
    assert!(result.ok);
    assert_eq!(result.message, "Connection successful.");

    let failing = HttpOutcome::Received {
        status: 401,
        body: Some(obj(vec![("message", s("API key is incorrect."))])),
    };
    let err = evaluate_connection_test(&failing).unwrap_err();
    assert_eq!(err.code, "invalid_api_key");
}

#[test]
fn api_key_presence_gate() {
    let err = ensure_api_key_present("   ", "Save an API key before refreshing quotes.")
        .unwrap_err();
    assert_eq!(err.code, "invalid_settings");
    assert_eq!(err.message, "Save an API key before refreshing quotes.");
    assert!(ensure_api_key_present(" k3y-abcdef ", "unused").is_ok());
}

#[test]
fn range_request_configs_are_fixed() {
    assert_eq!(range_request_config(TimeRange::OneDay), ("1h", "24"));
    assert_eq!(range_request_config(TimeRange::OneWeek), ("1day", "7"));
    assert_eq!(range_request_config(TimeRange::OneMonth), ("1day", "30"));
    assert_eq!(range_request_config(TimeRange::ThreeMonths), ("1day", "90"));
    assert_eq!(range_request_config(TimeRange::OneYear), ("1week", "52"));
    assert_eq!(TimeRange::OneDay.as_key(), "1D");
    assert_eq!(TimeRange::OneYear.as_key(), "1Y");
}
