//! Domain data model: providers, ranges, watchlist items, quote and
//! performance snapshots, settings, and their spec-level views.
//!
//! Prices are fixed-point values: a [`Price`] stores the amount in
//! ten-thousandths (four decimal places), so `191.25` is stored as
//! `1_912_500`. Every type carries a `View` into plain mathematical values
//! (`Seq<char>`, `int`) that the library's contracts speak of.

use vstd::prelude::*;

verus! {

/// The single supported market-data provider.
#[derive(Debug, Clone, Copy, PartialEq, Eq, Structural)]
pub enum AppProvider {
    Twelvedata,
}

/// Closed set of history ranges; each maps to a fixed provider-side request
/// shape (see `range_request_config`).
#[derive(Debug, Clone, Copy, PartialEq, Eq, Structural)]
pub enum TimeRange {
    OneDay,
    OneWeek,
    OneMonth,
    ThreeMonths,
    OneYear,
}

/// The short tag of a range: `1D`, `1W`, `1M`, `3M` or `1Y`.
pub open spec fn range_tag(range: TimeRange) -> Seq<char> {
    match range {
        TimeRange::OneDay => "1D"@,
        TimeRange::OneWeek => "1W"@,
        TimeRange::OneMonth => "1M"@,
        TimeRange::ThreeMonths => "3M"@,
        TimeRange::OneYear => "1Y"@,
    }
}

impl TimeRange {
    /// Stable short tag for a range, used in cache file names and payloads.
    pub fn as_key(&self) -> (r: &'static str)
        ensures
            r@ == range_tag(*self),
    {
        match self {
            TimeRange::OneDay => "1D",
            TimeRange::OneWeek => "1W",
            TimeRange::OneMonth => "1M",
            TimeRange::ThreeMonths => "3M",
            TimeRange::OneYear => "1Y",
        }
    }
}

/// Trustworthiness of a snapshot handed to a caller. Recomputed on every
/// read from `(cached_at, now, outcome)`; never taken from storage.
#[derive(Debug, Clone, Copy, PartialEq, Eq, Structural)]
pub enum QuoteStatus {
    Fresh,
    Stale,
    Error,
}

/// Number of fixed-point steps per whole currency unit: four decimal places.
pub const PRICE_SCALE: i64 = 10000;

/// A price as a fixed-point value: `scaled` ten-thousandths of a unit.
#[derive(Debug, Clone, Copy, PartialEq, Eq, Structural)]
pub struct Price {
    pub scaled: i64,
}

impl Price {
    /// The price worth `scaled / 10000` currency units.
    pub fn from_scaled(scaled: i64) -> (r: Price)
        ensures
            r@ == scaled as int,
    {
        Price { scaled }
    }

    /// A zero price, used for synthetic error snapshots.
    pub fn zero() -> (r: Price)
        ensures
            r@ == 0int,
    {
        Price { scaled: 0 }
    }
}

impl View for Price {
    type V = int;

    open spec fn view(&self) -> int {
        self.scaled as int
    }
}

/// Spec view of an `Option<String>` as an optional character sequence.
pub open spec fn opt_string_view(o: Option<String>) -> Option<Seq<char>> {
    match o {
        Some(s) => Some(s@),
        None => None,
    }
}

/// Copies an optional string, preserving its view.
pub fn clone_opt_string(o: &Option<String>) -> (r: Option<String>)
    ensures
        opt_string_view(r) == opt_string_view(*o),
{
    match o {
        Some(s) => Some(s.clone()),
        None => None,
    }
}

/// Spec view of an `Option<Price>` as an optional fixed-point value.
pub open spec fn opt_price_view(o: Option<Price>) -> Option<int> {
    match o {
        Some(p) => Some(p@),
        None => None,
    }
}

/// One watchlist row. `symbol` is canonical (uppercase, validated) by the
/// time it reaches this library.
#[derive(Debug, PartialEq, Eq)]
pub struct WatchlistItem {
    pub symbol: String,
    pub display_name: Option<String>,
    pub pinned: Option<bool>,
}

pub struct WatchlistItemView {
    pub symbol: Seq<char>,
    pub display_name: Option<Seq<char>>,
    pub pinned: Option<bool>,
}

impl View for WatchlistItem {
    type V = WatchlistItemView;

    open spec fn view(&self) -> WatchlistItemView {
        WatchlistItemView {
            symbol: self.symbol@,
            display_name: opt_string_view(self.display_name),
            pinned: self.pinned,
        }
    }
}

impl Clone for WatchlistItem {
    fn clone(&self) -> (res: Self)
        ensures
            res@ == self@,
    {
        WatchlistItem {
            symbol: self.symbol.clone(),
            display_name: clone_opt_string(&self.display_name),
            pinned: self.pinned,
        }
    }
}

/// A quote handed to callers: price plus optional change figures, the
/// provider's own timestamp (or the fetch time), a recomputed status, and,
/// when serving stale or synthetic data, the failure that caused it.
#[derive(Debug, PartialEq)]
pub struct QuoteSummary {
    pub symbol: String,
    pub price: Price,
    pub change_abs: Option<Price>,
    pub change_pct: Option<Price>,
    pub currency: Option<String>,
    pub last_updated_at: String,
    pub status: QuoteStatus,
    pub error_code: Option<String>,
    pub error_message: Option<String>,
}

pub struct QuoteSummaryView {
    pub symbol: Seq<char>,
    pub price: int,
    pub change_abs: Option<int>,
    pub change_pct: Option<int>,
    pub currency: Option<Seq<char>>,
    pub last_updated_at: Seq<char>,
    pub status: QuoteStatus,
    pub error_code: Option<Seq<char>>,
    pub error_message: Option<Seq<char>>,
}

impl View for QuoteSummary {
    type V = QuoteSummaryView;

    open spec fn view(&self) -> QuoteSummaryView {
        QuoteSummaryView {
            symbol: self.symbol@,
            price: self.price@,
            change_abs: opt_price_view(self.change_abs),
            change_pct: opt_price_view(self.change_pct),
            currency: opt_string_view(self.currency),
            last_updated_at: self.last_updated_at@,
            status: self.status,
            error_code: opt_string_view(self.error_code),
            error_message: opt_string_view(self.error_message),
        }
    }
}

impl Clone for QuoteSummary {
    fn clone(&self) -> (res: Self)
        ensures
            res@ == self@,
    {
        QuoteSummary {
            symbol: self.symbol.clone(),
            price: self.price,
            change_abs: self.change_abs,
            change_pct: self.change_pct,
            currency: clone_opt_string(&self.currency),
            last_updated_at: self.last_updated_at.clone(),
            status: self.status,
            error_code: clone_opt_string(&self.error_code),
            error_message: clone_opt_string(&self.error_message),
        }
    }
}

/// One point of a performance series: the provider's timestamp text and the
/// closing price.
#[derive(Debug, PartialEq)]
pub struct PricePoint {
    pub ts: String,
    pub close: Price,
}

pub struct PricePointView {
    pub ts: Seq<char>,
    pub close: int,
}

impl View for PricePoint {
    type V = PricePointView;

    open spec fn view(&self) -> PricePointView {
        PricePointView { ts: self.ts@, close: self.close@ }
    }
}

impl Clone for PricePoint {
    fn clone(&self) -> (res: Self)
        ensures
            res@ == self@,
    {
        PricePoint { ts: self.ts.clone(), close: self.close }
    }
}

/// A historical series for one `(symbol, range)` pair: points in
/// chronological ascending order, with min/max/first/last closes.
#[derive(Debug, PartialEq)]
pub struct SymbolPerformance {
    pub symbol: String,
    pub range: TimeRange,
    pub points: Vec<PricePoint>,
    pub min: Price,
    pub max: Price,
    pub start: Price,
    pub end: Price,
    pub last_updated_at: String,
    pub status: QuoteStatus,
}

pub struct SymbolPerformanceView {
    pub symbol: Seq<char>,
    pub range: TimeRange,
    pub points: Seq<PricePointView>,
    pub min: int,
    pub max: int,
    pub start: int,
    pub end: int,
    pub last_updated_at: Seq<char>,
    pub status: QuoteStatus,
}

impl View for SymbolPerformance {
    type V = SymbolPerformanceView;

    open spec fn view(&self) -> SymbolPerformanceView {
        SymbolPerformanceView {
            symbol: self.symbol@,
            range: self.range,
            points: self.points@.map_values(|p: PricePoint| p@),
            min: self.min@,
            max: self.max@,
            start: self.start@,
            end: self.end@,
            last_updated_at: self.last_updated_at@,
            status: self.status,
        }
    }
}

impl Clone for SymbolPerformance {
    fn clone(&self) -> (res: Self)
        ensures
            res@ == self@,
    {
        let mut points: Vec<PricePoint> = Vec::new();
        let mut i: usize = 0;
        while i < self.points.len()
            invariant
                0 <= i <= self.points@.len(),
                points@.len() == i as int,
                forall|j: int| 0 <= j < i ==> #[trigger] points@[j]@ == self.points@[j]@,
            decreases self.points@.len() - i,
        {
            points.push(self.points[i].clone());
            i = i + 1;
        }
        proof {
            assert(points@.map_values(|p: PricePoint| p@) =~= self.points@.map_values(
                |p: PricePoint| p@,
            ));
        }
        SymbolPerformance {
            symbol: self.symbol.clone(),
            range: self.range,
            points,
            min: self.min,
            max: self.max,
            start: self.start,
            end: self.end,
            last_updated_at: self.last_updated_at.clone(),
            status: self.status,
        }
    }
}

/// Validated application settings. Only `api_key` matters to this library.
#[derive(Debug, PartialEq, Eq)]
pub struct AppSettings {
    pub provider: AppProvider,
    pub api_key: String,
    pub default_range: TimeRange,
    pub auto_refresh_seconds: u32,
    pub notifications_enabled: bool,
}

pub struct AppSettingsView {
    pub provider: AppProvider,
    pub api_key: Seq<char>,
    pub default_range: TimeRange,
    pub auto_refresh_seconds: u32,
    pub notifications_enabled: bool,
}

impl View for AppSettings {
    type V = AppSettingsView;

    open spec fn view(&self) -> AppSettingsView {
        AppSettingsView {
            provider: self.provider,
            api_key: self.api_key@,
            default_range: self.default_range,
            auto_refresh_seconds: self.auto_refresh_seconds,
            notifications_enabled: self.notifications_enabled,
        }
    }
}

impl Default for AppSettings {
    /// Empty API key, one-month default range, refresh every minute,
    /// notifications off.
    fn default() -> (r: AppSettings)
        ensures
            r@.provider == AppProvider::Twelvedata,
            r@.api_key == Seq::<char>::empty(),
            r@.default_range == TimeRange::OneMonth,
            r@.auto_refresh_seconds == 60u32,
            r@.notifications_enabled == false,
    {
        AppSettings {
            provider: AppProvider::Twelvedata,
            api_key: String::new(),
            default_range: TimeRange::OneMonth,
            auto_refresh_seconds: 60,
            notifications_enabled: false,
        }
    }
}

impl Clone for AppSettings {
    fn clone(&self) -> (res: Self)
        ensures
            res@ == self@,
    {
        AppSettings {
            provider: self.provider,
            api_key: self.api_key.clone(),
            default_range: self.default_range,
            auto_refresh_seconds: self.auto_refresh_seconds,
            notifications_enabled: self.notifications_enabled,
        }
    }
}

/// Unvalidated settings as a caller submits them; `validate_settings` turns
/// this into an [`AppSettings`].
#[derive(Debug, PartialEq, Eq)]
pub struct AppSettingsInput {
    pub provider: AppProvider,
    pub api_key: String,
    pub default_range: TimeRange,
    pub auto_refresh_seconds: u32,
    pub notifications_enabled: bool,
}

pub struct AppSettingsInputView {
    pub provider: AppProvider,
    pub api_key: Seq<char>,
    pub default_range: TimeRange,
    pub auto_refresh_seconds: u32,
    pub notifications_enabled: bool,
}

impl View for AppSettingsInput {
    type V = AppSettingsInputView;

    open spec fn view(&self) -> AppSettingsInputView {
        AppSettingsInputView {
            provider: self.provider,
            api_key: self.api_key@,
            default_range: self.default_range,
            auto_refresh_seconds: self.auto_refresh_seconds,
            notifications_enabled: self.notifications_enabled,
        }
    }
}

impl AppSettingsInput {
    /// Re-opens saved settings for editing, field for field.
    pub fn from_settings(settings: AppSettings) -> (r: AppSettingsInput)
        ensures
            r@.provider == settings@.provider,
            r@.api_key == settings@.api_key,
            r@.default_range == settings@.default_range,
            r@.auto_refresh_seconds == settings@.auto_refresh_seconds,
            r@.notifications_enabled == settings@.notifications_enabled,
    {
        AppSettingsInput {
            provider: settings.provider,
            api_key: settings.api_key,
            default_range: settings.default_range,
            auto_refresh_seconds: settings.auto_refresh_seconds,
            notifications_enabled: settings.notifications_enabled,
        }
    }
}

impl Clone for AppSettingsInput {
    fn clone(&self) -> (res: Self)
        ensures
            res@ == self@,
    {
        AppSettingsInput {
            provider: self.provider,
            api_key: self.api_key.clone(),
            default_range: self.default_range,
            auto_refresh_seconds: self.auto_refresh_seconds,
            notifications_enabled: self.notifications_enabled,
        }
    }
}

/// Result of the connection-test operation: success flag and a message,
/// never a parsed quote.
#[derive(Debug, PartialEq, Eq)]
pub struct ProviderTestResult {
    pub ok: bool,
    pub provider: AppProvider,
    pub message: String,
}

pub struct ProviderTestResultView {
    pub ok: bool,
    pub provider: AppProvider,
    pub message: Seq<char>,
}

impl View for ProviderTestResult {
    type V = ProviderTestResultView;

    open spec fn view(&self) -> ProviderTestResultView {
        ProviderTestResultView { ok: self.ok, provider: self.provider, message: self.message@ }
    }
}

impl Clone for ProviderTestResult {
    fn clone(&self) -> (res: Self)
        ensures
            res@ == self@,
    {
        ProviderTestResult {
            ok: self.ok,
            provider: self.provider,
            message: self.message.clone(),
        }
    }
}

/// Everything the shell needs at startup: settings plus the watchlist.
#[derive(Debug, PartialEq, Eq)]
pub struct BootstrapPayload {
    pub settings: AppSettings,
    pub watchlist: Vec<WatchlistItem>,
}

} // verus!
