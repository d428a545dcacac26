use stockwatch::models::{Price, PricePoint, QuoteStatus, QuoteSummary, SymbolPerformance, TimeRange};
use stockwatch::quote_cache::{
    is_cache_fresh, to_cached_entry, to_stale_quote, CachedQuoteEntry, QuoteCacheMap,
    QuoteCacheStore,
};
use stockwatch::errors::AppError;
use stockwatch::text::u64_to_dec_string;
use stockwatch::timeseries_cache::{
    cache_file_name, is_timeseries_cache_fresh, to_stale_performance, CachedTimeSeriesEntry,
    TimeSeriesCacheStore,
};

fn sample_quote() -> QuoteSummary {
    QuoteSummary {
        symbol: "AAPL".to_string(),
        price: Price::from_scaled(1_234_000),
        change_abs: Some(Price::from_scaled(10_000)),
        change_pct: Some(Price::from_scaled(8_000)),
        currency: Some("USD".to_string()),
        last_updated_at: "1730000000".to_string(),
        status: QuoteStatus::Fresh,
        error_code: None,
        error_message: None,
    }
}

fn sample_performance() -> SymbolPerformance {
    SymbolPerformance {
        symbol: "AAPL".to_string(),
        range: TimeRange::OneWeek,
        points: vec![],
        min: Price::from_scaled(1_800_000),
        max: Price::from_scaled(2_000_000),
        start: Price::from_scaled(1_810_000),
        end: Price::from_scaled(1_980_000),
        last_updated_at: "2026-02-22 10:00:00".to_string(),
        status: QuoteStatus::Fresh,
    }
}

#[test]
fn cache_store_roundtrip() {
    let store = QuoteCacheStore::new();
    let mut cache = QuoteCacheMap::new();
    cache.insert(
        "AAPL".to_string(),
        CachedQuoteEntry { quote: sample_quote(), cached_at: 100 },
    );

    let content = store.render_content(&cache);
    let loaded = store.parse_content(&Some(content)).unwrap();
    assert_eq!(loaded.entries.len(), 1);
    assert!(loaded.get(&"AAPL".to_string()).is_some());
    let entry = loaded.get(&"AAPL".to_string()).unwrap();
    assert_eq!(entry.cached_at, 100);
    assert_eq!(entry.quote, sample_quote());
}

#[test]
fn ttl_logic_marks_only_recent_entries_as_fresh() {
    assert!(is_cache_fresh(100, 130));
    assert!(!is_cache_fresh(100, 161));
}

#[test]
fn quote_ttl_boundary_and_backward_clock() {
    assert!(is_cache_fresh(100, 160));
    assert!(!is_cache_fresh(100, 161));
    assert!(is_cache_fresh(200, 100));
}

#[test]
fn timeseries_cache_roundtrip() {
    let store = TimeSeriesCacheStore::new();
    let mut perf = sample_performance();
    perf.points = vec![
        PricePoint { ts: "2026-02-19 10:00:00".to_string(), close: Price::from_scaled(2_000_000) },
        PricePoint { ts: "2026-02-20 10:00:00".to_string(), close: Price::from_scaled(1_990_000) },
    ];

    let content = store.render_content(&perf, 100);
    let loaded = store.parse_content(&Some(content)).unwrap();
    assert!(loaded.is_some());
    let entry = loaded.unwrap();
    assert_eq!(entry.cached_at, 100);
    assert_eq!(entry.performance, perf);
}

#[test]
fn timeseries_ttl_logic() {
    assert!(is_timeseries_cache_fresh(100, 350));
    assert!(!is_timeseries_cache_fresh(100, 401));
}

#[test]
fn timeseries_ttl_boundary() {
    assert!(is_timeseries_cache_fresh(100, 400));
    assert!(!is_timeseries_cache_fresh(100, 401));
}

#[test]
fn missing_or_blank_cache_files_load_empty() {
    let qstore = QuoteCacheStore::new();
    assert_eq!(qstore.parse_content(&None).unwrap().entries.len(), 0);
    assert_eq!(qstore.parse_content(&Some(Vec::new())).unwrap().entries.len(), 0);
    assert_eq!(qstore.parse_content(&Some(b"  \n\t ".to_vec())).unwrap().entries.len(), 0);

    let tstore = TimeSeriesCacheStore::new();
    assert!(tstore.parse_content(&None).unwrap().is_none());
    assert!(tstore.parse_content(&Some(Vec::new())).unwrap().is_none());
    assert!(tstore.parse_content(&Some(b" \r\n".to_vec())).unwrap().is_none());
}

#[test]
fn corrupt_cache_files_fail_with_persistence_codes() {
    let qstore = QuoteCacheStore::new();
    let err = qstore.parse_content(&Some(b"not a cache".to_vec())).unwrap_err();
    assert_eq!(err.code, "quote_cache_parse_failed");

    let tstore = TimeSeriesCacheStore::new();
    let err = tstore.parse_content(&Some(b"garbage".to_vec())).unwrap_err();
    assert_eq!(err.code, "timeseries_cache_parse_failed");
}

#[test]
fn quote_roundtrip_keeps_unicode_strings() {
    let store = QuoteCacheStore::new();
    let mut cache = QuoteCacheMap::new();
    let mut quote = sample_quote();
    quote.currency = Some("€ / ¥".to_string());
    quote.error_code = Some("rate_limited".to_string());
    quote.error_message = Some("café läuft über".to_string());
    quote.status = QuoteStatus::Stale;
    cache.insert("SAP".to_string(), CachedQuoteEntry { quote: quote.clone(), cached_at: 7 });

    let content = store.render_content(&cache);
    let loaded = store.parse_content(&Some(content)).unwrap();
    let entry = loaded.get(&"SAP".to_string()).unwrap();
    assert_eq!(entry.quote, quote);
}

#[test]
fn stale_quote_carries_the_new_error() {
    let entry = to_cached_entry(sample_quote(), 555);
    assert_eq!(entry.cached_at, 555);
    let err = AppError::provider("rate_limited", "API credits exhausted");
    let stale = to_stale_quote(&entry, &err);
    assert_eq!(stale.status, QuoteStatus::Stale);
    assert_eq!(stale.error_code.as_deref(), Some("rate_limited"));
    assert_eq!(stale.error_message.as_deref(), Some("API credits exhausted"));
    assert_eq!(stale.price, sample_quote().price);
}

#[test]
fn stale_performance_only_downgrades_status() {
    let entry = CachedTimeSeriesEntry { performance: sample_performance(), cached_at: 9 };
    let stale = to_stale_performance(&entry);
    assert_eq!(stale.status, QuoteStatus::Stale);
    assert_eq!(stale.points, sample_performance().points);
    assert_eq!(stale.end, sample_performance().end);
}

#[test]
fn cache_file_names_are_deterministic() {
    assert_eq!(cache_file_name("AAPL", TimeRange::OneWeek), "AAPL-1W.bin");
    assert_eq!(cache_file_name("BRK.B", TimeRange::OneYear), "BRK.B-1Y.bin");
    assert_eq!(QuoteCacheStore::ttl_seconds(), 60);
    assert_eq!(TimeSeriesCacheStore::ttl_seconds(), 300);
}

#[test]
fn decimal_rendering_matches() {
    assert_eq!(u64_to_dec_string(0), "0");
    assert_eq!(u64_to_dec_string(12345), "12345");
    assert_eq!(u64_to_dec_string(1730000000), "1730000000");
}
