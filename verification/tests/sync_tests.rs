use stockwatch::errors::AppError;
use stockwatch::models::{
    Price, QuoteStatus, QuoteSummary, SymbolPerformance, TimeRange, WatchlistItem,
};
use stockwatch::quote_cache::{CachedQuoteEntry, QuoteCacheMap};
use stockwatch::sync::{
    needs_quote_fetch, performance_needs_fetch, refresh_watchlist_quotes, resolve_performance,
    trim_cache_to_watchlist,
};
use stockwatch::timeseries_cache::CachedTimeSeriesEntry;

fn quote(symbol: &str, scaled: i64) -> QuoteSummary {
    QuoteSummary {
        symbol: symbol.to_string(),
        price: Price::from_scaled(scaled),
        change_abs: None,
        change_pct: None,
        currency: Some("USD".to_string()),
        last_updated_at: "2026-02-22 10:00:00".to_string(),
        status: QuoteStatus::Fresh,
        error_code: None,
        error_message: None,
    }
}

fn row(symbol: &str) -> WatchlistItem {
    WatchlistItem { symbol: symbol.to_string(), display_name: None, pinned: None }
}

fn perf(symbol: &str) -> SymbolPerformance {
    SymbolPerformance {
        symbol: symbol.to_string(),
        range: TimeRange::OneWeek,
        points: vec![],
        min: Price::from_scaled(10),
        max: Price::from_scaled(20),
        start: Price::from_scaled(11),
        end: Price::from_scaled(19),
        last_updated_at: "ts".to_string(),
        status: QuoteStatus::Fresh,
    }
}

#[test]
fn refresh_serves_fresh_cache_without_fetching() {
    let now = 1000;
    let mut cache = QuoteCacheMap::new();
    cache.insert(
        "AAPL".to_string(),
        CachedQuoteEntry { quote: quote("AAPL", 100), cached_at: now - 10 },
    );
    let wl = vec![row("AAPL")];
    assert!(!needs_quote_fetch(&cache, &"AAPL".to_string(), now));

    let outcomes: Vec<Option<Result<QuoteSummary, AppError>>> = vec![None];
    let (quotes, pruned) = refresh_watchlist_quotes(&wl, cache, &outcomes, now);
    assert_eq!(quotes.len(), 1);
    assert_eq!(quotes[0].status, QuoteStatus::Fresh);
    assert_eq!(quotes[0].price, Price::from_scaled(100));
    assert!(quotes[0].error_code.is_none());

    // Second run against the pruned cache: still no fetch, identical result.
    assert!(!needs_quote_fetch(&pruned, &"AAPL".to_string(), now));
    let (quotes2, _) = refresh_watchlist_quotes(&wl, pruned, &outcomes, now);
    assert_eq!(quotes2, quotes);
}

#[test]
fn refresh_falls_back_with_precedence() {
    let now = 1000;
    let mut cache = QuoteCacheMap::new();
    // Stale entry for AAPL (older than the 60 s window); nothing for NEWB.
    cache.insert(
        "AAPL".to_string(),
        CachedQuoteEntry { quote: quote("AAPL", 100), cached_at: now - 300 },
    );
    let wl = vec![row("AAPL"), row("NEWB")];
    let failure = AppError::provider("network_timeout", "timed out");
    let outcomes: Vec<Option<Result<QuoteSummary, AppError>>> =
        vec![Some(Err(failure.clone())), Some(Err(failure))];

    let (quotes, pruned) = refresh_watchlist_quotes(&wl, cache, &outcomes, now);
    assert_eq!(quotes.len(), 2);
    // Stale cache entry: served Stale, with the new error attached.
    assert_eq!(quotes[0].status, QuoteStatus::Stale);
    assert_eq!(quotes[0].price, Price::from_scaled(100));
    assert_eq!(quotes[0].error_code.as_deref(), Some("network_timeout"));
    // No prior entry: synthetic zero-price Error snapshot.
    assert_eq!(quotes[1].status, QuoteStatus::Error);
    assert_eq!(quotes[1].price, Price::from_scaled(0));
    assert_eq!(quotes[1].error_code.as_deref(), Some("network_timeout"));
    // The failed-but-cached symbol keeps its entry; the never-cached one has none.
    assert!(pruned.get(&"AAPL".to_string()).is_some());
    assert!(pruned.get(&"NEWB".to_string()).is_none());
}

#[test]
fn refresh_prunes_cache_to_watchlist() {
    let now = 1000;
    let mut cache = QuoteCacheMap::new();
    cache.insert(
        "GONE".to_string(),
        CachedQuoteEntry { quote: quote("GONE", 5), cached_at: now },
    );
    cache.insert(
        "AAPL".to_string(),
        CachedQuoteEntry { quote: quote("AAPL", 100), cached_at: now - 300 },
    );
    let wl = vec![row("AAPL"), row("MSFT")];
    let outcomes: Vec<Option<Result<QuoteSummary, AppError>>> = vec![
        Some(Err(AppError::provider("network_error", "down"))),
        Some(Ok(quote("MSFT", 777))),
    ];

    let (quotes, pruned) = refresh_watchlist_quotes(&wl, cache, &outcomes, now);
    assert_eq!(quotes.len(), 2);
    assert_eq!(quotes[1].status, QuoteStatus::Fresh);
    assert_eq!(quotes[1].price, Price::from_scaled(777));
    // Key set after pruning: exactly the watchlist symbols that had or got
    // an entry; the symbol that left the watchlist is gone.
    assert!(pruned.get(&"AAPL".to_string()).is_some());
    let msft = pruned.get(&"MSFT".to_string()).unwrap();
    assert_eq!(msft.cached_at, now);
    assert_eq!(msft.quote.price, Price::from_scaled(777));
    assert!(pruned.get(&"GONE".to_string()).is_none());
    assert_eq!(pruned.entries.len(), 2);
}

#[test]
fn trim_keeps_only_watchlist_symbols() {
    let mut cache = QuoteCacheMap::new();
    cache.insert("A".to_string(), CachedQuoteEntry { quote: quote("A", 1), cached_at: 1 });
    cache.insert("B".to_string(), CachedQuoteEntry { quote: quote("B", 2), cached_at: 2 });
    trim_cache_to_watchlist(&mut cache, &vec![row("B")]);
    assert!(cache.get(&"A".to_string()).is_none());
    assert!(cache.get(&"B".to_string()).is_some());
    assert_eq!(cache.entries.len(), 1);
}

#[test]
fn performance_fetch_decision() {
    let fresh = Some(CachedTimeSeriesEntry { performance: perf("AAPL"), cached_at: 900 });
    assert!(!performance_needs_fetch(&fresh, false, 1000));
    assert!(performance_needs_fetch(&fresh, true, 1000));
    assert!(performance_needs_fetch(&fresh, false, 1300));
    assert!(performance_needs_fetch(&None, false, 1000));
}

#[test]
fn performance_resolution_paths() {
    let now = 1000;
    let cached = Some(CachedTimeSeriesEntry { performance: perf("AAPL"), cached_at: 900 });

    // Fresh slot, no forced refresh: served Fresh from cache.
    let served = resolve_performance(&cached, None, false, now).unwrap();
    assert_eq!(served.status, QuoteStatus::Fresh);
    assert_eq!(served.end, perf("AAPL").end);

    // Successful fetch: served Fresh from the fetched snapshot.
    let fetched = perf("AAPL");
    let served = resolve_performance(&cached, Some(Ok(fetched)), true, now).unwrap();
    assert_eq!(served.status, QuoteStatus::Fresh);

    // Failed fetch with a prior slot: served Stale, error absorbed.
    let failure = AppError::provider("network_timeout", "timed out");
    let served =
        resolve_performance(&cached, Some(Err(failure.clone())), true, now).unwrap();
    assert_eq!(served.status, QuoteStatus::Stale);

    // Failed fetch with no prior slot: the error propagates.
    let err = resolve_performance(&None, Some(Err(failure)), false, now).unwrap_err();
    assert_eq!(err.code, "network_timeout");
}
