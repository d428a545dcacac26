//! The synchronization orchestrator's decision core. The shell performs
//! the provider exchanges; these functions decide, per watchlist item,
//! whether the cache serves, how a fetch outcome is folded into the served
//! snapshots and the cache, and how the cache is pruned to the watchlist.

use vstd::prelude::*;

use crate::errors::AppError;
use crate::models::{
    Price, QuoteStatus, QuoteSummary, QuoteSummaryView, SymbolPerformance, SymbolPerformanceView,
    WatchlistItem,
};
use crate::quote_cache::{
    entries_map, fresh_at, has_key, is_cache_fresh, lemma_entries_map_props, to_cached_entry,
    to_stale_quote, unique_keys, CachedQuoteEntry, CachedQuoteEntryView, QuoteCacheMap,
    QUOTE_CACHE_TTL_SECONDS,
};
use crate::text::{dec_digits, u64_to_dec_string};
use crate::timeseries_cache::{
    is_timeseries_cache_fresh, to_stale_performance, CachedTimeSeriesEntry,
    TIMESERIES_CACHE_TTL_SECONDS,
};
use crate::watchlist::wl_has_symbol;

verus! {

/// The symbols of a watchlist, as a set.
pub open spec fn wl_symbol_set(wl: Seq<WatchlistItem>) -> Set<Seq<char>> {
    Set::new(|k: Seq<char>| wl_has_symbol(wl, k))
}

/// No two watchlist rows share a symbol.
pub open spec fn distinct_symbols(wl: Seq<WatchlistItem>) -> bool {
    forall|i: int, j: int|
        0 <= i < j < wl.len() ==> (#[trigger] wl[i]).symbol@ != (#[trigger] wl[j]).symbol@
}

/// The cache holds an entry for `sym` that is fresh at `now`.
pub open spec fn spec_has_fresh(
    m: Map<Seq<char>, CachedQuoteEntryView>,
    sym: Seq<char>,
    now: u64,
) -> bool {
    m.contains_key(sym) && fresh_at(m[sym].cached_at, now, QUOTE_CACHE_TTL_SECONDS)
}

/// True exactly when serving `symbol` requires a provider fetch: no cache
/// entry, or one older than the freshness window.
pub fn needs_quote_fetch(cache: &QuoteCacheMap, symbol: &String, now: u64) -> (r: bool)
    requires
        cache.wf(),
    ensures
        r == !spec_has_fresh(cache@, symbol@, now),
{
    match cache.get(symbol) {
        Some(e) => !is_cache_fresh(e.cached_at, now),
        None => true,
    }
}

/// A snapshot served as fresh: status forced, stale error fields cleared.
pub open spec fn fresh_served(q: QuoteSummaryView) -> QuoteSummaryView {
    QuoteSummaryView { status: QuoteStatus::Fresh, error_code: None, error_message: None, ..q }
}

/// A snapshot served stale, carrying the failure that forced the fallback.
pub open spec fn stale_served(q: QuoteSummaryView, e: AppError) -> QuoteSummaryView {
    QuoteSummaryView {
        status: QuoteStatus::Stale,
        error_code: Some(e@.code),
        error_message: Some(e@.message),
        ..q
    }
}

/// The synthetic zero-price snapshot served when a symbol has no cache
/// entry to fall back to.
pub open spec fn error_quote_view(sym: Seq<char>, e: AppError, now: u64) -> QuoteSummaryView {
    QuoteSummaryView {
        symbol: sym,
        price: 0,
        change_abs: None,
        change_pct: None,
        currency: None,
        last_updated_at: dec_digits(now as nat),
        status: QuoteStatus::Error,
        error_code: Some(e@.code),
        error_message: Some(e@.message),
    }
}

/// The snapshot served for one symbol, given the cache loaded at the start
/// of the batch and the outcome of the symbol's fetch (`None` when the
/// cache was fresh and no fetch was made).
pub open spec fn served_for(
    cache: Map<Seq<char>, CachedQuoteEntryView>,
    sym: Seq<char>,
    outcome: Option<Result<QuoteSummary, AppError>>,
    now: u64,
) -> QuoteSummaryView {
    if spec_has_fresh(cache, sym, now) {
        fresh_served(cache[sym].quote)
    } else {
        match outcome {
            Some(o) => match o {
                Ok(q) => fresh_served(q@),
                Err(e) => if cache.contains_key(sym) {
                    stale_served(cache[sym].quote, e)
                } else {
                    error_quote_view(sym, e, now)
                },
            },
            None => fresh_served(cache[sym].quote),
        }
    }
}

/// The cache after folding in one symbol's outcome: a successful fetch
/// overwrites the entry with the fresh snapshot stamped `now`; anything
/// else leaves the cache alone.
pub open spec fn cache_after(
    cache: Map<Seq<char>, CachedQuoteEntryView>,
    sym: Seq<char>,
    outcome: Option<Result<QuoteSummary, AppError>>,
    now: u64,
) -> Map<Seq<char>, CachedQuoteEntryView> {
    match outcome {
        Some(o) => match o {
            Ok(q) => cache.insert(
                sym,
                CachedQuoteEntryView { quote: fresh_served(q@), cached_at: now },
            ),
            Err(_) => cache,
        },
        None => cache,
    }
}

/// The cache after folding in the first `i` watchlist items.
pub open spec fn cache_after_all(
    cache: Map<Seq<char>, CachedQuoteEntryView>,
    wl: Seq<WatchlistItem>,
    outcomes: Seq<Option<Result<QuoteSummary, AppError>>>,
    now: u64,
    i: int,
) -> Map<Seq<char>, CachedQuoteEntryView>
    decreases i,
{
    if i <= 0 {
        cache
    } else {
        cache_after(
            cache_after_all(cache, wl, outcomes, now, i - 1),
            wl[i - 1].symbol@,
            outcomes[i - 1],
            now,
        )
    }
}

proof fn lemma_cache_after_all_other(
    cache: Map<Seq<char>, CachedQuoteEntryView>,
    wl: Seq<WatchlistItem>,
    outcomes: Seq<Option<Result<QuoteSummary, AppError>>>,
    now: u64,
    i: int,
    k: Seq<char>,
)
    requires
        0 <= i <= wl.len(),
        i <= outcomes.len(),
        forall|j: int| 0 <= j < i ==> (#[trigger] wl[j]).symbol@ != k,
    ensures
        cache_after_all(cache, wl, outcomes, now, i).contains_key(k) == cache.contains_key(k),
        cache.contains_key(k) ==> cache_after_all(cache, wl, outcomes, now, i)[k] == cache[k],
    decreases i,
{
    if i > 0 {
        lemma_cache_after_all_other(cache, wl, outcomes, now, i - 1, k);
        assert(wl[i - 1].symbol@ != k);
    }
}

proof fn lemma_cache_after_all_monotone(
    cache: Map<Seq<char>, CachedQuoteEntryView>,
    wl: Seq<WatchlistItem>,
    outcomes: Seq<Option<Result<QuoteSummary, AppError>>>,
    now: u64,
    i: int,
    i2: int,
    k: Seq<char>,
)
    requires
        0 <= i <= i2 <= wl.len(),
        i2 <= outcomes.len(),
        cache_after_all(cache, wl, outcomes, now, i).contains_key(k),
    ensures
        cache_after_all(cache, wl, outcomes, now, i2).contains_key(k),
    decreases i2 - i,
{
    if i < i2 {
        lemma_cache_after_all_monotone(cache, wl, outcomes, now, i, i2 - 1, k);
    }
}

/// Refreshes the whole watchlist from the loaded cache and the per-item
/// fetch outcomes (`outcomes[i]` is `None` exactly when item `i` was fresh
/// and no fetch was made). Serves one snapshot per item in watchlist
/// order, folds successful fetches into the cache, and prunes the cache to
/// exactly the watchlist's symbols before it is handed back for
/// persisting. One item's failure never disturbs another's.
pub fn refresh_watchlist_quotes(
    watchlist: &Vec<WatchlistItem>,
    cache: QuoteCacheMap,
    outcomes: &Vec<Option<Result<QuoteSummary, AppError>>>,
    now: u64,
) -> (r: (Vec<QuoteSummary>, QuoteCacheMap))
    requires
        cache.wf(),
        outcomes@.len() == watchlist@.len(),
        distinct_symbols(watchlist@),
        forall|i: int|
            0 <= i < watchlist@.len() ==> ((#[trigger] outcomes@[i]) is Some <==> !spec_has_fresh(
                cache@,
                watchlist@[i].symbol@,
                now,
            )),
    ensures
        r.0@.len() == watchlist@.len(),
        forall|i: int|
            0 <= i < watchlist@.len() ==> (#[trigger] r.0@[i])@ == served_for(
                cache@,
                watchlist@[i].symbol@,
                outcomes@[i],
                now,
            ),
        r.1.wf(),
        r.1@ == cache_after_all(
            cache@,
            watchlist@,
            outcomes@,
            now,
            watchlist@.len() as int,
        ).restrict(wl_symbol_set(watchlist@)),
{
    let ghost c0 = cache@;
    let ghost wl = watchlist@;
    let ghost outs = outcomes@;
    let mut cur = cache;
    let mut quotes: Vec<QuoteSummary> = Vec::new();
    let n = watchlist.len();
    let mut i: usize = 0;
    while i < n
        invariant
            0 <= i <= n,
            n == wl.len(),
            outs.len() == wl.len(),
            wl == watchlist@,
            outs == outcomes@,
            distinct_symbols(wl),
            forall|j: int|
                0 <= j < wl.len() ==> ((#[trigger] outs[j]) is Some <==> !spec_has_fresh(
                    c0,
                    wl[j].symbol@,
                    now,
                )),
            cur.wf(),
            cur@ == cache_after_all(c0, wl, outs, now, i as int),
            quotes@.len() == i as int,
            forall|j: int|
                0 <= j < i ==> (#[trigger] quotes@[j])@ == served_for(
                    c0,
                    wl[j].symbol@,
                    outs[j],
                    now,
                ),
        decreases n - i,
    {
        let item = &watchlist[i];
        let ghost sym = item.symbol@;
        proof {
            assert(forall|j: int| 0 <= j < i ==> (#[trigger] wl[j]).symbol@ != sym);
            lemma_cache_after_all_other(c0, wl, outs, now, i as int, sym);
        }
        match &outcomes[i] {
            None => {
                match cur.get(&item.symbol) {
                    Some(entry) => {
                        let mut q = entry.quote.clone();
                        q.status = QuoteStatus::Fresh;
                        q.error_code = None;
                        q.error_message = None;
                        quotes.push(q);
                    },
                    None => {
                        proof {
                            assert(spec_has_fresh(c0, sym, now));
                            assert(false);
                        }
                    },
                }
            },
            Some(Ok(fetched)) => {
                let mut q = fetched.clone();
                q.status = QuoteStatus::Fresh;
                q.error_code = None;
                q.error_message = None;
                cur.insert(item.symbol.clone(), to_cached_entry(q.clone(), now));
                quotes.push(q);
            },
            Some(Err(err)) => {
                match cur.get(&item.symbol) {
                    Some(entry) => {
                        let stale = to_stale_quote(entry, err);
                        quotes.push(stale);
                    },
                    None => {
                        let q = QuoteSummary {
                            symbol: item.symbol.clone(),
                            price: Price::zero(),
                            change_abs: None,
                            change_pct: None,
                            currency: None,
                            last_updated_at: u64_to_dec_string(now),
                            status: QuoteStatus::Error,
                            error_code: Some(err.code.clone()),
                            error_message: Some(err.message.clone()),
                        };
                        quotes.push(q);
                    },
                }
            },
        }
        i = i + 1;
    }
    trim_cache_to_watchlist(&mut cur, watchlist);
    (quotes, cur)
}

/// Prunes the cache to exactly the watchlist's symbol set: every entry for
/// a symbol no longer on the watchlist leaves; nothing else changes.
pub fn trim_cache_to_watchlist(cache: &mut QuoteCacheMap, watchlist: &Vec<WatchlistItem>)
    requires
        old(cache).wf(),
    ensures
        final(cache).wf(),
        final(cache)@ == old(cache)@.restrict(wl_symbol_set(watchlist@)),
{
    let ghost orig = cache.entries@;
    let mut kept: Vec<(String, CachedQuoteEntry)> = Vec::new();
    let n = cache.entries.len();
    let mut i: usize = 0;
    while i < n
        invariant
            0 <= i <= n,
            n == orig.len(),
            cache.entries@ == orig,
            unique_keys(orig),
            unique_keys(kept@),
            forall|j: int|
                0 <= j < kept@.len() ==> (exists|j2: int|
                    0 <= j2 < i && (#[trigger] orig[j2]).0@ == (#[trigger] kept@[j]).0@
                        && orig[j2].1@ == kept@[j].1@) && wl_has_symbol(
                    watchlist@,
                    kept@[j].0@,
                ),
            forall|j2: int|
                0 <= j2 < i && wl_has_symbol(watchlist@, (#[trigger] orig[j2]).0@) ==> has_key(
                    kept@,
                    orig[j2].0@,
                ),
        decreases n - i,
    {
        let pair = &cache.entries[i];
        if crate::watchlist::watchlist_contains(watchlist, &pair.0) {
            let ghost prev = kept@;
            kept.push((pair.0.clone(), pair.1.clone()));
            proof {
                assert(kept@.drop_last() =~= prev);
                assert(kept@.last().0@ == orig[i as int].0@);
                assert(kept@.last().1@ == orig[i as int].1@);
                assert forall|a: int, b: int| 0 <= a < b < kept@.len() implies (
                #[trigger] kept@[a]).0@ != (#[trigger] kept@[b]).0@ by {
                    if b == kept@.len() - 1 {
                        assert(kept@[a] == prev[a]);
                        let j2 = choose|j2: int|
                            0 <= j2 < i && (#[trigger] orig[j2]).0@ == prev[a].0@ && orig[
                                j2
                            ].1@ == prev[a].1@;
                        assert(orig[j2].0@ != orig[i as int].0@);
                    } else {
                        assert(kept@[a] == prev[a] && kept@[b] == prev[b]);
                    }
                }
                assert(has_key(kept@, orig[i as int].0@)) by {
                    assert(kept@[kept@.len() - 1].0@ == orig[i as int].0@);
                }
            }
        } else {
            proof {
                assert(!wl_has_symbol(watchlist@, orig[i as int].0@));
            }
        }
        i = i + 1;
    }
    cache.entries = kept;
    proof {
        lemma_entries_map_props(orig);
        lemma_entries_map_props(cache.entries@);
        let kv = cache.entries@;
        assert(entries_map(kv) =~= entries_map(orig).restrict(wl_symbol_set(watchlist@))) by {
            assert forall|k: Seq<char>| #![auto] entries_map(kv).contains_key(k)
                == entries_map(orig).restrict(wl_symbol_set(watchlist@)).contains_key(k) by {
                if entries_map(kv).contains_key(k) {
                    let j = choose|j: int| 0 <= j < kv.len() && (#[trigger] kv[j]).0@ == k;
                    let j2 = choose|j2: int|
                        0 <= j2 < orig.len() && (#[trigger] orig[j2]).0@ == kv[j].0@ && orig[
                            j2
                        ].1@ == kv[j].1@;
                    assert(orig[j2].0@ == k);
                    assert(wl_has_symbol(watchlist@, k));
                }
                if entries_map(orig).restrict(wl_symbol_set(watchlist@)).contains_key(k) {
                    let j2 = choose|j2: int|
                        0 <= j2 < orig.len() && (#[trigger] orig[j2]).0@ == k;
                    assert(wl_has_symbol(watchlist@, orig[j2].0@));
                    assert(has_key(kv, k));
                }
            }
            assert forall|k: Seq<char>| #![auto] entries_map(kv).contains_key(k) implies
                entries_map(kv)[k] == entries_map(orig).restrict(wl_symbol_set(watchlist@))[k] by {
                let j = choose|j: int| 0 <= j < kv.len() && (#[trigger] kv[j]).0@ == k;
                let j2 = choose|j2: int|
                    0 <= j2 < orig.len() && (#[trigger] orig[j2]).0@ == kv[j].0@ && orig[
                        j2
                    ].1@ == kv[j].1@;
                assert(entries_map(kv)[kv[j].0@] == kv[j].1@);
                assert(entries_map(orig)[orig[j2].0@] == orig[j2].1@);
            }
        }
    }
}

/// The series freshness decision: a fetch is needed when forced, when no
/// entry exists, or when the entry is older than the series window.
pub open spec fn spec_perf_needs_fetch(
    cached: Option<CachedTimeSeriesEntry>,
    force_refresh: bool,
    now: u64,
) -> bool {
    force_refresh || match cached {
        None => true,
        Some(e) => !fresh_at(e.cached_at, now, TIMESERIES_CACHE_TTL_SECONDS),
    }
}

/// Decides whether a performance fetch is needed.
pub fn performance_needs_fetch(
    cached: &Option<CachedTimeSeriesEntry>,
    force_refresh: bool,
    now: u64,
) -> (r: bool)
    ensures
        r == spec_perf_needs_fetch(*cached, force_refresh, now),
{
    if force_refresh {
        return true;
    }
    match cached {
        None => true,
        Some(e) => !is_timeseries_cache_fresh(e.cached_at, now),
    }
}

/// Resolves a performance request from the cached slot and the fetch
/// outcome (`None` exactly when the slot was fresh and not forced): a
/// fresh slot serves as `Fresh`; a successful fetch serves as `Fresh` (the
/// shell persists exactly that snapshot); a failed fetch falls back to any
/// prior slot downgraded to `Stale`, silently absorbing the error, and
/// propagates the error only when there is nothing to fall back to.
pub fn resolve_performance(
    cached: &Option<CachedTimeSeriesEntry>,
    outcome: Option<Result<SymbolPerformance, AppError>>,
    force_refresh: bool,
    now: u64,
) -> (r: Result<SymbolPerformance, AppError>)
    requires
        outcome is Some <==> spec_perf_needs_fetch(*cached, force_refresh, now),
    ensures
        match outcome {
            None => r matches Ok(p) && (cached matches Some(e) && p@ == (SymbolPerformanceView {
                status: QuoteStatus::Fresh,
                ..e@.performance
            })),
            Some(o) => match o {
                Ok(fetched) => r matches Ok(p) && p@ == (SymbolPerformanceView {
                    status: QuoteStatus::Fresh,
                    ..fetched@
                }),
                Err(e) => match cached {
                    Some(entry) => r matches Ok(p) && p@ == (SymbolPerformanceView {
                        status: QuoteStatus::Stale,
                        ..entry@.performance
                    }),
                    None => r matches Err(e2) && e2@ == e@,
                },
            },
        },
{
    match outcome {
        None => {
            match cached {
                Some(entry) => {
                    let mut p = entry.performance.clone();
                    p.status = QuoteStatus::Fresh;
                    Ok(p)
                },
                None => {
                    proof {
                        assert(false);
                    }
                    vstd::pervasive::unreached()
                },
            }
        },
        Some(Ok(fetched)) => {
            let mut p = fetched;
            p.status = QuoteStatus::Fresh;
            Ok(p)
        },
        Some(Err(e)) => {
            match cached {
                Some(entry) => Ok(to_stale_performance(entry)),
                None => Err(e),
            }
        },
    }
}

/// Law: with a cache that is fresh for every watchlist symbol, a batch
/// refresh makes no fetch, and running it twice in immediate succession
/// serves identical snapshots both times while the second run again makes
/// no fetch.
pub proof fn lemma_refresh_idempotent(
    c0: Map<Seq<char>, CachedQuoteEntryView>,
    wl: Seq<WatchlistItem>,
    now: u64,
)
    requires
        distinct_symbols(wl),
        forall|i: int|
            0 <= i < wl.len() ==> spec_has_fresh(c0, (#[trigger] wl[i]).symbol@, now),
    ensures
        ({
            let nones = Seq::new(wl.len(), |i: int| None::<Result<QuoteSummary, AppError>>);
            let c1 = cache_after_all(c0, wl, nones, now, wl.len() as int).restrict(
                wl_symbol_set(wl),
            );
            &&& (forall|i: int|
                0 <= i < wl.len() ==> spec_has_fresh(c1, (#[trigger] wl[i]).symbol@, now))
            &&& (forall|i: int|
                0 <= i < wl.len() ==> served_for(c1, (#[trigger] wl[i]).symbol@, None, now)
                    == served_for(c0, wl[i].symbol@, None, now))
        }),
{
    let nones = Seq::new(wl.len(), |i: int| None::<Result<QuoteSummary, AppError>>);
    lemma_cache_after_all_nones(c0, wl, nones, now, wl.len() as int);
    let c1 = cache_after_all(c0, wl, nones, now, wl.len() as int).restrict(wl_symbol_set(wl));
    assert forall|i: int| 0 <= i < wl.len() implies spec_has_fresh(
        c1,
        (#[trigger] wl[i]).symbol@,
        now,
    ) && served_for(c1, wl[i].symbol@, None, now) == served_for(c0, wl[i].symbol@, None, now) by {
        let sym = wl[i].symbol@;
        assert(wl_has_symbol(wl, sym));
        assert(wl_symbol_set(wl).contains(sym));
        assert(c1.contains_key(sym));
        assert(c1[sym] == c0[sym]);
    }
}

proof fn lemma_cache_after_all_nones(
    c0: Map<Seq<char>, CachedQuoteEntryView>,
    wl: Seq<WatchlistItem>,
    nones: Seq<Option<Result<QuoteSummary, AppError>>>,
    now: u64,
    i: int,
)
    requires
        0 <= i <= wl.len(),
        nones.len() == wl.len(),
        forall|j: int| 0 <= j < nones.len() ==> (#[trigger] nones[j]) is None,
    ensures
        cache_after_all(c0, wl, nones, now, i) == c0,
    decreases i,
{
    if i > 0 {
        lemma_cache_after_all_nones(c0, wl, nones, now, i - 1);
        assert(nones[i - 1] is None);
    }
}

/// Law: when the cache is stale or missing for a symbol and the provider
/// call fails, the served snapshot keeps the fallback precedence: a stale
/// cache entry is served as `Stale` carrying the new error's code; with no
/// entry at all, a synthetic zero-price snapshot is served as `Error`
/// carrying the code.
pub proof fn lemma_fallback_precedence(
    cache: Map<Seq<char>, CachedQuoteEntryView>,
    sym: Seq<char>,
    e: AppError,
    now: u64,
)
    requires
        !spec_has_fresh(cache, sym, now),
    ensures
        cache.contains_key(sym) ==> ({
            let q = served_for(cache, sym, Some(Err(e)), now);
            q.status == QuoteStatus::Stale && q.error_code == Some(e@.code) && q.error_message
                == Some(e@.message) && q.price == cache[sym].quote.price && q.symbol
                == cache[sym].quote.symbol
        }),
        !cache.contains_key(sym) ==> ({
            let q = served_for(cache, sym, Some(Err(e)), now);
            q.status == QuoteStatus::Error && q.price == 0 && q.error_code == Some(e@.code)
                && q.error_message == Some(e@.message) && q.symbol == sym
        }),
{
}

/// Law: after a batch refresh the pruned cache's key set is exactly the
/// watchlist's symbol set, provided every watchlist symbol either already
/// had a cache entry or was fetched successfully; symbols whose fetch
/// failed keep their prior entries.
pub proof fn lemma_pruned_cache_matches_watchlist(
    c0: Map<Seq<char>, CachedQuoteEntryView>,
    wl: Seq<WatchlistItem>,
    outcomes: Seq<Option<Result<QuoteSummary, AppError>>>,
    now: u64,
)
    requires
        outcomes.len() == wl.len(),
        forall|i: int|
            0 <= i < wl.len() ==> (c0.contains_key((#[trigger] wl[i]).symbol@) || (outcomes[i]
                matches Some(o) && o is Ok)),
    ensures
        ({
            let pruned = cache_after_all(c0, wl, outcomes, now, wl.len() as int).restrict(
                wl_symbol_set(wl),
            );
            forall|k: Seq<char>|
                #[trigger] pruned.contains_key(k) <==> wl_symbol_set(wl).contains(k)
        }),
{
    let full = cache_after_all(c0, wl, outcomes, now, wl.len() as int);
    let pruned = full.restrict(wl_symbol_set(wl));
    assert forall|k: Seq<char>| #[trigger] pruned.contains_key(k) <==> wl_symbol_set(
        wl,
    ).contains(k) by {
        if wl_symbol_set(wl).contains(k) {
            assert(wl_has_symbol(wl, k));
            let i = choose|i: int| 0 <= i < wl.len() && (#[trigger] wl[i]).symbol@ == k;
            if c0.contains_key(k) {
                lemma_cache_after_all_monotone(c0, wl, outcomes, now, 0, wl.len() as int, k);
            } else {
                assert(outcomes[i] matches Some(o) && o is Ok);
                assert(cache_after_all(c0, wl, outcomes, now, i + 1).contains_key(k));
                lemma_cache_after_all_monotone(
                    c0,
                    wl,
                    outcomes,
                    now,
                    i + 1,
                    wl.len() as int,
                    k,
                );
            }
        }
    }
}

} // verus!
