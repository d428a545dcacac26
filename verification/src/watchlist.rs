//! Watchlist mutations: adding and removing a symbol. Storage lives with
//! the shell; these functions take the loaded list and return the list to
//! persist, enforcing symbol canonicalization and uniqueness.

use vstd::prelude::*;

use crate::domain::{acceptable_symbol, canonical_symbol, normalize_symbol};
use crate::errors::AppError;
use crate::models::WatchlistItem;
use crate::text::trim_chars;
use vstd::string::StringExecFns;

verus! {

/// Some row carries the symbol `sym`.
pub open spec fn wl_has_symbol(wl: Seq<WatchlistItem>, sym: Seq<char>) -> bool {
    exists|i: int| 0 <= i < wl.len() && (#[trigger] wl[i]).symbol@ == sym
}

/// The list without the rows naming `sym`, order kept.
pub open spec fn wl_without(wl: Seq<WatchlistItem>, sym: Seq<char>) -> Seq<WatchlistItem>
    decreases wl.len(),
{
    if wl.len() == 0 {
        Seq::empty()
    } else {
        wl_without(wl.drop_last(), sym) + (if wl.last().symbol@ != sym {
            seq![wl.last()]
        } else {
            Seq::empty()
        })
    }
}

/// Scans the list for `sym`.
pub fn watchlist_contains(watchlist: &Vec<WatchlistItem>, sym: &String) -> (r: bool)
    ensures
        r == wl_has_symbol(watchlist@, sym@),
{
    let mut i: usize = 0;
    while i < watchlist.len()
        invariant
            0 <= i <= watchlist@.len(),
            forall|j: int| 0 <= j < i ==> (#[trigger] watchlist@[j]).symbol@ != sym@,
        decreases watchlist@.len() - i,
    {
        if crate::json::str_eq(watchlist[i].symbol.as_str(), sym.as_str()) {
            return true;
        }
        i = i + 1;
    }
    proof {
        if wl_has_symbol(watchlist@, sym@) {
            let j = choose|j: int|
                0 <= j < watchlist@.len() && (#[trigger] watchlist@[j]).symbol@ == sym@;
        }
    }
    false
}

/// Adds a symbol: the raw input is canonicalized, a duplicate is refused
/// with `symbol_exists`, and otherwise the new row (no display name, not
/// pinned) goes to the end.
pub fn add_watchlist_symbol(watchlist: &Vec<WatchlistItem>, symbol: &str) -> (r: Result<
    Vec<WatchlistItem>,
    AppError,
>)
    ensures
        ({
            let t = trim_chars(symbol@);
            let c = canonical_symbol(symbol@);
            match r {
                Ok(out) => acceptable_symbol(t) && !wl_has_symbol(watchlist@, c) && out@.len()
                    == watchlist@.len() + 1 && (forall|j: int|
                    0 <= j < watchlist@.len() ==> (#[trigger] out@[j])@ == watchlist@[j]@)
                    && out@.last()@.symbol == c && out@.last()@.display_name is None
                    && out@.last()@.pinned is None,
                Err(e) => (!acceptable_symbol(t) && e@.code == "invalid_symbol"@) || (
                acceptable_symbol(t) && wl_has_symbol(watchlist@, c) && e@.code
                    == "symbol_exists"@ && e@.message == c + " is already in your watchlist."@),
            }
        }),
{
    let normalized = match normalize_symbol(symbol) {
        Ok(s) => s,
        Err(e) => {
            return Err(e);
        },
    };
    if watchlist_contains(watchlist, &normalized) {
        let message = normalized.concat(" is already in your watchlist.");
        return Err(AppError::validation("symbol_exists", message.as_str()));
    }
    let mut out: Vec<WatchlistItem> = Vec::new();
    let mut i: usize = 0;
    while i < watchlist.len()
        invariant
            0 <= i <= watchlist@.len(),
            out@.len() == i as int,
            forall|j: int| 0 <= j < i ==> (#[trigger] out@[j])@ == watchlist@[j]@,
        decreases watchlist@.len() - i,
    {
        out.push(watchlist[i].clone());
        i = i + 1;
    }
    out.push(WatchlistItem { symbol: normalized, display_name: None, pinned: None });
    Ok(out)
}

proof fn lemma_wl_without_props(wl: Seq<WatchlistItem>, sym: Seq<char>)
    ensures
        wl_without(wl, sym).len() <= wl.len(),
        wl_has_symbol(wl, sym) <==> wl_without(wl, sym).len() < wl.len(),
    decreases wl.len(),
{
    if wl.len() == 0 {
        assert(!wl_has_symbol(wl, sym)) by {
            if wl_has_symbol(wl, sym) {
                let i = choose|i: int| 0 <= i < wl.len() && (#[trigger] wl[i]).symbol@ == sym;
            }
        }
    } else {
        let t = wl.drop_last();
        lemma_wl_without_props(t, sym);
        if wl.last().symbol@ == sym {
            assert(wl[wl.len() - 1].symbol@ == sym);
        }
        assert(wl_has_symbol(wl, sym) <==> (wl_has_symbol(t, sym) || wl.last().symbol@ == sym))
            by {
            if wl_has_symbol(wl, sym) {
                let i = choose|i: int| 0 <= i < wl.len() && (#[trigger] wl[i]).symbol@ == sym;
                if i < wl.len() - 1 {
                    assert(t[i].symbol@ == sym);
                }
            }
            if wl_has_symbol(t, sym) {
                let i = choose|i: int| 0 <= i < t.len() && (#[trigger] t[i]).symbol@ == sym;
                assert(wl[i].symbol@ == sym);
            }
        }
    }
}

/// Removes a symbol: the raw input is canonicalized; every row naming it
/// leaves the list, and a symbol that names no row is refused with
/// `symbol_not_found`.
pub fn remove_watchlist_symbol(watchlist: &Vec<WatchlistItem>, symbol: &str) -> (r: Result<
    Vec<WatchlistItem>,
    AppError,
>)
    ensures
        ({
            let t = trim_chars(symbol@);
            let c = canonical_symbol(symbol@);
            match r {
                Ok(out) => acceptable_symbol(t) && wl_has_symbol(watchlist@, c) && out@.len()
                    == wl_without(watchlist@, c).len() && (forall|j: int|
                    0 <= j < out@.len() ==> (#[trigger] out@[j])@ == wl_without(
                        watchlist@,
                        c,
                    )[j]@),
                Err(e) => (!acceptable_symbol(t) && e@.code == "invalid_symbol"@) || (
                acceptable_symbol(t) && !wl_has_symbol(watchlist@, c) && e@.code
                    == "symbol_not_found"@ && e@.message == c + " is not in your watchlist."@),
            }
        }),
{
    let normalized = match normalize_symbol(symbol) {
        Ok(s) => s,
        Err(e) => {
            return Err(e);
        },
    };
    let ghost c = canonical_symbol(symbol@);
    let mut out: Vec<WatchlistItem> = Vec::new();
    let mut i: usize = 0;
    while i < watchlist.len()
        invariant
            0 <= i <= watchlist@.len(),
            normalized@ == c,
            out@.len() == wl_without(watchlist@.take(i as int), c).len(),
            forall|j: int|
                0 <= j < out@.len() ==> (#[trigger] out@[j])@ == wl_without(
                    watchlist@.take(i as int),
                    c,
                )[j]@,
        decreases watchlist@.len() - i,
    {
        proof {
            assert(watchlist@.take(i + 1).drop_last() =~= watchlist@.take(i as int));
            assert(watchlist@.take(i + 1).last() == watchlist@[i as int]);
        }
        if !crate::json::str_eq(watchlist[i].symbol.as_str(), normalized.as_str()) {
            out.push(watchlist[i].clone());
        }
        i = i + 1;
    }
    proof {
        assert(watchlist@.take(watchlist@.len() as int) =~= watchlist@);
        lemma_wl_without_props(watchlist@, c);
    }
    if out.len() == watchlist.len() {
        let message = normalized.concat(" is not in your watchlist.");
        return Err(AppError::validation("symbol_not_found", message.as_str()));
    }
    Ok(out)
}

} // verus!
