//! The quote cache: a keyed map from symbol to a timestamped quote
//! snapshot, persisted as one binary file. Entries are created only from
//! successful fetches; a snapshot's status is recomputed on every read and
//! never trusted from storage.

use vstd::prelude::*;

use crate::codec::{
    all_ws_bytes, benc_opt_price, benc_opt_str, benc_price, benc_status, benc_str, benc_u64,
    bytes_all_ws, dec_opt_price, dec_opt_str, dec_price, dec_status, dec_str,
    dec_u64, enc_opt_price, enc_opt_str, enc_price, enc_status, enc_str, enc_u64, int_mag,
    is_ws_byte, le_bytes, lemma_le_bytes_len, lemma_le_roundtrip, lemma_pow256_8,
    lemma_rt_opt_price, lemma_rt_opt_str, lemma_rt_price, lemma_rt_status, lemma_rt_str,
    lemma_rt_u64, lemma_slice_two, pow256, sdec_opt_price, sdec_opt_str, sdec_price, sdec_status,
    sdec_str, sdec_u64,
};
use crate::errors::AppError;
use crate::models::{clone_opt_string, opt_string_view, QuoteStatus, QuoteSummary, QuoteSummaryView};
use vstd::utf8::encode_utf8;

verus! {

/// Quotes younger than this many seconds are served from cache.
pub const QUOTE_CACHE_TTL_SECONDS: u64 = 60;

/// A cache snapshot is fresh at `now` when its age is within `ttl`.
/// Ages are saturating: a clock that moved backward reads as age zero.
pub open spec fn fresh_at(cached_at: u64, now: u64, ttl: u64) -> bool {
    now <= cached_at + ttl
}

/// The quote freshness window: true exactly when `now - cached_at` (zero
/// when the clock moved backward) is at most 60 seconds, the boundary
/// included.
pub fn is_cache_fresh(cached_at: u64, now: u64) -> (r: bool)
    ensures
        r == fresh_at(cached_at, now, QUOTE_CACHE_TTL_SECONDS),
{
    if now >= cached_at {
        now - cached_at <= QUOTE_CACHE_TTL_SECONDS
    } else {
        true
    }
}

/// One cached quote: the last successfully fetched snapshot and when it
/// was fetched.
#[derive(Debug, PartialEq)]
pub struct CachedQuoteEntry {
    pub quote: QuoteSummary,
    pub cached_at: u64,
}

pub struct CachedQuoteEntryView {
    pub quote: QuoteSummaryView,
    pub cached_at: u64,
}

impl View for CachedQuoteEntry {
    type V = CachedQuoteEntryView;

    open spec fn view(&self) -> CachedQuoteEntryView {
        CachedQuoteEntryView { quote: self.quote@, cached_at: self.cached_at }
    }
}

impl Clone for CachedQuoteEntry {
    fn clone(&self) -> (res: Self)
        ensures
            res@ == self@,
    {
        CachedQuoteEntry { quote: self.quote.clone(), cached_at: self.cached_at }
    }
}

/// A stale serving of a cached quote: the snapshot unchanged, status
/// downgraded to `Stale`, the failure that forced the fallback attached.
pub fn to_stale_quote(entry: &CachedQuoteEntry, error: &AppError) -> (r: QuoteSummary)
    ensures
        r@ == (QuoteSummaryView {
            status: QuoteStatus::Stale,
            error_code: Some(error@.code),
            error_message: Some(error@.message),
            ..entry@.quote
        }),
{
    let mut quote = entry.quote.clone();
    quote.status = QuoteStatus::Stale;
    quote.error_code = Some(error.code.clone());
    quote.error_message = Some(error.message.clone());
    quote
}

/// Wraps a freshly fetched quote for the cache, stamped `now`.
pub fn to_cached_entry(quote: QuoteSummary, now: u64) -> (r: CachedQuoteEntry)
    ensures
        r@.quote == quote@,
        r@.cached_at == now,
{
    CachedQuoteEntry { quote, cached_at: now }
}

/// No two entries share a symbol.
pub open spec fn unique_keys(s: Seq<(String, CachedQuoteEntry)>) -> bool {
    forall|i: int, j: int|
        0 <= i < j < s.len() ==> (#[trigger] s[i]).0@ != (#[trigger] s[j]).0@
}

/// Some entry carries the symbol `k`.
pub open spec fn has_key(s: Seq<(String, CachedQuoteEntry)>, k: Seq<char>) -> bool {
    exists|i: int| 0 <= i < s.len() && (#[trigger] s[i]).0@ == k
}

/// The map the entry list denotes (later entries win, though well-formed
/// lists have no duplicates).
pub open spec fn entries_map(s: Seq<(String, CachedQuoteEntry)>) -> Map<
    Seq<char>,
    CachedQuoteEntryView,
>
    decreases s.len(),
{
    if s.len() == 0 {
        Map::empty()
    } else {
        entries_map(s.drop_last()).insert(s.last().0@, s.last().1@)
    }
}

pub proof fn lemma_entries_map_props(s: Seq<(String, CachedQuoteEntry)>)
    ensures
        forall|k: Seq<char>| #[trigger] entries_map(s).contains_key(k) <==> has_key(s, k),
        unique_keys(s) ==> forall|i: int|
            0 <= i < s.len() ==> entries_map(s).contains_key((#[trigger] s[i]).0@)
                && entries_map(s)[s[i].0@] == s[i].1@,
    decreases s.len(),
{
    if s.len() == 0 {
        assert(forall|k: Seq<char>| !has_key(s, k));
    } else {
        let t = s.drop_last();
        lemma_entries_map_props(t);
        assert forall|k: Seq<char>| #[trigger] entries_map(s).contains_key(k) <==> has_key(
            s,
            k,
        ) by {
            if entries_map(s).contains_key(k) {
                if k == s.last().0@ {
                    assert(s[s.len() - 1].0@ == k);
                } else {
                    assert(entries_map(t).contains_key(k));
                    assert(has_key(t, k));
                    let i = choose|i: int| 0 <= i < t.len() && (#[trigger] t[i]).0@ == k;
                    assert(t[i] == s[i]);
                    assert(s[i].0@ == k);
                }
            }
            if has_key(s, k) {
                let i = choose|i: int| 0 <= i < s.len() && (#[trigger] s[i]).0@ == k;
                if i < s.len() - 1 {
                    assert(t[i].0@ == k);
                    assert(entries_map(t).contains_key(k));
                }
            }
        }
        if unique_keys(s) {
            assert(forall|i: int, j: int|
                0 <= i < j < t.len() ==> (#[trigger] t[i]).0@ != (#[trigger] t[j]).0@);
            assert forall|i: int| 0 <= i < s.len() implies entries_map(s).contains_key(
                (#[trigger] s[i]).0@,
            ) && entries_map(s)[s[i].0@] == s[i].1@ by {
                if i < s.len() - 1 {
                    assert(t[i] == s[i]);
                    assert(s[i].0@ != s.last().0@);
                }
            }
        }
    }
}

/// The symbol-keyed quote cache, backed by a duplicate-free entry list.
#[derive(Debug, PartialEq)]
pub struct QuoteCacheMap {
    pub entries: Vec<(String, CachedQuoteEntry)>,
}

impl View for QuoteCacheMap {
    type V = Map<Seq<char>, CachedQuoteEntryView>;

    open spec fn view(&self) -> Map<Seq<char>, CachedQuoteEntryView> {
        entries_map(self.entries@)
    }
}

impl Clone for QuoteCacheMap {
    fn clone(&self) -> (res: Self)
        ensures
            res@ == self@,
            res.entries@.len() == self.entries@.len(),
            res.wf() == self.wf(),
    {
        let mut entries: Vec<(String, CachedQuoteEntry)> = Vec::new();
        let mut i: usize = 0;
        while i < self.entries.len()
            invariant
                0 <= i <= self.entries@.len(),
                entries@.len() == i as int,
                forall|j: int|
                    0 <= j < i ==> (#[trigger] entries@[j]).0@ == self.entries@[j].0@
                        && entries@[j].1@ == self.entries@[j].1@,
            decreases self.entries@.len() - i,
        {
            let pair = &self.entries[i];
            entries.push((pair.0.clone(), pair.1.clone()));
            i = i + 1;
        }
        let result = QuoteCacheMap { entries };
        proof {
            lemma_entries_views_equal(result.entries@, self.entries@);
        }
        result
    }
}

proof fn lemma_entries_views_equal(
    a: Seq<(String, CachedQuoteEntry)>,
    b: Seq<(String, CachedQuoteEntry)>,
)
    requires
        a.len() == b.len(),
        forall|j: int|
            0 <= j < a.len() ==> (#[trigger] a[j]).0@ == b[j].0@ && a[j].1@ == b[j].1@,
    ensures
        entries_map(a) == entries_map(b),
        unique_keys(a) == unique_keys(b),
    decreases a.len(),
{
    if a.len() == 0 {
    } else {
        let ta = a.drop_last();
        let tb = b.drop_last();
        assert(forall|j: int|
            0 <= j < ta.len() ==> (#[trigger] ta[j]).0@ == tb[j].0@ && ta[j].1@ == tb[j].1@);
        lemma_entries_views_equal(ta, tb);
        assert(unique_keys(a) == unique_keys(b)) by {
            if unique_keys(a) {
                assert forall|i: int, j: int| 0 <= i < j < b.len() implies (#[trigger] b[i]).0@
                    != (#[trigger] b[j]).0@ by {
                    assert(a[i].0@ == b[i].0@ && a[j].0@ == b[j].0@ && a[i].0@ != a[j].0@);
                }
            }
            if unique_keys(b) {
                assert forall|i: int, j: int| 0 <= i < j < a.len() implies (#[trigger] a[i]).0@
                    != (#[trigger] a[j]).0@ by {
                    assert(a[i].0@ == b[i].0@ && a[j].0@ == b[j].0@ && b[i].0@ != b[j].0@);
                }
            }
        }
    }
}

impl QuoteCacheMap {
    /// Entries name pairwise distinct symbols.
    pub open spec fn wf(&self) -> bool {
        unique_keys(self.entries@)
    }

    /// An empty cache.
    pub fn new() -> (r: QuoteCacheMap)
        ensures
            r@ == Map::<Seq<char>, CachedQuoteEntryView>::empty(),
            r.wf(),
            r.entries@.len() == 0,
    {
        QuoteCacheMap { entries: Vec::new() }
    }

    /// The entry cached for `symbol`, if one is.
    pub fn get(&self, symbol: &String) -> (r: Option<&CachedQuoteEntry>)
        requires
            self.wf(),
        ensures
            match r {
                Some(e) => self@.contains_key(symbol@) && e@ == self@[symbol@],
                None => !self@.contains_key(symbol@),
            },
    {
        let mut i: usize = 0;
        while i < self.entries.len()
            invariant
                0 <= i <= self.entries@.len(),
                self.wf(),
                forall|j: int| 0 <= j < i ==> (#[trigger] self.entries@[j]).0@ != symbol@,
            decreases self.entries@.len() - i,
        {
            if crate::json::str_eq(self.entries[i].0.as_str(), symbol.as_str()) {
                proof {
                    lemma_entries_map_props(self.entries@);
                }
                return Some(&self.entries[i].1);
            }
            i = i + 1;
        }
        proof {
            lemma_entries_map_props(self.entries@);
            assert(!has_key(self.entries@, symbol@)) by {
                if has_key(self.entries@, symbol@) {
                    let j = choose|j: int|
                        0 <= j < self.entries@.len() && (#[trigger] self.entries@[j]).0@
                            == symbol@;
                }
            }
        }
        None
    }

    /// Caches `entry` under `symbol`, replacing any prior entry.
    pub fn insert(&mut self, symbol: String, entry: CachedQuoteEntry)
        requires
            old(self).wf(),
        ensures
            final(self).wf(),
            final(self)@ == old(self)@.insert(symbol@, entry@),
    {
        let ghost orig = self.entries@;
        let mut found: Option<usize> = None;
        let mut i: usize = 0;
        while i < self.entries.len()
            invariant
                0 <= i <= self.entries@.len(),
                self.entries@ == orig,
                found is None ==> forall|j: int|
                    0 <= j < i ==> (#[trigger] orig[j]).0@ != symbol@,
                found matches Some(fi) ==> fi < orig.len() && orig[fi as int].0@ == symbol@,
            ensures
                self.entries@ == orig,
                found is None ==> forall|j: int|
                    0 <= j < orig.len() ==> (#[trigger] orig[j]).0@ != symbol@,
                found matches Some(fi) ==> fi < orig.len() && orig[fi as int].0@ == symbol@,
            decreases orig.len() - i,
        {
            if crate::json::str_eq(self.entries[i].0.as_str(), symbol.as_str()) {
                found = Some(i);
                break ;
            }
            i = i + 1;
        }
        let ghost mid: Seq<(String, CachedQuoteEntry)>;
        match found {
            Some(fi) => {
                self.entries.remove(fi);
                proof {
                    mid = self.entries@;
                    assert(mid =~= orig.remove(fi as int));
                    lemma_remove_key(orig, fi as int);
                    assert(orig[fi as int].0@ == symbol@);
                }
            },
            None => {
                proof {
                    mid = self.entries@;
                    assert(!has_key(mid, symbol@)) by {
                        if has_key(mid, symbol@) {
                            let j = choose|j: int|
                                0 <= j < mid.len() && (#[trigger] mid[j]).0@ == symbol@;
                        }
                    }
                    assert(forall|k: Seq<char>|
                        k != symbol@ ==> (has_key(mid, k) <==> has_key(orig, k)));
                    assert(forall|j: int|
                        0 <= j < mid.len() ==> orig[j] == #[trigger] mid[j]);
                }
            },
        }
        let ghost entry_view = entry@;
        let ghost symbol_view = symbol@;
        self.entries.push((symbol, entry));
        proof {
            assert(self.entries@.drop_last() =~= mid);
            assert(entries_map(self.entries@) == entries_map(mid).insert(
                symbol_view,
                entry_view,
            ));
            assert(self.wf()) by {
                assert forall|i2: int, j2: int|
                    0 <= i2 < j2 < self.entries@.len() implies (#[trigger] self.entries@[
                    i2
                ]).0@ != (#[trigger] self.entries@[j2]).0@ by {
                    if j2 == self.entries@.len() - 1 {
                        assert(self.entries@[i2] == mid[i2]);
                        assert(!has_key(mid, symbol_view));
                        if mid[i2].0@ == symbol_view {
                            assert(has_key(mid, symbol_view));
                        }
                    } else {
                        assert(self.entries@[i2] == mid[i2]);
                        assert(self.entries@[j2] == mid[j2]);
                    }
                }
            }
            lemma_maps_agree_after_insert(orig, mid, symbol_view, entry_view);
        }
    }
}

proof fn lemma_remove_key(orig: Seq<(String, CachedQuoteEntry)>, fi: int)
    requires
        unique_keys(orig),
        0 <= fi < orig.len(),
    ensures
        ({
            let mid = orig.remove(fi);
            let sym = orig[fi].0@;
            unique_keys(mid) && !has_key(mid, sym) && (forall|k: Seq<char>|
                k != sym ==> (has_key(mid, k) <==> has_key(orig, k))) && (forall|j: int|
                0 <= j < mid.len() ==> exists|j2: int|
                    0 <= j2 < orig.len() && orig[j2] == #[trigger] mid[j])
        }),
{
    let mid = orig.remove(fi);
    let sym = orig[fi].0@;
    assert(forall|j: int|
        0 <= j < mid.len() ==> #[trigger] mid[j] == (if j < fi {
            orig[j]
        } else {
            orig[j + 1]
        }));
    assert forall|j: int| 0 <= j < mid.len() implies exists|j2: int|
        0 <= j2 < orig.len() && orig[j2] == #[trigger] mid[j] by {
        if j < fi {
            assert(orig[j] == mid[j]);
        } else {
            assert(orig[j + 1] == mid[j]);
        }
    }
    assert(unique_keys(mid)) by {
        assert forall|i2: int, j2: int| 0 <= i2 < j2 < mid.len() implies (#[trigger] mid[
        i2]).0@ != (#[trigger] mid[j2]).0@ by {
            let a = if i2 < fi { i2 } else { i2 + 1 };
            let b = if j2 < fi { j2 } else { j2 + 1 };
            assert(mid[i2] == orig[a] && mid[j2] == orig[b]);
            assert(orig[a].0@ != orig[b].0@);
        }
    }
    assert(!has_key(mid, sym)) by {
        if has_key(mid, sym) {
            let j = choose|j: int| 0 <= j < mid.len() && (#[trigger] mid[j]).0@ == sym;
            if j < fi {
                assert(orig[j].0@ == sym && orig[fi].0@ == sym);
            } else {
                assert(orig[j + 1].0@ == sym && orig[fi].0@ == sym);
            }
        }
    }
    assert forall|k: Seq<char>| k != sym implies (has_key(mid, k) <==> has_key(orig, k)) by {
        if has_key(mid, k) {
            let j = choose|j: int| 0 <= j < mid.len() && (#[trigger] mid[j]).0@ == k;
            if j < fi {
                assert(orig[j].0@ == k);
            } else {
                assert(orig[j + 1].0@ == k);
            }
        }
        if has_key(orig, k) {
            let j2 = choose|j2: int| 0 <= j2 < orig.len() && (#[trigger] orig[j2]).0@ == k;
            if j2 < fi {
                assert(mid[j2].0@ == k);
            } else {
                assert(j2 != fi);
                assert(mid[j2 - 1].0@ == k);
            }
        }
    }
}

proof fn lemma_maps_agree_after_insert(
    orig: Seq<(String, CachedQuoteEntry)>,
    mid: Seq<(String, CachedQuoteEntry)>,
    sym: Seq<char>,
    e: CachedQuoteEntryView,
)
    requires
        unique_keys(orig),
        unique_keys(mid),
        !has_key(mid, sym),
        forall|k: Seq<char>| k != sym ==> (has_key(mid, k) <==> has_key(orig, k)),
        forall|j: int|
            0 <= j < mid.len() ==> exists|j2: int|
                0 <= j2 < orig.len() && orig[j2] == #[trigger] mid[j],
    ensures
        entries_map(mid).insert(sym, e) == entries_map(orig).insert(sym, e),
{
    lemma_entries_map_props(mid);
    lemma_entries_map_props(orig);
    let ma = entries_map(mid).insert(sym, e);
    let mb = entries_map(orig).insert(sym, e);
    assert forall|k: Seq<char>| ma.contains_key(k) == mb.contains_key(k) by {}
    assert forall|k: Seq<char>| #![auto] ma.contains_key(k) implies ma[k] == mb[k] by {
        if k != sym {
            assert(has_key(mid, k));
            let j = choose|j: int| 0 <= j < mid.len() && (#[trigger] mid[j]).0@ == k;
            let j2 = choose|j2: int| 0 <= j2 < orig.len() && orig[j2] == #[trigger] mid[j];
            assert(entries_map(mid)[mid[j].0@] == mid[j].1@);
            assert(entries_map(orig)[orig[j2].0@] == orig[j2].1@);
        }
    }
    assert(ma =~= mb);
}

/// Byte image of a quote snapshot: all nine fields in order.
pub open spec fn benc_quote(q: QuoteSummary) -> Seq<u8> {
    benc_str(q.symbol@) + benc_price(q.price) + benc_opt_price(q.change_abs) + benc_opt_price(
        q.change_pct,
    ) + benc_opt_str(opt_string_view(q.currency)) + benc_str(q.last_updated_at@) + benc_status(
        q.status,
    ) + benc_opt_str(opt_string_view(q.error_code)) + benc_opt_str(opt_string_view(q.error_message))
}

/// The optional string's UTF-8 form fits the length prefix.
pub open spec fn opt_str_encodable(o: Option<Seq<char>>) -> bool {
    o matches Some(s) ==> encode_utf8(s).len() < pow256(8)
}

/// Every string of the quote fits its length prefix.
pub open spec fn quote_encodable(q: QuoteSummary) -> bool {
    &&& encode_utf8(q.symbol@).len() < pow256(8)
    &&& encode_utf8(q.last_updated_at@).len() < pow256(8)
    &&& opt_str_encodable(opt_string_view(q.currency))
    &&& opt_str_encodable(opt_string_view(q.error_code))
    &&& opt_str_encodable(opt_string_view(q.error_message))
}

/// Spec twin of [`dec_quote`].
pub open spec fn sdec_quote(b: Seq<u8>, pos: int) -> Option<(QuoteSummaryView, int)> {
    match sdec_str(b, pos) {
        Some((symbol, p1)) => match sdec_price(b, p1) {
            Some((price, p2)) => match sdec_opt_price(b, p2) {
                Some((change_abs, p3)) => match sdec_opt_price(b, p3) {
                    Some((change_pct, p4)) => match sdec_opt_str(b, p4) {
                        Some((currency, p5)) => match sdec_str(b, p5) {
                            Some((last_updated_at, p6)) => match sdec_status(b, p6) {
                                Some((status, p7)) => match sdec_opt_str(b, p7) {
                                    Some((error_code, p8)) => match sdec_opt_str(b, p8) {
                                        Some((error_message, p9)) => Some(
                                            (
                                                QuoteSummaryView {
                                                    symbol,
                                                    price,
                                                    change_abs,
                                                    change_pct,
                                                    currency,
                                                    last_updated_at,
                                                    status,
                                                    error_code,
                                                    error_message,
                                                },
                                                p9,
                                            ),
                                        ),
                                        None => None,
                                    },
                                    None => None,
                                },
                                None => None,
                            },
                            None => None,
                        },
                        None => None,
                    },
                    None => None,
                },
                None => None,
            },
            None => None,
        },
        None => None,
    }
}

/// Appends a quote snapshot.
pub fn enc_quote(out: &mut Vec<u8>, q: &QuoteSummary)
    ensures
        final(out)@ == old(out)@ + benc_quote(*q),
{
    enc_str(out, q.symbol.as_str());
    enc_price(out, q.price);
    enc_opt_price(out, &q.change_abs);
    enc_opt_price(out, &q.change_pct);
    enc_opt_str(out, &q.currency);
    enc_str(out, q.last_updated_at.as_str());
    enc_status(out, q.status);
    enc_opt_str(out, &q.error_code);
    enc_opt_str(out, &q.error_message);
    proof {
        assert(out@ =~= old(out)@ + benc_quote(*q));
    }
}

/// Reads a quote snapshot at `pos`.
pub fn dec_quote(bytes: &Vec<u8>, pos: usize) -> (r: Option<(QuoteSummary, usize)>)
    ensures
        match r {
            Some((q, p)) => sdec_quote(bytes@, pos as int) matches Some(t) && t.0 == q@ && t.1
                == p as int,
            None => sdec_quote(bytes@, pos as int) is None,
        },
{
    let (symbol, p1) = match dec_str(bytes, pos) {
        Some(x) => x,
        None => { return None; },
    };
    let (price, p2) = match dec_price(bytes, p1) {
        Some(x) => x,
        None => { return None; },
    };
    let (change_abs, p3) = match dec_opt_price(bytes, p2) {
        Some(x) => x,
        None => { return None; },
    };
    let (change_pct, p4) = match dec_opt_price(bytes, p3) {
        Some(x) => x,
        None => { return None; },
    };
    let (currency, p5) = match dec_opt_str(bytes, p4) {
        Some(x) => x,
        None => { return None; },
    };
    let (last_updated_at, p6) = match dec_str(bytes, p5) {
        Some(x) => x,
        None => { return None; },
    };
    let (status, p7) = match dec_status(bytes, p6) {
        Some(x) => x,
        None => { return None; },
    };
    let (error_code, p8) = match dec_opt_str(bytes, p7) {
        Some(x) => x,
        None => { return None; },
    };
    let (error_message, p9) = match dec_opt_str(bytes, p8) {
        Some(x) => x,
        None => { return None; },
    };
    Some(
        (
            QuoteSummary {
                symbol,
                price,
                change_abs,
                change_pct,
                currency,
                last_updated_at,
                status,
                error_code,
                error_message,
            },
            p9,
        ),
    )
}

/// Round trip for the quote codec.
#[verifier::rlimit(50)]
pub proof fn lemma_rt_quote(b: Seq<u8>, pos: int, q: QuoteSummary)
    requires
        0 <= pos,
        quote_encodable(q),
        pos + benc_quote(q).len() <= b.len(),
        b.subrange(pos, pos + benc_quote(q).len()) == benc_quote(q),
    ensures
        sdec_quote(b, pos) == Some((q@, pos + benc_quote(q).len())),
{
    let f1 = benc_str(q.symbol@);
    let f2 = benc_price(q.price);
    let f3 = benc_opt_price(q.change_abs);
    let f4 = benc_opt_price(q.change_pct);
    let f5 = benc_opt_str(opt_string_view(q.currency));
    let f6 = benc_str(q.last_updated_at@);
    let f7 = benc_status(q.status);
    let f8 = benc_opt_str(opt_string_view(q.error_code));
    let f9 = benc_opt_str(opt_string_view(q.error_message));
    let x1 = f1;
    let x2 = x1 + f2;
    let x3 = x2 + f3;
    let x4 = x3 + f4;
    let x5 = x4 + f5;
    let x6 = x5 + f6;
    let x7 = x6 + f7;
    let x8 = x7 + f8;
    let x9 = x8 + f9;
    assert(benc_quote(q) == x9);
    lemma_slice_two(b, pos, x8, f9);
    lemma_slice_two(b, pos, x7, f8);
    lemma_slice_two(b, pos, x6, f7);
    lemma_slice_two(b, pos, x5, f6);
    lemma_slice_two(b, pos, x4, f5);
    lemma_slice_two(b, pos, x3, f4);
    lemma_slice_two(b, pos, x2, f3);
    lemma_slice_two(b, pos, x1, f2);
    lemma_rt_str(b, pos, q.symbol@);
    lemma_le_bytes_len(int_mag(q.price.scaled as int), 8);
    lemma_rt_price(b, pos + x1.len(), q.price);
    lemma_rt_opt_price(b, pos + x2.len(), q.change_abs);
    lemma_rt_opt_price(b, pos + x3.len(), q.change_pct);
    lemma_rt_opt_str(b, pos + x4.len(), opt_string_view(q.currency));
    lemma_rt_str(b, pos + x5.len(), q.last_updated_at@);
    lemma_rt_status(b, pos + x6.len(), q.status);
    lemma_rt_opt_str(b, pos + x7.len(), opt_string_view(q.error_code));
    lemma_rt_opt_str(b, pos + x8.len(), opt_string_view(q.error_message));
}

/// Byte image of one cached entry: the quote, then its fetch time.
pub open spec fn benc_qentry(e: CachedQuoteEntry) -> Seq<u8> {
    benc_quote(e.quote) + benc_u64(e.cached_at)
}

/// Spec twin of [`dec_qentry`].
pub open spec fn sdec_qentry(b: Seq<u8>, pos: int) -> Option<(CachedQuoteEntryView, int)> {
    match sdec_quote(b, pos) {
        Some((quote, p1)) => match sdec_u64(b, p1) {
            Some((cached_at, p2)) => Some((CachedQuoteEntryView { quote, cached_at }, p2)),
            None => None,
        },
        None => None,
    }
}

/// Appends one cached entry.
pub fn enc_qentry(out: &mut Vec<u8>, e: &CachedQuoteEntry)
    ensures
        final(out)@ == old(out)@ + benc_qentry(*e),
{
    enc_quote(out, &e.quote);
    enc_u64(out, e.cached_at);
    proof {
        assert(out@ =~= old(out)@ + benc_qentry(*e));
    }
}

/// Reads one cached entry at `pos`.
pub fn dec_qentry(bytes: &Vec<u8>, pos: usize) -> (r: Option<(CachedQuoteEntry, usize)>)
    ensures
        match r {
            Some((e, p)) => sdec_qentry(bytes@, pos as int) matches Some(t) && t.0 == e@ && t.1
                == p as int,
            None => sdec_qentry(bytes@, pos as int) is None,
        },
{
    let (quote, p1) = match dec_quote(bytes, pos) {
        Some(x) => x,
        None => { return None; },
    };
    let (cached_at, p2) = match dec_u64(bytes, p1) {
        Some(x) => x,
        None => { return None; },
    };
    Some((CachedQuoteEntry { quote, cached_at }, p2))
}

/// Round trip for the entry codec.
pub proof fn lemma_rt_qentry(b: Seq<u8>, pos: int, e: CachedQuoteEntry)
    requires
        0 <= pos,
        quote_encodable(e.quote),
        pos + benc_qentry(e).len() <= b.len(),
        b.subrange(pos, pos + benc_qentry(e).len()) == benc_qentry(e),
    ensures
        sdec_qentry(b, pos) == Some((e@, pos + benc_qentry(e).len())),
{
    lemma_le_bytes_len(e.cached_at as nat, 8);
    lemma_slice_two(b, pos, benc_quote(e.quote), benc_u64(e.cached_at));
    lemma_rt_quote(b, pos, e.quote);
    lemma_rt_u64(b, pos + benc_quote(e.quote).len(), e.cached_at);
}

/// Byte image of one keyed entry.
pub open spec fn benc_qpair(p: (String, CachedQuoteEntry)) -> Seq<u8> {
    benc_str(p.0@) + benc_qentry(p.1)
}

/// Spec twin of [`dec_qpair`].
pub open spec fn sdec_qpair(b: Seq<u8>, pos: int) -> Option<
    ((Seq<char>, CachedQuoteEntryView), int),
> {
    match sdec_str(b, pos) {
        Some((k, p1)) => match sdec_qentry(b, p1) {
            Some((e, p2)) => Some(((k, e), p2)),
            None => None,
        },
        None => None,
    }
}

/// Reads one keyed entry at `pos`.
pub fn dec_qpair(bytes: &Vec<u8>, pos: usize) -> (r: Option<((String, CachedQuoteEntry), usize)>)
    ensures
        match r {
            Some((pr, p)) => sdec_qpair(bytes@, pos as int) matches Some(t) && t.0.0 == pr.0@
                && t.0.1 == pr.1@ && t.1 == p as int,
            None => sdec_qpair(bytes@, pos as int) is None,
        },
{
    let (k, p1) = match dec_str(bytes, pos) {
        Some(x) => x,
        None => { return None; },
    };
    let (e, p2) = match dec_qentry(bytes, p1) {
        Some(x) => x,
        None => { return None; },
    };
    Some(((k, e), p2))
}

/// Round trip for the keyed-entry codec.
pub proof fn lemma_rt_qpair(b: Seq<u8>, pos: int, p: (String, CachedQuoteEntry))
    requires
        0 <= pos,
        encode_utf8(p.0@).len() < pow256(8),
        quote_encodable(p.1.quote),
        pos + benc_qpair(p).len() <= b.len(),
        b.subrange(pos, pos + benc_qpair(p).len()) == benc_qpair(p),
    ensures
        sdec_qpair(b, pos) == Some(((p.0@, p.1@), pos + benc_qpair(p).len())),
{
    lemma_slice_two(b, pos, benc_str(p.0@), benc_qentry(p.1));
    lemma_rt_str(b, pos, p.0@);
    lemma_rt_qentry(b, pos + benc_str(p.0@).len(), p.1);
}

/// Byte image of the entry list, in order.
pub open spec fn benc_qentries(s: Seq<(String, CachedQuoteEntry)>) -> Seq<u8>
    decreases s.len(),
{
    if s.len() == 0 {
        Seq::empty()
    } else {
        benc_qentries(s.drop_last()) + benc_qpair(s.last())
    }
}

/// Spec twin of the entry-list decoder: reads `count` keyed entries.
pub open spec fn sdec_qentries(b: Seq<u8>, pos: int, count: nat) -> Option<
    (Seq<(Seq<char>, CachedQuoteEntryView)>, int),
>
    decreases count,
{
    if count == 0 {
        Some((Seq::empty(), pos))
    } else {
        match sdec_qpair(b, pos) {
            Some((pr, p1)) => match sdec_qentries(b, p1, (count - 1) as nat) {
                Some((rest, p2)) => Some((seq![pr] + rest, p2)),
                None => None,
            },
            None => None,
        }
    }
}

/// The view pairs of the entry list.
pub open spec fn entry_views(s: Seq<(String, CachedQuoteEntry)>) -> Seq<
    (Seq<char>, CachedQuoteEntryView),
> {
    s.map_values(|p: (String, CachedQuoteEntry)| (p.0@, p.1@))
}

/// Every entry of the list fits the codec's length prefixes.
pub open spec fn qentries_encodable(s: Seq<(String, CachedQuoteEntry)>) -> bool {
    forall|i: int|
        0 <= i < s.len() ==> encode_utf8((#[trigger] s[i]).0@).len() < pow256(8)
            && quote_encodable(s[i].1.quote)
}

proof fn lemma_benc_qentries_head(s: Seq<(String, CachedQuoteEntry)>)
    requires
        s.len() > 0,
    ensures
        benc_qentries(s) == benc_qpair(s[0]) + benc_qentries(s.drop_first()),
    decreases s.len(),
{
    if s.len() == 1 {
        assert(s.drop_last() =~= Seq::<(String, CachedQuoteEntry)>::empty());
        assert(s.drop_first() =~= Seq::<(String, CachedQuoteEntry)>::empty());
        assert(benc_qentries(s) =~= benc_qpair(s[0]) + benc_qentries(s.drop_first()));
    } else {
        let dl = s.drop_last();
        lemma_benc_qentries_head(dl);
        let sdf = s.drop_first();
        assert(dl.drop_first() =~= sdf.drop_last());
        assert(dl[0] == s[0]);
        assert(sdf.last() == s.last());
        assert(benc_qentries(sdf) == benc_qentries(sdf.drop_last()) + benc_qpair(sdf.last()));
        assert(benc_qentries(s) =~= benc_qpair(s[0]) + benc_qentries(sdf));
    }
}

/// Round trip for the entry-list codec.
pub proof fn lemma_rt_qentries(b: Seq<u8>, pos: int, s: Seq<(String, CachedQuoteEntry)>)
    requires
        0 <= pos,
        qentries_encodable(s),
        pos + benc_qentries(s).len() <= b.len(),
        b.subrange(pos, pos + benc_qentries(s).len()) == benc_qentries(s),
    ensures
        sdec_qentries(b, pos, s.len() as nat) == Some(
            (entry_views(s), pos + benc_qentries(s).len()),
        ),
    decreases s.len(),
{
    if s.len() == 0 {
        assert(entry_views(s) =~= Seq::<(Seq<char>, CachedQuoteEntryView)>::empty());
    } else {
        lemma_benc_qentries_head(s);
        let head = benc_qpair(s[0]);
        let tail = s.drop_first();
        let rest = benc_qentries(tail);
        lemma_slice_two(b, pos, head, rest);
        lemma_rt_qpair(b, pos, s[0]);
        assert(qentries_encodable(tail)) by {
            assert(forall|i: int| 0 <= i < tail.len() ==> #[trigger] tail[i] == s[i + 1]);
        }
        lemma_rt_qentries(b, pos + head.len(), tail);
        assert(entry_views(s) =~= seq![(s[0].0@, s[0].1@)] + entry_views(tail));
    }
}

/// Byte image of the whole cache file: a format tag, the entry count, the
/// entries.
pub open spec fn benc_quote_cache(s: Seq<(String, CachedQuoteEntry)>) -> Seq<u8> {
    seq![81u8] + le_bytes(s.len() as nat, 8) + benc_qentries(s)
}

/// Spec twin of the cache-file decoder: the decoded entry views, when the
/// content is exactly one well-formed cache image.
pub open spec fn sdec_quote_cache(b: Seq<u8>) -> Option<Seq<(Seq<char>, CachedQuoteEntryView)>> {
    if b.len() >= 1 && b[0] == 81u8 {
        match sdec_u64(b, 1) {
            Some((count, p)) => match sdec_qentries(b, p, count as nat) {
                Some((s, p2)) => if p2 == b.len() {
                    Some(s)
                } else {
                    None
                },
                None => None,
            },
            None => None,
        }
    } else {
        None
    }
}

/// No two decoded entries share a symbol.
pub open spec fn views_unique(s: Seq<(Seq<char>, CachedQuoteEntryView)>) -> bool {
    forall|i: int, j: int|
        0 <= i < j < s.len() ==> (#[trigger] s[i]).0 != (#[trigger] s[j]).0
}

/// Law: a rendered cache file is never blank, and decoding it yields
/// exactly the entries it was rendered from.
pub proof fn lemma_quote_cache_round_trip(m: QuoteCacheMap)
    requires
        m.entries@.len() < pow256(8),
        qentries_encodable(m.entries@),
    ensures
        ({
            let b = benc_quote_cache(m.entries@);
            !all_ws_bytes(b) && sdec_quote_cache(b) == Some(entry_views(m.entries@))
        }),
{
    let s = m.entries@;
    let b = benc_quote_cache(s);
    lemma_le_bytes_len(s.len() as nat, 8);
    assert(b[0] == 81u8);
    assert(!is_ws_byte(81u8));
    assert(!all_ws_bytes(b));
    let lenb = le_bytes(s.len() as nat, 8);
    let entb = benc_qentries(s);
    assert(b.subrange(1, b.len() as int) =~= lenb + entb);
    assert(b.subrange(1, (1 + lenb.len() + entb.len()) as int) =~= lenb + entb);
    lemma_slice_two(b, 1, lenb, entb);
    lemma_pow256_8();
    lemma_le_roundtrip(s.len() as nat, 8);
    assert(sdec_u64(b, 1) == Some(((s.len() as u64), 9int)));
    lemma_rt_qentries(b, 9, s);
    assert((s.len() as u64) as nat == s.len() as nat);
}

/// The quote cache store: renders the cache to its file image and reads
/// one back. The file's bytes are this module's codec; a missing or blank
/// file is an empty cache, anything else that does not decode is a
/// `persistence_error`-family failure.
pub struct QuoteCacheStore {}

impl QuoteCacheStore {
    /// A store handle.
    pub fn new() -> QuoteCacheStore {
        QuoteCacheStore {}
    }

    /// The quote freshness window in seconds.
    pub fn ttl_seconds() -> (r: u64)
        ensures
            r == QUOTE_CACHE_TTL_SECONDS,
    {
        QUOTE_CACHE_TTL_SECONDS
    }

    /// Renders the cache as its file image.
    pub fn render_content(&self, cache: &QuoteCacheMap) -> (r: Vec<u8>)
        ensures
            r@ == benc_quote_cache(cache.entries@),
    {
        let mut out: Vec<u8> = Vec::new();
        out.push(81);
        enc_u64(&mut out, cache.entries.len() as u64);
        let ghost s = cache.entries@;
        let n = cache.entries.len();
        proof {
            assert(out@ =~= seq![81u8] + le_bytes(s.len() as nat, 8));
            assert(benc_qentries(s.take(0)) =~= Seq::<u8>::empty());
            assert(out@ =~= seq![81u8] + le_bytes(s.len() as nat, 8) + benc_qentries(s.take(0)));
        }
        let mut i: usize = 0;
        while i < n
            invariant
                0 <= i <= n,
                n == s.len(),
                s == cache.entries@,
                out@ == seq![81u8] + le_bytes(s.len() as nat, 8) + benc_qentries(s.take(i as int)),
            decreases n - i,
        {
            let pair = &cache.entries[i];
            enc_str(&mut out, pair.0.as_str());
            enc_qentry(&mut out, &pair.1);
            proof {
                assert(s.take(i + 1).drop_last() =~= s.take(i as int));
                assert(s.take(i + 1).last() == s[i as int]);
                assert(out@ =~= seq![81u8] + le_bytes(s.len() as nat, 8) + benc_qentries(
                    s.take(i + 1),
                ));
            }
            i = i + 1;
        }
        proof {
            assert(s.take(n as int) =~= s);
        }
        out
    }

    /// Parses a cache file's content: a missing or blank file is the empty
    /// cache; content that is not exactly one duplicate-free cache image
    /// fails with `quote_cache_parse_failed`.
    pub fn parse_content(&self, content: &Option<Vec<u8>>) -> (r: Result<QuoteCacheMap, AppError>)
        ensures
            match r {
                Ok(m) => m.wf() && (match content {
                    None => m.entries@.len() == 0,
                    Some(b) => if all_ws_bytes(b@) {
                        m.entries@.len() == 0
                    } else {
                        sdec_quote_cache(b@) matches Some(s) && entry_views(m.entries@) == s
                    },
                }),
                Err(e) => e@.code == "quote_cache_parse_failed"@ && (content matches Some(b)
                    && !all_ws_bytes(b@) && (match sdec_quote_cache(b@) {
                    Some(s) => !views_unique(s),
                    None => true,
                })),
            },
    {
        let b = match content {
            None => { return Ok(QuoteCacheMap::new()); },
            Some(b) => b,
        };
        if bytes_all_ws(b) {
            return Ok(QuoteCacheMap::new());
        }
        if b.len() < 1 {
            return Err(quote_cache_parse_error());
        }
        if b[0] != 81 {
            return Err(quote_cache_parse_error());
        }
        let (count, start) = match dec_u64(b, 1) {
            Some(x) => x,
            None => { return Err(quote_cache_parse_error()); },
        };
        let mut acc: Vec<(String, CachedQuoteEntry)> = Vec::new();
        let mut pos = start;
        let mut j: u64 = 0;
        while j < count
            invariant
                0 <= j <= count,
                entry_views(acc@).len() == j as int,
                b@ == (match content {
                    Some(bb) => bb@,
                    None => Seq::<u8>::empty(),
                }),
                sdec_u64(b@, 1) == Some((count, start as int)),
                b@.len() >= 1 && b@[0] == 81u8,
                match sdec_qentries(b@, pos as int, (count - j) as nat) {
                    Some(t) => sdec_qentries(b@, start as int, count as nat) == Some(
                        (entry_views(acc@) + t.0, t.1),
                    ),
                    None => sdec_qentries(b@, start as int, count as nat) is None,
                },
            decreases count - j,
        {
            let ghost prev_views = entry_views(acc@);
            let (pair, p2) = match dec_qpair(b, pos) {
                Some(x) => x,
                None => { return Err(quote_cache_parse_error()); },
            };
            acc.push(pair);
            proof {
                assert(entry_views(acc@) =~= prev_views + seq![
                    (acc@.last().0@, acc@.last().1@),
                ]);
                assert(entry_views(acc@) + sdec_qentries(b@, p2 as int, (count - j - 1) as nat)
                    .unwrap().0 =~= prev_views + (seq![(acc@.last().0@, acc@.last().1@)]
                    + sdec_qentries(b@, p2 as int, (count - j - 1) as nat).unwrap().0)) by {
                    if sdec_qentries(b@, p2 as int, (count - j - 1) as nat) is Some {
                    }
                }
            }
            pos = p2;
            j = j + 1;
        }
        if pos != b.len() {
            return Err(quote_cache_parse_error());
        }
        if !entries_unique(&acc) {
            return Err(quote_cache_parse_error());
        }
        let m = QuoteCacheMap { entries: acc };
        proof {
            assert(views_unique(entry_views(m.entries@)));
        }
        Ok(m)
    }
}

fn quote_cache_parse_error() -> (r: AppError)
    ensures
        r@.code == "quote_cache_parse_failed"@,
{
    AppError::persistence("quote_cache_parse_failed", "Unable to parse quote cache file.")
}

/// Tests the entry list for duplicate symbols.
fn entries_unique(v: &Vec<(String, CachedQuoteEntry)>) -> (r: bool)
    ensures
        r == unique_keys(v@),
        r == views_unique(entry_views(v@)),
{
    let n = v.len();
    let mut i: usize = 0;
    while i < n
        invariant
            0 <= i <= n,
            n == v@.len(),
            forall|a: int, c: int|
                0 <= a < c < v@.len() && a < i ==> (#[trigger] v@[a]).0@ != (#[trigger] v@[c]).0@,
        decreases n - i,
    {
        let mut k: usize = i + 1;
        while k < n
            invariant
                i < k <= n || (i + 1 == k && k > n),
                i < n,
                n == v@.len(),
                forall|c: int| i < c < k ==> (#[trigger] v@[c]).0@ != v@[i as int].0@,
            decreases n - k,
        {
            if crate::json::str_eq(v[i].0.as_str(), v[k].0.as_str()) {
                proof {
                    assert(v@[i as int].0@ == v@[k as int].0@);
                    assert(!unique_keys(v@));
                    assert(entry_views(v@)[i as int].0 == entry_views(v@)[k as int].0);
                    assert(!views_unique(entry_views(v@)));
                }
                return false;
            }
            k = k + 1;
        }
        i = i + 1;
    }
    proof {
        assert(unique_keys(v@));
        assert(views_unique(entry_views(v@))) by {
            assert forall|a: int, c: int|
                0 <= a < c < entry_views(v@).len() implies (#[trigger] entry_views(v@)[a]).0 != (
            #[trigger] entry_views(v@)[c]).0 by {
                assert(v@[a].0@ != v@[c].0@);
            }
        }
    }
    true
}


} // verus!
