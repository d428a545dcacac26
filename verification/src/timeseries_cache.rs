//! The time-series cache: one timestamped performance snapshot per
//! `(symbol, range)` pair, each persisted as its own binary file whose
//! name derives deterministically from symbol and range tag.

use vstd::prelude::*;

use crate::codec::{
    all_ws_bytes, benc_price, benc_status, benc_str, benc_u64, bytes_all_ws, dec_price,
    dec_status, dec_str, dec_u64, enc_price, enc_status, enc_str, enc_u64, int_mag, le_bytes,
    lemma_le_bytes_len, lemma_le_roundtrip, lemma_pow256_8, lemma_rt_price, lemma_rt_status,
    lemma_rt_str, lemma_rt_u64, lemma_slice_two, pow256, sdec_price, sdec_status, sdec_str,
    sdec_u64,
};
use crate::errors::AppError;
use crate::models::{
    range_tag, PricePoint, PricePointView, QuoteStatus, SymbolPerformance, SymbolPerformanceView,
    TimeRange,
};
use vstd::string::StringExecFns;
use vstd::utf8::encode_utf8;

verus! {

/// Performance series younger than this many seconds are served from cache.
pub const TIMESERIES_CACHE_TTL_SECONDS: u64 = 300;

/// The series freshness window: true exactly when `now - cached_at` (zero
/// when the clock moved backward) is at most 300 seconds, the boundary
/// included.
pub fn is_timeseries_cache_fresh(cached_at: u64, now: u64) -> (r: bool)
    ensures
        r == crate::quote_cache::fresh_at(cached_at, now, TIMESERIES_CACHE_TTL_SECONDS),
{
    if now >= cached_at {
        now - cached_at <= TIMESERIES_CACHE_TTL_SECONDS
    } else {
        true
    }
}

/// One cached series: the last successfully fetched snapshot and when it
/// was fetched.
#[derive(Debug, PartialEq)]
pub struct CachedTimeSeriesEntry {
    pub performance: SymbolPerformance,
    pub cached_at: u64,
}

pub struct CachedTimeSeriesEntryView {
    pub performance: SymbolPerformanceView,
    pub cached_at: u64,
}

impl View for CachedTimeSeriesEntry {
    type V = CachedTimeSeriesEntryView;

    open spec fn view(&self) -> CachedTimeSeriesEntryView {
        CachedTimeSeriesEntryView { performance: self.performance@, cached_at: self.cached_at }
    }
}

impl Clone for CachedTimeSeriesEntry {
    fn clone(&self) -> (res: Self)
        ensures
            res@ == self@,
    {
        CachedTimeSeriesEntry {
            performance: self.performance.clone(),
            cached_at: self.cached_at,
        }
    }
}

/// A stale serving of a cached series: the snapshot unchanged, status
/// downgraded to `Stale`; unlike quotes, no error is attached.
pub fn to_stale_performance(entry: &CachedTimeSeriesEntry) -> (r: SymbolPerformance)
    ensures
        r@ == (SymbolPerformanceView { status: QuoteStatus::Stale, ..entry@.performance }),
{
    let mut performance = entry.performance.clone();
    performance.status = QuoteStatus::Stale;
    performance
}

/// The deterministic file name of a `(symbol, range)` cache slot.
pub fn cache_file_name(symbol: &str, range: TimeRange) -> (r: String)
    ensures
        r@ == symbol@ + "-"@ + range_tag(range) + ".bin"@,
{
    let name = String::from_str(symbol).concat("-").concat(range.as_key()).concat(".bin");
    name
}

/// Tag byte of a range.
pub open spec fn range_byte(range: TimeRange) -> u8 {
    match range {
        TimeRange::OneDay => 0u8,
        TimeRange::OneWeek => 1u8,
        TimeRange::OneMonth => 2u8,
        TimeRange::ThreeMonths => 3u8,
        TimeRange::OneYear => 4u8,
    }
}

/// Byte image of a range.
pub open spec fn benc_range(range: TimeRange) -> Seq<u8> {
    seq![range_byte(range)]
}

/// Spec twin of [`dec_range`].
pub open spec fn sdec_range(b: Seq<u8>, pos: int) -> Option<(TimeRange, int)> {
    if 0 <= pos && pos + 1 <= b.len() {
        if b[pos] == 0u8 {
            Some((TimeRange::OneDay, pos + 1))
        } else if b[pos] == 1u8 {
            Some((TimeRange::OneWeek, pos + 1))
        } else if b[pos] == 2u8 {
            Some((TimeRange::OneMonth, pos + 1))
        } else if b[pos] == 3u8 {
            Some((TimeRange::ThreeMonths, pos + 1))
        } else if b[pos] == 4u8 {
            Some((TimeRange::OneYear, pos + 1))
        } else {
            None
        }
    } else {
        None
    }
}

/// Appends a range tag.
pub fn enc_range(out: &mut Vec<u8>, range: TimeRange)
    ensures
        final(out)@ == old(out)@ + benc_range(range),
{
    let b: u8 = match range {
        TimeRange::OneDay => 0,
        TimeRange::OneWeek => 1,
        TimeRange::OneMonth => 2,
        TimeRange::ThreeMonths => 3,
        TimeRange::OneYear => 4,
    };
    out.push(b);
    proof {
        assert(out@ =~= old(out)@ + benc_range(range));
    }
}

/// Reads a range tag at `pos`.
pub fn dec_range(bytes: &Vec<u8>, pos: usize) -> (r: Option<(TimeRange, usize)>)
    ensures
        match r {
            Some((v, p)) => sdec_range(bytes@, pos as int) == Some((v, p as int)),
            None => sdec_range(bytes@, pos as int) is None,
        },
{
    if pos >= bytes.len() {
        return None;
    }
    let b = bytes[pos];
    if b == 0 {
        Some((TimeRange::OneDay, pos + 1))
    } else if b == 1 {
        Some((TimeRange::OneWeek, pos + 1))
    } else if b == 2 {
        Some((TimeRange::OneMonth, pos + 1))
    } else if b == 3 {
        Some((TimeRange::ThreeMonths, pos + 1))
    } else if b == 4 {
        Some((TimeRange::OneYear, pos + 1))
    } else {
        None
    }
}

/// Round trip for the range codec.
pub proof fn lemma_rt_range(b: Seq<u8>, pos: int, range: TimeRange)
    requires
        0 <= pos,
        pos + 1 <= b.len(),
        b.subrange(pos, pos + 1) == benc_range(range),
    ensures
        sdec_range(b, pos) == Some((range, pos + 1)),
{
    assert(b[pos] == benc_range(range)[0]);
}

/// Byte image of one point: its timestamp text, then its close.
pub open spec fn benc_point(p: PricePoint) -> Seq<u8> {
    benc_str(p.ts@) + benc_price(p.close)
}

/// Spec twin of [`dec_point`].
pub open spec fn sdec_point(b: Seq<u8>, pos: int) -> Option<(PricePointView, int)> {
    match sdec_str(b, pos) {
        Some((ts, p1)) => match sdec_price(b, p1) {
            Some((close, p2)) => Some((PricePointView { ts, close }, p2)),
            None => None,
        },
        None => None,
    }
}

/// Appends one point.
pub fn enc_point(out: &mut Vec<u8>, p: &PricePoint)
    ensures
        final(out)@ == old(out)@ + benc_point(*p),
{
    enc_str(out, p.ts.as_str());
    enc_price(out, p.close);
    proof {
        assert(out@ =~= old(out)@ + benc_point(*p));
    }
}

/// Reads one point at `pos`.
pub fn dec_point(bytes: &Vec<u8>, pos: usize) -> (r: Option<(PricePoint, usize)>)
    ensures
        match r {
            Some((p, q)) => sdec_point(bytes@, pos as int) matches Some(t) && t.0 == p@ && t.1
                == q as int,
            None => sdec_point(bytes@, pos as int) is None,
        },
{
    let (ts, p1) = match dec_str(bytes, pos) {
        Some(x) => x,
        None => {
            return None;
        },
    };
    let (close, p2) = match dec_price(bytes, p1) {
        Some(x) => x,
        None => {
            return None;
        },
    };
    Some((PricePoint { ts, close }, p2))
}

/// Round trip for the point codec.
pub proof fn lemma_rt_point(b: Seq<u8>, pos: int, p: PricePoint)
    requires
        0 <= pos,
        encode_utf8(p.ts@).len() < pow256(8),
        pos + benc_point(p).len() <= b.len(),
        b.subrange(pos, pos + benc_point(p).len()) == benc_point(p),
    ensures
        sdec_point(b, pos) == Some((p@, pos + benc_point(p).len())),
{
    lemma_le_bytes_len(int_mag(p.close.scaled as int), 8);
    lemma_slice_two(b, pos, benc_str(p.ts@), benc_price(p.close));
    lemma_rt_str(b, pos, p.ts@);
    lemma_rt_price(b, pos + benc_str(p.ts@).len(), p.close);
}

/// Byte image of the point list, in order.
pub open spec fn benc_points(s: Seq<PricePoint>) -> Seq<u8>
    decreases s.len(),
{
    if s.len() == 0 {
        Seq::empty()
    } else {
        benc_points(s.drop_last()) + benc_point(s.last())
    }
}

/// Spec twin of the point-list decoder: reads `count` points.
pub open spec fn sdec_points(b: Seq<u8>, pos: int, count: nat) -> Option<
    (Seq<PricePointView>, int),
>
    decreases count,
{
    if count == 0 {
        Some((Seq::empty(), pos))
    } else {
        match sdec_point(b, pos) {
            Some((p, p1)) => match sdec_points(b, p1, (count - 1) as nat) {
                Some((rest, p2)) => Some((seq![p] + rest, p2)),
                None => None,
            },
            None => None,
        }
    }
}

/// Every point's timestamp fits its length prefix.
pub open spec fn points_encodable(s: Seq<PricePoint>) -> bool {
    forall|i: int| 0 <= i < s.len() ==> encode_utf8((#[trigger] s[i]).ts@).len() < pow256(8)
}

proof fn lemma_benc_points_head(s: Seq<PricePoint>)
    requires
        s.len() > 0,
    ensures
        benc_points(s) == benc_point(s[0]) + benc_points(s.drop_first()),
    decreases s.len(),
{
    if s.len() == 1 {
        assert(s.drop_last() =~= Seq::<PricePoint>::empty());
        assert(s.drop_first() =~= Seq::<PricePoint>::empty());
        assert(benc_points(s) =~= benc_point(s[0]) + benc_points(s.drop_first()));
    } else {
        let dl = s.drop_last();
        lemma_benc_points_head(dl);
        let sdf = s.drop_first();
        assert(dl.drop_first() =~= sdf.drop_last());
        assert(dl[0] == s[0]);
        assert(sdf.last() == s.last());
        assert(benc_points(sdf) == benc_points(sdf.drop_last()) + benc_point(sdf.last()));
        assert(benc_points(s) =~= benc_point(s[0]) + benc_points(sdf));
    }
}

/// Round trip for the point-list codec.
pub proof fn lemma_rt_points(b: Seq<u8>, pos: int, s: Seq<PricePoint>)
    requires
        0 <= pos,
        points_encodable(s),
        pos + benc_points(s).len() <= b.len(),
        b.subrange(pos, pos + benc_points(s).len()) == benc_points(s),
    ensures
        sdec_points(b, pos, s.len() as nat) == Some(
            (s.map_values(|p: PricePoint| p@), pos + benc_points(s).len()),
        ),
    decreases s.len(),
{
    if s.len() == 0 {
        assert(s.map_values(|p: PricePoint| p@) =~= Seq::<PricePointView>::empty());
    } else {
        lemma_benc_points_head(s);
        let head = benc_point(s[0]);
        let tail = s.drop_first();
        let rest = benc_points(tail);
        lemma_slice_two(b, pos, head, rest);
        lemma_rt_point(b, pos, s[0]);
        assert(points_encodable(tail)) by {
            assert(forall|i: int| 0 <= i < tail.len() ==> #[trigger] tail[i] == s[i + 1]);
        }
        lemma_rt_points(b, pos + head.len(), tail);
        assert(s.map_values(|p: PricePoint| p@) =~= seq![s[0]@] + tail.map_values(
            |p: PricePoint| p@,
        ));
    }
}

/// Byte image of the point list with its count.
pub open spec fn benc_pointvec(s: Seq<PricePoint>) -> Seq<u8> {
    le_bytes(s.len() as nat, 8) + benc_points(s)
}

/// Spec twin of [`dec_pointvec`].
pub open spec fn sdec_pointvec(b: Seq<u8>, pos: int) -> Option<(Seq<PricePointView>, int)> {
    match sdec_u64(b, pos) {
        Some((count, p)) => sdec_points(b, p, count as nat),
        None => None,
    }
}

/// Appends the point list with its count.
pub fn enc_pointvec(out: &mut Vec<u8>, points: &Vec<PricePoint>)
    ensures
        final(out)@ == old(out)@ + benc_pointvec(points@),
{
    enc_u64(out, points.len() as u64);
    let ghost s = points@;
    let n = points.len();
    proof {
        assert(benc_points(s.take(0)) =~= Seq::<u8>::empty());
        assert(out@ =~= old(out)@ + le_bytes(s.len() as nat, 8) + benc_points(s.take(0)));
    }
    let mut i: usize = 0;
    while i < n
        invariant
            0 <= i <= n,
            n == s.len(),
            s == points@,
            out@ == old(out)@ + le_bytes(s.len() as nat, 8) + benc_points(s.take(i as int)),
        decreases n - i,
    {
        enc_point(out, &points[i]);
        proof {
            assert(s.take(i + 1).drop_last() =~= s.take(i as int));
            assert(s.take(i + 1).last() == s[i as int]);
            assert(out@ =~= old(out)@ + le_bytes(s.len() as nat, 8) + benc_points(s.take(i + 1)));
        }
        i = i + 1;
    }
    proof {
        assert(s.take(n as int) =~= s);
        assert(out@ =~= old(out)@ + benc_pointvec(s));
    }
}

/// Reads the point list with its count at `pos`.
pub fn dec_pointvec(bytes: &Vec<u8>, pos: usize) -> (r: Option<(Vec<PricePoint>, usize)>)
    ensures
        match r {
            Some((v, p)) => sdec_pointvec(bytes@, pos as int) matches Some(t) && t.0
                == v@.map_values(|q: PricePoint| q@) && t.1 == p as int,
            None => sdec_pointvec(bytes@, pos as int) is None,
        },
{
    let (count, start) = match dec_u64(bytes, pos) {
        Some(x) => x,
        None => {
            return None;
        },
    };
    let mut acc: Vec<PricePoint> = Vec::new();
    let mut cur = start;
    let mut j: u64 = 0;
    while j < count
        invariant
            0 <= j <= count,
            acc@.len() == j as int,
            sdec_u64(bytes@, pos as int) == Some((count, start as int)),
            match sdec_points(bytes@, cur as int, (count - j) as nat) {
                Some(t) => sdec_points(bytes@, start as int, count as nat) == Some(
                    (acc@.map_values(|q: PricePoint| q@) + t.0, t.1),
                ),
                None => sdec_points(bytes@, start as int, count as nat) is None,
            },
        decreases count - j,
    {
        let ghost prev = acc@.map_values(|q: PricePoint| q@);
        let (p, p2) = match dec_point(bytes, cur) {
            Some(x) => x,
            None => {
                return None;
            },
        };
        acc.push(p);
        proof {
            assert(acc@.map_values(|q: PricePoint| q@) =~= prev + seq![acc@.last()@]);
            if sdec_points(bytes@, p2 as int, (count - j - 1) as nat) is Some {
                let t = sdec_points(bytes@, p2 as int, (count - j - 1) as nat).unwrap();
                assert(acc@.map_values(|q: PricePoint| q@) + t.0 =~= prev + (seq![acc@.last()@]
                    + t.0));
            }
        }
        cur = p2;
        j = j + 1;
    }
    proof {
        assert(acc@.map_values(|q: PricePoint| q@) + Seq::<PricePointView>::empty() =~= acc
            @.map_values(|q: PricePoint| q@));
    }
    Some((acc, cur))
}

/// Byte image of a performance snapshot: all nine fields in order.
pub open spec fn benc_perf(p: SymbolPerformance) -> Seq<u8> {
    benc_str(p.symbol@) + benc_range(p.range) + benc_pointvec(p.points@) + benc_price(p.min)
        + benc_price(p.max) + benc_price(p.start) + benc_price(p.end) + benc_str(
        p.last_updated_at@,
    ) + benc_status(p.status)
}

/// Every string of the snapshot fits its length prefix and the point
/// count fits its field.
pub open spec fn perf_encodable(p: SymbolPerformance) -> bool {
    &&& encode_utf8(p.symbol@).len() < pow256(8)
    &&& encode_utf8(p.last_updated_at@).len() < pow256(8)
    &&& p.points@.len() < pow256(8)
    &&& points_encodable(p.points@)
}

/// Spec twin of [`dec_perf`].
pub open spec fn sdec_perf(b: Seq<u8>, pos: int) -> Option<(SymbolPerformanceView, int)> {
    match sdec_str(b, pos) {
        Some((symbol, p1)) => match sdec_range(b, p1) {
            Some((range, p2)) => match sdec_pointvec(b, p2) {
                Some((points, p3)) => match sdec_price(b, p3) {
                    Some((min, p4)) => match sdec_price(b, p4) {
                        Some((max, p5)) => match sdec_price(b, p5) {
                            Some((start, p6)) => match sdec_price(b, p6) {
                                Some((end, p7)) => match sdec_str(b, p7) {
                                    Some((last_updated_at, p8)) => match sdec_status(b, p8) {
                                        Some((status, p9)) => Some(
                                            (
                                                SymbolPerformanceView {
                                                    symbol,
                                                    range,
                                                    points,
                                                    min,
                                                    max,
                                                    start,
                                                    end,
                                                    last_updated_at,
                                                    status,
                                                },
                                                p9,
                                            ),
                                        ),
                                        None => None,
                                    },
                                    None => None,
                                },
                                None => None,
                            },
                            None => None,
                        },
                        None => None,
                    },
                    None => None,
                },
                None => None,
            },
            None => None,
        },
        None => None,
    }
}

/// Appends a performance snapshot.
pub fn enc_perf(out: &mut Vec<u8>, p: &SymbolPerformance)
    ensures
        final(out)@ == old(out)@ + benc_perf(*p),
{
    enc_str(out, p.symbol.as_str());
    enc_range(out, p.range);
    enc_pointvec(out, &p.points);
    enc_price(out, p.min);
    enc_price(out, p.max);
    enc_price(out, p.start);
    enc_price(out, p.end);
    enc_str(out, p.last_updated_at.as_str());
    enc_status(out, p.status);
    proof {
        assert(out@ =~= old(out)@ + benc_perf(*p));
    }
}

/// Reads a performance snapshot at `pos`.
pub fn dec_perf(bytes: &Vec<u8>, pos: usize) -> (r: Option<(SymbolPerformance, usize)>)
    ensures
        match r {
            Some((p, q)) => sdec_perf(bytes@, pos as int) matches Some(t) && t.0 == p@ && t.1
                == q as int,
            None => sdec_perf(bytes@, pos as int) is None,
        },
{
    let (symbol, p1) = match dec_str(bytes, pos) {
        Some(x) => x,
        None => {
            return None;
        },
    };
    let (range, p2) = match dec_range(bytes, p1) {
        Some(x) => x,
        None => {
            return None;
        },
    };
    let (points, p3) = match dec_pointvec(bytes, p2) {
        Some(x) => x,
        None => {
            return None;
        },
    };
    let (min, p4) = match dec_price(bytes, p3) {
        Some(x) => x,
        None => {
            return None;
        },
    };
    let (max, p5) = match dec_price(bytes, p4) {
        Some(x) => x,
        None => {
            return None;
        },
    };
    let (start, p6) = match dec_price(bytes, p5) {
        Some(x) => x,
        None => {
            return None;
        },
    };
    let (end, p7) = match dec_price(bytes, p6) {
        Some(x) => x,
        None => {
            return None;
        },
    };
    let (last_updated_at, p8) = match dec_str(bytes, p7) {
        Some(x) => x,
        None => {
            return None;
        },
    };
    let (status, p9) = match dec_status(bytes, p8) {
        Some(x) => x,
        None => {
            return None;
        },
    };
    Some(
        (
            SymbolPerformance {
                symbol,
                range,
                points,
                min,
                max,
                start,
                end,
                last_updated_at,
                status,
            },
            p9,
        ),
    )
}

/// Round trip for the performance codec.
#[verifier::rlimit(50)]
pub proof fn lemma_rt_perf(b: Seq<u8>, pos: int, p: SymbolPerformance)
    requires
        0 <= pos,
        perf_encodable(p),
        pos + benc_perf(p).len() <= b.len(),
        b.subrange(pos, pos + benc_perf(p).len()) == benc_perf(p),
    ensures
        sdec_perf(b, pos) == Some((p@, pos + benc_perf(p).len())),
{
    let f1 = benc_str(p.symbol@);
    let f2 = benc_range(p.range);
    let f3 = benc_pointvec(p.points@);
    let f4 = benc_price(p.min);
    let f5 = benc_price(p.max);
    let f6 = benc_price(p.start);
    let f7 = benc_price(p.end);
    let f8 = benc_str(p.last_updated_at@);
    let f9 = benc_status(p.status);
    let x1 = f1;
    let x2 = x1 + f2;
    let x3 = x2 + f3;
    let x4 = x3 + f4;
    let x5 = x4 + f5;
    let x6 = x5 + f6;
    let x7 = x6 + f7;
    let x8 = x7 + f8;
    let x9 = x8 + f9;
    assert(benc_perf(p) == x9);
    lemma_slice_two(b, pos, x8, f9);
    lemma_slice_two(b, pos, x7, f8);
    lemma_slice_two(b, pos, x6, f7);
    lemma_slice_two(b, pos, x5, f6);
    lemma_slice_two(b, pos, x4, f5);
    lemma_slice_two(b, pos, x3, f4);
    lemma_slice_two(b, pos, x2, f3);
    lemma_slice_two(b, pos, x1, f2);
    lemma_rt_str(b, pos, p.symbol@);
    lemma_rt_range(b, pos + x1.len(), p.range);
    lemma_le_bytes_len(p.points@.len() as nat, 8);
    lemma_slice_two(b, pos + x2.len(), le_bytes(p.points@.len() as nat, 8), benc_points(
        p.points@,
    ));
    lemma_pow256_8();
    lemma_le_roundtrip(p.points@.len() as nat, 8);
    lemma_rt_points(b, pos + x2.len() + 8, p.points@);
    assert(sdec_pointvec(b, pos + x2.len()) == Some(
        (p.points@.map_values(|q: PricePoint| q@), pos + x3.len()),
    ));
    lemma_le_bytes_len(int_mag(p.min.scaled as int), 8);
    lemma_le_bytes_len(int_mag(p.max.scaled as int), 8);
    lemma_le_bytes_len(int_mag(p.start.scaled as int), 8);
    lemma_le_bytes_len(int_mag(p.end.scaled as int), 8);
    lemma_rt_price(b, pos + x3.len(), p.min);
    lemma_rt_price(b, pos + x4.len(), p.max);
    lemma_rt_price(b, pos + x5.len(), p.start);
    lemma_rt_price(b, pos + x6.len(), p.end);
    lemma_rt_str(b, pos + x7.len(), p.last_updated_at@);
    lemma_rt_status(b, pos + x8.len(), p.status);
}

/// Byte image of the whole cache file: a format tag, the snapshot, the
/// fetch time.
pub open spec fn benc_ts_file(p: SymbolPerformance, cached_at: u64) -> Seq<u8> {
    seq![84u8] + benc_perf(p) + benc_u64(cached_at)
}

/// Spec twin of the cache-file decoder: the decoded entry, when the
/// content is exactly one well-formed image.
pub open spec fn sdec_ts_file(b: Seq<u8>) -> Option<CachedTimeSeriesEntryView> {
    if b.len() >= 1 && b[0] == 84u8 {
        match sdec_perf(b, 1) {
            Some((performance, p1)) => match sdec_u64(b, p1) {
                Some((cached_at, p2)) => if p2 == b.len() {
                    Some(CachedTimeSeriesEntryView { performance, cached_at })
                } else {
                    None
                },
                None => None,
            },
            None => None,
        }
    } else {
        None
    }
}

/// Law: a rendered series file is never blank, and decoding it yields
/// exactly the snapshot and fetch time it was rendered from.
pub proof fn lemma_timeseries_round_trip(p: SymbolPerformance, cached_at: u64)
    requires
        perf_encodable(p),
    ensures
        ({
            let b = benc_ts_file(p, cached_at);
            !all_ws_bytes(b) && sdec_ts_file(b) == Some(
                CachedTimeSeriesEntryView { performance: p@, cached_at },
            )
        }),
{
    let b = benc_ts_file(p, cached_at);
    assert(b[0] == 84u8);
    assert(!crate::codec::is_ws_byte(84u8));
    assert(!all_ws_bytes(b));
    lemma_le_bytes_len(cached_at as nat, 8);
    let pb = benc_perf(p);
    let cb = benc_u64(cached_at);
    assert(b.subrange(1, (1 + pb.len() + cb.len()) as int) =~= pb + cb);
    lemma_slice_two(b, 1, pb, cb);
    lemma_rt_perf(b, 1, p);
    lemma_rt_u64(b, 1 + pb.len() as int, cached_at);
}

/// The time-series cache store: renders one `(symbol, range)` snapshot to
/// its file image and reads one back. A missing or blank file is an empty
/// slot; anything else that does not decode is a `persistence_error`-family
/// failure.
pub struct TimeSeriesCacheStore {}

impl TimeSeriesCacheStore {
    /// A store handle.
    pub fn new() -> TimeSeriesCacheStore {
        TimeSeriesCacheStore {}
    }

    /// The series freshness window in seconds.
    pub fn ttl_seconds() -> (r: u64)
        ensures
            r == TIMESERIES_CACHE_TTL_SECONDS,
    {
        TIMESERIES_CACHE_TTL_SECONDS
    }

    /// Renders a snapshot fetched at `cached_at` as its file image.
    pub fn render_content(&self, performance: &SymbolPerformance, cached_at: u64) -> (r: Vec<u8>)
        ensures
            r@ == benc_ts_file(*performance, cached_at),
    {
        let mut out: Vec<u8> = Vec::new();
        out.push(84);
        proof {
            assert(out@ =~= seq![84u8]);
        }
        enc_perf(&mut out, performance);
        enc_u64(&mut out, cached_at);
        proof {
            assert(out@ =~= benc_ts_file(*performance, cached_at));
        }
        out
    }

    /// Parses a slot file's content: a missing or blank file is an empty
    /// slot; content that is not exactly one image fails with
    /// `timeseries_cache_parse_failed`.
    pub fn parse_content(&self, content: &Option<Vec<u8>>) -> (r: Result<
        Option<CachedTimeSeriesEntry>,
        AppError,
    >)
        ensures
            match r {
                Ok(o) => match o {
                    None => content matches Some(b) ==> all_ws_bytes(b@),
                    Some(e) => content matches Some(b) && !all_ws_bytes(b@) && sdec_ts_file(b@)
                        == Some(e@),
                },
                Err(err) => err@.code == "timeseries_cache_parse_failed"@ && (content
                    matches Some(b) && !all_ws_bytes(b@) && sdec_ts_file(b@) is None),
            },
    {
        let b = match content {
            None => {
                return Ok(None);
            },
            Some(b) => b,
        };
        if bytes_all_ws(b) {
            return Ok(None);
        }
        if b.len() < 1 {
            return Err(ts_parse_error());
        }
        if b[0] != 84 {
            return Err(ts_parse_error());
        }
        let (performance, p1) = match dec_perf(b, 1) {
            Some(x) => x,
            None => {
                return Err(ts_parse_error());
            },
        };
        let (cached_at, p2) = match dec_u64(b, p1) {
            Some(x) => x,
            None => {
                return Err(ts_parse_error());
            },
        };
        if p2 != b.len() {
            return Err(ts_parse_error());
        }
        Ok(Some(CachedTimeSeriesEntry { performance, cached_at }))
    }
}

fn ts_parse_error() -> (r: AppError)
    ensures
        r@.code == "timeseries_cache_parse_failed"@,
{
    AppError::persistence(
        "timeseries_cache_parse_failed",
        "Unable to parse timeseries cache file.",
    )
}

} // verus!
