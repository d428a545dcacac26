//! Binary cache-file codec primitives. Integers are little-endian
//! fixed-width; strings are a length followed by their UTF-8 bytes;
//! options and signs are one-byte tags. Every decoder is written against
//! a spec twin (`sdec_*`), every encoder against a spec byte image
//! (`benc_*`), and decoding is canonical: a decoder accepts exactly the
//! encoder's bytes, which is what the store round-trip proofs rest on.

use vstd::prelude::*;

use vstd::string::StrSliceExecFns;
use vstd::utf8::{decode_utf8, encode_utf8, valid_utf8};

use crate::models::{Price, QuoteStatus};
use crate::text::string_from_utf8_bytes;

verus! {

/// `n` in `k` little-endian bytes.
pub open spec fn le_bytes(n: nat, k: nat) -> Seq<u8>
    decreases k,
{
    if k == 0 {
        Seq::empty()
    } else {
        seq![(n % 256) as u8] + le_bytes(n / 256, (k - 1) as nat)
    }
}

/// The number little-endian bytes denote.
pub open spec fn le_val(b: Seq<u8>) -> nat
    decreases b.len(),
{
    if b.len() == 0 {
        0
    } else {
        (b[0] + 256 * le_val(b.drop_first())) as nat
    }
}

/// 256 to the `k`.
pub open spec fn pow256(k: nat) -> nat
    decreases k,
{
    if k == 0 {
        1
    } else {
        256 * pow256((k - 1) as nat)
    }
}

pub proof fn lemma_le_bytes_len(n: nat, k: nat)
    ensures
        le_bytes(n, k).len() == k,
    decreases k,
{
    if k > 0 {
        lemma_le_bytes_len(n / 256, (k - 1) as nat);
    }
}

pub proof fn lemma_le_val_bound(b: Seq<u8>)
    ensures
        0 <= le_val(b) < pow256(b.len() as nat),
    decreases b.len(),
{
    if b.len() == 0 {
    } else {
        let t = b.drop_first();
        lemma_le_val_bound(t);
        assert(le_val(b) == b[0] + 256 * le_val(t));
        assert(b[0] < 256);
        assert(256 * le_val(t) <= 256 * (pow256(t.len() as nat) - 1)) by (nonlinear_arith)
            requires
                le_val(t) <= pow256(t.len() as nat) - 1,
        ;
    }
}

pub proof fn lemma_le_roundtrip(n: nat, k: nat)
    requires
        n < pow256(k),
    ensures
        le_val(le_bytes(n, k)) == n,
    decreases k,
{
    if k == 0 {
    } else {
        assert(n / 256 < pow256((k - 1) as nat)) by (nonlinear_arith)
            requires
                n < 256 * pow256((k - 1) as nat),
                n >= 0,
                pow256((k - 1) as nat) >= 0,
        ;
        lemma_le_roundtrip(n / 256, (k - 1) as nat);
        let b = le_bytes(n, k);
        assert(b.drop_first() =~= le_bytes(n / 256, (k - 1) as nat));
        assert(b[0] == (n % 256) as u8);
        assert(le_val(b) == n % 256 + 256 * (n / 256));
    }
}

pub proof fn lemma_pow256_8()
    ensures
        pow256(8) == 0x10000000000000000,
        pow256(4) == 0x100000000,
{
    reveal_with_fuel(pow256, 9);
}

/// Byte image of a `u64`.
pub open spec fn benc_u64(n: u64) -> Seq<u8> {
    le_bytes(n as nat, 8)
}

/// Spec twin of [`dec_u64`].
pub open spec fn sdec_u64(b: Seq<u8>, pos: int) -> Option<(u64, int)> {
    if 0 <= pos && pos + 8 <= b.len() {
        Some(((le_val(b.subrange(pos, pos + 8)) as u64), pos + 8))
    } else {
        None
    }
}

/// Appends the eight little-endian bytes of `n`.
pub fn enc_u64(out: &mut Vec<u8>, n: u64)
    ensures
        final(out)@ == old(out)@ + benc_u64(n),
{
    let b0 = (n % 256) as u8;
    let n1 = n / 256;
    let b1 = (n1 % 256) as u8;
    let n2 = n1 / 256;
    let b2 = (n2 % 256) as u8;
    let n3 = n2 / 256;
    let b3 = (n3 % 256) as u8;
    let n4 = n3 / 256;
    let b4 = (n4 % 256) as u8;
    let n5 = n4 / 256;
    let b5 = (n5 % 256) as u8;
    let n6 = n5 / 256;
    let b6 = (n6 % 256) as u8;
    let n7 = n6 / 256;
    let b7 = (n7 % 256) as u8;
    out.push(b0);
    out.push(b1);
    out.push(b2);
    out.push(b3);
    out.push(b4);
    out.push(b5);
    out.push(b6);
    out.push(b7);
    proof {
        reveal_with_fuel(le_bytes, 9);
        assert(n7 / 256 == 0);
        assert(le_bytes(n7 as nat / 256, 0) =~= Seq::<u8>::empty());
        assert(out@ =~= old(out)@ + benc_u64(n));
    }
}

/// Reads eight little-endian bytes at `pos`.
pub fn dec_u64(bytes: &Vec<u8>, pos: usize) -> (r: Option<(u64, usize)>)
    ensures
        match r {
            Some((n, p)) => sdec_u64(bytes@, pos as int) == Some((n, p as int)),
            None => sdec_u64(bytes@, pos as int) is None,
        },
{
    if bytes.len() < 8 || pos > bytes.len() - 8 {
        return None;
    }
    let b0 = bytes[pos] as u64;
    let b1 = bytes[pos + 1] as u64;
    let b2 = bytes[pos + 2] as u64;
    let b3 = bytes[pos + 3] as u64;
    let b4 = bytes[pos + 4] as u64;
    let b5 = bytes[pos + 5] as u64;
    let b6 = bytes[pos + 6] as u64;
    let b7 = bytes[pos + 7] as u64;
    let n = b0 + 256 * (b1 + 256 * (b2 + 256 * (b3 + 256 * (b4 + 256 * (b5 + 256 * (b6 + 256
        * b7))))));
    proof {
        let p = pos as int;
        let s0 = bytes@.subrange(p, p + 8);
        let s1 = bytes@.subrange(p + 1, p + 8);
        let s2 = bytes@.subrange(p + 2, p + 8);
        let s3 = bytes@.subrange(p + 3, p + 8);
        let s4 = bytes@.subrange(p + 4, p + 8);
        let s5 = bytes@.subrange(p + 5, p + 8);
        let s6 = bytes@.subrange(p + 6, p + 8);
        let s7 = bytes@.subrange(p + 7, p + 8);
        assert(s0.drop_first() =~= s1);
        assert(s1.drop_first() =~= s2);
        assert(s2.drop_first() =~= s3);
        assert(s3.drop_first() =~= s4);
        assert(s4.drop_first() =~= s5);
        assert(s5.drop_first() =~= s6);
        assert(s6.drop_first() =~= s7);
        assert(s7.drop_first() =~= Seq::<u8>::empty());
        assert(s0[0] == bytes@[p]);
        assert(s1[0] == bytes@[p + 1]);
        assert(s2[0] == bytes@[p + 2]);
        assert(s3[0] == bytes@[p + 3]);
        assert(s4[0] == bytes@[p + 4]);
        assert(s5[0] == bytes@[p + 5]);
        assert(s6[0] == bytes@[p + 6]);
        assert(s7[0] == bytes@[p + 7]);
        assert(le_val(Seq::<u8>::empty()) == 0);
        assert(le_val(s7) == b7 as nat);
        assert(le_val(s6) == b6 + 256 * le_val(s7));
        assert(le_val(s5) == b5 + 256 * le_val(s6));
        assert(le_val(s4) == b4 + 256 * le_val(s5));
        assert(le_val(s3) == b3 + 256 * le_val(s4));
        assert(le_val(s2) == b2 + 256 * le_val(s3));
        assert(le_val(s1) == b1 + 256 * le_val(s2));
        assert(le_val(s0) == n as nat);
        lemma_le_val_bound(s0);
    }
    Some((n, pos + 8))
}

/// Byte image of a tag or sign bit.
pub open spec fn benc_bool(v: bool) -> Seq<u8> {
    seq![if v { 1u8 } else { 0u8 }]
}

/// Spec twin of [`dec_bool`]: only the bytes `0` and `1` are accepted.
pub open spec fn sdec_bool(b: Seq<u8>, pos: int) -> Option<(bool, int)> {
    if 0 <= pos && pos + 1 <= b.len() && (b[pos] == 0u8 || b[pos] == 1u8) {
        Some((b[pos] == 1u8, pos + 1))
    } else {
        None
    }
}

/// Appends a one-byte flag.
pub fn enc_bool(out: &mut Vec<u8>, v: bool)
    ensures
        final(out)@ == old(out)@ + benc_bool(v),
{
    out.push(if v { 1 } else { 0 });
    proof {
        assert(out@ =~= old(out)@ + benc_bool(v));
    }
}

/// Reads a one-byte flag at `pos`.
pub fn dec_bool(bytes: &Vec<u8>, pos: usize) -> (r: Option<(bool, usize)>)
    ensures
        match r {
            Some((v, p)) => sdec_bool(bytes@, pos as int) == Some((v, p as int)),
            None => sdec_bool(bytes@, pos as int) is None,
        },
{
    if pos >= bytes.len() {
        return None;
    }
    let b = bytes[pos];
    if b == 0 {
        Some((false, pos + 1))
    } else if b == 1 {
        Some((true, pos + 1))
    } else {
        None
    }
}

/// Magnitude of a signed value.
pub open spec fn int_mag(v: int) -> nat {
    if v < 0 {
        (-v) as nat
    } else {
        v as nat
    }
}

/// Byte image of an `i64`: a sign byte, then the magnitude.
pub open spec fn benc_i64(v: i64) -> Seq<u8> {
    benc_bool(v < 0) + le_bytes(int_mag(v as int), 8)
}

/// Spec twin of [`dec_i64`]: the sign byte must be canonical (no negative
/// zero, magnitudes within `i64`).
pub open spec fn sdec_i64(b: Seq<u8>, pos: int) -> Option<(i64, int)> {
    match sdec_bool(b, pos) {
        Some((neg, p1)) => match sdec_u64(b, p1) {
            Some((mag, p2)) => if neg {
                if 1 <= mag <= 0x8000000000000000u64 {
                    Some(((-(mag as int)) as i64, p2))
                } else {
                    None
                }
            } else {
                if mag <= 0x7fffffffffffffffu64 {
                    Some((mag as i64, p2))
                } else {
                    None
                }
            },
            None => None,
        },
        None => None,
    }
}

/// Appends a signed value: sign byte, then magnitude.
pub fn enc_i64(out: &mut Vec<u8>, v: i64)
    ensures
        final(out)@ == old(out)@ + benc_i64(v),
{
    let neg = v < 0;
    enc_bool(out, neg);
    let mag: u64 = if v < 0 {
        (-(v as i128)) as u64
    } else {
        v as u64
    };
    proof {
        assert(mag as nat == int_mag(v as int));
    }
    enc_u64(out, mag);
    proof {
        assert(out@ =~= old(out)@ + benc_i64(v));
    }
}

/// Reads a signed value at `pos`.
pub fn dec_i64(bytes: &Vec<u8>, pos: usize) -> (r: Option<(i64, usize)>)
    ensures
        match r {
            Some((v, p)) => sdec_i64(bytes@, pos as int) == Some((v, p as int)),
            None => sdec_i64(bytes@, pos as int) is None,
        },
{
    let (neg, p1) = match dec_bool(bytes, pos) {
        Some(x) => x,
        None => {
            return None;
        },
    };
    let (mag, p2) = match dec_u64(bytes, p1) {
        Some(x) => x,
        None => {
            return None;
        },
    };
    if neg {
        if 1 <= mag && mag <= 0x8000000000000000u64 {
            let v = (-(mag as i128)) as i64;
            Some((v, p2))
        } else {
            None
        }
    } else {
        if mag <= 0x7fffffffffffffffu64 {
            Some((mag as i64, p2))
        } else {
            None
        }
    }
}

/// Round trip for the signed codec.
pub proof fn lemma_rt_i64(b: Seq<u8>, pos: int, v: i64)
    requires
        0 <= pos,
        pos + 9 <= b.len(),
        b.subrange(pos, pos + 9) == benc_i64(v),
    ensures
        sdec_i64(b, pos) == Some((v, pos + 9)),
{
    lemma_le_bytes_len(int_mag(v as int), 8);
    assert(b[pos] == benc_i64(v)[0]);
    assert(b.subrange(pos + 1, pos + 9) =~= benc_i64(v).subrange(1, 9));
    assert(benc_i64(v).subrange(1, 9) =~= le_bytes(int_mag(v as int), 8));
    lemma_pow256_8();
    lemma_le_roundtrip(int_mag(v as int), 8);
    assert(sdec_bool(b, pos) == Some((v < 0, pos + 1)));
    assert(b.subrange(pos + 1, pos + 1 + 8) =~= b.subrange(pos + 1, pos + 9));
    assert(le_val(b.subrange(pos + 1, pos + 9)) == int_mag(v as int));
}

/// Round trip for the unsigned codec.
pub proof fn lemma_rt_u64(b: Seq<u8>, pos: int, n: u64)
    requires
        0 <= pos,
        pos + 8 <= b.len(),
        b.subrange(pos, pos + 8) == benc_u64(n),
    ensures
        sdec_u64(b, pos) == Some((n, pos + 8)),
{
    lemma_pow256_8();
    lemma_le_roundtrip(n as nat, 8);
}

/// Round trip for the flag codec.
pub proof fn lemma_rt_bool(b: Seq<u8>, pos: int, v: bool)
    requires
        0 <= pos,
        pos + 1 <= b.len(),
        b.subrange(pos, pos + 1) == benc_bool(v),
    ensures
        sdec_bool(b, pos) == Some((v, pos + 1)),
{
    assert(b[pos] == benc_bool(v)[0]);
}

/// Byte image of a string: character count in bytes of its UTF-8 form,
/// then those bytes.
pub open spec fn benc_str(s: Seq<char>) -> Seq<u8> {
    le_bytes(encode_utf8(s).len() as nat, 8) + encode_utf8(s)
}

/// Spec twin of [`dec_str`].
pub open spec fn sdec_str(b: Seq<u8>, pos: int) -> Option<(Seq<char>, int)> {
    match sdec_u64(b, pos) {
        Some((l, p)) => if p + l <= b.len() && valid_utf8(b.subrange(p, p + l)) {
            Some((decode_utf8(b.subrange(p, p + l)), p + l))
        } else {
            None
        },
        None => None,
    }
}

/// Appends a length-prefixed string.
pub fn enc_str(out: &mut Vec<u8>, s: &str)
    ensures
        final(out)@ == old(out)@ + benc_str(s@),
{
    let mut utf8 = s.as_bytes_vec();
    enc_u64(out, utf8.len() as u64);
    out.append(&mut utf8);
    proof {
        assert(out@ =~= old(out)@ + benc_str(s@));
    }
}

/// Reads a length-prefixed string at `pos`.
pub fn dec_str(bytes: &Vec<u8>, pos: usize) -> (r: Option<(String, usize)>)
    ensures
        match r {
            Some((s, p)) => sdec_str(bytes@, pos as int) matches Some(t) && t.0 == s@ && t.1
                == p as int,
            None => sdec_str(bytes@, pos as int) is None,
        },
{
    let (l64, p) = match dec_u64(bytes, pos) {
        Some(x) => x,
        None => {
            return None;
        },
    };
    let total_len = bytes.len();
    let remaining = total_len - p;
    if l64 > remaining as u64 {
        return None;
    }
    let l = l64 as usize;
    let mut utf8: Vec<u8> = Vec::new();
    let mut i: usize = 0;
    while i < l
        invariant
            0 <= i <= l,
            p + l <= total_len,
            total_len == bytes@.len(),
            utf8@ =~= bytes@.subrange(p as int, p + i),
        decreases l - i,
    {
        utf8.push(bytes[p + i]);
        proof {
            assert(utf8@ =~= bytes@.subrange(p as int, p + i + 1));
        }
        i = i + 1;
    }
    match string_from_utf8_bytes(utf8) {
        Some(s) => Some((s, p + l)),
        None => None,
    }
}

/// Round trip for the string codec.
pub proof fn lemma_rt_str(b: Seq<u8>, pos: int, s: Seq<char>)
    requires
        0 <= pos,
        encode_utf8(s).len() < pow256(8),
        pos + benc_str(s).len() <= b.len(),
        b.subrange(pos, pos + benc_str(s).len()) == benc_str(s),
    ensures
        sdec_str(b, pos) == Some((s, pos + benc_str(s).len())),
        benc_str(s).len() == 8 + encode_utf8(s).len(),
{
    let u = encode_utf8(s);
    lemma_le_bytes_len(u.len() as nat, 8);
    let total = benc_str(s).len();
    assert(total == 8 + u.len());
    assert(b.subrange(pos, pos + 8) =~= benc_str(s).subrange(0, 8));
    assert(benc_str(s).subrange(0, 8) =~= le_bytes(u.len() as nat, 8));
    lemma_pow256_8();
    vstd::utf8::encode_utf8_valid_utf8(s);
    lemma_le_roundtrip(u.len() as nat, 8);
    assert(b.subrange(pos + 8, pos + total) =~= u) by {
        assert(b.subrange(pos + 8, pos + total) =~= benc_str(s).subrange(8, total as int));
        assert(benc_str(s).subrange(8, total as int) =~= u);
    }
    vstd::utf8::encode_utf8_decode_utf8(s);
}

/// Byte image of a fixed-point price.
pub open spec fn benc_price(p: Price) -> Seq<u8> {
    benc_i64(p.scaled)
}

/// Spec twin of [`dec_price`]: the price's fixed-point value.
pub open spec fn sdec_price(b: Seq<u8>, pos: int) -> Option<(int, int)> {
    match sdec_i64(b, pos) {
        Some((v, p)) => Some((v as int, p)),
        None => None,
    }
}

/// Appends a price.
pub fn enc_price(out: &mut Vec<u8>, p: Price)
    ensures
        final(out)@ == old(out)@ + benc_price(p),
{
    enc_i64(out, p.scaled);
}

/// Reads a price at `pos`.
pub fn dec_price(bytes: &Vec<u8>, pos: usize) -> (r: Option<(Price, usize)>)
    ensures
        match r {
            Some((v, p)) => sdec_price(bytes@, pos as int) == Some((v@, p as int)),
            None => sdec_price(bytes@, pos as int) is None,
        },
{
    match dec_i64(bytes, pos) {
        Some((v, p)) => Some((Price::from_scaled(v), p)),
        None => None,
    }
}

/// Round trip for the price codec.
pub proof fn lemma_rt_price(b: Seq<u8>, pos: int, p: Price)
    requires
        0 <= pos,
        pos + 9 <= b.len(),
        b.subrange(pos, pos + 9) == benc_price(p),
    ensures
        sdec_price(b, pos) == Some((p@, pos + 9)),
{
    lemma_rt_i64(b, pos, p.scaled);
}

/// Byte image of an optional price: a presence tag, then the price.
pub open spec fn benc_opt_price(o: Option<Price>) -> Seq<u8> {
    match o {
        Some(p) => benc_bool(true) + benc_price(p),
        None => benc_bool(false),
    }
}

/// Spec twin of [`dec_opt_price`].
pub open spec fn sdec_opt_price(b: Seq<u8>, pos: int) -> Option<(Option<int>, int)> {
    match sdec_bool(b, pos) {
        Some((present, p1)) => if present {
            match sdec_price(b, p1) {
                Some((v, p2)) => Some((Some(v), p2)),
                None => None,
            }
        } else {
            Some((None, p1))
        },
        None => None,
    }
}

/// Appends an optional price.
pub fn enc_opt_price(out: &mut Vec<u8>, o: &Option<Price>)
    ensures
        final(out)@ == old(out)@ + benc_opt_price(*o),
{
    match o {
        Some(p) => {
            enc_bool(out, true);
            enc_price(out, *p);
            proof {
                assert(out@ =~= old(out)@ + benc_opt_price(*o));
            }
        },
        None => {
            enc_bool(out, false);
        },
    }
}

/// Reads an optional price at `pos`.
pub fn dec_opt_price(bytes: &Vec<u8>, pos: usize) -> (r: Option<(Option<Price>, usize)>)
    ensures
        match r {
            Some((o, p)) => sdec_opt_price(bytes@, pos as int) matches Some(t) && t.0
                == crate::models::opt_price_view(o) && t.1 == p as int,
            None => sdec_opt_price(bytes@, pos as int) is None,
        },
{
    match dec_bool(bytes, pos) {
        Some((present, p1)) => {
            if present {
                match dec_price(bytes, p1) {
                    Some((v, p2)) => Some((Some(v), p2)),
                    None => None,
                }
            } else {
                Some((None, p1))
            }
        },
        None => None,
    }
}

/// Round trip for the optional-price codec.
pub proof fn lemma_rt_opt_price(b: Seq<u8>, pos: int, o: Option<Price>)
    requires
        0 <= pos,
        pos + benc_opt_price(o).len() <= b.len(),
        b.subrange(pos, pos + benc_opt_price(o).len()) == benc_opt_price(o),
    ensures
        sdec_opt_price(b, pos) == Some(
            (crate::models::opt_price_view(o), pos + benc_opt_price(o).len()),
        ),
{
    match o {
        Some(p) => {
            lemma_le_bytes_len(int_mag(p.scaled as int), 8);
            assert(benc_opt_price(o).len() == 10);
            assert(b.subrange(pos, pos + 1) =~= benc_bool(true)) by {
                assert(b[pos] == benc_opt_price(o)[0]);
            }
            lemma_rt_bool(b, pos, true);
            assert(b.subrange(pos + 1, pos + 10) =~= benc_price(p)) by {
                assert(forall|i: int|
                    0 <= i < 9 ==> #[trigger] b.subrange(pos + 1, pos + 10)[i]
                        == benc_opt_price(o)[i + 1]);
            }
            lemma_rt_price(b, pos + 1, p);
        },
        None => {
            assert(b.subrange(pos, pos + 1) =~= benc_bool(false)) by {
                assert(b[pos] == benc_opt_price(o)[0]);
            }
            lemma_rt_bool(b, pos, false);
        },
    }
}

/// Byte image of an optional string: a presence tag, then the string.
pub open spec fn benc_opt_str(o: Option<Seq<char>>) -> Seq<u8> {
    match o {
        Some(s) => benc_bool(true) + benc_str(s),
        None => benc_bool(false),
    }
}

/// Spec twin of [`dec_opt_str`].
pub open spec fn sdec_opt_str(b: Seq<u8>, pos: int) -> Option<(Option<Seq<char>>, int)> {
    match sdec_bool(b, pos) {
        Some((present, p1)) => if present {
            match sdec_str(b, p1) {
                Some((s, p2)) => Some((Some(s), p2)),
                None => None,
            }
        } else {
            Some((None, p1))
        },
        None => None,
    }
}

/// Appends an optional string.
pub fn enc_opt_str(out: &mut Vec<u8>, o: &Option<String>)
    ensures
        final(out)@ == old(out)@ + benc_opt_str(crate::models::opt_string_view(*o)),
{
    match o {
        Some(s) => {
            enc_bool(out, true);
            enc_str(out, s.as_str());
            proof {
                assert(out@ =~= old(out)@ + benc_opt_str(crate::models::opt_string_view(*o)));
            }
        },
        None => {
            enc_bool(out, false);
        },
    }
}

/// Reads an optional string at `pos`.
pub fn dec_opt_str(bytes: &Vec<u8>, pos: usize) -> (r: Option<(Option<String>, usize)>)
    ensures
        match r {
            Some((o, p)) => sdec_opt_str(bytes@, pos as int) matches Some(t) && t.0
                == crate::models::opt_string_view(o) && t.1 == p as int,
            None => sdec_opt_str(bytes@, pos as int) is None,
        },
{
    match dec_bool(bytes, pos) {
        Some((present, p1)) => {
            if present {
                match dec_str(bytes, p1) {
                    Some((s, p2)) => Some((Some(s), p2)),
                    None => None,
                }
            } else {
                Some((None, p1))
            }
        },
        None => None,
    }
}

/// Round trip for the optional-string codec.
pub proof fn lemma_rt_opt_str(b: Seq<u8>, pos: int, o: Option<Seq<char>>)
    requires
        0 <= pos,
        (o matches Some(s) ==> encode_utf8(s).len() < pow256(8)),
        pos + benc_opt_str(o).len() <= b.len(),
        b.subrange(pos, pos + benc_opt_str(o).len()) == benc_opt_str(o),
    ensures
        sdec_opt_str(b, pos) == Some((o, pos + benc_opt_str(o).len())),
{
    match o {
        Some(s) => {
            let total = benc_opt_str(o).len();
            assert(total == 1 + benc_str(s).len());
            assert(b.subrange(pos, pos + 1) =~= benc_bool(true)) by {
                assert(b[pos] == benc_opt_str(o)[0]);
            }
            lemma_rt_bool(b, pos, true);
            assert(b.subrange(pos + 1, pos + total) =~= benc_str(s)) by {
                assert(forall|i: int|
                    0 <= i < benc_str(s).len() ==> #[trigger] b.subrange(pos + 1, pos + total)[i]
                        == benc_opt_str(o)[i + 1]);
            }
            lemma_rt_str(b, pos + 1, s);
        },
        None => {
            assert(b.subrange(pos, pos + 1) =~= benc_bool(false)) by {
                assert(b[pos] == benc_opt_str(o)[0]);
            }
            lemma_rt_bool(b, pos, false);
        },
    }
}

/// Tag byte of a snapshot status.
pub open spec fn status_byte(s: QuoteStatus) -> u8 {
    match s {
        QuoteStatus::Fresh => 0u8,
        QuoteStatus::Stale => 1u8,
        QuoteStatus::Error => 2u8,
    }
}

/// Byte image of a snapshot status.
pub open spec fn benc_status(s: QuoteStatus) -> Seq<u8> {
    seq![status_byte(s)]
}

/// Spec twin of [`dec_status`].
pub open spec fn sdec_status(b: Seq<u8>, pos: int) -> Option<(QuoteStatus, int)> {
    if 0 <= pos && pos + 1 <= b.len() {
        if b[pos] == 0u8 {
            Some((QuoteStatus::Fresh, pos + 1))
        } else if b[pos] == 1u8 {
            Some((QuoteStatus::Stale, pos + 1))
        } else if b[pos] == 2u8 {
            Some((QuoteStatus::Error, pos + 1))
        } else {
            None
        }
    } else {
        None
    }
}

/// Appends a snapshot status tag.
pub fn enc_status(out: &mut Vec<u8>, s: QuoteStatus)
    ensures
        final(out)@ == old(out)@ + benc_status(s),
{
    let b: u8 = match s {
        QuoteStatus::Fresh => 0,
        QuoteStatus::Stale => 1,
        QuoteStatus::Error => 2,
    };
    out.push(b);
    proof {
        assert(out@ =~= old(out)@ + benc_status(s));
    }
}

/// Reads a snapshot status tag at `pos`.
pub fn dec_status(bytes: &Vec<u8>, pos: usize) -> (r: Option<(QuoteStatus, usize)>)
    ensures
        match r {
            Some((s, p)) => sdec_status(bytes@, pos as int) == Some((s, p as int)),
            None => sdec_status(bytes@, pos as int) is None,
        },
{
    if pos >= bytes.len() {
        return None;
    }
    let b = bytes[pos];
    if b == 0 {
        Some((QuoteStatus::Fresh, pos + 1))
    } else if b == 1 {
        Some((QuoteStatus::Stale, pos + 1))
    } else if b == 2 {
        Some((QuoteStatus::Error, pos + 1))
    } else {
        None
    }
}

/// Round trip for the status codec.
pub proof fn lemma_rt_status(b: Seq<u8>, pos: int, s: QuoteStatus)
    requires
        0 <= pos,
        pos + 1 <= b.len(),
        b.subrange(pos, pos + 1) == benc_status(s),
    ensures
        sdec_status(b, pos) == Some((s, pos + 1)),
{
    assert(b[pos] == benc_status(s)[0]);
}

/// Splits knowledge of a two-part concatenation at `pos` into its parts.
pub proof fn lemma_slice_two(b: Seq<u8>, pos: int, x: Seq<u8>, y: Seq<u8>)
    requires
        0 <= pos,
        pos + x.len() + y.len() <= b.len(),
        b.subrange(pos, pos + x.len() + y.len()) == x + y,
    ensures
        b.subrange(pos, pos + x.len()) == x,
        b.subrange(pos + x.len(), pos + x.len() + y.len()) == y,
{
    let whole = b.subrange(pos, pos + x.len() + y.len());
    assert(b.subrange(pos, pos + x.len()) =~= x) by {
        assert(forall|i: int|
            0 <= i < x.len() ==> #[trigger] b.subrange(pos, pos + x.len())[i] == whole[i]);
    }
    assert(b.subrange(pos + x.len(), pos + x.len() + y.len()) =~= y) by {
        assert(forall|i: int|
            0 <= i < y.len() ==> #[trigger] b.subrange(pos + x.len(), pos + x.len() + y.len())[i]
                == whole[x.len() + i]);
    }
}

/// A whitespace byte: space, tab, LF or CR.
pub open spec fn is_ws_byte(v: u8) -> bool {
    v == 32 || v == 9 || v == 10 || v == 13
}

/// Every byte is whitespace (true of the empty content).
pub open spec fn all_ws_bytes(b: Seq<u8>) -> bool {
    forall|i: int| 0 <= i < b.len() ==> is_ws_byte(#[trigger] b[i])
}

/// Tests file content for being blank: empty or whitespace only.
pub fn bytes_all_ws(b: &Vec<u8>) -> (r: bool)
    ensures
        r == all_ws_bytes(b@),
{
    let mut i: usize = 0;
    while i < b.len()
        invariant
            0 <= i <= b@.len(),
            forall|j: int| 0 <= j < i ==> is_ws_byte(#[trigger] b@[j]),
        decreases b@.len() - i,
    {
        let v = b[i];
        if !(v == 32 || v == 9 || v == 10 || v == 13) {
            return false;
        }
        i = i + 1;
    }
    true
}

} // verus!
