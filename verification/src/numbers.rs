//! Decimal price texts. The accepted grammar is an optional `-`, one to
//! fourteen integer digits, and an optional `.` followed by any number of
//! fraction digits; the value is read to four decimal places (further
//! fraction digits are truncated) into a fixed-point [`Price`].

use vstd::prelude::*;

use crate::models::Price;

verus! {

/// `c` is a decimal digit.
pub open spec fn is_digit(c: char) -> bool {
    '0' <= c && c <= '9'
}

/// Numeric value of a digit character.
pub open spec fn digit_val(c: char) -> int {
    c as u32 - 48
}

/// Every character of `s` is a decimal digit.
pub open spec fn all_digits(s: Seq<char>) -> bool {
    forall|i: int| 0 <= i < s.len() ==> is_digit(#[trigger] s[i])
}

/// The number the digit string `s` denotes, most significant digit first.
pub open spec fn digits_val(s: Seq<char>) -> int
    decreases s.len(),
{
    if s.len() == 0 {
        0
    } else {
        digits_val(s.drop_last()) * 10 + digit_val(s.last())
    }
}

/// Ten to the `n`.
pub open spec fn pow10(n: nat) -> int
    decreases n,
{
    if n == 0 {
        1
    } else {
        10 * pow10((n - 1) as nat)
    }
}

/// Length of the longest digit prefix of `s`.
pub open spec fn digit_prefix_len(s: Seq<char>) -> int
    decreases s.len(),
{
    if s.len() > 0 && is_digit(s[0]) {
        1 + digit_prefix_len(s.drop_first())
    } else {
        0
    }
}

/// Value of a fraction digit string read to four places: `"25"` counts as
/// `2500`, `"250075"` is truncated to `2500`.
pub open spec fn frac_value(fp: Seq<char>) -> int {
    if fp.len() >= 4 {
        digits_val(fp.take(4))
    } else if fp.len() == 3 {
        digits_val(fp) * 10
    } else if fp.len() == 2 {
        digits_val(fp) * 100
    } else if fp.len() == 1 {
        digits_val(fp) * 1000
    } else {
        0
    }
}

/// The fixed-point value (in ten-thousandths) that the text `s` denotes
/// under this module's grammar, or `None` where `s` does not fit it.
pub open spec fn price_of_text(s: Seq<char>) -> Option<int> {
    let neg = s.len() > 0 && s[0] == '-';
    let body = if neg {
        s.drop_first()
    } else {
        s
    };
    let ipn = digit_prefix_len(body);
    if ipn == 0 || ipn > 14 {
        None
    } else {
        let magnitude = digits_val(body.take(ipn)) * 10000;
        if ipn == body.len() {
            Some(if neg { -magnitude } else { magnitude })
        } else if body[ipn] == '.' && all_digits(body.skip(ipn + 1)) {
            let v = magnitude + frac_value(body.skip(ipn + 1));
            Some(if neg { -v } else { v })
        } else {
            None
        }
    }
}

proof fn lemma_digits_val_bound(s: Seq<char>)
    requires
        all_digits(s),
    ensures
        0 <= digits_val(s) < pow10(s.len() as nat),
    decreases s.len(),
{
    if s.len() == 0 {
    } else {
        let t = s.drop_last();
        assert(forall|i: int| 0 <= i < t.len() ==> is_digit(#[trigger] t[i]));
        lemma_digits_val_bound(t);
        assert(is_digit(s.last()));
        assert(0 <= digit_val(s.last()) <= 9);
    }
}

proof fn lemma_digit_prefix_len_exact(s: Seq<char>, k: int)
    requires
        0 <= k <= s.len(),
        forall|j: int| 0 <= j < k ==> is_digit(#[trigger] s[j]),
        k < s.len() ==> !is_digit(s[k]),
    ensures
        digit_prefix_len(s) == k,
    decreases k,
{
    if k == 0 {
    } else {
        let t = s.drop_first();
        assert(forall|j: int| 0 <= j < k - 1 ==> is_digit(#[trigger] t[j]));
        lemma_digit_prefix_len_exact(t, k - 1);
    }
}

proof fn lemma_digit_prefix_props(s: Seq<char>)
    ensures
        0 <= digit_prefix_len(s) <= s.len(),
        forall|j: int| 0 <= j < digit_prefix_len(s) ==> is_digit(#[trigger] s[j]),
        digit_prefix_len(s) < s.len() ==> !is_digit(s[digit_prefix_len(s)]),
    decreases s.len(),
{
    if s.len() > 0 && is_digit(s[0]) {
        let t = s.drop_first();
        lemma_digit_prefix_props(t);
        assert(forall|j: int| 0 <= j < digit_prefix_len(s) ==> is_digit(#[trigger] s[j])) by {
            assert(forall|j: int| 1 <= j < s.len() ==> s[j] == t[j - 1]);
            assert(forall|j: int|
                0 <= j < digit_prefix_len(t) ==> is_digit(#[trigger] t[j]));
        }
    }
}

proof fn lemma_pow10_13()
    ensures
        pow10(13) == 10000000000000,
        pow10(14) == 100000000000000,
{
    reveal_with_fuel(pow10, 15);
}

proof fn lemma_digits_val_step(s: Seq<char>, k: int)
    requires
        0 <= k < s.len(),
    ensures
        digits_val(s.take(k + 1)) == digits_val(s.take(k)) * 10 + digit_val(s[k]),
{
    assert(s.take(k + 1).drop_last() =~= s.take(k));
    assert(s.take(k + 1).last() == s[k]);
}

/// Reads a digit run of `s` starting at `from`, returning its length and,
/// when it has one to fourteen digits, its value.
fn scan_digits(s: &str, n: usize, from: usize) -> (r: (usize, Option<i64>))
    requires
        n == s@.len(),
        from <= n,
    ensures
        r.0 == digit_prefix_len(s@.skip(from as int)),
        from + r.0 <= n,
        match r.1 {
            Some(v) => 1 <= r.0 <= 14 && v == digits_val(
                s@.skip(from as int).take(r.0 as int),
            ) && 0 <= v < 100000000000000,
            None => r.0 == 0 || r.0 > 14,
        },
{
    let ghost body = s@.skip(from as int);
    let mut k: usize = 0;
    let mut acc: i64 = 0;
    let mut overflowed = false;
    loop
        invariant
            from + k <= n,
            from <= n,
            n == s@.len(),
            body == s@.skip(from as int),
            forall|j: int| 0 <= j < k ==> is_digit(#[trigger] body[j]),
            !overflowed ==> k <= 14 && acc == digits_val(body.take(k as int)) && 0 <= acc
                < 100000000000000,
            overflowed ==> k > 14,
        ensures
            from + k <= n,
            forall|j: int| 0 <= j < k ==> is_digit(#[trigger] body[j]),
            k < body.len() ==> !is_digit(body[k as int]),
            !overflowed ==> k <= 14 && acc == digits_val(body.take(k as int)) && 0 <= acc
                < 100000000000000,
            overflowed ==> k > 14,
        decreases n - from - k,
    {
        if from + k >= n {
            break;
        }
        let c = s.get_char(from + k);
        let u = c as u32;
        proof {
            assert(body[k as int] == s@[from + k]);
        }
        if !(48 <= u && u <= 57) {
            break;
        }
        let d = (u - 48) as i64;
        proof {
            lemma_pow10_13();
        }
        if !overflowed {
            if k == 14 {
                overflowed = true;
            } else {
                proof {
                    lemma_digits_val_step(body, k as int);
                    let p = body.take(k as int);
                    assert(forall|j: int| 0 <= j < p.len() ==> is_digit(#[trigger] p[j]));
                    lemma_digits_val_bound(p);
                    lemma_pow10_monotone(p.len() as nat, 13);
                }
                acc = acc * 10 + d;
                proof {
                    let q = body.take(k + 1);
                    assert(forall|j: int| 0 <= j < q.len() ==> is_digit(#[trigger] q[j]));
                    lemma_digits_val_bound(q);
                    lemma_pow10_monotone(q.len() as nat, 14);
                }
            }
        }
        k = k + 1;
    }
    proof {
        lemma_digit_prefix_len_exact(body, k as int);
    }
    if overflowed || k == 0 {
        (k, None)
    } else {
        (k, Some(acc))
    }
}

proof fn lemma_pow10_monotone(a: nat, b: nat)
    requires
        a <= b,
    ensures
        pow10(a) <= pow10(b),
        pow10(a) >= 1,
    decreases b,
{
    if b > 0 {
        if a == b {
            lemma_pow10_monotone((a - 1) as nat, (b - 1) as nat);
        } else {
            lemma_pow10_monotone(a, (b - 1) as nat);
        }
    }
}

/// Parses a decimal price text into a fixed-point [`Price`], exactly when
/// `price_of_text` accepts it.
pub fn parse_price_text(s: &str) -> (r: Option<Price>)
    ensures
        match r {
            Some(p) => price_of_text(s@) == Some(p@),
            None => price_of_text(s@) is None,
        },
{
    let n = s.unicode_len();
    let neg = n > 0 && s.get_char(0) == '-';
    let from: usize = if neg {
        1
    } else {
        0
    };
    let ghost body = s@.skip(from as int);
    proof {
        if !neg {
            assert(body =~= s@);
        } else {
            assert(body =~= s@.drop_first());
        }
    }
    let (ipn, int_part) = scan_digits(s, n, from);
    let magnitude10k: i64 = match int_part {
        Some(v) => v * 10000,
        None => {
            return None;
        },
    };
    let after_ip = from + ipn;
    let total: i64 = if after_ip == n {
        magnitude10k
    } else if s.get_char(after_ip) == '.' {
        let ghost fp = s@.skip(after_ip + 1);
        proof {
            assert(body[ipn as int] == s@[after_ip as int]);
            assert(fp =~= body.skip(ipn + 1));
        }
        let (fpn, _) = scan_digits(s, n, after_ip + 1);
        if after_ip + 1 + fpn != n {
            proof {
                lemma_digit_prefix_props(fp);
                assert(!is_digit(fp[fpn as int]));
                assert(!all_digits(fp)) by {
                    if all_digits(fp) {
                        assert(is_digit(fp[fpn as int]));
                    }
                }
            }
            return None;
        }
        proof {
            lemma_digit_prefix_props(fp);
            assert(all_digits(fp));
        }
        let f0 = read_frac_digit(s, n, after_ip + 1, 0);
        let f1 = read_frac_digit(s, n, after_ip + 1, 1);
        let f2 = read_frac_digit(s, n, after_ip + 1, 2);
        let f3 = read_frac_digit(s, n, after_ip + 1, 3);
        let frac: i64 = f0 * 1000 + f1 * 100 + f2 * 10 + f3;
        proof {
            lemma_frac_value_digits(fp);
        }
        magnitude10k + frac
    } else {
        proof {
            assert(body[ipn as int] == s@[after_ip as int]);
        }
        return None;
    };
    let scaled = if neg {
        -total
    } else {
        total
    };
    Some(Price::from_scaled(scaled))
}

/// The `idx`-th fraction digit (zero when the fraction is shorter).
fn read_frac_digit(s: &str, n: usize, from: usize, idx: usize) -> (r: i64)
    requires
        n == s@.len(),
        from <= n,
        all_digits(s@.skip(from as int)),
        idx < 4,
    ensures
        ({
            let fp = s@.skip(from as int);
            if idx < fp.len() {
                r == digit_val(fp[idx as int])
            } else {
                r == 0
            }
        }),
        0 <= r <= 9,
{
    if idx < n - from {
        let c = s.get_char(from + idx);
        proof {
            assert(s@.skip(from as int)[idx as int] == s@[from + idx]);
            assert(is_digit(s@.skip(from as int)[idx as int]));
        }
        (c as u32 - 48) as i64
    } else {
        0
    }
}

proof fn lemma_frac_value_digits(fp: Seq<char>)
    requires
        all_digits(fp),
    ensures
        frac_value(fp) == (if fp.len() > 0 {
            digit_val(fp[0])
        } else {
            0
        }) * 1000 + (if fp.len() > 1 {
            digit_val(fp[1])
        } else {
            0
        }) * 100 + (if fp.len() > 2 {
            digit_val(fp[2])
        } else {
            0
        }) * 10 + (if fp.len() > 3 {
            digit_val(fp[3])
        } else {
            0
        }),
        0 <= frac_value(fp) <= 9999,
{
    if fp.len() >= 4 {
        let q = fp.take(4);
        lemma_digits_val_step(fp, 0);
        lemma_digits_val_step(fp, 1);
        lemma_digits_val_step(fp, 2);
        lemma_digits_val_step(fp, 3);
        assert(fp.take(0) =~= Seq::<char>::empty());
        assert(digits_val(fp.take(0)) == 0);
        assert(q == fp.take(4));
    } else if fp.len() == 3 {
        lemma_digits_val_step(fp, 0);
        lemma_digits_val_step(fp, 1);
        lemma_digits_val_step(fp, 2);
        assert(fp.take(0) =~= Seq::<char>::empty());
        assert(fp.take(3) =~= fp);
    } else if fp.len() == 2 {
        lemma_digits_val_step(fp, 0);
        lemma_digits_val_step(fp, 1);
        assert(fp.take(0) =~= Seq::<char>::empty());
        assert(fp.take(2) =~= fp);
    } else if fp.len() == 1 {
        lemma_digits_val_step(fp, 0);
        assert(fp.take(0) =~= Seq::<char>::empty());
        assert(fp.take(1) =~= fp);
    }
}

} // verus!
