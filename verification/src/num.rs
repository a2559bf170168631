//! Decimal integer codec: parsing signed decimal tokens with the range rules
//! of `i32`, formatting in canonical decimal, and the proof that formatting
//! then parsing restores the value.
use crate::syntax::is_ws;
use crate::tokens::no_ws;
use vstd::prelude::*;

verus! {

pub open spec fn is_digit(b: u8) -> bool {
    48 <= b <= 57
}

pub open spec fn all_digits(s: Seq<u8>) -> bool {
    forall|i: int| 0 <= i < s.len() ==> is_digit(#[trigger] s[i])
}

/// Numeric value of a digit string, most significant digit first.
pub open spec fn digits_val(s: Seq<u8>) -> int
    decreases s.len(),
{
    if s.len() == 0 {
        0
    } else {
        digits_val(s.take(s.len() - 1)) * 10 + (s[s.len() - 1] - 48)
    }
}

/// The integer a decimal token denotes: an optional sign followed by at
/// least one digit, as `i32` reads from text. `None` when the token is
/// malformed.
pub open spec fn int_token_value(s: Seq<u8>) -> Option<int> {
    if s.len() > 0 && (s[0] == 43 || s[0] == 45) {
        if s.len() > 1 && all_digits(s.skip(1)) {
            if s[0] == 45 {
                Some(-digits_val(s.skip(1)))
            } else {
                Some(digits_val(s.skip(1)))
            }
        } else {
            None
        }
    } else {
        if s.len() > 0 && all_digits(s) {
            Some(digits_val(s))
        } else {
            None
        }
    }
}

/// What parsing a token as an `i32` returns: the denoted integer when it
/// exists and fits, otherwise nothing.
pub open spec fn spec_parse_i32(s: Seq<u8>) -> Option<i32> {
    match int_token_value(s) {
        Some(v) => if i32::MIN <= v <= i32::MAX {
            Some(v as i32)
        } else {
            None
        },
        None => None,
    }
}

pub proof fn lemma_digits_val_nonneg(s: Seq<u8>)
    requires
        all_digits(s),
    ensures
        digits_val(s) >= 0,
    decreases s.len(),
{
    if s.len() > 0 {
        assert(all_digits(s.take(s.len() - 1))) by {
            assert(forall|i: int|
                0 <= i < s.len() - 1 ==> #[trigger] s.take(s.len() - 1)[i] == s[i]);
        }
        lemma_digits_val_nonneg(s.take(s.len() - 1));
    }
}

/// Extending a digit string multiplies its value by ten and adds the digit.
pub proof fn lemma_digits_val_step(s: Seq<u8>, i: int)
    requires
        0 <= i < s.len(),
    ensures
        digits_val(s.take(i + 1)) == digits_val(s.take(i)) * 10 + (s[i] - 48),
{
    let p = s.take(i + 1);
    assert(p.take(p.len() - 1) =~= s.take(i));
    assert(p[p.len() - 1] == s[i]);
}

/// A digit string's value only grows when more digits follow.
pub proof fn lemma_digits_val_grows(s: Seq<u8>, i: int)
    requires
        all_digits(s),
        0 <= i <= s.len(),
    ensures
        digits_val(s) >= digits_val(s.take(i)),
    decreases s.len() - i,
{
    if i == s.len() {
        assert(s.take(i) =~= s);
    } else {
        lemma_digits_val_step(s, i);
        assert(all_digits(s.take(i))) by {
            assert(forall|j: int| 0 <= j < i ==> #[trigger] s.take(i)[j] == s[j]);
        }
        lemma_digits_val_nonneg(s.take(i));
        assert(digits_val(s.take(i + 1)) >= digits_val(s.take(i)));
        lemma_digits_val_grows(s, i + 1);
    }
}

/// Parse a decimal token as an `i32`.
pub fn parse_i32_bytes(s: &[u8]) -> (r: Option<i32>)
    ensures
        r == spec_parse_i32(s@),
{
    let mut i: usize = 0;
    let mut neg: bool = false;
    if s.len() > 0 && (s[0] == 43 || s[0] == 45) {
        neg = s[0] == 45;
        i = 1;
    }
    let ghost digs = s@.skip(i as int);
    let start = i;
    if i == s.len() {
        return None;
    }
    let mut acc: i64 = 0;
    while i < s.len()
        invariant
            start <= i <= s@.len(),
            start == 0 || start == 1,
            start < s@.len(),
            digs == s@.skip(start as int),
            0 <= acc <= 0x8000_0000i64,
            acc == digits_val(digs.take(i - start)),
            all_digits(digs.take(i - start)),
            start == 1 ==> (s@[0] == 43 || s@[0] == 45) && neg == (s@[0] == 45),
            start == 0 ==> !(s@[0] == 43 || s@[0] == 45) && !neg,
        decreases s@.len() - i,
    {
        let b = s[i];
        proof {
            assert(digs[i - start] == s@[i as int]);
        }
        if !(48 <= b && b <= 57) {
            proof {
                assert(!all_digits(digs)) by {
                    assert(!is_digit(digs[i - start]));
                }
            }
            return None;
        }
        proof {
            lemma_digits_val_step(digs, i - start);
            assert(all_digits(digs.take(i - start + 1))) by {
                assert(forall|j: int|
                    0 <= j < i - start + 1 ==> #[trigger] digs.take(i - start + 1)[j] == digs[j]);
            }
        }
        let d: i64 = (b - 48) as i64;
        if acc > 214748364 || (acc == 214748364 && d > 8) {
            proof {
                if all_digits(digs) {
                    assert(digits_val(digs.take(i - start + 1)) >= 0x8000_0001i64) by {
                        lemma_digits_val_nonneg(digs.take(i - start));
                    }
                    lemma_digits_val_grows(digs, i - start + 1);
                    let v = int_token_value(s@);
                    if start == 1 {
                        assert(s@.skip(1) == digs);
                    } else {
                        assert(digs =~= s@);
                        assert(digs.len() > 0 && is_digit(digs[0]));
                    }
                    assert(v matches Some(x) && (x > i32::MAX || x < i32::MIN));
                } else {
                    if start == 1 {
                        assert(s@.skip(1) == digs);
                    } else {
                        assert(digs =~= s@);
                    }
                }
            }
            return None;
        }
        acc = acc * 10 + d;
        i = i + 1;
    }
    proof {
        assert(digs.take(i - start) =~= digs);
        if start == 0 {
            assert(digs =~= s@);
            assert(digs.len() > 0 && is_digit(digs[0]));
        } else {
            assert(s@.skip(1) == digs);
        }
    }
    if neg {
        if acc > 0x8000_0000i64 {
            return None;
        }
        proof {
            assert(int_token_value(s@) == Some(-digits_val(digs)));
        }
        Some((-acc) as i32)
    } else {
        if acc > 0x7fff_ffffi64 {
            return None;
        }
        Some(acc as i32)
    }
}

/// Canonical decimal digits of a non-negative integer.
pub open spec fn dec_nat(n: int) -> Seq<u8>
    decreases n,
{
    if n < 10 {
        seq![(48 + if n >= 0 { n } else { 0 }) as u8]
    } else {
        dec_nat(n / 10).push((48 + n % 10) as u8)
    }
}

/// Canonical decimal text of an integer, as `i32` prints.
pub open spec fn dec_int(x: int) -> Seq<u8> {
    if x < 0 {
        seq![45u8] + dec_nat(-x)
    } else {
        dec_nat(x)
    }
}

pub proof fn lemma_dec_nat_digits(n: int)
    requires
        n >= 0,
    ensures
        dec_nat(n).len() > 0,
        all_digits(dec_nat(n)),
        digits_val(dec_nat(n)) == n,
    decreases n,
{
    if n < 10 {
        let s = dec_nat(n);
        assert(s.take(s.len() - 1) =~= Seq::<u8>::empty());
        assert(digits_val(Seq::<u8>::empty()) == 0);
        assert(s[0] == (48 + n) as u8);
        assert(digits_val(s) == digits_val(s.take(s.len() - 1)) * 10 + (s[s.len() - 1] - 48));
        assert(digits_val(s) == n);
    } else {
        lemma_dec_nat_digits(n / 10);
        let p = dec_nat(n / 10);
        let s = dec_nat(n);
        assert(s == p.push((48 + n % 10) as u8));
        assert(s.take(s.len() - 1) =~= p);
        assert(all_digits(s)) by {
            assert(forall|i: int| 0 <= i < p.len() ==> s[i] == p[i]);
            assert(is_digit(s[s.len() - 1]));
        }
        assert(digits_val(s) == digits_val(p) * 10 + (n % 10));
    }
}

/// Formatting an `i32` and reading the text back restores the value.
pub proof fn lemma_i32_round_trip(x: i32)
    ensures
        spec_parse_i32(dec_int(x as int)) == Some(x),
{
    if x >= 0 {
        lemma_dec_nat_digits(x as int);
        let s = dec_int(x as int);
        assert(s[0] != 43 && s[0] != 45);
        assert(int_token_value(s) == Some(digits_val(s)));
    } else {
        lemma_dec_nat_digits(-(x as int));
        let s = dec_int(x as int);
        assert(s[0] == 45);
        assert(s.skip(1) =~= dec_nat(-(x as int)));
        assert(s.len() > 1);
        assert(int_token_value(s) == Some(-digits_val(dec_nat(-(x as int)))));
    }
}

/// The decimal text of an integer holds no whitespace.
pub proof fn lemma_dec_int_no_ws(x: int)
    ensures
        dec_int(x).len() > 0,
        no_ws(dec_int(x)),
{
    lemma_dec_nat_no_ws(if x < 0 {
        -x
    } else {
        x
    });
    if x < 0 {
        let s = dec_int(x);
        assert(forall|i: int| 1 <= i < s.len() ==> s[i] == dec_nat(-x)[i - 1]);
        assert(!is_ws(s[0]));
    }
}

pub proof fn lemma_dec_nat_no_ws(n: int)
    requires
        n >= 0,
    ensures
        dec_nat(n).len() > 0,
        no_ws(dec_nat(n)),
    decreases n,
{
    if n < 10 {
    } else {
        lemma_dec_nat_no_ws(n / 10);
        let p = dec_nat(n / 10);
        let s = dec_nat(n);
        assert(no_ws(s)) by {
            assert(forall|i: int| 0 <= i < p.len() ==> s[i] == p[i]);
            assert(!is_ws(s[s.len() - 1]));
        }
    }
}

/// Append the canonical decimal digits of `n` to `out`.
pub fn push_dec_u64(n: u64, out: &mut Vec<u8>)
    ensures
        final(out)@ == old(out)@ + dec_nat(n as int),
    decreases n,
{
    if n < 10 {
        out.push(48 + n as u8);
        proof {
            assert(out@ =~= old(out)@ + dec_nat(n as int));
        }
    } else {
        push_dec_u64(n / 10, out);
        out.push(48 + (n % 10) as u8);
        proof {
            assert(out@ =~= old(out)@ + dec_nat(n as int));
        }
    }
}

/// Append the canonical decimal text of `x` to `out`.
pub fn push_dec_i32(x: i32, out: &mut Vec<u8>)
    ensures
        final(out)@ == old(out)@ + dec_int(x as int),
{
    if x < 0 {
        out.push(45);
        let m: u64 = (-(x as i64)) as u64;
        push_dec_u64(m, out);
        proof {
            assert(out@ =~= old(out)@ + dec_int(x as int));
        }
    } else {
        push_dec_u64(x as u64, out);
    }
}

} // verus!
