//! The decimal floating-point token grammar: an optional sign, digits with
//! an optional fraction part, an optional exponent part; or a signed
//! `inf`/`infinity`/`nan` word, case-insensitive. A field of a record is a
//! float field exactly when its token matches this grammar; the token itself
//! is what the record stores, so writing it back is byte-exact.
use crate::num::is_digit;
use crate::syntax::is_ws;
use crate::tokens::no_ws;
use vstd::prelude::*;

verus! {

/// Length of the optional leading sign.
pub open spec fn sign_len(s: Seq<u8>) -> int {
    if s.len() > 0 && (s[0] == 43 || s[0] == 45) {
        1
    } else {
        0
    }
}

/// First position at or after `from` that does not hold a digit.
pub open spec fn digits_end(s: Seq<u8>, from: int) -> int
    decreases s.len() - from,
{
    if from < 0 || from >= s.len() || !is_digit(s[from]) {
        from
    } else {
        digits_end(s, from + 1)
    }
}

pub proof fn lemma_digits_end(s: Seq<u8>, from: int)
    requires
        0 <= from <= s.len(),
    ensures
        from <= digits_end(s, from) <= s.len(),
        forall|j: int| from <= j < digits_end(s, from) ==> is_digit(#[trigger] s[j]),
        digits_end(s, from) < s.len() ==> !is_digit(s[digits_end(s, from)]),
    decreases s.len() - from,
{
    if from < s.len() && is_digit(s[from]) {
        lemma_digits_end(s, from + 1);
    }
}

/// A plain decimal number token: what a full parse of a decimal float
/// accepts outside the `inf`/`nan` words.
pub open spec fn is_number_token(s: Seq<u8>) -> bool {
    let i0 = sign_len(s);
    let i1 = digits_end(s, i0);
    let frac = i1 < s.len() && s[i1] == 46;
    let i2 = if frac {
        i1 + 1
    } else {
        i1
    };
    let i3 = if frac {
        digits_end(s, i1 + 1)
    } else {
        i1
    };
    let ndig = (i1 - i0) + (i3 - i2);
    if ndig == 0 {
        false
    } else if i3 == s.len() {
        true
    } else if s[i3] == 101 || s[i3] == 69 {
        let j = i3 + 1;
        let k = if j < s.len() && (s[j] == 43 || s[j] == 45) {
            j + 1
        } else {
            j
        };
        k < s.len() && digits_end(s, k) == s.len()
    } else {
        false
    }
}

/// Lower/upper-case variants of a lower-case ASCII word.
pub open spec fn eq_word_ci(s: Seq<u8>, w: Seq<u8>) -> bool {
    s.len() == w.len() && forall|i: int|
        0 <= i < s.len() ==> s[i] == w[i] || #[trigger] s[i] == w[i] - 32
}

pub open spec fn nan_word() -> Seq<u8> {
    seq![110u8, 97u8, 110u8]
}

pub open spec fn inf_word() -> Seq<u8> {
    seq![105u8, 110u8, 102u8]
}

pub open spec fn infinity_word() -> Seq<u8> {
    seq![105u8, 110u8, 102u8, 105u8, 110u8, 105u8, 116u8, 121u8]
}

/// A signed `nan`, `inf` or `infinity` word, case-insensitive.
pub open spec fn is_infnan_token(s: Seq<u8>) -> bool {
    let r = s.skip(sign_len(s));
    eq_word_ci(r, nan_word()) || eq_word_ci(r, inf_word()) || eq_word_ci(r, infinity_word())
}

/// The whole decimal floating-point token grammar.
pub open spec fn is_float_token(s: Seq<u8>) -> bool {
    is_number_token(s) || is_infnan_token(s)
}

/// First position at or after `from` in `s` that holds no digit.
pub fn find_digits_end(s: &[u8], from: usize) -> (r: usize)
    requires
        from <= s@.len(),
    ensures
        r == digits_end(s@, from as int),
        from <= r <= s@.len(),
{
    let mut i: usize = from;
    while i < s.len() && 48 <= s[i] && s[i] <= 57
        invariant
            from <= i <= s@.len(),
            digits_end(s@, from as int) == digits_end(s@, i as int),
        decreases s@.len() - i,
    {
        i = i + 1;
    }
    i
}

fn eq_word_ci_exec(s: &[u8], lo: usize, w: &[u8]) -> (r: bool)
    requires
        lo <= s@.len(),
    ensures
        r == eq_word_ci(s@.skip(lo as int), w@),
{
    let rest_len = s.len() - lo;
    if rest_len != w.len() {
        return false;
    }
    let mut p: usize = lo;
    while p < s.len()
        invariant
            lo <= p <= s@.len(),
            lo + w@.len() == s@.len(),
            forall|j: int|
                0 <= j < p - lo ==> s@.skip(lo as int)[j] == w@[j] || #[trigger] s@.skip(
                    lo as int,
                )[j] == w@[j] - 32,
        decreases s@.len() - p,
    {
        let b = s[p];
        let i = p - lo;
        proof {
            assert(s@.skip(lo as int)[i as int] == s@[p as int]);
        }
        if !(b == w[i] || (w[i] >= 32 && b == w[i] - 32)) {
            proof {
                let rest = s@.skip(lo as int);
                assert(!eq_word_ci(rest, w@)) by {
                    assert(rest[i as int] != w@[i as int] && rest[i as int] != w@[i as int] - 32);
                }
            }
            return false;
        }
        p = p + 1;
    }
    true
}

/// Whether `s` is a decimal floating-point token.
pub fn check_float_token(s: &[u8]) -> (r: bool)
    ensures
        r == is_float_token(s@),
{
    let i0: usize = if s.len() > 0 && (s[0] == 43 || s[0] == 45) {
        1
    } else {
        0
    };
    proof {
        assert(i0 as int == sign_len(s@));
    }
    let number = check_number_from(s, i0);
    if number {
        return true;
    }
    let mut nan3: Vec<u8> = Vec::new();
    nan3.push(110);
    nan3.push(97);
    nan3.push(110);
    let mut inf3: Vec<u8> = Vec::new();
    inf3.push(105);
    inf3.push(110);
    inf3.push(102);
    let mut inf8: Vec<u8> = Vec::new();
    inf8.push(105);
    inf8.push(110);
    inf8.push(102);
    inf8.push(105);
    inf8.push(110);
    inf8.push(105);
    inf8.push(116);
    inf8.push(121);
    proof {
        assert(nan3@ =~= nan_word());
        assert(inf3@ =~= inf_word());
        assert(inf8@ =~= infinity_word());
    }
    eq_word_ci_exec(s, i0, nan3.as_slice()) || eq_word_ci_exec(s, i0, inf3.as_slice())
        || eq_word_ci_exec(s, i0, inf8.as_slice())
}

fn check_number_from(s: &[u8], i0: usize) -> (r: bool)
    requires
        i0 as int == sign_len(s@),
        i0 <= s@.len(),
    ensures
        r == is_number_token(s@),
{
    let i1 = find_digits_end(s, i0);
    let frac = i1 < s.len() && s[i1] == 46;
    let i2 = if frac {
        i1 + 1
    } else {
        i1
    };
    let i3 = if frac {
        find_digits_end(s, i1 + 1)
    } else {
        i1
    };
    let ndig = (i1 - i0) + (i3 - i2);
    if ndig == 0 {
        return false;
    }
    if i3 == s.len() {
        return true;
    }
    if s[i3] == 101 || s[i3] == 69 {
        let j = i3 + 1;
        let k = if j < s.len() && (s[j] == 43 || s[j] == 45) {
            j + 1
        } else {
            j
        };
        k < s.len() && find_digits_end(s, k) == s.len()
    } else {
        false
    }
}

/// A float token is non-empty and holds no whitespace.
pub proof fn lemma_float_token_no_ws(s: Seq<u8>)
    requires
        is_float_token(s),
    ensures
        s.len() > 0,
        no_ws(s),
{
    let i0 = sign_len(s);
    if is_number_token(s) {
        let i1 = digits_end(s, i0);
        lemma_digits_end(s, i0);
        let frac = i1 < s.len() && s[i1] == 46;
        let i2 = if frac {
            i1 + 1
        } else {
            i1
        };
        let i3 = if frac {
            digits_end(s, i1 + 1)
        } else {
            i1
        };
        if frac {
            lemma_digits_end(s, i1 + 1);
        }
        if i3 == s.len() {
            assert forall|i: int| 0 <= i < s.len() implies !is_ws(#[trigger] s[i]) by {
                if i < i0 {
                } else if i < i1 {
                } else if frac && i == i1 {
                } else {
                    assert(is_digit(s[i]));
                }
            }
        } else {
            let j = i3 + 1;
            let k = if j < s.len() && (s[j] == 43 || s[j] == 45) {
                j + 1
            } else {
                j
            };
            lemma_digits_end(s, k);
            assert forall|i: int| 0 <= i < s.len() implies !is_ws(#[trigger] s[i]) by {
                if i < i0 {
                } else if i < i1 {
                    assert(is_digit(s[i]));
                } else if frac && i == i1 {
                } else if i < i3 {
                    assert(is_digit(s[i]));
                } else if i == i3 {
                } else if i < k {
                } else {
                    assert(is_digit(s[i]));
                }
            }
        }
    } else {
        let r = s.skip(i0);
        assert(r.len() > 0);
        assert forall|i: int| 0 <= i < s.len() implies !is_ws(#[trigger] s[i]) by {
            if i >= i0 {
                let w = if eq_word_ci(r, nan_word()) {
                    nan_word()
                } else if eq_word_ci(r, inf_word()) {
                    inf_word()
                } else {
                    infinity_word()
                };
                assert(r[i - i0] == w[i - i0] || r[i - i0] == w[i - i0] - 32);
                assert(s[i] == r[i - i0]);
            }
        }
    }
}

} // verus!
