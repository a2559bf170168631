//! Byte-level text helpers: ASCII whitespace, trimming, prefix tests, and
//! splitting a byte stream into lines.
use vstd::prelude::*;

verus! {

/// The ASCII characters that count as whitespace when trimming and
/// tokenizing record lines.
pub open spec fn is_ws(b: u8) -> bool {
    b == 0x20 || b == 0x09 || b == 0x0a || b == 0x0b || b == 0x0c || b == 0x0d
}

/// Executable mirror of `is_ws`.
pub fn ws_byte(b: u8) -> (r: bool)
    ensures
        r == is_ws(b),
{
    b == 0x20 || b == 0x09 || b == 0x0a || b == 0x0b || b == 0x0c || b == 0x0d
}

/// The trimmed portion of `s`: the subrange that remains after removing
/// leading and trailing ASCII whitespace.
pub open spec fn spec_trim(s: Seq<u8>) -> Seq<u8>
    decreases s.len(),
{
    if s.len() == 0 {
        s
    } else if is_ws(s[0]) {
        spec_trim(s.subrange(1, s.len() as int))
    } else if is_ws(s[s.len() - 1]) {
        spec_trim(s.subrange(0, s.len() - 1))
    } else {
        s
    }
}

/// Start and end of the trimmed portion of `s`.
pub fn ascii_trim_range(s: &[u8]) -> (r: (usize, usize))
    ensures
        r.0 <= r.1 <= s@.len(),
        s@.subrange(r.0 as int, r.1 as int) == spec_trim(s@),
{
    let mut lo: usize = 0;
    let mut hi: usize = s.len();
    proof {
        assert(s@.subrange(0, s@.len() as int) =~= s@);
    }
    while lo < hi && ws_byte(s[lo])
        invariant
            0 <= lo <= hi <= s@.len(),
            spec_trim(s@) == spec_trim(s@.subrange(lo as int, hi as int)),
            hi == s@.len(),
        decreases hi - lo,
    {
        proof {
            assert(s@.subrange(lo as int, hi as int).subrange(
                1,
                s@.subrange(lo as int, hi as int).len() as int,
            ) =~= s@.subrange(lo + 1, hi as int));
        }
        lo = lo + 1;
    }
    while lo < hi && ws_byte(s[hi - 1])
        invariant
            0 <= lo <= hi <= s@.len(),
            spec_trim(s@) == spec_trim(s@.subrange(lo as int, hi as int)),
            lo < hi ==> !is_ws(s@[lo as int]),
        decreases hi,
    {
        proof {
            assert(s@.subrange(lo as int, hi as int).subrange(
                0,
                s@.subrange(lo as int, hi as int).len() - 1,
            ) =~= s@.subrange(lo as int, hi - 1));
        }
        hi = hi - 1;
    }
    proof {
        assert(spec_trim(s@.subrange(lo as int, hi as int)) == s@.subrange(lo as int, hi as int));
    }
    (lo, hi)
}

/// Byte-wise equality of two slices.
pub fn bytes_eq(a: &[u8], b: &[u8]) -> (r: bool)
    ensures
        r == (a@ == b@),
{
    if a.len() != b.len() {
        proof {
            assert(a@ != b@);
        }
        return false;
    }
    let mut i: usize = 0;
    while i < a.len()
        invariant
            0 <= i <= a@.len(),
            a@.len() == b@.len(),
            forall|j: int| 0 <= j < i ==> a@[j] == b@[j],
        decreases a@.len() - i,
    {
        if a[i] != b[i] {
            return false;
        }
        i = i + 1;
    }
    proof {
        assert(a@ =~= b@);
    }
    true
}

/// Whether `p` is a prefix of `s`.
pub fn starts_with(s: &[u8], p: &[u8]) -> (r: bool)
    ensures
        r == p@.is_prefix_of(s@),
{
    if s.len() < p.len() {
        proof {
            assert(!p@.is_prefix_of(s@));
        }
        return false;
    }
    let mut i: usize = 0;
    while i < p.len()
        invariant
            0 <= i <= p@.len() <= s@.len(),
            forall|j: int| 0 <= j < i ==> s@[j] == p@[j],
        decreases p@.len() - i,
    {
        if s[i] != p[i] {
            proof {
                assert(!p@.is_prefix_of(s@)) by {
                    assert(p@[i as int] != s@.subrange(0, p@.len() as int)[i as int]);
                }
            }
            return false;
        }
        i = i + 1;
    }
    proof {
        assert(p@ =~= s@.subrange(0, p@.len() as int));
    }
    true
}

/// First position at or after `from` holding byte `b`, or the length when
/// there is none.
pub open spec fn find_from(s: Seq<u8>, b: u8, from: int) -> int
    decreases s.len() - from,
{
    if from < 0 || from >= s.len() {
        s.len() as int
    } else if s[from] == b {
        from
    } else {
        find_from(s, b, from + 1)
    }
}

pub proof fn lemma_find_from(s: Seq<u8>, b: u8, from: int)
    requires
        0 <= from <= s.len(),
    ensures
        from <= find_from(s, b, from) <= s.len(),
        forall|j: int| from <= j < find_from(s, b, from) ==> s[j] != b,
        find_from(s, b, from) < s.len() ==> s[find_from(s, b, from)] == b,
    decreases s.len() - from,
{
    if from < s.len() && s[from] != b {
        lemma_find_from(s, b, from + 1);
    }
}

/// First position at or after `from` where the first whitespace byte
/// stands, or the length when there is none.
pub open spec fn find_ws_from(s: Seq<u8>, from: int) -> int
    decreases s.len() - from,
{
    if from < 0 || from >= s.len() {
        s.len() as int
    } else if is_ws(s[from]) {
        from
    } else {
        find_ws_from(s, from + 1)
    }
}

pub proof fn lemma_find_ws_from(s: Seq<u8>, from: int)
    requires
        0 <= from <= s.len(),
    ensures
        from <= find_ws_from(s, from) <= s.len(),
        forall|j: int| from <= j < find_ws_from(s, from) ==> !is_ws(#[trigger] s[j]),
        find_ws_from(s, from) < s.len() ==> is_ws(s[find_ws_from(s, from)]),
    decreases s.len() - from,
{
    if from < s.len() && !is_ws(s[from]) {
        lemma_find_ws_from(s, from + 1);
    }
}

/// Executable mirror of `find_from`.
pub fn find_byte(s: &[u8], b: u8, from: usize) -> (r: usize)
    requires
        from <= s@.len(),
    ensures
        r == find_from(s@, b, from as int),
{
    let mut i: usize = from;
    while i < s.len()
        invariant
            from <= i <= s@.len(),
            find_from(s@, b, from as int) == find_from(s@, b, i as int),
        decreases s@.len() - i,
    {
        if s[i] == b {
            return i;
        }
        i = i + 1;
    }
    i
}

/// Executable mirror of `find_ws_from`.
pub fn find_ws(s: &[u8], from: usize) -> (r: usize)
    requires
        from <= s@.len(),
    ensures
        r == find_ws_from(s@, from as int),
{
    let mut i: usize = from;
    while i < s.len()
        invariant
            from <= i <= s@.len(),
            find_ws_from(s@, from as int) == find_ws_from(s@, i as int),
        decreases s@.len() - i,
    {
        if ws_byte(s[i]) {
            return i;
        }
        i = i + 1;
    }
    i
}

/// First position at or after `from` where a whitespace byte or `=` stands,
/// or the length when there is none.
pub open spec fn find_ws_or_eq_from(s: Seq<u8>, from: int) -> int
    decreases s.len() - from,
{
    if from < 0 || from >= s.len() {
        s.len() as int
    } else if is_ws(s[from]) || s[from] == 61 {
        from
    } else {
        find_ws_or_eq_from(s, from + 1)
    }
}

pub proof fn lemma_find_ws_or_eq_from(s: Seq<u8>, from: int)
    requires
        0 <= from <= s.len(),
    ensures
        from <= find_ws_or_eq_from(s, from) <= s.len(),
        forall|j: int|
            from <= j < find_ws_or_eq_from(s, from) ==> !is_ws(#[trigger] s[j]) && s[j] != 61,
        find_ws_or_eq_from(s, from) < s.len() ==> is_ws(s[find_ws_or_eq_from(s, from)]) || s[
            find_ws_or_eq_from(s, from)
        ] == 61,
    decreases s.len() - from,
{
    if from < s.len() && !(is_ws(s[from]) || s[from] == 61) {
        lemma_find_ws_or_eq_from(s, from + 1);
    }
}

/// Executable mirror of `find_ws_or_eq_from`.
pub fn find_ws_or_eq(s: &[u8], from: usize) -> (r: usize)
    requires
        from <= s@.len(),
    ensures
        r == find_ws_or_eq_from(s@, from as int),
{
    let mut i: usize = from;
    while i < s.len()
        invariant
            from <= i <= s@.len(),
            find_ws_or_eq_from(s@, from as int) == find_ws_or_eq_from(s@, i as int),
        decreases s@.len() - i,
    {
        if ws_byte(s[i]) || s[i] == 61 {
            return i;
        }
        i = i + 1;
    }
    i
}

/// Start of the content after leading ASCII whitespace.
pub open spec fn skip_ws_from(s: Seq<u8>, from: int) -> int
    decreases s.len() - from,
{
    if from < 0 || from >= s.len() {
        s.len() as int
    } else if is_ws(s[from]) {
        skip_ws_from(s, from + 1)
    } else {
        from
    }
}

pub proof fn lemma_skip_ws_from(s: Seq<u8>, from: int)
    requires
        0 <= from <= s.len(),
    ensures
        from <= skip_ws_from(s, from) <= s.len(),
        forall|j: int| from <= j < skip_ws_from(s, from) ==> is_ws(#[trigger] s[j]),
        skip_ws_from(s, from) < s.len() ==> !is_ws(s[skip_ws_from(s, from)]),
    decreases s.len() - from,
{
    if from < s.len() && is_ws(s[from]) {
        lemma_skip_ws_from(s, from + 1);
    }
}

/// Executable mirror of `skip_ws_from`.
pub fn skip_ws(s: &[u8], from: usize) -> (r: usize)
    requires
        from <= s@.len(),
    ensures
        r == skip_ws_from(s@, from as int),
{
    let mut i: usize = from;
    while i < s.len()
        invariant
            from <= i <= s@.len(),
            skip_ws_from(s@, from as int) == skip_ws_from(s@, i as int),
        decreases s@.len() - i,
    {
        if !ws_byte(s[i]) {
            return i;
        }
        i = i + 1;
    }
    i
}

/// Copy a subrange of a slice into a fresh vector.
pub fn copy_range(s: &[u8], lo: usize, hi: usize) -> (r: Vec<u8>)
    requires
        lo <= hi <= s@.len(),
    ensures
        r@ == s@.subrange(lo as int, hi as int),
{
    let mut v: Vec<u8> = Vec::new();
    let mut i: usize = lo;
    while i < hi
        invariant
            lo <= i <= hi <= s@.len(),
            v@ =~= s@.subrange(lo as int, i as int),
        decreases hi - i,
    {
        v.push(s[i]);
        proof {
            assert(v@ =~= s@.subrange(lo as int, i + 1));
        }
        i = i + 1;
    }
    v
}

/// Append every byte of `src` to `dst`.
pub fn push_all(dst: &mut Vec<u8>, src: &[u8])
    ensures
        final(dst)@ == old(dst)@ + src@,
{
    let mut i: usize = 0;
    while i < src.len()
        invariant
            0 <= i <= src@.len(),
            dst@ =~= old(dst)@ + src@.subrange(0, i as int),
        decreases src@.len() - i,
    {
        let ghost pre = dst@;
        dst.push(src[i]);
        proof {
            assert(dst@ =~= old(dst)@ + src@.subrange(0, i + 1));
        }
        i = i + 1;
    }
    proof {
        assert(old(dst)@ + src@.subrange(0, src@.len() as int) =~= old(dst)@ + src@);
    }
}

} // verus!
