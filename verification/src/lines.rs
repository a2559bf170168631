//! The line model of a byte stream: splitting on the newline byte, and the
//! algebra that relates a concatenation of blocks to the lines it splits
//! into.
use vstd::prelude::*;

verus! {

pub const NL: u8 = 10;

/// The lines of `s` when a line under construction already holds `cur`.
/// A line is the text between newline bytes, the newline excluded; text
/// after the last newline forms a final line only when non-empty.
pub open spec fn lines_acc(s: Seq<u8>, cur: Seq<u8>) -> Seq<Seq<u8>>
    decreases s.len(),
{
    if s.len() == 0 {
        if cur.len() == 0 {
            Seq::empty()
        } else {
            seq![cur]
        }
    } else if s[0] == NL {
        seq![cur] + lines_acc(s.skip(1), Seq::empty())
    } else {
        lines_acc(s.skip(1), cur.push(s[0]))
    }
}

/// The lines of a byte stream.
pub open spec fn spec_lines(s: Seq<u8>) -> Seq<Seq<u8>> {
    lines_acc(s, Seq::empty())
}

/// Rebuild a byte stream from lines, a newline after every line.
pub open spec fn unlines(ls: Seq<Seq<u8>>) -> Seq<u8>
    decreases ls.len(),
{
    if ls.len() == 0 {
        Seq::empty()
    } else {
        ls[0] + seq![NL] + unlines(ls.skip(1))
    }
}

pub open spec fn no_nl(s: Seq<u8>) -> bool {
    forall|i: int| 0 <= i < s.len() ==> s[i] != NL
}

/// Peeling one newline-terminated line off the front of a stream.
pub proof fn lemma_lines_unfold(c: Seq<u8>, rest: Seq<u8>, cur: Seq<u8>)
    requires
        no_nl(c),
    ensures
        lines_acc(c + seq![NL] + rest, cur) == seq![cur + c] + lines_acc(rest, Seq::empty()),
    decreases c.len(),
{
    let s = c + seq![NL] + rest;
    if c.len() == 0 {
        assert(s =~= seq![NL] + rest);
        assert(s[0] == NL);
        assert(s.skip(1) =~= rest);
        assert(cur + c =~= cur);
    } else {
        assert(s[0] == c[0]);
        assert(s[0] != NL);
        assert(s.skip(1) =~= c.skip(1) + seq![NL] + rest);
        lemma_lines_unfold(c.skip(1), rest, cur.push(c[0]));
        assert(cur.push(c[0]) + c.skip(1) =~= cur + c);
    }
}

/// A block that ends in a newline contributes its own lines, independent of
/// what follows.
pub proof fn lemma_lines_split(s: Seq<u8>, rest: Seq<u8>, cur: Seq<u8>)
    requires
        s.len() > 0,
        s[s.len() - 1] == NL,
    ensures
        lines_acc(s + rest, cur) == lines_acc(s, cur) + lines_acc(rest, Seq::empty()),
    decreases s.len(),
{
    if s[0] == NL {
        assert((s + rest).skip(1) =~= s.skip(1) + rest);
        if s.len() == 1 {
            assert(s.skip(1) =~= Seq::<u8>::empty());
            assert(s.skip(1) + rest =~= rest);
            assert(lines_acc(s, cur) =~= seq![cur]);
        } else {
            lemma_lines_split(s.skip(1), rest, Seq::empty());
        }
    } else {
        assert(s.len() > 1);
        assert((s + rest).skip(1) =~= s.skip(1) + rest);
        lemma_lines_split(s.skip(1), rest, cur.push(s[0]));
    }
}

/// Rebuilding the lines of a newline-terminated block restores the block.
pub proof fn lemma_unlines_lines(s: Seq<u8>, cur: Seq<u8>)
    requires
        s.len() > 0,
        s[s.len() - 1] == NL,
    ensures
        unlines(lines_acc(s, cur)) == cur + s,
    decreases s.len(),
{
    if s[0] == NL {
        if s.len() == 1 {
            assert(s.skip(1) =~= Seq::<u8>::empty());
            assert(lines_acc(Seq::<u8>::empty(), Seq::<u8>::empty()) =~= Seq::<Seq<u8>>::empty());
            assert(lines_acc(s, cur) =~= seq![cur]);
            assert(seq![cur].skip(1) =~= Seq::<Seq<u8>>::empty());
            assert(unlines(Seq::<Seq<u8>>::empty()) =~= Seq::<u8>::empty());
            assert(unlines(seq![cur]) =~= cur + seq![NL]);
            assert(cur + seq![NL] =~= cur + s);
        } else {
            assert(s.skip(1).len() > 0);
            assert(s.skip(1)[s.skip(1).len() - 1] == NL);
            lemma_unlines_lines(s.skip(1), Seq::empty());
            let ls = lines_acc(s.skip(1), Seq::empty());
            assert(lines_acc(s, cur) == seq![cur] + ls);
            assert((seq![cur] + ls).skip(1) =~= ls);
            assert((seq![cur] + ls)[0] == cur);
            assert(unlines(seq![cur] + ls) == cur + seq![NL] + unlines(ls));
            assert(cur + seq![NL] + (Seq::<u8>::empty() + s.skip(1)) =~= cur + s);
        }
    } else {
        lemma_unlines_lines(s.skip(1), cur.push(s[0]));
        assert(cur.push(s[0]) + s.skip(1) =~= cur + s);
    }
}

/// Split a byte stream into its lines.
pub fn split_lines(input: &[u8]) -> (r: Vec<Vec<u8>>)
    ensures
        r.deep_view() == spec_lines(input@),
{
    let mut out: Vec<Vec<u8>> = Vec::new();
    let mut cur: Vec<u8> = Vec::new();
    let mut i: usize = 0;
    proof {
        assert(input@.skip(0) =~= input@);
        assert(out.deep_view() =~~= Seq::<Seq<u8>>::empty());
        assert(Seq::<Seq<u8>>::empty() + spec_lines(input@) =~= spec_lines(input@));
    }
    while i < input.len()
        invariant
            0 <= i <= input@.len(),
            out.deep_view() + lines_acc(input@.skip(i as int), cur@) == spec_lines(input@),
        decreases input@.len() - i,
    {
        let ghost pre_out = out.deep_view();
        let ghost pre_cur = cur@;
        let ghost rem = input@.skip(i as int);
        proof {
            assert(rem.len() > 0);
            assert(rem[0] == input@[i as int]);
            assert(rem.skip(1) =~= input@.skip(i + 1));
        }
        if input[i] == NL {
            out.push(cur);
            cur = Vec::new();
            proof {
                assert(out.deep_view() =~~= pre_out.push(pre_cur));
                assert(lines_acc(rem, pre_cur) == seq![pre_cur] + lines_acc(
                    input@.skip(i + 1),
                    Seq::empty(),
                ));
                assert(pre_out.push(pre_cur) + lines_acc(input@.skip(i + 1), Seq::empty())
                    =~= pre_out + lines_acc(rem, pre_cur));
            }
        } else {
            let b = input[i];
            cur.push(b);
            proof {
                assert(cur@ =~= pre_cur.push(b));
            }
        }
        i = i + 1;
    }
    proof {
        assert(input@.skip(i as int) =~= Seq::<u8>::empty());
    }
    if cur.len() > 0 {
        let ghost pre_out = out.deep_view();
        let ghost pre_cur = cur@;
        out.push(cur);
        proof {
            assert(out.deep_view() =~~= pre_out.push(pre_cur));
            assert(pre_out.push(pre_cur) =~= pre_out + seq![pre_cur]);
        }
    }
    out
}

} // verus!
