//! Whitespace-separated tokens of a record line, and the fact that joining
//! tokens with single spaces and splitting again restores them.
use crate::syntax::{is_ws, ws_byte};
use vstd::prelude::*;

verus! {

/// The tokens of `s` when a token under construction already holds `cur`.
pub open spec fn toks_acc(s: Seq<u8>, cur: Seq<u8>) -> Seq<Seq<u8>>
    decreases s.len(),
{
    if s.len() == 0 {
        if cur.len() == 0 {
            Seq::empty()
        } else {
            seq![cur]
        }
    } else if is_ws(s[0]) {
        if cur.len() == 0 {
            toks_acc(s.skip(1), Seq::empty())
        } else {
            seq![cur] + toks_acc(s.skip(1), Seq::empty())
        }
    } else {
        toks_acc(s.skip(1), cur.push(s[0]))
    }
}

/// The maximal runs of non-whitespace bytes in `s`, in order.
pub open spec fn spec_tokens(s: Seq<u8>) -> Seq<Seq<u8>> {
    toks_acc(s, Seq::empty())
}

pub open spec fn no_ws(s: Seq<u8>) -> bool {
    forall|i: int| 0 <= i < s.len() ==> !is_ws(s[i])
}

/// Split a line into its whitespace-separated tokens.
pub fn tokenize(line: &[u8]) -> (r: Vec<Vec<u8>>)
    ensures
        r.deep_view() == spec_tokens(line@),
{
    let mut out: Vec<Vec<u8>> = Vec::new();
    let mut cur: Vec<u8> = Vec::new();
    let mut i: usize = 0;
    proof {
        assert(line@.skip(0) =~= line@);
        assert(out.deep_view() =~~= Seq::<Seq<u8>>::empty());
        assert(Seq::<Seq<u8>>::empty() + spec_tokens(line@) =~= spec_tokens(line@));
    }
    while i < line.len()
        invariant
            0 <= i <= line@.len(),
            out.deep_view() + toks_acc(line@.skip(i as int), cur@) == spec_tokens(line@),
        decreases line@.len() - i,
    {
        let ghost pre_out = out.deep_view();
        let ghost pre_cur = cur@;
        let ghost rem = line@.skip(i as int);
        proof {
            assert(rem.len() > 0);
            assert(rem[0] == line@[i as int]);
            assert(rem.skip(1) =~= line@.skip(i + 1));
        }
        if ws_byte(line[i]) {
            if cur.len() > 0 {
                out.push(cur);
                cur = Vec::new();
                proof {
                    assert(out.deep_view() =~~= pre_out.push(pre_cur));
                    assert(pre_out.push(pre_cur) + toks_acc(line@.skip(i + 1), Seq::empty())
                        =~= pre_out + toks_acc(rem, pre_cur));
                }
            } else {
                proof {
                    assert(cur@ =~= Seq::<u8>::empty());
                }
            }
        } else {
            let b = line[i];
            cur.push(b);
            proof {
                assert(cur@ =~= pre_cur.push(b));
            }
        }
        i = i + 1;
    }
    proof {
        assert(line@.skip(i as int) =~= Seq::<u8>::empty());
    }
    if cur.len() > 0 {
        let ghost pre_out = out.deep_view();
        let ghost pre_cur = cur@;
        out.push(cur);
        proof {
            assert(out.deep_view() =~~= pre_out.push(pre_cur));
            assert(pre_out.push(pre_cur) =~= pre_out + seq![pre_cur]);
        }
    }
    out
}

/// Join tokens with a single space between them.
pub open spec fn join_sp(ts: Seq<Seq<u8>>) -> Seq<u8>
    decreases ts.len(),
{
    if ts.len() == 0 {
        Seq::empty()
    } else if ts.len() == 1 {
        ts[0]
    } else {
        ts[0] + seq![32u8] + join_sp(ts.skip(1))
    }
}

/// Consuming a whitespace-free run extends the current token.
pub proof fn lemma_toks_run(t: Seq<u8>, rest: Seq<u8>, cur: Seq<u8>)
    requires
        no_ws(t),
    ensures
        toks_acc(t + rest, cur) == toks_acc(rest, cur + t),
    decreases t.len(),
{
    if t.len() == 0 {
        assert(t + rest =~= rest);
        assert(cur + t =~= cur);
    } else {
        let s = t + rest;
        assert(s[0] == t[0]);
        assert(s.skip(1) =~= t.skip(1) + rest);
        lemma_toks_run(t.skip(1), rest, cur.push(t[0]));
        assert(cur.push(t[0]) + t.skip(1) =~= cur + t);
    }
}

/// Tokens joined with single spaces split back into the same tokens.
pub proof fn lemma_tokens_join(ts: Seq<Seq<u8>>)
    requires
        forall|i: int| 0 <= i < ts.len() ==> (#[trigger] ts[i]).len() > 0 && no_ws(ts[i]),
    ensures
        spec_tokens(join_sp(ts)) == ts,
    decreases ts.len(),
{
    if ts.len() == 0 {
        assert(spec_tokens(join_sp(ts)) =~= ts);
    } else if ts.len() == 1 {
        assert(join_sp(ts) == ts[0]);
        lemma_toks_run(ts[0], Seq::empty(), Seq::empty());
        assert(ts[0] + Seq::<u8>::empty() =~= ts[0]);
        assert(Seq::<u8>::empty() + ts[0] =~= ts[0]);
        assert(toks_acc(Seq::<u8>::empty(), ts[0]) =~= seq![ts[0]]);
        assert(spec_tokens(join_sp(ts)) =~= ts);
    } else {
        let t0 = ts[0];
        let tail = join_sp(ts.skip(1));
        assert(join_sp(ts) == t0 + seq![32u8] + tail);
        lemma_toks_run(t0, seq![32u8] + tail, Seq::empty());
        assert(t0 + (seq![32u8] + tail) =~= t0 + seq![32u8] + tail);
        assert(Seq::<u8>::empty() + t0 =~= t0);
        let s1 = seq![32u8] + tail;
        assert(is_ws(s1[0]));
        assert(t0.len() > 0);
        assert(toks_acc(s1, t0) == seq![t0] + toks_acc(s1.skip(1), Seq::empty()));
        assert(s1.skip(1) =~= tail);
        lemma_tokens_join(ts.skip(1));
        assert(seq![t0] + ts.skip(1) =~= ts);
    }
}

} // verus!
