//! The round-trip law: a file written from well-formed records parses back
//! to exactly the same version, header text, run information and events.
//! Stated against the specification serializer and parser; the writer and
//! reader are proved against those same functions.
use crate::attr::{attr_name_wf, attr_value_wf, attrs_insert, attrs_wf, has_key, keys_unique};
use crate::data::{event_info_wf, header_text_wf, heprup_wf, hepeup_wf, HeprupV, HepeupV};
use crate::errors::PErr;
use crate::lines::{
    lemma_lines_split, lemma_lines_unfold, lemma_unlines_lines, no_nl, spec_lines, unlines, NL,
};
use crate::pspec::{
    collect_lines, find_close, is_close_line, lemma_find_close, line_at, spec_attrs_loop,
    spec_extract_attrs, CloseKind,
};
use crate::serial::{attrs_text, attrs_text_from, open_line, pair_text};
use crate::syntax::{
    find_from, find_ws_from, find_ws_or_eq_from, is_ws, lemma_find_from, lemma_find_ws_from,
    lemma_find_ws_or_eq_from, lemma_skip_ws_from, skip_ws_from, spec_trim,
};
use crate::tags;
use crate::tokens::{join_sp, no_ws, spec_tokens};
use vstd::prelude::*;

verus! {

/// The lines of `ext` stand in `ls` starting at position `i`.
pub open spec fn lines_match(ls: Seq<Seq<u8>>, i: int, ext: Seq<Seq<u8>>) -> bool {
    0 <= i && i + ext.len() <= ls.len() && forall|k: int|
        0 <= k < ext.len() ==> ls[i + k] == #[trigger] ext[k]
}

/// A string whose first and last bytes are not whitespace trims to itself.
pub proof fn lemma_trim_id(s: Seq<u8>)
    requires
        s.len() > 0,
        !is_ws(s[0]),
        !is_ws(s[s.len() - 1]),
    ensures
        spec_trim(s) == s,
{
}

/// Collected lines are the joined subrange.
pub proof fn lemma_collect_unlines(ls: Seq<Seq<u8>>, a: int, b: int)
    requires
        0 <= a <= b <= ls.len(),
    ensures
        collect_lines(ls, a, b) == unlines(ls.subrange(a, b)),
    decreases b - a,
{
    if a == b {
        assert(ls.subrange(a, b) =~= Seq::<Seq<u8>>::empty());
    } else {
        lemma_collect_unlines(ls, a + 1, b);
        let sub = ls.subrange(a, b);
        assert(sub[0] == ls[a]);
        assert(sub.skip(1) =~= ls.subrange(a + 1, b));
        assert(unlines(sub) == ls[a] + seq![NL] + unlines(ls.subrange(a + 1, b)));
    }
}

/// Where the first closing line stands, exactly.
pub proof fn lemma_find_close_is(ls: Seq<Seq<u8>>, from: int, k: int, kind: CloseKind)
    requires
        0 <= from <= k < ls.len(),
        forall|j: int| from <= j < k ==> !is_close_line(kind, #[trigger] ls[j]),
        is_close_line(kind, ls[k]),
    ensures
        find_close(ls, from, kind) == k,
{
    lemma_find_close(ls, from, kind);
    let f = find_close(ls, from, kind);
    if f < k {
        assert(is_close_line(kind, ls[f]));
        assert(!is_close_line(kind, ls[f]));
    }
    if f > k {
        assert(!is_close_line(kind, ls[k]));
    }
}

/// Where the first occurrence of a byte stands, exactly.
pub proof fn lemma_find_from_is(s: Seq<u8>, b: u8, from: int, k: int)
    requires
        0 <= from <= k < s.len(),
        forall|j: int| from <= j < k ==> s[j] != b,
        s[k] == b,
    ensures
        find_from(s, b, from) == k,
{
    lemma_find_from(s, b, from);
    let f = find_from(s, b, from);
    if f < k {
        assert(s[f] == b);
    }
    if f > k {
        assert(s[k] != b);
    }
}

/// Where the first whitespace-or-equals byte stands, exactly.
pub proof fn lemma_find_ws_or_eq_is(s: Seq<u8>, from: int, k: int)
    requires
        0 <= from <= k < s.len(),
        forall|j: int| from <= j < k ==> !is_ws(#[trigger] s[j]) && s[j] != 61,
        is_ws(s[k]) || s[k] == 61,
    ensures
        find_ws_or_eq_from(s, from) == k,
{
    lemma_find_ws_or_eq_from(s, from);
    let f = find_ws_or_eq_from(s, from);
    if f < k {
        assert(!is_ws(s[f]) && s[f] != 61);
    }
    if f > k {
        assert(!(is_ws(s[k]) || s[k] == 61));
    }
}

/// Skipping whitespace stops at a non-whitespace byte.
pub proof fn lemma_skip_ws_is(s: Seq<u8>, from: int, k: int)
    requires
        0 <= from <= k <= s.len(),
        forall|j: int| from <= j < k ==> is_ws(#[trigger] s[j]),
        k < s.len() ==> !is_ws(s[k]),
    ensures
        skip_ws_from(s, from) == k,
{
    lemma_skip_ws_from(s, from);
    let f = skip_ws_from(s, from);
    if f < k {
        assert(is_ws(s[f]));
        assert(!is_ws(s[f]));
    }
    if f > k {
        assert(k < s.len());
        assert(is_ws(s[k]));
    }
}

/// The tail of the attribute text once the space before pair `d` is gone.
pub open spec fn pairs_tail_text(m: Seq<(Seq<u8>, Seq<u8>)>, d: int) -> Seq<u8> {
    if !(0 <= d < m.len()) {
        Seq::empty()
    } else {
        m[d].0 + seq![61u8, 34u8] + m[d].1 + seq![34u8] + attrs_text_from(m, d + 1)
    }
}

/// Scanning well-formed attribute text from the start of pair `d` yields
/// the remaining pairs, appended to what was already collected.
pub proof fn lemma_attrs_loop_rt(s: Seq<u8>, p: int, m: Seq<(Seq<u8>, Seq<u8>)>, d: int)
    requires
        attrs_wf(m),
        0 <= d <= m.len(),
        0 <= p <= s.len(),
        p + pairs_tail_text(m, d).len() == s.len(),
        forall|k: int| 0 <= k < pairs_tail_text(m, d).len() ==> s[p + k] == pairs_tail_text(m, d)[k],
    ensures
        spec_attrs_loop(s, p, m.take(d)) == Ok::<Seq<(Seq<u8>, Seq<u8>)>, PErr>(m),
    decreases m.len() - d,
{
    if d == m.len() {
        assert(p == s.len());
        lemma_find_ws_or_eq_from(s, p);
        assert(find_ws_or_eq_from(s, p) >= s.len());
        assert(m.take(d) =~= m);
    } else {
        let tail = pairs_tail_text(m, d);
        let name = m[d].0;
        let value = m[d].1;
        let nl = name.len() as int;
        let vl = value.len() as int;
        assert(tail.len() == nl + 3 + vl + attrs_text_from(m, d + 1).len());
        assert(forall|k: int| 0 <= k < nl ==> tail[k] == name[k]);
        assert(forall|k: int| 0 <= k < vl ==> tail[nl + 2 + k] == value[k]);
        assert(tail[nl] == 61);
        assert(tail[nl + 1] == 34);
        assert(tail[nl + 2 + vl] == 34);
        assert(attr_name_wf(m[d].0) && attr_value_wf(m[d].1));
        assert forall|j: int| p <= j < p + nl implies !is_ws(#[trigger] s[j]) && s[j] != 61 by {
            assert(s[j] == tail[j - p]);
            assert(tail[j - p] == name[j - p]);
            assert(!is_ws(name[j - p]) && name[j - p] != 61);
        }
        assert(s[p + nl] == tail[nl]);
        lemma_find_ws_or_eq_is(s, p, p + nl);
        let ne = find_ws_or_eq_from(s, p);
        assert(ne == p + nl);
        assert(s.subrange(p, ne) =~= name);
        lemma_skip_ws_is(s, ne, ne);
        let p1 = skip_ws_from(s, ne);
        assert(p1 == ne);
        assert(s[p1] == 61);
        lemma_skip_ws_is(s, p1 + 1, p1 + 1);
        let p2 = skip_ws_from(s, p1 + 1);
        assert(p2 == p1 + 1);
        assert(s[p2] == 34);
        assert forall|j: int| p2 + 1 <= j < p2 + 1 + vl implies #[trigger] s[j] != 34 by {
            assert(s[j] == tail[j - p]);
            assert(tail[j - p] == value[j - p - nl - 2]);
            assert(value[j - p - nl - 2] != 34);
        }
        assert(s[p2 + 1 + vl] == tail[nl + 2 + vl]);
        lemma_find_from_is(s, 34, p2 + 1, p2 + 1 + vl);
        let ve = find_from(s, 34, p2 + 1);
        assert(ve == p2 + 1 + vl);
        assert(s.subrange(p2 + 1, ve) =~= value);
        let after = ve + 1;
        if d + 1 == m.len() {
            assert(attrs_text_from(m, d + 1) =~= Seq::<u8>::empty());
            assert(after == s.len());
            lemma_skip_ws_is(s, after, after);
            let p3 = skip_ws_from(s, after);
            assert(p3 == s.len());
            assert(pairs_tail_text(m, d + 1) =~= Seq::<u8>::empty());
            lemma_no_key(m, d);
            assert(attrs_insert(m.take(d), name, value) =~= m.take(d + 1));
            lemma_attrs_loop_rt(s, p3, m, d + 1);
        } else {
            assert(attrs_text_from(m, d + 1) == pair_text(m[d + 1]) + attrs_text_from(m, d + 2));
            assert(tail[after - p] == 32);
            assert(tail[after - p + 1] == m[d + 1].0[0]);
            assert(!is_ws(m[d + 1].0[0]));
            lemma_skip_ws_is(s, after, after + 1);
            let p3 = skip_ws_from(s, after);
            assert(p3 == after + 1);
            assert(p3 <= s.len());
            let tail2 = pairs_tail_text(m, d + 1);
            assert(tail2 =~= tail.subrange(after - p + 1, tail.len() as int));
            assert(forall|k: int| 0 <= k < tail2.len() ==> s[p3 + k] == #[trigger] tail2[k]);
            lemma_no_key(m, d);
            assert(attrs_insert(m.take(d), name, value) =~= m.take(d + 1));
            lemma_attrs_loop_rt(s, p3, m, d + 1);
        }
    }
}

/// A key of a well-formed map does not occur among the earlier pairs.
pub proof fn lemma_no_key(m: Seq<(Seq<u8>, Seq<u8>)>, d: int)
    requires
        keys_unique(m),
        0 <= d < m.len(),
    ensures
        !has_key(m.take(d), m[d].0),
        attrs_insert(m.take(d), m[d].0, m[d].1) == m.take(d).push(m[d]),
    decreases m.len(),
{
    if has_key(m.take(d), m[d].0) {
        let j = choose|j: int| 0 <= j < m.take(d).len() && m.take(d)[j].0 == m[d].0;
        assert(m[j].0 == m[d].0);
    }
}

/// A well-formed attribute map written onto an opening tag reads back
/// unchanged.
pub proof fn lemma_attrs_rt(tag: Seq<u8>, m: Seq<(Seq<u8>, Seq<u8>)>)
    requires
        attrs_wf(m),
        tag.len() > 0,
        no_ws(tag),
        tag[0] == 60,
    ensures
        spec_extract_attrs(open_line(tag, m)) == Ok::<Seq<(Seq<u8>, Seq<u8>)>, PErr>(m),
{
    let line = open_line(tag, m);
    let at = attrs_text(m);
    assert(line.len() == tag.len() + at.len() + 1);
    assert(line[line.len() - 1] == 62);
    assert(line[0] == tag[0]);
    lemma_trim_id(line);
    let t = spec_trim(line);
    assert(t == line);
    let body = t.take(t.len() - 1);
    assert(body =~= tag + at);
    if m.len() == 0 {
        assert(at =~= Seq::<u8>::empty());
        assert(body =~= tag);
        lemma_find_ws_from(body, 0);
        let w = find_ws_from(body, 0);
        assert(w == body.len()) by {
            if w < body.len() {
                assert(is_ws(body[w]));
                assert(!is_ws(tag[w]));
            }
        }
        assert(crate::pspec::attrs_start(body) == body.len());
        lemma_find_ws_or_eq_from(body, body.len() as int);
        assert(spec_attrs_loop(body, body.len() as int, Seq::empty()) == Ok::<
            Seq<(Seq<u8>, Seq<u8>)>,
            PErr,
        >(Seq::empty()));
        assert(m =~= Seq::<(Seq<u8>, Seq<u8>)>::empty());
    } else {
        assert(at == pair_text(m[0]) + attrs_text_from(m, 1));
        assert(at[0] == 32);
        assert(body[tag.len() as int] == 32);
        assert(forall|j: int| 0 <= j < tag.len() ==> body[j] == tag[j] && !is_ws(#[trigger] tag[j]));
        assert(is_ws(body[tag.len() as int]));
        lemma_find_ws_is(body, 0, tag.len() as int);
        let w = find_ws_from(body, 0);
        assert(w == tag.len());
        assert(m[0].0.len() > 0);
        assert(at[1] == m[0].0[0]);
        assert(!is_ws(m[0].0[0]));
        assert(body[w + 1] == m[0].0[0]);
        lemma_skip_ws_is(body, w + 1, w + 1);
        assert(crate::pspec::attrs_start(body) == w + 1);
        let tail = pairs_tail_text(m, 0);
        assert(tail =~= at.subrange(1, at.len() as int));
        assert(w + 1 + tail.len() == body.len());
        assert(forall|k: int| 0 <= k < tail.len() ==> body[w + 1 + k] == #[trigger] tail[k]);
        assert(m.take(0) =~= Seq::<(Seq<u8>, Seq<u8>)>::empty());
        lemma_attrs_loop_rt(body, w + 1, m, 0);
    }
}

/// The tag text of a well-formed attribute map holds no newline.
pub proof fn lemma_attrs_text_no_nl(m: Seq<(Seq<u8>, Seq<u8>)>, i: int)
    requires
        attrs_wf(m),
    ensures
        no_nl(attrs_text_from(m, i)),
    decreases m.len() - i,
{
    if 0 <= i < m.len() {
        lemma_attrs_text_no_nl(m, i + 1);
        let pt = pair_text(m[i]);
        assert(attr_name_wf(m[i].0) && attr_value_wf(m[i].1));
        assert(no_nl(pt)) by {
            assert forall|k: int| 0 <= k < pt.len() implies #[trigger] pt[k] != NL by {
                let nl = m[i].0.len() as int;
                let vl = m[i].1.len() as int;
                if k == 0 {
                } else if k < 1 + nl {
                    assert(pt[k] == m[i].0[k - 1]);
                    assert(!is_ws(m[i].0[k - 1]));
                } else if k < 3 + nl {
                } else if k < 3 + nl + vl {
                    assert(pt[k] == m[i].1[k - 3 - nl]);
                } else {
                }
            }
        }
        assert forall|k: int|
            0 <= k < attrs_text_from(m, i).len() implies #[trigger] attrs_text_from(m, i)[k]
            != NL by {
            if k < pt.len() {
                assert(attrs_text_from(m, i)[k] == pt[k]);
            } else {
                assert(attrs_text_from(m, i)[k] == attrs_text_from(m, i + 1)[k - pt.len()]);
            }
        }
    }
}

/// An opening tag line of a well-formed map holds no newline.
pub proof fn lemma_open_line_no_nl(tag: Seq<u8>, m: Seq<(Seq<u8>, Seq<u8>)>)
    requires
        attrs_wf(m),
        no_ws(tag),
    ensures
        no_nl(open_line(tag, m)),
{
    lemma_attrs_text_no_nl(m, 0);
    let l = open_line(tag, m);
    assert forall|k: int| 0 <= k < l.len() implies #[trigger] l[k] != NL by {
        if k < tag.len() {
            assert(l[k] == tag[k]);
            assert(!is_ws(tag[k]));
        } else if k < tag.len() + attrs_text(m).len() {
            assert(l[k] == attrs_text(m)[k - tag.len()]);
        } else {
        }
    }
}

/// Whitespace-free tokens joined by spaces hold no newline.
pub proof fn lemma_join_sp_no_nl(ts: Seq<Seq<u8>>)
    requires
        forall|i: int| 0 <= i < ts.len() ==> no_ws(#[trigger] ts[i]),
    ensures
        no_nl(join_sp(ts)),
    decreases ts.len(),
{
    if ts.len() == 0 {
    } else if ts.len() == 1 {
        assert(no_ws(ts[0]));
        assert forall|k: int| 0 <= k < join_sp(ts).len() implies #[trigger] join_sp(ts)[k]
            != NL by {
            assert(join_sp(ts)[k] == ts[0][k]);
            assert(!is_ws(ts[0][k]));
        }
    } else {
        lemma_join_sp_no_nl(ts.skip(1));
        let j = join_sp(ts);
        let t0 = ts[0];
        let rest = join_sp(ts.skip(1));
        assert(j == t0 + seq![32u8] + rest);
        assert forall|k: int| 0 <= k < j.len() implies #[trigger] j[k] != NL by {
            if k < t0.len() {
                assert(j[k] == t0[k]);
                assert(!is_ws(t0[k]));
            } else if k == t0.len() {
                assert(j[k] == 32);
            } else {
                assert(j[k] == rest[k - t0.len() - 1]);
            }
        }
    }
}

/// The subprocess lines of a record, one joined line per subprocess.
pub open spec fn sub_line_seq(r: HeprupV, j: int) -> Seq<Seq<u8>>
    decreases r.nprup - j,
{
    if j < 0 || j >= r.nprup {
        Seq::empty()
    } else {
        seq![join_sp(crate::serial::sub_line_toks(r, j))] + sub_line_seq(r, j + 1)
    }
}

/// The particle lines of an event, one joined line per particle.
pub open spec fn particle_line_seq(e: HepeupV, j: int) -> Seq<Seq<u8>>
    decreases e.nup - j,
{
    if j < 0 || j >= e.nup {
        Seq::empty()
    } else {
        seq![join_sp(crate::serial::particle_toks(e, j))] + particle_line_seq(e, j + 1)
    }
}

/// The lines of the run-information block.
pub open spec fn init_block_lines(r: HeprupV) -> Seq<Seq<u8>> {
    seq![
        open_line(tags::init_open_tag(), r.attr),
        join_sp(crate::serial::heprup_line1_toks(r)),
    ] + sub_line_seq(r, 0) + spec_lines(r.info) + seq![tags::init_close_tag()]
}

/// The lines of an event block.
pub open spec fn event_block_lines(e: HepeupV) -> Seq<Seq<u8>> {
    seq![
        open_line(tags::event_open_tag(), e.attr),
        join_sp(crate::serial::event_line1_toks(e)),
    ] + particle_line_seq(e, 0) + spec_lines(e.info) + seq![tags::event_close_tag()]
}

/// Every token of the run record's scalar line is non-empty and free of
/// whitespace.
pub proof fn lemma_heprup_toks_wf(r: HeprupV)
    requires
        heprup_wf(r),
    ensures
        ({
            let ts = crate::serial::heprup_line1_toks(r);
            forall|i: int| 0 <= i < ts.len() ==> (#[trigger] ts[i]).len() > 0 && no_ws(ts[i])
        }),
{
    let ts = crate::serial::heprup_line1_toks(r);
    crate::num::lemma_dec_int_no_ws(r.idbmup[0] as int);
    crate::num::lemma_dec_int_no_ws(r.idbmup[1] as int);
    crate::num::lemma_dec_int_no_ws(r.pdfgup[0] as int);
    crate::num::lemma_dec_int_no_ws(r.pdfgup[1] as int);
    crate::num::lemma_dec_int_no_ws(r.pdfsup[0] as int);
    crate::num::lemma_dec_int_no_ws(r.pdfsup[1] as int);
    crate::num::lemma_dec_int_no_ws(r.idwtup as int);
    crate::num::lemma_dec_int_no_ws(r.nprup as int);
    crate::floattok::lemma_float_token_no_ws(r.ebmup[0]);
    crate::floattok::lemma_float_token_no_ws(r.ebmup[1]);
    assert forall|i: int| 0 <= i < ts.len() implies (#[trigger] ts[i]).len() > 0 && no_ws(
        ts[i],
    ) by {
        if i == 2 || i == 3 {
        } else {
        }
    }
}

/// Every token of a subprocess line is non-empty and free of whitespace.
pub proof fn lemma_sub_toks_wf(r: HeprupV, j: int)
    requires
        heprup_wf(r),
        0 <= j < r.nprup,
    ensures
        ({
            let ts = crate::serial::sub_line_toks(r, j);
            forall|i: int| 0 <= i < ts.len() ==> (#[trigger] ts[i]).len() > 0 && no_ws(ts[i])
        }),
{
    crate::num::lemma_dec_int_no_ws(r.lprup[j] as int);
    crate::floattok::lemma_float_token_no_ws(r.xsecup[j]);
    crate::floattok::lemma_float_token_no_ws(r.xerrup[j]);
    crate::floattok::lemma_float_token_no_ws(r.xmaxup[j]);
}

/// Every token of an event's scalar line is non-empty and free of
/// whitespace.
pub proof fn lemma_hepeup_toks_wf(e: HepeupV)
    requires
        hepeup_wf(e),
    ensures
        ({
            let ts = crate::serial::event_line1_toks(e);
            forall|i: int| 0 <= i < ts.len() ==> (#[trigger] ts[i]).len() > 0 && no_ws(ts[i])
        }),
{
    crate::num::lemma_dec_int_no_ws(e.nup as int);
    crate::num::lemma_dec_int_no_ws(e.idrup as int);
    crate::floattok::lemma_float_token_no_ws(e.xwgtup);
    crate::floattok::lemma_float_token_no_ws(e.scalup);
    crate::floattok::lemma_float_token_no_ws(e.aqedup);
    crate::floattok::lemma_float_token_no_ws(e.aqcdup);
}

/// Every token of a particle line is non-empty and free of whitespace.
pub proof fn lemma_particle_toks_wf(e: HepeupV, j: int)
    requires
        hepeup_wf(e),
        0 <= j < e.nup,
    ensures
        ({
            let ts = crate::serial::particle_toks(e, j);
            forall|i: int| 0 <= i < ts.len() ==> (#[trigger] ts[i]).len() > 0 && no_ws(ts[i])
        }),
{
    crate::num::lemma_dec_int_no_ws(e.idup[j] as int);
    crate::num::lemma_dec_int_no_ws(e.istup[j] as int);
    crate::num::lemma_dec_int_no_ws(e.mothup[j][0] as int);
    crate::num::lemma_dec_int_no_ws(e.mothup[j][1] as int);
    crate::num::lemma_dec_int_no_ws(e.icolup[j][0] as int);
    crate::num::lemma_dec_int_no_ws(e.icolup[j][1] as int);
    crate::floattok::lemma_float_token_no_ws(e.pup[j][0]);
    crate::floattok::lemma_float_token_no_ws(e.pup[j][1]);
    crate::floattok::lemma_float_token_no_ws(e.pup[j][2]);
    crate::floattok::lemma_float_token_no_ws(e.pup[j][3]);
    crate::floattok::lemma_float_token_no_ws(e.pup[j][4]);
    crate::floattok::lemma_float_token_no_ws(e.vtimup[j]);
    crate::floattok::lemma_float_token_no_ws(e.spinup[j]);
}

/// The subprocess lines split off one line at a time.
pub proof fn lemma_sub_lines(r: HeprupV, j: int, rest: Seq<u8>)
    requires
        heprup_wf(r),
        0 <= j,
    ensures
        spec_lines(crate::serial::sub_lines_from(r, j) + rest) == sub_line_seq(r, j) + spec_lines(
            rest,
        ),
    decreases r.nprup - j,
{
    if j >= r.nprup {
        assert(crate::serial::sub_lines_from(r, j) + rest =~= rest);
        assert(sub_line_seq(r, j) + spec_lines(rest) =~= spec_lines(rest));
    } else {
        lemma_sub_lines(r, j + 1, rest);
        let line = join_sp(crate::serial::sub_line_toks(r, j));
        lemma_sub_toks_wf(r, j);
        lemma_join_sp_no_nl(crate::serial::sub_line_toks(r, j));
        let tail = crate::serial::sub_lines_from(r, j + 1) + rest;
        assert(crate::serial::sub_lines_from(r, j) + rest =~= line + seq![NL] + tail);
        lemma_lines_unfold(line, tail, Seq::empty());
        assert(Seq::<u8>::empty() + line =~= line);
        assert(seq![line] + (sub_line_seq(r, j + 1) + spec_lines(rest)) =~= sub_line_seq(r, j)
            + spec_lines(rest));
    }
}

/// The particle lines split off one line at a time.
pub proof fn lemma_particle_lines(e: HepeupV, j: int, rest: Seq<u8>)
    requires
        hepeup_wf(e),
        0 <= j,
    ensures
        spec_lines(crate::serial::particle_lines_from(e, j) + rest) == particle_line_seq(e, j)
            + spec_lines(rest),
    decreases e.nup - j,
{
    if j >= e.nup {
        assert(crate::serial::particle_lines_from(e, j) + rest =~= rest);
        assert(particle_line_seq(e, j) + spec_lines(rest) =~= spec_lines(rest));
    } else {
        lemma_particle_lines(e, j + 1, rest);
        let line = join_sp(crate::serial::particle_toks(e, j));
        lemma_particle_toks_wf(e, j);
        lemma_join_sp_no_nl(crate::serial::particle_toks(e, j));
        let tail = crate::serial::particle_lines_from(e, j + 1) + rest;
        assert(crate::serial::particle_lines_from(e, j) + rest =~= line + seq![NL] + tail);
        lemma_lines_unfold(line, tail, Seq::empty());
        assert(Seq::<u8>::empty() + line =~= line);
        assert(seq![line] + (particle_line_seq(e, j + 1) + spec_lines(rest)) =~= particle_line_seq(
            e,
            j,
        ) + spec_lines(rest));
    }
}

/// The info tail contributes its own lines.
pub proof fn lemma_info_lines(info: Seq<u8>, rest: Seq<u8>)
    requires
        info.len() == 0 || info[info.len() - 1] == NL,
    ensures
        spec_lines(crate::serial::info_bytes(info) + rest) == spec_lines(info) + spec_lines(rest),
{
    if info.len() == 0 {
        assert(crate::serial::info_bytes(info) + rest =~= rest);
        assert(spec_lines(info) =~= Seq::<Seq<u8>>::empty());
        assert(Seq::<Seq<u8>>::empty() + spec_lines(rest) =~= spec_lines(rest));
    } else {
        assert(crate::serial::info_bytes(info) == info);
        lemma_lines_split(info, rest, Seq::empty());
    }
}

/// The lines of the run-information block, with what follows.
pub proof fn lemma_init_lines(r: HeprupV, rest: Seq<u8>)
    requires
        heprup_wf(r),
    ensures
        spec_lines(crate::serial::init_block(r) + rest) == init_block_lines(r) + spec_lines(rest),
{
    let openl = open_line(tags::init_open_tag(), r.attr);
    let line1 = join_sp(crate::serial::heprup_line1_toks(r));
    let subs = crate::serial::sub_lines_from(r, 0);
    let infob = crate::serial::info_bytes(r.info);
    let r4 = tags::init_close_tag() + seq![NL] + rest;
    let r3 = infob + r4;
    let r2 = subs + r3;
    let r1 = line1 + seq![NL] + r2;
    assert(crate::serial::init_block(r) + rest =~= openl + seq![NL] + r1);
    assert(no_ws(tags::init_open_tag()));
    lemma_open_line_no_nl(tags::init_open_tag(), r.attr);
    lemma_lines_unfold(openl, r1, Seq::empty());
    assert(Seq::<u8>::empty() + openl =~= openl);
    lemma_heprup_toks_wf(r);
    lemma_join_sp_no_nl(crate::serial::heprup_line1_toks(r));
    lemma_lines_unfold(line1, r2, Seq::empty());
    assert(Seq::<u8>::empty() + line1 =~= line1);
    lemma_sub_lines(r, 0, r3);
    lemma_info_lines(r.info, r4);
    assert(no_nl(tags::init_close_tag()));
    lemma_lines_unfold(tags::init_close_tag(), rest, Seq::empty());
    assert(Seq::<u8>::empty() + tags::init_close_tag() =~= tags::init_close_tag());
    assert(seq![openl] + (seq![line1] + (sub_line_seq(r, 0) + (spec_lines(r.info) + (seq![
        tags::init_close_tag(),
    ] + spec_lines(rest))))) =~= init_block_lines(r) + spec_lines(rest));
}

/// The lines of an event block, with what follows.
pub proof fn lemma_event_lines(e: HepeupV, rest: Seq<u8>)
    requires
        hepeup_wf(e),
    ensures
        spec_lines(crate::serial::event_block(e) + rest) == event_block_lines(e) + spec_lines(
            rest,
        ),
{
    let openl = open_line(tags::event_open_tag(), e.attr);
    let line1 = join_sp(crate::serial::event_line1_toks(e));
    let parts = crate::serial::particle_lines_from(e, 0);
    let infob = crate::serial::info_bytes(e.info);
    let r4 = tags::event_close_tag() + seq![NL] + rest;
    let r3 = infob + r4;
    let r2 = parts + r3;
    let r1 = line1 + seq![NL] + r2;
    assert(crate::serial::event_block(e) + rest =~= openl + seq![NL] + r1);
    assert(no_ws(tags::event_open_tag()));
    lemma_open_line_no_nl(tags::event_open_tag(), e.attr);
    lemma_lines_unfold(openl, r1, Seq::empty());
    assert(Seq::<u8>::empty() + openl =~= openl);
    lemma_hepeup_toks_wf(e);
    lemma_join_sp_no_nl(crate::serial::event_line1_toks(e));
    lemma_lines_unfold(line1, r2, Seq::empty());
    assert(Seq::<u8>::empty() + line1 =~= line1);
    lemma_particle_lines(e, 0, r3);
    lemma_info_lines(e.info, r4);
    assert(no_nl(tags::event_close_tag()));
    lemma_lines_unfold(tags::event_close_tag(), rest, Seq::empty());
    assert(Seq::<u8>::empty() + tags::event_close_tag() =~= tags::event_close_tag());
    assert(seq![openl] + (seq![line1] + (particle_line_seq(e, 0) + (spec_lines(e.info) + (seq![
        tags::event_close_tag(),
    ] + spec_lines(rest))))) =~= event_block_lines(e) + spec_lines(rest));
}

pub proof fn lemma_sub_line_seq_index(r: HeprupV, j: int)
    requires
        0 <= j,
    ensures
        sub_line_seq(r, j).len() == if r.nprup - j >= 0 {
            r.nprup - j
        } else {
            0
        },
        forall|k: int|
            0 <= k < sub_line_seq(r, j).len() ==> #[trigger] sub_line_seq(r, j)[k] == join_sp(
                crate::serial::sub_line_toks(r, j + k),
            ),
    decreases r.nprup - j,
{
    if j < r.nprup {
        lemma_sub_line_seq_index(r, j + 1);
        let s = sub_line_seq(r, j);
        let t = sub_line_seq(r, j + 1);
        assert forall|k: int| 0 <= k < s.len() implies #[trigger] s[k] == join_sp(
            crate::serial::sub_line_toks(r, j + k),
        ) by {
            if k > 0 {
                assert(s[k] == t[k - 1]);
            }
        }
    }
}

pub proof fn lemma_particle_line_seq_index(e: HepeupV, j: int)
    requires
        0 <= j,
    ensures
        particle_line_seq(e, j).len() == if e.nup - j >= 0 {
            e.nup - j
        } else {
            0
        },
        forall|k: int|
            0 <= k < particle_line_seq(e, j).len() ==> #[trigger] particle_line_seq(e, j)[k]
                == join_sp(crate::serial::particle_toks(e, j + k)),
    decreases e.nup - j,
{
    if j < e.nup {
        lemma_particle_line_seq_index(e, j + 1);
        let s = particle_line_seq(e, j);
        let t = particle_line_seq(e, j + 1);
        assert forall|k: int| 0 <= k < s.len() implies #[trigger] s[k] == join_sp(
            crate::serial::particle_toks(e, j + k),
        ) by {
            if k > 0 {
                assert(s[k] == t[k - 1]);
            }
        }
    }
}

/// Each parsed row repeats the record's fields, offset by `j`.
pub open spec fn sub_rows_match(rows: Seq<crate::pspec::SubRow>, r: HeprupV, j: int) -> bool {
    forall|k: int|
        0 <= k < rows.len() ==> (#[trigger] rows[k]).xsec == r.xsecup[j + k] && rows[k].xerr
            == r.xerrup[j + k] && rows[k].xmax == r.xmaxup[j + k] && rows[k].lpr == r.lprup[j + k]
}

/// Each parsed row repeats the event's fields, offset by `j`.
pub open spec fn particle_rows_match(rows: Seq<crate::pspec::ParticleRow>, e: HepeupV, j: int) -> bool {
    forall|k: int|
        0 <= k < rows.len() ==> (#[trigger] rows[k]).idup == e.idup[j + k] && rows[k].istup
            == e.istup[j + k] && rows[k].moth == e.mothup[j + k] && rows[k].icol == e.icolup[j + k]
            && rows[k].pup == e.pup[j + k] && rows[k].vtim == e.vtimup[j + k] && rows[k].spin
            == e.spinup[j + k]
}

/// Parsing the written subprocess lines returns the written rows.
pub proof fn lemma_sub_rows_rt(r: HeprupV, ls: Seq<Seq<u8>>, base: int, j: int)
    requires
        heprup_wf(r),
        0 <= j <= r.nprup,
        0 <= base,
        base + r.nprup <= ls.len(),
        forall|k: int|
            0 <= k < r.nprup ==> ls[base + k] == join_sp(
                #[trigger] crate::serial::sub_line_toks(r, k),
            ),
    ensures
        ({
            let s = crate::pspec::spec_sub_rows(ls, base, j, r.nprup as int);
            s matches Ok(rows) && rows.len() == r.nprup - j && sub_rows_match(rows, r, j)
        }),
    decreases r.nprup - j,
{
    if j == r.nprup {
        assert(crate::pspec::spec_sub_rows(ls, base, j, r.nprup as int) == Ok::<
            Seq<crate::pspec::SubRow>,
            PErr,
        >(Seq::empty()));
    } else {
        let toks = crate::serial::sub_line_toks(r, j);
        assert(ls[base + j] == join_sp(toks));
        lemma_sub_toks_wf(r, j);
        crate::tokens::lemma_tokens_join(toks);
        assert(line_at(ls, base + j) == ls[base + j]);
        assert(spec_tokens(line_at(ls, base + j)) == toks);
        crate::num::lemma_i32_round_trip(r.lprup[j]);
        let row = crate::pspec::SubRow {
            xsec: r.xsecup[j],
            xerr: r.xerrup[j],
            xmax: r.xmaxup[j],
            lpr: r.lprup[j],
        };
        assert(crate::pspec::spec_sub_row(ls, base, j) == Ok::<crate::pspec::SubRow, PErr>(row));
        lemma_sub_rows_rt(r, ls, base, j + 1);
        let rest = crate::pspec::spec_sub_rows(ls, base, j + 1, r.nprup as int)->Ok_0;
        let rows = seq![row] + rest;
        assert(crate::pspec::spec_sub_rows(ls, base, j, r.nprup as int) == Ok::<
            Seq<crate::pspec::SubRow>,
            PErr,
        >(rows));
        assert forall|k: int| 0 <= k < rows.len() implies (#[trigger] rows[k]).xsec == r.xsecup[j
            + k] && rows[k].xerr == r.xerrup[j + k] && rows[k].xmax == r.xmaxup[j + k]
            && rows[k].lpr == r.lprup[j + k] by {
            if k > 0 {
                assert(rows[k] == rest[k - 1]);
                assert(sub_rows_match(rest, r, j + 1));
            }
        }
        assert(sub_rows_match(rows, r, j));
    }
}

/// Parsing the written particle lines returns the written rows.
#[verifier::rlimit(80)]
pub proof fn lemma_particle_rows_rt(e: HepeupV, ls: Seq<Seq<u8>>, base: int, j: int)
    requires
        hepeup_wf(e),
        0 <= j <= e.nup,
        0 <= base,
        base + e.nup <= ls.len(),
        forall|k: int|
            0 <= k < e.nup ==> ls[base + k] == join_sp(
                #[trigger] crate::serial::particle_toks(e, k),
            ),
    ensures
        ({
            let s = crate::pspec::spec_particle_rows(ls, base, j, e.nup as int);
            s matches Ok(rows) && rows.len() == e.nup - j && particle_rows_match(rows, e, j)
        }),
    decreases e.nup - j,
{
    if j == e.nup {
        assert(crate::pspec::spec_particle_rows(ls, base, j, e.nup as int) == Ok::<
            Seq<crate::pspec::ParticleRow>,
            PErr,
        >(Seq::empty()));
    } else {
        let toks = crate::serial::particle_toks(e, j);
        assert(ls[base + j] == join_sp(toks));
        lemma_particle_toks_wf(e, j);
        crate::tokens::lemma_tokens_join(toks);
        assert(line_at(ls, base + j) == ls[base + j]);
        assert(spec_tokens(line_at(ls, base + j)) == toks);
        crate::num::lemma_i32_round_trip(e.idup[j]);
        crate::num::lemma_i32_round_trip(e.istup[j]);
        crate::num::lemma_i32_round_trip(e.mothup[j][0]);
        crate::num::lemma_i32_round_trip(e.mothup[j][1]);
        crate::num::lemma_i32_round_trip(e.icolup[j][0]);
        crate::num::lemma_i32_round_trip(e.icolup[j][1]);
        let row = crate::pspec::ParticleRow {
            idup: e.idup[j],
            istup: e.istup[j],
            moth: e.mothup[j],
            icol: e.icolup[j],
            pup: e.pup[j],
            vtim: e.vtimup[j],
            spin: e.spinup[j],
        };
        assert(seq![e.mothup[j][0], e.mothup[j][1]] =~= e.mothup[j]);
        assert(seq![e.icolup[j][0], e.icolup[j][1]] =~= e.icolup[j]);
        assert(seq![e.pup[j][0], e.pup[j][1], e.pup[j][2], e.pup[j][3], e.pup[j][4]] =~= e.pup[j]);
        assert(crate::pspec::spec_particle_row(ls, base, j) == Ok::<
            crate::pspec::ParticleRow,
            PErr,
        >(row));
        lemma_particle_rows_rt(e, ls, base, j + 1);
        let rest = crate::pspec::spec_particle_rows(ls, base, j + 1, e.nup as int)->Ok_0;
        let rows = seq![row] + rest;
        assert(crate::pspec::spec_particle_rows(ls, base, j, e.nup as int) == Ok::<
            Seq<crate::pspec::ParticleRow>,
            PErr,
        >(rows));
        assert forall|k: int| 0 <= k < rows.len() implies (#[trigger] rows[k]).idup == e.idup[j + k]
            && rows[k].istup == e.istup[j + k] && rows[k].moth == e.mothup[j + k] && rows[k].icol
            == e.icolup[j + k] && rows[k].pup == e.pup[j + k] && rows[k].vtim == e.vtimup[j + k]
            && rows[k].spin == e.spinup[j + k] by {
            if k > 0 {
                assert(rows[k] == rest[k - 1]);
                assert(particle_rows_match(rest, e, j + 1));
            }
        }
        assert(particle_rows_match(rows, e, j));
    }
}

/// The lines of the run-information block after its opening line.
pub open spec fn init_body_lines(r: HeprupV) -> Seq<Seq<u8>> {
    seq![join_sp(crate::serial::heprup_line1_toks(r))] + sub_line_seq(r, 0) + spec_lines(r.info)
        + seq![tags::init_close_tag()]
}

/// The lines of an event block after its opening line.
pub open spec fn event_body_lines(e: HepeupV) -> Seq<Seq<u8>> {
    seq![join_sp(crate::serial::event_line1_toks(e))] + particle_line_seq(e, 0) + spec_lines(
        e.info,
    ) + seq![tags::event_close_tag()]
}

/// A written run-information block parses back to the same record.
#[verifier::rlimit(100)]
pub proof fn lemma_parse_init_rt(r: HeprupV, ls: Seq<Seq<u8>>, i: int)
    requires
        heprup_wf(r),
        lines_match(ls, i, init_body_lines(r)),
    ensures
        crate::pspec::spec_parse_init(open_line(tags::init_open_tag(), r.attr), ls, i) == Ok::<
            (HeprupV, int),
            PErr,
        >((r, i + init_body_lines(r).len())),
{
    let body = init_body_lines(r);
    let n = r.nprup as int;
    lemma_sub_line_seq_index(r, 0);
    let nh = spec_lines(r.info).len() as int;
    assert(body.len() == 1 + n + nh + 1);
    let line1 = join_sp(crate::serial::heprup_line1_toks(r));
    assert(ls[i + 0] == body[0]);
    assert(body[0] == line1);
    assert(line_at(ls, i) == ls[i]);
    lemma_heprup_toks_wf(r);
    crate::tokens::lemma_tokens_join(crate::serial::heprup_line1_toks(r));
    let toks = spec_tokens(line_at(ls, i));
    assert(toks == crate::serial::heprup_line1_toks(r));
    assert(toks.len() == 10);
    crate::num::lemma_i32_round_trip(r.idbmup[0]);
    crate::num::lemma_i32_round_trip(r.idbmup[1]);
    crate::num::lemma_i32_round_trip(r.pdfgup[0]);
    crate::num::lemma_i32_round_trip(r.pdfgup[1]);
    crate::num::lemma_i32_round_trip(r.pdfsup[0]);
    crate::num::lemma_i32_round_trip(r.pdfsup[1]);
    crate::num::lemma_i32_round_trip(r.idwtup);
    crate::num::lemma_i32_round_trip(r.nprup);
    assert(crate::pspec::int_field(toks, 0, crate::fields::name_idbmup_1()) == Ok::<i32, PErr>(
        r.idbmup[0],
    ));
    assert(crate::pspec::float_field(toks, 2, crate::fields::name_ebmup_1()) == Ok::<
        Seq<u8>,
        PErr,
    >(r.ebmup[0]));
    assert forall|k: int| 0 <= k < n implies ls[i + 1 + k] == join_sp(
        #[trigger] crate::serial::sub_line_toks(r, k),
    ) by {
        assert(ls[i + 1 + k] == body[1 + k]);
        assert(body[1 + k] == sub_line_seq(r, 0)[k]);
    }
    lemma_sub_rows_rt(r, ls, i + 1, 0);
    let rows = crate::pspec::spec_sub_rows(ls, i + 1, 0, n)->Ok_0;
    assert(rows.map_values(|q: crate::pspec::SubRow| q.xsec) =~= r.xsecup);
    assert(rows.map_values(|q: crate::pspec::SubRow| q.xerr) =~= r.xerrup);
    assert(rows.map_values(|q: crate::pspec::SubRow| q.xmax) =~= r.xmaxup);
    assert(rows.map_values(|q: crate::pspec::SubRow| q.lpr) =~= r.lprup);
    let start = i + 1 + n;
    let c0 = start + nh;
    assert(ls[c0] == body[1 + n + nh]);
    assert(body[1 + n + nh] == tags::init_close_tag());
    assert(crate::data::strip_cr(tags::init_close_tag()) == tags::init_close_tag());
    assert(is_close_line(CloseKind::Init, ls[c0]));
    assert forall|j: int| start <= j < c0 implies !is_close_line(
        CloseKind::Init,
        #[trigger] ls[j],
    ) by {
        assert(ls[j] == body[1 + n + (j - start)]);
        assert(body[1 + n + (j - start)] == spec_lines(r.info)[j - start]);
        assert(!crate::data::is_init_close_line(spec_lines(r.info)[j - start]));
    }
    lemma_find_close_is(ls, start, c0, CloseKind::Init);
    lemma_collect_unlines(ls, start, c0);
    assert(ls.subrange(start, c0) =~= spec_lines(r.info)) by {
        assert(forall|k: int|
            0 <= k < nh ==> ls.subrange(start, c0)[k] == ls[start + k] && ls[start + k] == body[1
                + n + k] && body[1 + n + k] == #[trigger] spec_lines(r.info)[k]);
    }
    if r.info.len() == 0 {
        assert(spec_lines(r.info) =~= Seq::<Seq<u8>>::empty());
        assert(unlines(spec_lines(r.info)) =~= r.info);
    } else {
        lemma_unlines_lines(r.info, Seq::empty());
        assert(Seq::<u8>::empty() + r.info =~= r.info);
    }
    assert(collect_lines(ls, start, c0) == r.info);
    assert(no_ws(tags::init_open_tag()));
    lemma_attrs_rt(tags::init_open_tag(), r.attr);
    let parsed = crate::pspec::spec_parse_init(open_line(tags::init_open_tag(), r.attr), ls, i);
    assert(parsed matches Ok(p) && p.1 == c0 + 1);
    let got = parsed->Ok_0.0;
    assert(got.idbmup =~= r.idbmup);
    assert(got.ebmup =~= r.ebmup);
    assert(got.pdfgup =~= r.pdfgup);
    assert(got.pdfsup =~= r.pdfsup);
    assert(got =~~= r);
}

/// A written event block parses back to the same record.
#[verifier::rlimit(100)]
pub proof fn lemma_parse_event_rt(e: HepeupV, ls: Seq<Seq<u8>>, i: int)
    requires
        hepeup_wf(e),
        lines_match(ls, i, event_body_lines(e)),
    ensures
        crate::pspec::spec_parse_event_block(open_line(tags::event_open_tag(), e.attr), ls, i)
            == Ok::<(HepeupV, int), PErr>((e, i + event_body_lines(e).len())),
{
    let body = event_body_lines(e);
    let n = e.nup as int;
    lemma_particle_line_seq_index(e, 0);
    let nh = spec_lines(e.info).len() as int;
    assert(body.len() == 1 + n + nh + 1);
    let line1 = join_sp(crate::serial::event_line1_toks(e));
    assert(ls[i + 0] == body[0]);
    assert(body[0] == line1);
    assert(line_at(ls, i) == ls[i]);
    lemma_hepeup_toks_wf(e);
    crate::tokens::lemma_tokens_join(crate::serial::event_line1_toks(e));
    let toks = spec_tokens(line_at(ls, i));
    assert(toks == crate::serial::event_line1_toks(e));
    assert(toks.len() == 6);
    crate::num::lemma_i32_round_trip(e.nup);
    crate::num::lemma_i32_round_trip(e.idrup);
    assert forall|k: int| 0 <= k < n implies ls[i + 1 + k] == join_sp(
        #[trigger] crate::serial::particle_toks(e, k),
    ) by {
        assert(ls[i + 1 + k] == body[1 + k]);
        assert(body[1 + k] == particle_line_seq(e, 0)[k]);
    }
    lemma_particle_rows_rt(e, ls, i + 1, 0);
    let rows = crate::pspec::spec_particle_rows(ls, i + 1, 0, n)->Ok_0;
    assert(rows.map_values(|q: crate::pspec::ParticleRow| q.idup) =~= e.idup);
    assert(rows.map_values(|q: crate::pspec::ParticleRow| q.istup) =~= e.istup);
    assert(rows.map_values(|q: crate::pspec::ParticleRow| q.moth) =~= e.mothup);
    assert(rows.map_values(|q: crate::pspec::ParticleRow| q.icol) =~= e.icolup);
    assert(rows.map_values(|q: crate::pspec::ParticleRow| q.pup) =~= e.pup);
    assert(rows.map_values(|q: crate::pspec::ParticleRow| q.vtim) =~= e.vtimup);
    assert(rows.map_values(|q: crate::pspec::ParticleRow| q.spin) =~= e.spinup);
    let start = i + 1 + n;
    let c0 = start + nh;
    assert(ls[c0] == body[1 + n + nh]);
    assert(body[1 + n + nh] == tags::event_close_tag());
    lemma_trim_id(tags::event_close_tag());
    assert(is_close_line(CloseKind::Event, ls[c0]));
    assert forall|j: int| start <= j < c0 implies !is_close_line(
        CloseKind::Event,
        #[trigger] ls[j],
    ) by {
        assert(ls[j] == body[1 + n + (j - start)]);
        assert(body[1 + n + (j - start)] == spec_lines(e.info)[j - start]);
        assert(!crate::data::is_event_close_line(spec_lines(e.info)[j - start]));
    }
    lemma_find_close_is(ls, start, c0, CloseKind::Event);
    lemma_collect_unlines(ls, start, c0);
    assert(ls.subrange(start, c0) =~= spec_lines(e.info)) by {
        assert(forall|k: int|
            0 <= k < nh ==> ls.subrange(start, c0)[k] == ls[start + k] && ls[start + k] == body[1
                + n + k] && body[1 + n + k] == #[trigger] spec_lines(e.info)[k]);
    }
    if e.info.len() == 0 {
        assert(spec_lines(e.info) =~= Seq::<Seq<u8>>::empty());
        assert(unlines(spec_lines(e.info)) =~= e.info);
    } else {
        lemma_unlines_lines(e.info, Seq::empty());
        assert(Seq::<u8>::empty() + e.info =~= e.info);
    }
    assert(collect_lines(ls, start, c0) == e.info);
    assert(no_ws(tags::event_open_tag()));
    lemma_attrs_rt(tags::event_open_tag(), e.attr);
    let parsed = crate::pspec::spec_parse_event_block(
        open_line(tags::event_open_tag(), e.attr),
        ls,
        i,
    );
    assert(parsed matches Ok(p) && p.1 == c0 + 1);
    let got = parsed->Ok_0.0;
    assert(got =~~= e);
}

/// The opening line of the file, newline excluded.
pub open spec fn version_content(v: Seq<u8>) -> Seq<u8> {
    tags::lhef_open_tag() + seq![34u8] + v + seq![34u8, 62u8]
}

/// The lines of the comment header block.
pub open spec fn comment_lines(h: Seq<u8>) -> Seq<Seq<u8>> {
    seq![tags::comment_open_tag()] + spec_lines(h) + seq![tags::comment_close_tag()]
}

/// A written opening line parses back to its version.
pub proof fn lemma_version_rt(v: Seq<u8>, ls: Seq<Seq<u8>>)
    requires
        crate::data::version_wf(v),
        ls.len() > 0,
        ls[0] == version_content(v),
    ensures
        crate::pspec::spec_parse_version(ls) == Ok::<Seq<u8>, PErr>(v),
{
    let line = version_content(v);
    assert(v.len() == 3 && v[0] != 34 && v[1] != 34 && v[2] != 34 && v[0] != 10 && v[1] != 10
        && v[2] != 10 && !is_ws(v[0]) && !is_ws(v[1]) && !is_ws(v[2]));
    assert(line.len() == 32);
    assert(line[0] == 60);
    assert(line[31] == 62);
    lemma_trim_id(line);
    let t = spec_trim(line);
    assert(t == line);
    assert(forall|j: int| 0 <= j < 26 ==> #[trigger] t[j] == tags::lhef_open_tag()[j]);
    assert(forall|j: int| 0 <= j < 26 ==> t[j] != 34);
    assert(t[26] == 34);
    lemma_find_from_is(t, 34, 0, 26);
    assert(t.take(26) =~= tags::lhef_open_tag());
    assert(t[27] == v[0] && t[28] == v[1] && t[29] == v[2]);
    assert(t[30] == 34);
    lemma_find_from_is(t, 34, 27, 30);
    assert(t.subrange(27, 30) =~= v);
    assert(t[31] == 62);
    assert(t[31] != 34);
    lemma_find_from(t, 34, 31);
    assert(find_from(t, 34, 31) == 32) by {
        lemma_find_from(t, 34, 31);
        if find_from(t, 34, 31) < 32 {
            assert(t[find_from(t, 34, 31)] == 34);
            assert(find_from(t, 34, 31) == 31);
        }
    }
    assert(t.subrange(31, 32) =~= seq![62u8]);
    assert(line_at(ls, 0) == line);
}

/// The comment block and the following run-information opening line parse
/// back: the comment text unchanged, the opening line retained unconsumed.
pub proof fn lemma_header_rt(
    h: Seq<u8>,
    am: Seq<(Seq<u8>, Seq<u8>)>,
    ls: Seq<Seq<u8>>,
    i: int,
)
    requires
        header_text_wf(h),
        lines_match(ls, i, comment_lines(h)),
        i + comment_lines(h).len() < ls.len(),
        ls[i + comment_lines(h).len()] == open_line(tags::init_open_tag(), am),
    ensures
        ({
            let got = crate::pspec::spec_parse_header(ls, i);
            got matches Ok(o) && o.header == h && o.xml_text is None && o.init_line == open_line(
                tags::init_open_tag(),
                am,
            ) && o.next == i + comment_lines(h).len() + 1
        }),
{
    let cl = comment_lines(h);
    let nh = spec_lines(h).len() as int;
    assert(cl.len() == nh + 2);
    assert(ls[i + 0] == cl[0]);
    assert(cl[0] == tags::comment_open_tag());
    lemma_trim_id(tags::comment_open_tag());
    assert(spec_trim(line_at(ls, i)) == tags::comment_open_tag());
    assert(tags::comment_open_tag().is_prefix_of(tags::comment_open_tag()));
    let c0 = i + 1 + nh;
    assert(ls[c0] == cl[1 + nh]);
    assert(cl[1 + nh] == tags::comment_close_tag());
    lemma_trim_id(tags::comment_close_tag());
    assert(is_close_line(CloseKind::Comment, ls[c0]));
    assert forall|j: int| i + 1 <= j < c0 implies !is_close_line(
        CloseKind::Comment,
        #[trigger] ls[j],
    ) by {
        assert(ls[j] == cl[j - i]);
        assert(cl[j - i] == spec_lines(h)[j - i - 1]);
        assert(!crate::data::is_comment_close_line(spec_lines(h)[j - i - 1]));
    }
    lemma_find_close_is(ls, i + 1, c0, CloseKind::Comment);
    lemma_collect_unlines(ls, i + 1, c0);
    assert(ls.subrange(i + 1, c0) =~= spec_lines(h)) by {
        assert(forall|k: int|
            0 <= k < nh ==> ls.subrange(i + 1, c0)[k] == ls[i + 1 + k] && ls[i + 1 + k] == cl[1 + k]
                && cl[1 + k] == #[trigger] spec_lines(h)[k]);
    }
    if h.len() == 0 {
        assert(spec_lines(h) =~= Seq::<Seq<u8>>::empty());
        assert(unlines(spec_lines(h)) =~= h);
    } else {
        lemma_unlines_lines(h, Seq::empty());
        assert(Seq::<u8>::empty() + h =~= h);
    }
    assert(collect_lines(ls, i + 1, c0) == h);
    let il = open_line(tags::init_open_tag(), am);
    assert(line_at(ls, c0 + 1) == il);
    assert(il.len() == 5 + attrs_text(am).len() + 1);
    assert(il[0] == 60);
    assert(il[il.len() - 1] == 62);
    lemma_trim_id(il);
    let t2 = spec_trim(il);
    assert(t2 == il);
    assert(t2[1] == 105);
    assert(!tags::comment_open_tag().is_prefix_of(t2)) by {
        if tags::comment_open_tag().is_prefix_of(t2) {
            assert(t2.subrange(0, 4)[1] == t2[1]);
            assert(tags::comment_open_tag()[1] == 33);
        }
    }
    assert(!tags::header_open_tag().is_prefix_of(t2)) by {
        if tags::header_open_tag().is_prefix_of(t2) {
            assert(t2.subrange(0, 7)[1] == t2[1]);
            assert(tags::header_open_tag()[1] == 104);
        }
    }
    assert(tags::init_open_tag().is_prefix_of(t2)) by {
        assert(t2.subrange(0, 5) =~= tags::init_open_tag());
    }
    assert(crate::pspec::spec_parse_header_loop(ls, c0 + 1, h, None) matches Ok(o) && o.header == h
        && o.xml_text is None && o.init_line == il && o.next == c0 + 2);
}

/// THE VERSION GATE: an opening line that declares any version other than
/// the three supported ones is refused with exactly that version named,
/// whatever else the stream holds.
pub proof fn lemma_version_gate(v: Seq<u8>, ls: Seq<Seq<u8>>)
    requires
        !crate::data::version_wf(v),
        forall|k: int| 0 <= k < v.len() ==> v[k] != 34,
        ls.len() > 0,
        ls[0] == version_content(v),
    ensures
        crate::pspec::spec_parse_version(ls) == Err::<Seq<u8>, PErr>(
            PErr::UnsupportedVersion(v),
        ),
{
    let line = version_content(v);
    let n = v.len() as int;
    assert(line.len() == 26 + 1 + n + 2);
    assert(line[0] == 60);
    assert(line[line.len() - 1] == 62);
    lemma_trim_id(line);
    let t = spec_trim(line);
    assert(t == line);
    assert(forall|j: int| 0 <= j < 26 ==> #[trigger] t[j] == tags::lhef_open_tag()[j]);
    assert(forall|j: int| 0 <= j < 26 ==> t[j] != 34);
    assert(t[26] == 34);
    lemma_find_from_is(t, 34, 0, 26);
    assert(t.take(26) =~= tags::lhef_open_tag());
    assert(forall|j: int| 27 <= j < 27 + n ==> #[trigger] t[j] == v[j - 27] && t[j] != 34);
    assert(t[27 + n] == 34);
    lemma_find_from_is(t, 34, 27, 27 + n);
    assert(t.subrange(27, 27 + n) =~= v);
    assert(line_at(ls, 0) == line);
}

/// An opening line that ends at the tag with no quoted version at all is
/// refused as missing its version.
pub proof fn lemma_missing_version(ls: Seq<Seq<u8>>)
    requires
        ls.len() > 0,
        ls[0] == tags::lhef_open_tag(),
    ensures
        crate::pspec::spec_parse_version(ls) == Err::<Seq<u8>, PErr>(PErr::MissingVersion),
{
    let t0 = tags::lhef_open_tag();
    assert(!is_ws(t0[0]) && !is_ws(t0[25]));
    lemma_trim_id(t0);
    let t = spec_trim(t0);
    assert(t == t0);
    lemma_find_from(t, 34, 0);
    assert(find_from(t, 34, 0) == 26) by {
        lemma_find_from(t, 34, 0);
        if find_from(t, 34, 0) < 26 {
            assert(t[find_from(t, 34, 0)] == 34);
        }
    }
    assert(t.take(26) =~= t0);
    assert(line_at(ls, 0) == t0);
}

/// The bytes of the event blocks, in order.
pub open spec fn events_bytes(evs: Seq<HepeupV>) -> Seq<u8>
    decreases evs.len(),
{
    if evs.len() == 0 {
        Seq::empty()
    } else {
        crate::serial::event_block(evs[0]) + events_bytes(evs.skip(1))
    }
}

/// The lines of the event blocks, in order.
pub open spec fn events_lines(evs: Seq<HepeupV>) -> Seq<Seq<u8>>
    decreases evs.len(),
{
    if evs.len() == 0 {
        Seq::empty()
    } else {
        (seq![
            open_line(tags::event_open_tag(), evs[0].attr),
        ] + event_body_lines(evs[0])) + events_lines(evs.skip(1))
    }
}

pub proof fn lemma_events_bytes_lines(evs: Seq<HepeupV>, rest: Seq<u8>)
    requires
        forall|k: int| 0 <= k < evs.len() ==> hepeup_wf(#[trigger] evs[k]),
    ensures
        spec_lines(events_bytes(evs) + rest) == events_lines(evs) + spec_lines(rest),
    decreases evs.len(),
{
    if evs.len() == 0 {
        assert(events_bytes(evs) + rest =~= rest);
        assert(events_lines(evs) + spec_lines(rest) =~= spec_lines(rest));
    } else {
        assert(forall|k: int|
            0 <= k < evs.skip(1).len() ==> #[trigger] evs.skip(1)[k] == evs[k + 1]);
        lemma_events_bytes_lines(evs.skip(1), rest);
        let tail = events_bytes(evs.skip(1)) + rest;
        assert(events_bytes(evs) + rest =~= crate::serial::event_block(evs[0]) + tail);
        lemma_event_lines(evs[0], tail);
        assert(event_block_lines(evs[0]) =~= seq![
            open_line(tags::event_open_tag(), evs[0].attr),
        ] + event_body_lines(evs[0]));
        assert(event_block_lines(evs[0]) + (events_lines(evs.skip(1)) + spec_lines(rest))
            =~= events_lines(evs) + spec_lines(rest));
    }
}

/// Pulling events one at a time from position `i` yields exactly `evs`,
/// then the end marker.
pub open spec fn events_parse_ok(ls: Seq<Seq<u8>>, i: int, evs: Seq<HepeupV>) -> bool
    decreases evs.len(),
{
    if evs.len() == 0 {
        crate::pspec::spec_parse_event(ls, i) == Ok::<Option<(HepeupV, int)>, PErr>(None)
    } else {
        ||| (crate::pspec::spec_parse_event(ls, i) matches Ok(o) && o matches Some(p) && p.0
            == evs[0] && events_parse_ok(ls, p.1, evs.skip(1)))
    }
}

#[verifier::rlimit(100)]
pub proof fn lemma_events_rt(evs: Seq<HepeupV>, ls: Seq<Seq<u8>>, i: int)
    requires
        forall|k: int| 0 <= k < evs.len() ==> hepeup_wf(#[trigger] evs[k]),
        lines_match(ls, i, events_lines(evs) + seq![tags::lhef_close_tag()]),
    ensures
        events_parse_ok(ls, i, evs),
    decreases evs.len(),
{
    let el = events_lines(evs) + seq![tags::lhef_close_tag()];
    if evs.len() == 0 {
        assert(ls[i + 0] == el[0]);
        assert(el[0] == tags::lhef_close_tag());
        let l = line_at(ls, i);
        assert(l == tags::lhef_close_tag());
        assert(!tags::event_open_tag().is_prefix_of(l)) by {
            if tags::event_open_tag().is_prefix_of(l) {
                assert(l.subrange(0, 6)[1] == l[1]);
                assert(tags::event_open_tag()[1] == 101);
                assert(tags::lhef_close_tag()[1] == 47);
            }
        }
        lemma_trim_id(l);
    } else {
        let e0 = evs[0];
        let body = event_body_lines(e0);
        let ol = open_line(tags::event_open_tag(), e0.attr);
        assert(events_lines(evs) == (seq![ol] + body) + events_lines(evs.skip(1)));
        assert(ls[i + 0] == el[0]);
        assert(el[0] == ol);
        let l = line_at(ls, i);
        assert(l == ol);
        assert(tags::event_open_tag().is_prefix_of(l)) by {
            assert(l.subrange(0, 6) =~= tags::event_open_tag());
        }
        assert(lines_match(ls, i + 1, body)) by {
            assert(forall|k: int|
                0 <= k < body.len() ==> ls[i + 1 + k] == el[1 + k] && el[1 + k]
                    == #[trigger] body[k]);
        }
        lemma_parse_event_rt(e0, ls, i + 1);
        let next = i + 1 + body.len();
        assert(crate::pspec::spec_parse_event(ls, i) matches Ok(o) && o == Some((e0, next)));
        let el2 = events_lines(evs.skip(1)) + seq![tags::lhef_close_tag()];
        assert(lines_match(ls, next, el2)) by {
            assert(forall|k: int|
                0 <= k < el2.len() ==> ls[next + k] == el[1 + body.len() + k] && el[1 + body.len()
                    + k] == #[trigger] el2[k]);
        }
        assert(forall|k: int|
            0 <= k < evs.skip(1).len() ==> #[trigger] evs.skip(1)[k] == evs[k + 1]);
        lemma_events_rt(evs.skip(1), ls, next);
    }
}

/// Everything a writer emits for one complete file: the opening version
/// line, the comment header block, the run-information block, the event
/// blocks, the closing line.
pub open spec fn file_bytes(v: Seq<u8>, h: Seq<u8>, r: HeprupV, evs: Seq<HepeupV>) -> Seq<u8> {
    crate::serial::version_line(v) + crate::serial::comment_block(h) + crate::serial::init_block(r)
        + events_bytes(evs) + crate::serial::close_line()
}

/// The same file as lines.
pub open spec fn file_lines(v: Seq<u8>, h: Seq<u8>, r: HeprupV, evs: Seq<HepeupV>) -> Seq<
    Seq<u8>,
> {
    seq![version_content(v)] + comment_lines(h) + seq![
        open_line(tags::init_open_tag(), r.attr),
    ] + init_body_lines(r) + events_lines(evs) + seq![tags::lhef_close_tag()]
}

#[verifier::rlimit(100)]
pub proof fn lemma_file_lines(v: Seq<u8>, h: Seq<u8>, r: HeprupV, evs: Seq<HepeupV>)
    requires
        crate::data::version_wf(v),
        header_text_wf(h),
        heprup_wf(r),
        forall|k: int| 0 <= k < evs.len() ==> hepeup_wf(#[trigger] evs[k]),
    ensures
        spec_lines(file_bytes(v, h, r, evs)) == file_lines(v, h, r, evs),
{
    let r3 = events_bytes(evs) + crate::serial::close_line();
    let r2 = crate::serial::init_block(r) + r3;
    let r1 = crate::serial::comment_block(h) + r2;
    assert(file_bytes(v, h, r, evs) =~= crate::serial::version_line(v) + r1);
    assert(no_nl(version_content(v))) by {
        let c = version_content(v);
        assert(v.len() == 3 && v[0] != 10 && v[1] != 10 && v[2] != 10);
        assert forall|k: int| 0 <= k < c.len() implies #[trigger] c[k] != NL by {
            if k < 26 {
                assert(c[k] == tags::lhef_open_tag()[k]);
            } else if k == 26 {
            } else if k < 30 {
                assert(c[k] == v[k - 27]);
            } else {
            }
        }
    }
    assert(crate::serial::version_line(v) + r1 =~= version_content(v) + seq![NL] + r1);
    lemma_lines_unfold(version_content(v), r1, Seq::empty());
    assert(Seq::<u8>::empty() + version_content(v) =~= version_content(v));
    let rc = tags::comment_close_tag() + seq![NL] + r2;
    assert(crate::serial::comment_block(h) + r2 =~= tags::comment_open_tag() + seq![NL] + (h + rc));
    assert(no_nl(tags::comment_open_tag()));
    lemma_lines_unfold(tags::comment_open_tag(), h + rc, Seq::empty());
    assert(Seq::<u8>::empty() + tags::comment_open_tag() =~= tags::comment_open_tag());
    if h.len() == 0 {
        assert(h + rc =~= rc);
        assert(spec_lines(h) =~= Seq::<Seq<u8>>::empty());
    } else {
        lemma_lines_split(h, rc, Seq::empty());
    }
    assert(no_nl(tags::comment_close_tag()));
    lemma_lines_unfold(tags::comment_close_tag(), r2, Seq::empty());
    assert(Seq::<u8>::empty() + tags::comment_close_tag() =~= tags::comment_close_tag());
    lemma_init_lines(r, r3);
    lemma_events_bytes_lines(evs, crate::serial::close_line());
    assert(no_nl(tags::lhef_close_tag()));
    assert(crate::serial::close_line() =~= tags::lhef_close_tag() + seq![NL] + Seq::<u8>::empty());
    lemma_lines_unfold(tags::lhef_close_tag(), Seq::empty(), Seq::empty());
    assert(Seq::<u8>::empty() + tags::lhef_close_tag() =~= tags::lhef_close_tag());
    assert(spec_lines(Seq::<u8>::empty()) =~= Seq::<Seq<u8>>::empty());
    assert(init_block_lines(r) =~= seq![open_line(tags::init_open_tag(), r.attr)]
        + init_body_lines(r));
    assert(spec_lines(file_bytes(v, h, r, evs)) =~= file_lines(v, h, r, evs));
}

/// THE ROUND-TRIP LAW: serializing a supported version, well-formed comment
/// text, a well-formed run record and well-formed events, then parsing the
/// bytes back, returns exactly the same version, comment text, run record
/// and events, and then reports the end of the stream — every numeric field
/// byte-for-byte, hence bit-for-bit, identical. Records the reader itself
/// produces are well formed in this sense, except for three degenerate
/// shapes that cannot be rewritten faithfully: a count declared negative
/// (its sequences read back empty), an attribute value holding a double
/// quote (readable only from a single-quoted attribute), and free text
/// holding a line that closes its own block (the scan would stop there).
pub proof fn lemma_round_trip(v: Seq<u8>, h: Seq<u8>, r: HeprupV, evs: Seq<HepeupV>)
    requires
        crate::data::version_wf(v),
        header_text_wf(h),
        heprup_wf(r),
        forall|k: int| 0 <= k < evs.len() ==> hepeup_wf(#[trigger] evs[k]),
    ensures
        ({
            let ls = spec_lines(file_bytes(v, h, r, evs));
            crate::pspec::spec_parse_prelude(ls) matches Ok(p) && p.version == v && p.header == h
                && p.xml_text is None && p.heprup == r && events_parse_ok(ls, p.next, evs)
        }),
{
    lemma_file_lines(v, h, r, evs);
    let ls = spec_lines(file_bytes(v, h, r, evs));
    let cl = comment_lines(h);
    let ibl = init_body_lines(r);
    let evl = events_lines(evs);
    let o2 = 1 + cl.len() as int;
    let o3 = o2 + 1;
    let o4 = o3 + ibl.len() as int;
    assert(ls.len() == 1 + cl.len() + 1 + ibl.len() + evl.len() + 1);
    assert(ls[0] == version_content(v));
    lemma_version_rt(v, ls);
    assert(lines_match(ls, 1, cl)) by {
        assert(forall|k: int| 0 <= k < cl.len() ==> ls[1 + k] == #[trigger] cl[k]);
    }
    assert(ls[o2] == open_line(tags::init_open_tag(), r.attr));
    lemma_header_rt(h, r.attr, ls, 1);
    let ho = crate::pspec::spec_parse_header(ls, 1)->Ok_0;
    assert(ho.next == o3);
    assert(lines_match(ls, o3, ibl)) by {
        assert(forall|k: int| 0 <= k < ibl.len() ==> ls[o3 + k] == #[trigger] ibl[k]);
    }
    lemma_parse_init_rt(r, ls, o3);
    assert(crate::pspec::spec_parse_init(ho.init_line, ls, o3) == Ok::<(HeprupV, int), PErr>(
        (r, o4),
    ));
    assert(lines_match(ls, o4, evl + seq![tags::lhef_close_tag()])) by {
        let tail = evl + seq![tags::lhef_close_tag()];
        assert(forall|k: int| 0 <= k < tail.len() ==> ls[o4 + k] == #[trigger] tail[k]);
    }
    lemma_events_rt(evs, ls, o4);
    assert(crate::pspec::spec_parse_prelude(ls) matches Ok(p) && p.version == v && p.header == h
        && p.xml_text is None && p.heprup == r && p.next == o4);
}

/// Where the first whitespace byte stands, exactly.
pub proof fn lemma_find_ws_is(s: Seq<u8>, from: int, k: int)
    requires
        0 <= from <= k < s.len(),
        forall|j: int| from <= j < k ==> !is_ws(#[trigger] s[j]),
        is_ws(s[k]),
    ensures
        find_ws_from(s, from) == k,
{
    lemma_find_ws_from(s, from);
    let f = find_ws_from(s, from);
    if f < k {
        assert(is_ws(s[f]));
        assert(!is_ws(s[f]));
    }
    if f > k {
        assert(!is_ws(s[k]));
    }
}

} // verus!
