//! The byte-level form of every block the writer emits, as specification
//! functions, with executable builders proved to produce exactly those
//! bytes.
use crate::attr::XmlAttr;
use crate::data::{HeprupV, HepeupV, HEPRUP, HEPEUP};
use crate::lines::NL;
use crate::num::{dec_int, push_dec_i32};
use crate::syntax::push_all;
use crate::tags;
use crate::tokens::join_sp;
use vstd::prelude::*;

verus! {

/// One attribute as tag text: a space, the name, `="`, the value, `"`.
pub open spec fn pair_text(p: (Seq<u8>, Seq<u8>)) -> Seq<u8> {
    seq![32u8] + p.0 + seq![61u8, 34u8] + p.1 + seq![34u8]
}

/// Tag text of the attributes from position `i` on.
pub open spec fn attrs_text_from(m: Seq<(Seq<u8>, Seq<u8>)>, i: int) -> Seq<u8>
    decreases m.len() - i,
{
    if i < 0 || i >= m.len() {
        Seq::empty()
    } else {
        pair_text(m[i]) + attrs_text_from(m, i + 1)
    }
}

/// Tag text of a whole attribute map.
pub open spec fn attrs_text(m: Seq<(Seq<u8>, Seq<u8>)>) -> Seq<u8> {
    attrs_text_from(m, 0)
}

/// An opening tag line: the tag, its attributes, and `>`.
pub open spec fn open_line(tag: Seq<u8>, m: Seq<(Seq<u8>, Seq<u8>)>) -> Seq<u8> {
    tag + attrs_text(m) + seq![62u8]
}

/// The opening line of the file, carrying the version.
pub open spec fn version_line(v: Seq<u8>) -> Seq<u8> {
    tags::lhef_open_tag() + seq![34u8] + v + seq![34u8, 62u8, NL]
}

/// The comment header block.
pub open spec fn comment_block(h: Seq<u8>) -> Seq<u8> {
    tags::comment_open_tag() + seq![NL] + h + (if h.len() > 0 && h[h.len() - 1] != NL {
        seq![NL]
    } else {
        Seq::empty()
    }) + tags::comment_close_tag() + seq![NL]
}

/// Free-text info as emitted: verbatim, a newline appended when missing.
pub open spec fn info_bytes(info: Seq<u8>) -> Seq<u8> {
    if info.len() == 0 {
        Seq::empty()
    } else if info[info.len() - 1] == NL {
        info
    } else {
        info + seq![NL]
    }
}

/// The closing line of the file.
pub open spec fn close_line() -> Seq<u8> {
    tags::lhef_close_tag() + seq![NL]
}

/// The rest of a joined token line after position `i`: a space then the
/// token, repeated.
pub open spec fn join_tail(ts: Seq<Seq<u8>>, i: int) -> Seq<u8>
    decreases ts.len() - i,
{
    if i < 0 || i >= ts.len() {
        Seq::empty()
    } else {
        seq![32u8] + ts[i] + join_tail(ts, i + 1)
    }
}

/// Joining from any position agrees with the token-joining function.
pub proof fn lemma_join_sp_skip(ts: Seq<Seq<u8>>, i: int)
    requires
        0 <= i < ts.len(),
    ensures
        join_sp(ts.skip(i)) == ts[i] + join_tail(ts, i + 1),
    decreases ts.len() - i,
{
    let s = ts.skip(i);
    assert(s[0] == ts[i]);
    if i == ts.len() - 1 {
        assert(s.len() == 1);
    } else {
        lemma_join_sp_skip(ts, i + 1);
        assert(s.len() > 1);
        assert(s.skip(1) =~= ts.skip(i + 1));
        assert(join_sp(s) == s[0] + seq![32u8] + join_sp(s.skip(1)));
        assert(ts[i + 1] + join_tail(ts, i + 2) == join_sp(ts.skip(i + 1)));
        assert(ts[i] + seq![32u8] + (ts[i + 1] + join_tail(ts, i + 2)) =~= ts[i] + (seq![32u8]
            + ts[i + 1] + join_tail(ts, i + 2)));
    }
}

/// Scalar line of the run record: ten fields joined by single spaces.
pub open spec fn heprup_line1_toks(r: HeprupV) -> Seq<Seq<u8>> {
    seq![
        dec_int(r.idbmup[0] as int),
        dec_int(r.idbmup[1] as int),
        r.ebmup[0],
        r.ebmup[1],
        dec_int(r.pdfgup[0] as int),
        dec_int(r.pdfgup[1] as int),
        dec_int(r.pdfsup[0] as int),
        dec_int(r.pdfsup[1] as int),
        dec_int(r.idwtup as int),
        dec_int(r.nprup as int),
    ]
}

/// One subprocess line: cross section, error, maximum weight, process id.
pub open spec fn sub_line_toks(r: HeprupV, i: int) -> Seq<Seq<u8>> {
    seq![r.xsecup[i], r.xerrup[i], r.xmaxup[i], dec_int(r.lprup[i] as int)]
}

/// The subprocess lines from index `i` on.
pub open spec fn sub_lines_from(r: HeprupV, i: int) -> Seq<u8>
    decreases r.nprup - i,
{
    if i < 0 || i >= r.nprup {
        Seq::empty()
    } else {
        join_sp(sub_line_toks(r, i)) + seq![NL] + sub_lines_from(r, i + 1)
    }
}

/// The whole run-information block.
pub open spec fn init_block(r: HeprupV) -> Seq<u8> {
    open_line(tags::init_open_tag(), r.attr) + seq![NL] + join_sp(heprup_line1_toks(r)) + seq![NL]
        + sub_lines_from(r, 0) + info_bytes(r.info) + tags::init_close_tag() + seq![NL]
}

/// Scalar line of an event record: six fields joined by single spaces.
pub open spec fn event_line1_toks(e: HepeupV) -> Seq<Seq<u8>> {
    seq![
        dec_int(e.nup as int),
        dec_int(e.idrup as int),
        e.xwgtup,
        e.scalup,
        e.aqedup,
        e.aqcdup,
    ]
}

/// One particle line: thirteen fields joined by single spaces.
pub open spec fn particle_toks(e: HepeupV, i: int) -> Seq<Seq<u8>> {
    seq![
        dec_int(e.idup[i] as int),
        dec_int(e.istup[i] as int),
        dec_int(e.mothup[i][0] as int),
        dec_int(e.mothup[i][1] as int),
        dec_int(e.icolup[i][0] as int),
        dec_int(e.icolup[i][1] as int),
        e.pup[i][0],
        e.pup[i][1],
        e.pup[i][2],
        e.pup[i][3],
        e.pup[i][4],
        e.vtimup[i],
        e.spinup[i],
    ]
}

/// The particle lines from index `i` on.
pub open spec fn particle_lines_from(e: HepeupV, i: int) -> Seq<u8>
    decreases e.nup - i,
{
    if i < 0 || i >= e.nup {
        Seq::empty()
    } else {
        join_sp(particle_toks(e, i)) + seq![NL] + particle_lines_from(e, i + 1)
    }
}

/// The whole event block.
pub open spec fn event_block(e: HepeupV) -> Seq<u8> {
    open_line(tags::event_open_tag(), e.attr) + seq![NL] + join_sp(event_line1_toks(e)) + seq![NL]
        + particle_lines_from(e, 0) + info_bytes(e.info) + tags::event_close_tag() + seq![NL]
}

/// Append the tag text of an attribute map.
pub fn push_attrs(out: &mut Vec<u8>, attrs: &XmlAttr)
    ensures
        final(out)@ == old(out)@ + attrs_text(attrs@),
{
    let ghost m = attrs@;
    let ghost base = out@;
    let n = attrs.len();
    let mut i: usize = 0;
    while i < n
        invariant
            0 <= i <= n == m.len(),
            m == attrs@,
            out@ + attrs_text_from(m, i as int) == base + attrs_text(m),
        decreases n - i,
    {
        let (k, v) = attrs.pair_at(i);
        let ghost pre = out@;
        out.push(32);
        push_all(out, k.as_slice());
        out.push(61);
        out.push(34);
        push_all(out, v.as_slice());
        out.push(34);
        proof {
            assert(out@ =~= pre + pair_text(m[i as int]));
            assert(pre + (pair_text(m[i as int]) + attrs_text_from(m, i + 1)) =~= (pre + pair_text(
                m[i as int],
            )) + attrs_text_from(m, i + 1));
        }
        i = i + 1;
    }
}

/// Append tokens joined by single spaces.
pub fn push_join(out: &mut Vec<u8>, ts: &Vec<Vec<u8>>)
    ensures
        final(out)@ == old(out)@ + join_sp(ts.deep_view()),
{
    let ghost m = ts.deep_view();
    let ghost base = out@;
    if ts.len() == 0 {
        proof {
            assert(out@ =~= base + join_sp(m));
        }
        return ;
    }
    push_all(out, ts[0].as_slice());
    proof {
        assert(m[0] == ts@[0]@);
        if ts.len() == 1 {
            assert(join_sp(m) == m[0]);
        } else {
            lemma_join_sp_skip(m, 0);
            assert(m.skip(0) =~= m);
            assert(join_sp(m) == m[0] + join_tail(m, 1));
        }
    }
    let mut i: usize = 1;
    while i < ts.len()
        invariant
            1 <= i <= ts@.len(),
            m == ts.deep_view(),
            m.len() == ts@.len(),
            out@ + join_tail(m, i as int) == base + join_sp(m),
        decreases ts@.len() - i,
    {
        let ghost pre = out@;
        out.push(32);
        push_all(out, ts[i].as_slice());
        proof {
            assert(m[i as int] == ts@[i as int]@);
            assert(out@ =~= pre + (seq![32u8] + m[i as int]));
            assert(pre + (seq![32u8] + m[i as int]) + join_tail(m, i + 1) =~= pre + (seq![32u8]
                + m[i as int] + join_tail(m, i + 1)));
        }
        i = i + 1;
    }
    proof {
        assert(join_tail(m, i as int) =~= Seq::<u8>::empty());
        assert(out@ + Seq::<u8>::empty() =~= out@);
    }
}

/// The decimal text of an integer field.
pub fn fmt_i32(x: i32) -> (r: Vec<u8>)
    ensures
        r@ == dec_int(x as int),
{
    let mut v: Vec<u8> = Vec::new();
    push_dec_i32(x, &mut v);
    proof {
        assert(Seq::<u8>::empty() + dec_int(x as int) =~= dec_int(x as int));
    }
    v
}

/// Append free-text info, a newline appended when missing.
pub fn push_info(out: &mut Vec<u8>, info: &[u8])
    ensures
        final(out)@ == old(out)@ + info_bytes(info@),
{
    if info.len() == 0 {
        proof {
            assert(out@ =~= old(out)@ + info_bytes(info@));
        }
        return ;
    }
    push_all(out, info);
    if info[info.len() - 1] != NL {
        let ghost pre = out@;
        out.push(NL);
        proof {
            assert(out@ =~= old(out)@ + (info@ + seq![NL]));
        }
    }
}

/// The opening line of the file as bytes, newline included.
pub fn build_version_line(version: &[u8]) -> (r: Vec<u8>)
    ensures
        r@ == version_line(version@),
{
    let mut out = tags::tag_lhef_open();
    out.push(34);
    push_all(&mut out, version);
    out.push(34);
    out.push(62);
    out.push(NL);
    proof {
        assert(out@ =~= version_line(version@));
    }
    out
}

/// The comment header block as bytes.
pub fn build_comment_block(header: &[u8]) -> (r: Vec<u8>)
    ensures
        r@ == comment_block(header@),
{
    let mut out = tags::tag_comment_open();
    out.push(NL);
    push_all(&mut out, header);
    if header.len() > 0 && header[header.len() - 1] != NL {
        out.push(NL);
    }
    let close = tags::tag_comment_close();
    push_all(&mut out, close.as_slice());
    out.push(NL);
    proof {
        assert(out@ =~= comment_block(header@));
    }
    out
}

/// The closing line of the file as bytes.
pub fn build_close_line() -> (r: Vec<u8>)
    ensures
        r@ == close_line(),
{
    let mut out = tags::tag_lhef_close();
    out.push(NL);
    proof {
        assert(out@ =~= close_line());
    }
    out
}

/// The whole run-information block as bytes.
pub fn build_init_block(runinfo: &HEPRUP) -> (r: Vec<u8>)
    requires
        runinfo@.nprup >= 0,
        runinfo@.xsecup.len() == runinfo@.nprup,
        runinfo@.xerrup.len() == runinfo@.nprup,
        runinfo@.xmaxup.len() == runinfo@.nprup,
        runinfo@.lprup.len() == runinfo@.nprup,
    ensures
        r@ == init_block(runinfo@),
{
    let ghost rv = runinfo@;
    let mut out = tags::tag_init_open();
    push_attrs(&mut out, &runinfo.attr);
    out.push(62);
    out.push(NL);
    proof {
        assert(out@ =~= open_line(tags::init_open_tag(), rv.attr) + seq![NL]);
    }
    let ghost base1 = out@;
    let mut toks: Vec<Vec<u8>> = Vec::new();
    toks.push(fmt_i32(runinfo.IDBMUP[0]));
    toks.push(fmt_i32(runinfo.IDBMUP[1]));
    toks.push(runinfo.EBMUP[0].clone());
    toks.push(runinfo.EBMUP[1].clone());
    toks.push(fmt_i32(runinfo.PDFGUP[0]));
    toks.push(fmt_i32(runinfo.PDFGUP[1]));
    toks.push(fmt_i32(runinfo.PDFSUP[0]));
    toks.push(fmt_i32(runinfo.PDFSUP[1]));
    toks.push(fmt_i32(runinfo.IDWTUP));
    toks.push(fmt_i32(runinfo.NPRUP));
    proof {
        assert(toks.deep_view() =~~= heprup_line1_toks(rv));
    }
    push_join(&mut out, &toks);
    out.push(NL);
    proof {
        assert(out@ =~= base1 + join_sp(heprup_line1_toks(rv)) + seq![NL]);
    }
    let ghost base2 = out@;
    let n = runinfo.LPRUP.len();
    let mut i: usize = 0;
    while i < n
        invariant
            0 <= i <= n,
            n == rv.nprup,
            rv == runinfo@,
            rv.xsecup.len() == n,
            rv.xerrup.len() == n,
            rv.xmaxup.len() == n,
            rv.lprup.len() == n,
            out@ + sub_lines_from(rv, i as int) == base2 + sub_lines_from(rv, 0),
        decreases n - i,
    {
        let ghost pre = out@;
        let mut line_toks: Vec<Vec<u8>> = Vec::new();
        line_toks.push(runinfo.XSECUP[i].clone());
        line_toks.push(runinfo.XERRUP[i].clone());
        line_toks.push(runinfo.XMAXUP[i].clone());
        line_toks.push(fmt_i32(runinfo.LPRUP[i]));
        proof {
            assert(line_toks.deep_view() =~~= sub_line_toks(rv, i as int));
        }
        push_join(&mut out, &line_toks);
        out.push(NL);
        proof {
            assert(out@ =~= pre + (join_sp(sub_line_toks(rv, i as int)) + seq![NL]));
            assert(pre + (join_sp(sub_line_toks(rv, i as int)) + seq![NL]) + sub_lines_from(
                rv,
                i + 1,
            ) =~= pre + (join_sp(sub_line_toks(rv, i as int)) + seq![NL] + sub_lines_from(
                rv,
                i + 1,
            )));
        }
        i = i + 1;
    }
    proof {
        assert(sub_lines_from(rv, i as int) =~= Seq::<u8>::empty());
        assert(out@ + Seq::<u8>::empty() =~= out@);
    }
    let ghost base3 = out@;
    push_info(&mut out, runinfo.info.as_slice());
    let close = tags::tag_init_close();
    push_all(&mut out, close.as_slice());
    out.push(NL);
    proof {
        assert(out@ =~= init_block(rv));
    }
    out
}

/// The whole event block as bytes.
pub fn build_event_block(event: &HEPEUP) -> (r: Vec<u8>)
    requires
        event@.nup >= 0,
        event@.idup.len() == event@.nup,
        event@.istup.len() == event@.nup,
        event@.mothup.len() == event@.nup,
        event@.icolup.len() == event@.nup,
        event@.pup.len() == event@.nup,
        event@.vtimup.len() == event@.nup,
        event@.spinup.len() == event@.nup,
    ensures
        r@ == event_block(event@),
{
    let ghost ev = event@;
    let mut out = tags::tag_event_open();
    push_attrs(&mut out, &event.attr);
    out.push(62);
    out.push(NL);
    proof {
        assert(out@ =~= open_line(tags::event_open_tag(), ev.attr) + seq![NL]);
    }
    let ghost base1 = out@;
    let mut toks: Vec<Vec<u8>> = Vec::new();
    toks.push(fmt_i32(event.NUP));
    toks.push(fmt_i32(event.IDRUP));
    toks.push(event.XWGTUP.clone());
    toks.push(event.SCALUP.clone());
    toks.push(event.AQEDUP.clone());
    toks.push(event.AQCDUP.clone());
    proof {
        assert(toks.deep_view() =~~= event_line1_toks(ev));
    }
    push_join(&mut out, &toks);
    out.push(NL);
    proof {
        assert(out@ =~= base1 + join_sp(event_line1_toks(ev)) + seq![NL]);
    }
    let ghost base2 = out@;
    let n = event.IDUP.len();
    let mut i: usize = 0;
    while i < n
        invariant
            0 <= i <= n,
            n == ev.nup,
            ev == event@,
            ev.idup.len() == n,
            ev.istup.len() == n,
            ev.mothup.len() == n,
            ev.icolup.len() == n,
            ev.pup.len() == n,
            ev.vtimup.len() == n,
            ev.spinup.len() == n,
            out@ + particle_lines_from(ev, i as int) == base2 + particle_lines_from(ev, 0),
        decreases n - i,
    {
        let ghost pre = out@;
        let mut line_toks: Vec<Vec<u8>> = Vec::new();
        line_toks.push(fmt_i32(event.IDUP[i]));
        line_toks.push(fmt_i32(event.ISTUP[i]));
        line_toks.push(fmt_i32(event.MOTHUP[i][0]));
        line_toks.push(fmt_i32(event.MOTHUP[i][1]));
        line_toks.push(fmt_i32(event.ICOLUP[i][0]));
        line_toks.push(fmt_i32(event.ICOLUP[i][1]));
        line_toks.push(event.PUP[i][0].clone());
        line_toks.push(event.PUP[i][1].clone());
        line_toks.push(event.PUP[i][2].clone());
        line_toks.push(event.PUP[i][3].clone());
        line_toks.push(event.PUP[i][4].clone());
        line_toks.push(event.VTIMUP[i].clone());
        line_toks.push(event.SPINUP[i].clone());
        proof {
            assert(line_toks.deep_view() =~~= particle_toks(ev, i as int));
        }
        push_join(&mut out, &line_toks);
        out.push(NL);
        proof {
            assert(out@ =~= pre + (join_sp(particle_toks(ev, i as int)) + seq![NL]));
            assert(pre + (join_sp(particle_toks(ev, i as int)) + seq![NL]) + particle_lines_from(
                ev,
                i + 1,
            ) =~= pre + (join_sp(particle_toks(ev, i as int)) + seq![NL] + particle_lines_from(
                ev,
                i + 1,
            )));
        }
        i = i + 1;
    }
    proof {
        assert(particle_lines_from(ev, i as int) =~= Seq::<u8>::empty());
        assert(out@ + Seq::<u8>::empty() =~= out@);
    }
    push_info(&mut out, event.info.as_slice());
    let close = tags::tag_event_close();
    push_all(&mut out, close.as_slice());
    out.push(NL);
    proof {
        assert(out@ =~= event_block(ev));
    }
    out
}

} // verus!
