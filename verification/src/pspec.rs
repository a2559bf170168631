//! The grammar of the format as a specification-level parser over a
//! sequence of lines. The executable reader is proved to return exactly
//! what these functions say, and the round-trip law is proved against them.
use crate::attr::attrs_insert;
use crate::data::{
    is_comment_close_line, is_event_close_line, is_header_close_line, is_init_close_line, HeprupV,
    HepeupV,
};
use crate::errors::{BlockKind, PErr};
use crate::fields::{
    field_name1, field_name2, name_aqcdup, name_aqedup, name_ebmup_1, name_ebmup_2, name_idbmup_1,
    name_idbmup_2, name_idrup, name_idwtup, name_nprup, name_nup, name_pdfgup_1, name_pdfgup_2,
    name_pdfsup_1, name_pdfsup_2, name_scalup, name_xwgtup, word_icolup, word_idup, word_istup,
    word_lprup, word_mothup, word_pup, word_spinup, word_vtimup, word_xerrup, word_xmaxup,
    word_xsecup,
};
use crate::floattok::is_float_token;
use crate::lines::NL;
use crate::num::spec_parse_i32;
use crate::syntax::{
    find_from, find_ws_from, find_ws_or_eq_from, skip_ws_from, spec_trim,
};
use crate::tags;
use crate::tokens::spec_tokens;
use crate::data::version_wf;
use vstd::prelude::*;

verus! {

/// The line at position `i`; reading past the end yields an empty line,
/// as reading a line at end of stream does.
pub open spec fn line_at(ls: Seq<Seq<u8>>, i: int) -> Seq<u8> {
    if 0 <= i < ls.len() {
        ls[i]
    } else {
        Seq::empty()
    }
}

/// Which closing line a scan looks for.
#[derive(Debug, Clone, Copy, PartialEq, Eq, Structural)]
pub enum CloseKind {
    Comment,
    Header,
    Init,
    Event,
}

pub open spec fn is_close_line(kind: CloseKind, l: Seq<u8>) -> bool {
    match kind {
        CloseKind::Comment => is_comment_close_line(l),
        CloseKind::Header => is_header_close_line(l),
        CloseKind::Init => is_init_close_line(l),
        CloseKind::Event => is_event_close_line(l),
    }
}

/// First line at or after `i` that closes the block, or the line count when
/// none does.
pub open spec fn find_close(ls: Seq<Seq<u8>>, i: int, kind: CloseKind) -> int
    decreases ls.len() - i,
{
    if i < 0 || i >= ls.len() {
        ls.len() as int
    } else if is_close_line(kind, ls[i]) {
        i
    } else {
        find_close(ls, i + 1, kind)
    }
}

pub proof fn lemma_find_close(ls: Seq<Seq<u8>>, i: int, kind: CloseKind)
    requires
        0 <= i <= ls.len(),
    ensures
        i <= find_close(ls, i, kind) <= ls.len(),
        forall|j: int| i <= j < find_close(ls, i, kind) ==> !is_close_line(kind, #[trigger] ls[j]),
        find_close(ls, i, kind) < ls.len() ==> is_close_line(kind, ls[find_close(ls, i, kind)]),
    decreases ls.len() - i,
{
    if i < ls.len() && !is_close_line(kind, ls[i]) {
        lemma_find_close(ls, i + 1, kind);
    }
}

/// The text of lines `from` to `to` exclusive, a newline after each.
pub open spec fn collect_lines(ls: Seq<Seq<u8>>, from: int, to: int) -> Seq<u8>
    decreases to - from,
{
    if from < 0 || from >= to {
        Seq::empty()
    } else {
        line_at(ls, from) + seq![NL] + collect_lines(ls, from + 1, to)
    }
}

pub proof fn lemma_collect_snoc(ls: Seq<Seq<u8>>, a: int, b: int)
    requires
        0 <= a <= b,
    ensures
        collect_lines(ls, a, b + 1) == collect_lines(ls, a, b) + line_at(ls, b) + seq![NL],
    decreases b - a,
{
    if a == b {
        assert(collect_lines(ls, a, b) =~= Seq::<u8>::empty());
        assert(collect_lines(ls, a, b + 1) == line_at(ls, a) + seq![NL] + collect_lines(
            ls,
            a + 1,
            b + 1,
        ));
        assert(collect_lines(ls, a + 1, b + 1) =~= Seq::<u8>::empty());
        assert(line_at(ls, a) + seq![NL] + Seq::<u8>::empty() =~= Seq::<u8>::empty() + line_at(
            ls,
            a,
        ) + seq![NL]);
    } else {
        lemma_collect_snoc(ls, a + 1, b);
        assert(collect_lines(ls, a, b + 1) == line_at(ls, a) + seq![NL] + collect_lines(
            ls,
            a + 1,
            b + 1,
        ));
        assert(collect_lines(ls, a, b) == line_at(ls, a) + seq![NL] + collect_lines(ls, a + 1, b));
        assert(line_at(ls, a) + seq![NL] + (collect_lines(ls, a + 1, b) + line_at(ls, b) + seq![
            NL,
        ]) =~= (line_at(ls, a) + seq![NL] + collect_lines(ls, a + 1, b)) + line_at(ls, b) + seq![
            NL,
        ]);
    }
}

/// Parsing the opening line: the fixed tag, then the quoted version, then
/// the closing `>`.
pub open spec fn spec_parse_version(ls: Seq<Seq<u8>>) -> Result<Seq<u8>, PErr> {
    let raw = line_at(ls, 0);
    let t = spec_trim(raw);
    let q1 = find_from(t, 34, 0);
    if t.take(q1) != tags::lhef_open_tag() {
        Err(PErr::BadFirstLine(raw))
    } else if q1 == t.len() {
        Err(PErr::MissingVersion)
    } else {
        let q2 = find_from(t, 34, q1 + 1);
        let v = t.subrange(q1 + 1, q2);
        if !version_wf(v) {
            Err(PErr::UnsupportedVersion(v))
        } else if q2 == t.len() {
            Err(PErr::BadFirstLine(raw))
        } else {
            let q3 = find_from(t, 34, q2 + 1);
            if t.subrange(q2 + 1, q3) == seq![62u8] {
                Ok(v)
            } else {
                Err(PErr::BadFirstLine(raw))
            }
        }
    }
}

/// What parsing the header region yields: the comment text, the raw text of
/// the structured sub-header if one was present, the unconsumed
/// run-information opening line, and the next line position.
pub struct HeaderOut {
    pub header: Seq<u8>,
    pub xml_text: Option<Seq<u8>>,
    pub init_line: Seq<u8>,
    pub next: int,
}

/// Classify lines until the run-information opening line: comment blocks
/// and structured sub-headers may come in any number, each later one
/// replacing the earlier text.
pub open spec fn spec_parse_header_loop(
    ls: Seq<Seq<u8>>,
    i: int,
    hdr: Seq<u8>,
    xml: Option<Seq<u8>>,
) -> Result<HeaderOut, PErr>
    decreases ls.len() - i,
{
    let l = line_at(ls, i);
    let t = spec_trim(l);
    if tags::comment_open_tag().is_prefix_of(t) {
        if t != tags::comment_open_tag() {
            Err(PErr::BadHeaderStart(l))
        } else {
            let c = find_close(ls, i + 1, CloseKind::Comment);
            if c >= ls.len() {
                Err(PErr::EndOfFile(BlockKind::Header))
            } else if c < i {
                Err(PErr::EndOfFile(BlockKind::Header))
            } else {
                spec_parse_header_loop(ls, c + 1, collect_lines(ls, i + 1, c), xml)
            }
        }
    } else if tags::header_open_tag().is_prefix_of(t) {
        let c = find_close(ls, i + 1, CloseKind::Header);
        if c >= ls.len() {
            Err(PErr::EndOfFile(BlockKind::Header))
        } else if c < i {
            Err(PErr::EndOfFile(BlockKind::Header))
        } else {
            spec_parse_header_loop(ls, c + 1, hdr, Some(collect_lines(ls, i, c + 1)))
        }
    } else if tags::init_open_tag().is_prefix_of(t) {
        Ok(HeaderOut { header: hdr, xml_text: xml, init_line: l, next: i + 1 })
    } else {
        Err(PErr::BadHeaderStart(l))
    }
}

pub open spec fn spec_parse_header(ls: Seq<Seq<u8>>, i: int) -> Result<HeaderOut, PErr> {
    spec_parse_header_loop(ls, i, Seq::empty(), None)
}

/// Everything before the events: version, header region, run information.
pub struct PreludeOut {
    pub version: Seq<u8>,
    pub header: Seq<u8>,
    pub xml_text: Option<Seq<u8>>,
    pub heprup: HeprupV,
    pub next: int,
}

pub open spec fn spec_parse_prelude(ls: Seq<Seq<u8>>) -> Result<PreludeOut, PErr> {
    match spec_parse_version(ls) {
        Err(e) => Err(e),
        Ok(v) => match spec_parse_header(ls, 1) {
            Err(e) => Err(e),
            Ok(h) => match spec_parse_init(h.init_line, ls, h.next) {
                Err(e) => Err(e),
                Ok(p) => Ok(
                    PreludeOut {
                        version: v,
                        header: h.header,
                        xml_text: h.xml_text,
                        heprup: p.0,
                        next: p.1,
                    },
                ),
            },
        },
    }
}

/// One integer field of a record line: missing when the line ran out of
/// tokens, a conversion error when the token is not a decimal integer in
/// range.
pub open spec fn int_field(toks: Seq<Seq<u8>>, k: int, name: Seq<u8>) -> Result<i32, PErr> {
    if !(0 <= k < toks.len()) {
        Err(PErr::MissingEntry(name))
    } else {
        match spec_parse_i32(toks[k]) {
            Some(v) => Ok(v),
            None => Err(PErr::ConversionError(toks[k])),
        }
    }
}

/// One floating-point field of a record line: the token itself is the
/// value; a token outside the decimal-float grammar is a conversion error.
pub open spec fn float_field(toks: Seq<Seq<u8>>, k: int, name: Seq<u8>) -> Result<Seq<u8>, PErr> {
    if !(0 <= k < toks.len()) {
        Err(PErr::MissingEntry(name))
    } else if is_float_token(toks[k]) {
        Ok(toks[k])
    } else {
        Err(PErr::ConversionError(toks[k]))
    }
}

/// One subprocess line: cross section, error, maximum weight, process id.
pub struct SubRow {
    pub xsec: Seq<u8>,
    pub xerr: Seq<u8>,
    pub xmax: Seq<u8>,
    pub lpr: i32,
}

pub open spec fn spec_sub_row(ls: Seq<Seq<u8>>, base: int, j: int) -> Result<SubRow, PErr> {
    let toks = spec_tokens(line_at(ls, base + j));
    match float_field(toks, 0, field_name1(word_xsecup(), j + 1)) {
        Err(e) => Err(e),
        Ok(xsec) => match float_field(toks, 1, field_name1(word_xerrup(), j + 1)) {
            Err(e) => Err(e),
            Ok(xerr) => match float_field(toks, 2, field_name1(word_xmaxup(), j + 1)) {
                Err(e) => Err(e),
                Ok(xmax) => match int_field(toks, 3, field_name1(word_lprup(), j + 1)) {
                    Err(e) => Err(e),
                    Ok(lpr) => Ok(SubRow { xsec, xerr, xmax, lpr }),
                },
            },
        },
    }
}

pub open spec fn spec_sub_rows(ls: Seq<Seq<u8>>, base: int, j: int, n: int) -> Result<
    Seq<SubRow>,
    PErr,
>
    decreases n - j,
{
    if j >= n {
        Ok(Seq::empty())
    } else {
        match spec_sub_row(ls, base, j) {
            Err(e) => Err(e),
            Ok(row) => match spec_sub_rows(ls, base, j + 1, n) {
                Err(e) => Err(e),
                Ok(rest) => Ok(seq![row] + rest),
            },
        }
    }
}

/// Parsing the run-information block: the scalar line, one line for each
/// declared subprocess, free text until the literal closing line, and the
/// attributes of the retained opening line.
pub open spec fn spec_parse_init(open: Seq<u8>, ls: Seq<Seq<u8>>, i: int) -> Result<
    (HeprupV, int),
    PErr,
> {
    let toks = spec_tokens(line_at(ls, i));
    match int_field(toks, 0, name_idbmup_1()) {
        Err(e) => Err(e),
        Ok(id1) => match int_field(toks, 1, name_idbmup_2()) {
            Err(e) => Err(e),
            Ok(id2) => match float_field(toks, 2, name_ebmup_1()) {
                Err(e) => Err(e),
                Ok(eb1) => match float_field(toks, 3, name_ebmup_2()) {
                    Err(e) => Err(e),
                    Ok(eb2) => match int_field(toks, 4, name_pdfgup_1()) {
                        Err(e) => Err(e),
                        Ok(pg1) => match int_field(toks, 5, name_pdfgup_2()) {
                            Err(e) => Err(e),
                            Ok(pg2) => match int_field(toks, 6, name_pdfsup_1()) {
                                Err(e) => Err(e),
                                Ok(ps1) => match int_field(toks, 7, name_pdfsup_2()) {
                                    Err(e) => Err(e),
                                    Ok(ps2) => match int_field(toks, 8, name_idwtup()) {
                                        Err(e) => Err(e),
                                        Ok(idw) => match int_field(toks, 9, name_nprup()) {
                                            Err(e) => Err(e),
                                            Ok(nprup) => spec_parse_init_rest(
                                                open,
                                                ls,
                                                i,
                                                id1,
                                                id2,
                                                eb1,
                                                eb2,
                                                pg1,
                                                pg2,
                                                ps1,
                                                ps2,
                                                idw,
                                                nprup,
                                            ),
                                        },
                                    },
                                },
                            },
                        },
                    },
                },
            },
        },
    }
}

pub open spec fn spec_parse_init_rest(
    open: Seq<u8>,
    ls: Seq<Seq<u8>>,
    i: int,
    id1: i32,
    id2: i32,
    eb1: Seq<u8>,
    eb2: Seq<u8>,
    pg1: i32,
    pg2: i32,
    ps1: i32,
    ps2: i32,
    idw: i32,
    nprup: i32,
) -> Result<(HeprupV, int), PErr> {
    let n = if nprup >= 0 {
        nprup as int
    } else {
        0
    };
    match spec_sub_rows(ls, i + 1, 0, n) {
        Err(e) => Err(e),
        Ok(rows) => {
            let start = i + 1 + n;
            let c = find_close(ls, start, CloseKind::Init);
            if c >= ls.len() {
                Err(PErr::EndOfFile(BlockKind::Init))
            } else {
                match spec_extract_attrs(open) {
                    Err(e) => Err(e),
                    Ok(attr) => Ok(
                        (
                            HeprupV {
                                idbmup: seq![id1, id2],
                                ebmup: seq![eb1, eb2],
                                pdfgup: seq![pg1, pg2],
                                pdfsup: seq![ps1, ps2],
                                idwtup: idw,
                                nprup: nprup,
                                xsecup: rows.map_values(|r: SubRow| r.xsec),
                                xerrup: rows.map_values(|r: SubRow| r.xerr),
                                xmaxup: rows.map_values(|r: SubRow| r.xmax),
                                lprup: rows.map_values(|r: SubRow| r.lpr),
                                info: collect_lines(ls, start, c),
                                attr: attr,
                            },
                            c + 1,
                        ),
                    ),
                }
            }
        },
    }
}

/// Reading the attributes of an opening tag line: the line must end in `>`;
/// the tag name is skipped; then names and quoted values until no further
/// name remains.
pub open spec fn attrs_start(tag: Seq<u8>) -> int {
    let w = find_ws_from(tag, 0);
    if w >= tag.len() {
        tag.len() as int
    } else {
        skip_ws_from(tag, w + 1)
    }
}

pub open spec fn spec_extract_attrs(line: Seq<u8>) -> Result<Seq<(Seq<u8>, Seq<u8>)>, PErr> {
    let t = spec_trim(line);
    if t.len() == 0 || t[t.len() - 1] != 62 {
        Err(PErr::BadXmlTag(line))
    } else {
        let tag = t.take(t.len() - 1);
        spec_attrs_loop(tag, attrs_start(tag), Seq::empty())
    }
}

/// Plugging already-parsed rows in front of a row scan.
pub open spec fn join_sub_rows(done: Seq<SubRow>, r: Result<Seq<SubRow>, PErr>) -> Result<
    Seq<SubRow>,
    PErr,
> {
    match r {
        Ok(rest) => Ok(done + rest),
        Err(e) => Err(e),
    }
}

pub open spec fn join_particle_rows(done: Seq<ParticleRow>, r: Result<Seq<ParticleRow>, PErr>)
    -> Result<Seq<ParticleRow>, PErr> {
    match r {
        Ok(rest) => Ok(done + rest),
        Err(e) => Err(e),
    }
}

/// One `name="value"` pair after another, from position `p` of the tag
/// text; a name found without `=`, opening quote or closing quote is a
/// malformed tag.
pub open spec fn spec_attrs_loop(s: Seq<u8>, p: int, acc: Seq<(Seq<u8>, Seq<u8>)>) -> Result<
    Seq<(Seq<u8>, Seq<u8>)>,
    PErr,
>
    decreases s.len() - p,
{
    let rest = s.subrange(if 0 <= p <= s.len() {
        p
    } else {
        s.len() as int
    }, s.len() as int);
    let ne = find_ws_or_eq_from(s, p);
    if ne >= s.len() {
        Ok(acc)
    } else {
        let name = s.subrange(if 0 <= p <= ne {
            p
        } else {
            ne
        }, ne);
        let p1 = skip_ws_from(s, ne);
        if !(p1 < s.len() && s[p1] == 61) {
            Err(PErr::BadXmlTag(rest))
        } else {
            let p2 = skip_ws_from(s, p1 + 1);
            if !(p2 < s.len() && (s[p2] == 39 || s[p2] == 34)) {
                Err(PErr::BadXmlTag(rest))
            } else {
                let q = s[p2];
                let ve = find_from(s, q, p2 + 1);
                if ve >= s.len() {
                    Err(PErr::BadXmlTag(rest))
                } else {
                    let value = s.subrange(p2 + 1, ve);
                    let p3 = skip_ws_from(s, ve + 1);
                    let p3c = if p3 > s.len() {
                        s.len() as int
                    } else {
                        p3
                    };
                    if p3c > p {
                        spec_attrs_loop(s, p3c, attrs_insert(acc, name, value))
                    } else {
                        Err(PErr::BadXmlTag(rest))
                    }
                }
            }
        }
    }
}

/// One particle line: thirteen fields.
pub struct ParticleRow {
    pub idup: i32,
    pub istup: i32,
    pub moth: Seq<i32>,
    pub icol: Seq<i32>,
    pub pup: Seq<Seq<u8>>,
    pub vtim: Seq<u8>,
    pub spin: Seq<u8>,
}

pub open spec fn spec_particle_row(ls: Seq<Seq<u8>>, base: int, j: int) -> Result<
    ParticleRow,
    PErr,
> {
    let toks = spec_tokens(line_at(ls, base + j));
    match int_field(toks, 0, field_name1(word_idup(), j + 1)) {
        Err(e) => Err(e),
        Ok(idup) => match int_field(toks, 1, field_name1(word_istup(), j + 1)) {
            Err(e) => Err(e),
            Ok(istup) => match int_field(toks, 2, field_name2(word_mothup(), j + 1, 1)) {
                Err(e) => Err(e),
                Ok(m1) => match int_field(toks, 3, field_name2(word_mothup(), j + 1, 2)) {
                    Err(e) => Err(e),
                    Ok(m2) => match int_field(toks, 4, field_name2(word_icolup(), j + 1, 1)) {
                        Err(e) => Err(e),
                        Ok(c1) => match int_field(toks, 5, field_name2(word_icolup(), j + 1, 2)) {
                            Err(e) => Err(e),
                            Ok(c2) => spec_particle_row_rest(toks, j, idup, istup, m1, m2, c1, c2),
                        },
                    },
                },
            },
        },
    }
}

pub open spec fn spec_particle_row_rest(
    toks: Seq<Seq<u8>>,
    j: int,
    idup: i32,
    istup: i32,
    m1: i32,
    m2: i32,
    c1: i32,
    c2: i32,
) -> Result<ParticleRow, PErr> {
    match float_field(toks, 6, field_name2(word_pup(), j + 1, 1)) {
        Err(e) => Err(e),
        Ok(p1) => match float_field(toks, 7, field_name2(word_pup(), j + 1, 2)) {
            Err(e) => Err(e),
            Ok(p2) => match float_field(toks, 8, field_name2(word_pup(), j + 1, 3)) {
                Err(e) => Err(e),
                Ok(p3) => match float_field(toks, 9, field_name2(word_pup(), j + 1, 4)) {
                    Err(e) => Err(e),
                    Ok(p4) => match float_field(toks, 10, field_name2(word_pup(), j + 1, 5)) {
                        Err(e) => Err(e),
                        Ok(p5) => match float_field(toks, 11, field_name1(word_vtimup(), j + 1)) {
                            Err(e) => Err(e),
                            Ok(vt) => match float_field(
                                toks,
                                12,
                                field_name1(word_spinup(), j + 1),
                            ) {
                                Err(e) => Err(e),
                                Ok(sp) => Ok(
                                    ParticleRow {
                                        idup,
                                        istup,
                                        moth: seq![m1, m2],
                                        icol: seq![c1, c2],
                                        pup: seq![p1, p2, p3, p4, p5],
                                        vtim: vt,
                                        spin: sp,
                                    },
                                ),
                            },
                        },
                    },
                },
            },
        },
    }
}

pub open spec fn spec_particle_rows(ls: Seq<Seq<u8>>, base: int, j: int, n: int) -> Result<
    Seq<ParticleRow>,
    PErr,
>
    decreases n - j,
{
    if j >= n {
        Ok(Seq::empty())
    } else {
        match spec_particle_row(ls, base, j) {
            Err(e) => Err(e),
            Ok(row) => match spec_particle_rows(ls, base, j + 1, n) {
                Err(e) => Err(e),
                Ok(rest) => Ok(seq![row] + rest),
            },
        }
    }
}

/// Parsing an event block after its opening line: the scalar line, one line
/// for each declared particle, free text until the closing line, and the
/// attributes of the opening line.
pub open spec fn spec_parse_event_block(open: Seq<u8>, ls: Seq<Seq<u8>>, i: int) -> Result<
    (HepeupV, int),
    PErr,
> {
    let toks = spec_tokens(line_at(ls, i));
    match int_field(toks, 0, name_nup()) {
        Err(e) => Err(e),
        Ok(nup) => match int_field(toks, 1, name_idrup()) {
            Err(e) => Err(e),
            Ok(idrup) => match float_field(toks, 2, name_xwgtup()) {
                Err(e) => Err(e),
                Ok(xw) => match float_field(toks, 3, name_scalup()) {
                    Err(e) => Err(e),
                    Ok(sc) => match float_field(toks, 4, name_aqedup()) {
                        Err(e) => Err(e),
                        Ok(ae) => match float_field(toks, 5, name_aqcdup()) {
                            Err(e) => Err(e),
                            Ok(ac) => spec_parse_event_rest(open, ls, i, nup, idrup, xw, sc, ae, ac),
                        },
                    },
                },
            },
        },
    }
}

pub open spec fn spec_parse_event_rest(
    open: Seq<u8>,
    ls: Seq<Seq<u8>>,
    i: int,
    nup: i32,
    idrup: i32,
    xw: Seq<u8>,
    sc: Seq<u8>,
    ae: Seq<u8>,
    ac: Seq<u8>,
) -> Result<(HepeupV, int), PErr> {
    let n = if nup >= 0 {
        nup as int
    } else {
        0
    };
    match spec_particle_rows(ls, i + 1, 0, n) {
        Err(e) => Err(e),
        Ok(rows) => {
            let start = i + 1 + n;
            let c = find_close(ls, start, CloseKind::Event);
            if c >= ls.len() {
                Err(PErr::EndOfFile(BlockKind::Event))
            } else {
                match spec_extract_attrs(open) {
                    Err(e) => Err(e),
                    Ok(attr) => Ok(
                        (
                            HepeupV {
                                nup: nup,
                                idrup: idrup,
                                xwgtup: xw,
                                scalup: sc,
                                aqedup: ae,
                                aqcdup: ac,
                                idup: rows.map_values(|r: ParticleRow| r.idup),
                                istup: rows.map_values(|r: ParticleRow| r.istup),
                                mothup: rows.map_values(|r: ParticleRow| r.moth),
                                icolup: rows.map_values(|r: ParticleRow| r.icol),
                                pup: rows.map_values(|r: ParticleRow| r.pup),
                                vtimup: rows.map_values(|r: ParticleRow| r.vtim),
                                spinup: rows.map_values(|r: ParticleRow| r.spin),
                                info: collect_lines(ls, start, c),
                                attr: attr,
                            },
                            c + 1,
                        ),
                    ),
                }
            }
        },
    }
}

/// One pull from the event region: an event block, the outer closing tag
/// (no more events), or an error.
pub open spec fn spec_parse_event(ls: Seq<Seq<u8>>, i: int) -> Result<
    Option<(HepeupV, int)>,
    PErr,
> {
    let l = line_at(ls, i);
    if tags::event_open_tag().is_prefix_of(l) {
        match spec_parse_event_block(l, ls, i + 1) {
            Err(e) => Err(e),
            Ok((e, j)) => Ok(Some((e, j))),
        }
    } else if spec_trim(l) == tags::lhef_close_tag() {
        Ok(None)
    } else {
        Err(PErr::BadEventStart(l))
    }
}

} // verus!
