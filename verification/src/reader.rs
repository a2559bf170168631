//! Pull-style reader: version detection, header classification, run
//! information, then one event per call, each step proved to return exactly
//! what the specification parser says.
use crate::attr::XmlAttr;
use crate::data::{strip_cr, HEPRUP, HEPEUP, XmlTree};
use crate::errors::{BlockKind, PErr, ParseError};
use crate::fields::{
    make_name1, make_name2, mk_name_aqcdup, mk_name_aqedup, mk_name_ebmup_1, mk_name_ebmup_2,
    mk_name_idbmup_1, mk_name_idbmup_2, mk_name_idrup, mk_name_idwtup, mk_name_nprup, mk_name_nup,
    mk_name_pdfgup_1, mk_name_pdfgup_2, mk_name_pdfsup_1, mk_name_pdfsup_2, mk_name_scalup,
    mk_name_xwgtup, mk_word_icolup, mk_word_idup, mk_word_istup, mk_word_lprup, mk_word_mothup,
    mk_word_pup, mk_word_spinup, mk_word_vtimup, mk_word_xerrup, mk_word_xmaxup, mk_word_xsecup,
};
use crate::floattok::check_float_token;
use crate::lines::{split_lines, spec_lines};
use crate::num::parse_i32_bytes;
use crate::pspec::{
    collect_lines, find_close, float_field, int_field, is_close_line, line_at, spec_attrs_loop,
    spec_extract_attrs, spec_parse_event, spec_parse_event_block, spec_parse_header,
    spec_parse_header_loop, spec_parse_init, spec_parse_version, spec_particle_row, lemma_find_close,
    spec_particle_rows, spec_sub_row, spec_sub_rows, attrs_start, join_particle_rows,
    join_sub_rows, CloseKind, HeaderOut, ParticleRow, SubRow,
};
use crate::syntax::{
    ascii_trim_range, bytes_eq, copy_range, find_byte, find_ws, find_ws_or_eq, skip_ws, spec_trim,
    starts_with,
};
use crate::tags;
use crate::tokens::tokenize;
use crate::xmlread::parse_xml_tree;
use vstd::prelude::*;

verus! {

/// A fresh copy of a byte vector.
fn clone_bytes(v: &Vec<u8>) -> (r: Vec<u8>)
    ensures
        r@ == v@,
{
    let r = copy_range(v.as_slice(), 0, v.len());
    proof {
        assert(v@.subrange(0, v@.len() as int) =~= v@);
    }
    r
}

/// The line at position `i`, an empty line past the end.
fn get_line(lines: &Vec<Vec<u8>>, i: usize) -> (r: Vec<u8>)
    ensures
        r@ == line_at(lines.deep_view(), i as int),
{
    if i < lines.len() {
        let r = clone_bytes(&lines[i]);
        proof {
            assert(lines.deep_view()[i as int] == lines@[i as int]@);
        }
        r
    } else {
        Vec::new()
    }
}

/// The trimmed copy of a line.
fn trimmed(l: &[u8]) -> (r: Vec<u8>)
    ensures
        r@ == spec_trim(l@),
{
    let (lo, hi) = ascii_trim_range(l);
    copy_range(l, lo, hi)
}

/// Whether this line closes the given block.
fn close_line_match(l: &[u8], kind: CloseKind) -> (r: bool)
    ensures
        r == is_close_line(kind, l@),
{
    match kind {
        CloseKind::Comment => {
            let t = trimmed(l);
            let tag = tags::tag_comment_close();
            bytes_eq(t.as_slice(), tag.as_slice())
        },
        CloseKind::Header => {
            let t = trimmed(l);
            let tag = tags::tag_header_close();
            bytes_eq(t.as_slice(), tag.as_slice())
        },
        CloseKind::Event => {
            let t = trimmed(l);
            let tag = tags::tag_event_close();
            bytes_eq(t.as_slice(), tag.as_slice())
        },
        CloseKind::Init => {
            let tag = tags::tag_init_close();
            if l.len() > 0 && l[l.len() - 1] == 13 {
                let c = copy_range(l, 0, l.len() - 1);
                proof {
                    assert(strip_cr(l@) == l@.take(l@.len() - 1));
                }
                bytes_eq(c.as_slice(), tag.as_slice())
            } else {
                proof {
                    assert(strip_cr(l@) == l@);
                }
                bytes_eq(l, tag.as_slice())
            }
        },
    }
}

/// Scan for the line that closes the block, collecting the raw text of the
/// lines before it; nothing when the stream ends first.
pub fn read_lines_until(lines: &Vec<Vec<u8>>, from: usize, kind: CloseKind) -> (r: Option<
    (Vec<u8>, usize),
>)
    requires
        from <= lines@.len(),
    ensures
        ({
            let ls = lines.deep_view();
            let c = find_close(ls, from as int, kind);
            match r {
                Some((text, at)) => at == c && c < ls.len() && text@ == collect_lines(
                    ls,
                    from as int,
                    c,
                ),
                None => c == ls.len(),
            }
        }),
{
    let ghost ls = lines.deep_view();
    let mut text: Vec<u8> = Vec::new();
    let mut i: usize = from;
    proof {
        assert(ls.len() == lines@.len());
        lemma_find_close(ls, from as int, kind);
    }
    while i < lines.len()
        invariant
            from <= i <= ls.len(),
            ls == lines.deep_view(),
            ls.len() == lines@.len(),
            find_close(ls, from as int, kind) == find_close(ls, i as int, kind),
            forall|j: int| from <= j < i ==> !is_close_line(kind, #[trigger] ls[j]),
            text@ + collect_lines(ls, i as int, find_close(ls, from as int, kind)) == collect_lines(
                ls,
                from as int,
                find_close(ls, from as int, kind),
            ),
        decreases ls.len() - i,
    {
        proof {
            assert(ls[i as int] == lines@[i as int]@);
        }
        if close_line_match(lines[i].as_slice(), kind) {
            proof {
                assert(find_close(ls, i as int, kind) == i);
                assert(collect_lines(ls, i as int, i as int) =~= Seq::<u8>::empty());
                assert(text@ + Seq::<u8>::empty() =~= text@);
            }
            return Some((text, i));
        }
        let ghost pre = text@;
        crate::syntax::push_all(&mut text, lines[i].as_slice());
        text.push(crate::lines::NL);
        proof {
            let c = find_close(ls, from as int, kind);
            lemma_find_close(ls, i as int, kind);
            assert(find_close(ls, i as int, kind) == find_close(ls, i + 1, kind));
            assert(text@ =~= pre + (line_at(ls, i as int) + seq![crate::lines::NL]));
            assert(i < c);
            assert(collect_lines(ls, i as int, c) == line_at(ls, i as int) + seq![
                crate::lines::NL,
            ] + collect_lines(ls, i + 1, c));
            assert(pre + (line_at(ls, i as int) + seq![crate::lines::NL]) + collect_lines(
                ls,
                i + 1,
                c,
            ) =~= pre + collect_lines(ls, i as int, c));
        }
        i = i + 1;
    }
    proof {
        assert(find_close(ls, i as int, kind) == ls.len());
    }
    None
}

/// Parse the opening line of the stream: the version of the format.
pub fn parse_version(lines: &Vec<Vec<u8>>) -> (r: Result<Vec<u8>, ParseError>)
    ensures
        ({
            let s = spec_parse_version(lines.deep_view());
            match r {
                Ok(v) => s matches Ok(sv) && v@ == sv,
                Err(e) => s matches Err(se) && e@ == se,
            }
        }),
{
    let ghost ls = lines.deep_view();
    let raw = get_line(lines, 0);
    let t = trimmed(raw.as_slice());
    let ghost tv = t@;
    proof {
        crate::syntax::lemma_find_from(tv, 34, 0);
    }
    let q1 = find_byte(t.as_slice(), 34, 0);
    let seg0 = copy_range(t.as_slice(), 0, q1);
    let tag = tags::tag_lhef_open();
    if !bytes_eq(seg0.as_slice(), tag.as_slice()) {
        proof {
            assert(tv.take(q1 as int) == seg0@);
        }
        return Err(ParseError::BadFirstLine(raw));
    }
    proof {
        assert(tv.take(q1 as int) == seg0@);
    }
    if q1 == t.len() {
        return Err(ParseError::MissingVersion);
    }
    proof {
        crate::syntax::lemma_find_from(tv, 34, q1 + 1);
    }
    let q2 = find_byte(t.as_slice(), 34, q1 + 1);
    let v = copy_range(t.as_slice(), q1 + 1, q2);
    let v10 = tags::tag_version_10();
    let v20 = tags::tag_version_20();
    let v30 = tags::tag_version_30();
    let ok = bytes_eq(v.as_slice(), v10.as_slice()) || bytes_eq(v.as_slice(), v20.as_slice())
        || bytes_eq(v.as_slice(), v30.as_slice());
    if !ok {
        return Err(ParseError::UnsupportedVersion(v));
    }
    if q2 == t.len() {
        return Err(ParseError::BadFirstLine(raw));
    }
    proof {
        crate::syntax::lemma_find_from(tv, 34, q2 + 1);
    }
    let q3 = find_byte(t.as_slice(), 34, q2 + 1);
    let seg2 = copy_range(t.as_slice(), q2 + 1, q3);
    let mut gt: Vec<u8> = Vec::new();
    gt.push(62);
    proof {
        assert(gt@ =~= seq![62u8]);
    }
    if bytes_eq(seg2.as_slice(), gt.as_slice()) {
        Ok(v)
    } else {
        Err(ParseError::BadFirstLine(raw))
    }
}

/// One integer field of a tokenized record line, under its field name.
pub fn parse(name: Vec<u8>, toks: &Vec<Vec<u8>>, k: usize) -> (r: Result<i32, ParseError>)
    ensures
        ({
            let s = int_field(toks.deep_view(), k as int, name@);
            match r {
                Ok(v) => s matches Ok(sv) && v == sv,
                Err(e) => s matches Err(se) && e@ == se,
            }
        }),
{
    if k >= toks.len() {
        return Err(ParseError::MissingEntry(name));
    }
    proof {
        assert(toks.deep_view()[k as int] == toks@[k as int]@);
    }
    match parse_i32_bytes(toks[k].as_slice()) {
        Some(v) => Ok(v),
        None => Err(ParseError::ConversionError(clone_bytes(&toks[k]))),
    }
}

/// One floating-point field of a tokenized record line: the validated token
/// itself.
pub fn parse_float_entry(name: Vec<u8>, toks: &Vec<Vec<u8>>, k: usize) -> (r: Result<
    Vec<u8>,
    ParseError,
>)
    ensures
        ({
            let s = float_field(toks.deep_view(), k as int, name@);
            match r {
                Ok(v) => s matches Ok(sv) && v@ == sv,
                Err(e) => s matches Err(se) && e@ == se,
            }
        }),
{
    if k >= toks.len() {
        return Err(ParseError::MissingEntry(name));
    }
    proof {
        assert(toks.deep_view()[k as int] == toks@[k as int]@);
    }
    if check_float_token(toks[k].as_slice()) {
        Ok(clone_bytes(&toks[k]))
    } else {
        Err(ParseError::ConversionError(clone_bytes(&toks[k])))
    }
}

/// One `name="value"` pair from position `p` of the attribute text: the
/// pair and the next position, nothing when no further name remains, a
/// malformed-tag error otherwise.
pub fn next_attr(s: &[u8], p: usize) -> (r: Result<Option<(Vec<u8>, Vec<u8>, usize)>, ParseError>)
    requires
        p <= s@.len(),
    ensures
        match r {
            Ok(None) => forall|acc: Seq<(Seq<u8>, Seq<u8>)>|
                spec_attrs_loop(s@, p as int, acc) == Ok::<Seq<(Seq<u8>, Seq<u8>)>, PErr>(acc),
            Ok(Some((name, value, np))) => p < np <= s@.len() && forall|
                acc: Seq<(Seq<u8>, Seq<u8>)>,
            |
                spec_attrs_loop(s@, p as int, acc) == spec_attrs_loop(
                    s@,
                    np as int,
                    crate::attr::attrs_insert(acc, name@, value@),
                ),
            Err(e) => forall|acc: Seq<(Seq<u8>, Seq<u8>)>|
                spec_attrs_loop(s@, p as int, acc) == Err::<Seq<(Seq<u8>, Seq<u8>)>, PErr>(e@),
        },
{
    proof {
        crate::syntax::lemma_find_ws_or_eq_from(s@, p as int);
    }
    let ne = find_ws_or_eq(s, p);
    if ne >= s.len() {
        return Ok(None);
    }
    let name = copy_range(s, p, ne);
    proof {
        crate::syntax::lemma_skip_ws_from(s@, ne as int);
    }
    let p1 = skip_ws(s, ne);
    if !(p1 < s.len() && s[p1] == 61) {
        return Err(ParseError::BadXmlTag(copy_range(s, p, s.len())));
    }
    proof {
        crate::syntax::lemma_skip_ws_from(s@, p1 + 1);
    }
    let p2 = skip_ws(s, p1 + 1);
    if !(p2 < s.len() && (s[p2] == 39 || s[p2] == 34)) {
        return Err(ParseError::BadXmlTag(copy_range(s, p, s.len())));
    }
    let q = s[p2];
    proof {
        crate::syntax::lemma_find_from(s@, q, p2 + 1);
    }
    let ve = find_byte(s, q, p2 + 1);
    if ve >= s.len() {
        return Err(ParseError::BadXmlTag(copy_range(s, p, s.len())));
    }
    let value = copy_range(s, p2 + 1, ve);
    proof {
        crate::syntax::lemma_skip_ws_from(s@, ve + 1);
    }
    let p3 = skip_ws(s, ve + 1);
    Ok(Some((name, value, p3)))
}

/// The trimmed tag text of an opening line, `>` removed, and the position
/// where its attributes begin.
pub fn extract_xml_attr_str(line: &[u8]) -> (r: Result<(Vec<u8>, usize), ParseError>)
    ensures
        ({
            let t = spec_trim(line@);
            match r {
                Ok((tag, start)) => t.len() > 0 && t[t.len() - 1] == 62 && tag@ == t.take(
                    t.len() - 1,
                ) && start == attrs_start(tag@) && start <= tag@.len(),
                Err(e) => (t.len() == 0 || t[t.len() - 1] != 62) && e@ == PErr::BadXmlTag(line@),
            }
        }),
{
    proof {
        assert(line@.subrange(0, line@.len() as int) =~= line@);
    }
    let t = trimmed(line);
    if t.len() == 0 || t[t.len() - 1] != 62 {
        return Err(ParseError::BadXmlTag(copy_range(line, 0, line.len())));
    }
    let tag = copy_range(t.as_slice(), 0, t.len() - 1);
    proof {
        crate::syntax::lemma_find_ws_from(tag@, 0);
    }
    let w = find_ws(tag.as_slice(), 0);
    if w >= tag.len() {
        let start = tag.len();
        return Ok((tag, start));
    }
    proof {
        crate::syntax::lemma_skip_ws_from(tag@, w + 1);
    }
    let start = skip_ws(tag.as_slice(), w + 1);
    Ok((tag, start))
}

/// The attribute map of an opening tag line.
pub fn extract_xml_attr(line: &[u8]) -> (r: Result<XmlAttr, ParseError>)
    ensures
        ({
            let s = spec_extract_attrs(line@);
            match r {
                Ok(a) => s matches Ok(m) && a@ == m,
                Err(e) => s matches Err(se) && e@ == se,
            }
        }),
{
    let (tag, start) = match extract_xml_attr_str(line) {
        Ok(ts) => ts,
        Err(e) => {
            return Err(e);
        },
    };
    let mut attr = XmlAttr::new();
    let mut p = start;
    proof {
        assert(spec_extract_attrs(line@) == spec_attrs_loop(tag@, attrs_start(tag@), attr@));
    }
    loop
        invariant
            p <= tag@.len(),
            spec_extract_attrs(line@) == spec_attrs_loop(tag@, p as int, attr@),
        decreases tag@.len() - p,
    {
        match next_attr(tag.as_slice(), p) {
            Ok(None) => {
                proof {
                    assert(spec_attrs_loop(tag@, p as int, attr@) == Ok::<
                        Seq<(Seq<u8>, Seq<u8>)>,
                        PErr,
                    >(attr@));
                }
                return Ok(attr);
            },
            Ok(Some((name, value, np))) => {
                let ghost pre = attr@;
                let ghost nv = name@;
                let ghost vv = value@;
                attr.insert(name, value);
                proof {
                    assert(spec_attrs_loop(tag@, p as int, pre) == spec_attrs_loop(
                        tag@,
                        np as int,
                        crate::attr::attrs_insert(pre, nv, vv),
                    ));
                }
                p = np;
            },
            Err(e) => {
                proof {
                    assert(spec_attrs_loop(tag@, p as int, attr@) == Err::<
                        Seq<(Seq<u8>, Seq<u8>)>,
                        PErr,
                    >(e@));
                }
                return Err(e);
            },
        }
    }
}

/// The line at position `a + b + c`, an empty line past the end.
fn get_line_sum(lines: &Vec<Vec<u8>>, a: usize, b: usize, c: usize) -> (r: Vec<u8>)
    ensures
        r@ == line_at(lines.deep_view(), a + b + c),
{
    let n = lines.len();
    if a >= n {
        return Vec::new();
    }
    if b >= n - a {
        return Vec::new();
    }
    if c >= n - a - b {
        return Vec::new();
    }
    let r = clone_bytes(&lines[a + b + c]);
    proof {
        assert(lines.deep_view()[a + b + c] == lines@[a + b + c]@);
    }
    r
}

/// Parse the run-information block: the scalar line at `pos`, one line per
/// declared subprocess, free text until the literal closing line, and the
/// attributes of the retained opening line.
pub fn parse_init(init_open: &Vec<u8>, lines: &Vec<Vec<u8>>, pos: usize) -> (r: Result<
    (HEPRUP, usize),
    ParseError,
>)
    requires
        pos <= lines@.len(),
    ensures
        ({
            let s = spec_parse_init(init_open@, lines.deep_view(), pos as int);
            match r {
                Ok((h, np)) => s matches Ok(p) && h@ == p.0 && np == p.1 && np <= lines@.len(),
                Err(e) => s matches Err(se) && e@ == se,
            }
        }),
{
    let ghost ls = lines.deep_view();
    let line0 = get_line(lines, pos);
    let toks = tokenize(line0.as_slice());
    let ghost tv = toks.deep_view();
    let idb1 = match parse(mk_name_idbmup_1(), &toks, 0) {
        Ok(v) => v,
        Err(e) => {
            return Err(e);
        },
    };
    let idb2 = match parse(mk_name_idbmup_2(), &toks, 1) {
        Ok(v) => v,
        Err(e) => {
            return Err(e);
        },
    };
    let eb1 = match parse_float_entry(mk_name_ebmup_1(), &toks, 2) {
        Ok(v) => v,
        Err(e) => {
            return Err(e);
        },
    };
    let eb2 = match parse_float_entry(mk_name_ebmup_2(), &toks, 3) {
        Ok(v) => v,
        Err(e) => {
            return Err(e);
        },
    };
    let pg1 = match parse(mk_name_pdfgup_1(), &toks, 4) {
        Ok(v) => v,
        Err(e) => {
            return Err(e);
        },
    };
    let pg2 = match parse(mk_name_pdfgup_2(), &toks, 5) {
        Ok(v) => v,
        Err(e) => {
            return Err(e);
        },
    };
    let ps1 = match parse(mk_name_pdfsup_1(), &toks, 6) {
        Ok(v) => v,
        Err(e) => {
            return Err(e);
        },
    };
    let ps2 = match parse(mk_name_pdfsup_2(), &toks, 7) {
        Ok(v) => v,
        Err(e) => {
            return Err(e);
        },
    };
    let idw = match parse(mk_name_idwtup(), &toks, 8) {
        Ok(v) => v,
        Err(e) => {
            return Err(e);
        },
    };
    let nprup = match parse(mk_name_nprup(), &toks, 9) {
        Ok(v) => v,
        Err(e) => {
            return Err(e);
        },
    };
    let ghost srest = crate::pspec::spec_parse_init_rest(
        init_open@,
        ls,
        pos as int,
        idb1,
        idb2,
        eb1@,
        eb2@,
        pg1,
        pg2,
        ps1,
        ps2,
        idw,
        nprup,
    );
    proof {
        assert(spec_parse_init(init_open@, ls, pos as int) == srest);
    }
    let n: usize = if nprup >= 0 {
        nprup as usize
    } else {
        0
    };
    let ghost base = pos + 1int;
    let mut xsecs: Vec<Vec<u8>> = Vec::new();
    let mut xerrs: Vec<Vec<u8>> = Vec::new();
    let mut xmaxs: Vec<Vec<u8>> = Vec::new();
    let mut lprs: Vec<i32> = Vec::new();
    let ghost mut done: Seq<SubRow> = Seq::empty();
    let mut j: usize = 0;
    proof {
        assert(join_sub_rows(done, spec_sub_rows(ls, base, 0, n as int)) == spec_sub_rows(
            ls,
            base,
            0,
            n as int,
        )) by {
            match spec_sub_rows(ls, base, 0, n as int) {
                Ok(rest) => {
                    assert(done + rest =~= rest);
                },
                Err(_) => {},
            }
        }
    }
    while j < n
        invariant
            0 <= j <= n,
            ls == lines.deep_view(),
            pos <= lines@.len(),
            base == pos + 1int,
            done.len() == j,
            xsecs.deep_view() == done.map_values(|r: SubRow| r.xsec),
            xerrs.deep_view() == done.map_values(|r: SubRow| r.xerr),
            xmaxs.deep_view() == done.map_values(|r: SubRow| r.xmax),
            lprs@ == done.map_values(|r: SubRow| r.lpr),
            spec_sub_rows(ls, base, 0, n as int) == join_sub_rows(
                done,
                spec_sub_rows(ls, base, j as int, n as int),
            ),
            srest == crate::pspec::spec_parse_init_rest(
                init_open@,
                ls,
                pos as int,
                idb1,
                idb2,
                eb1@,
                eb2@,
                pg1,
                pg2,
                ps1,
                ps2,
                idw,
                nprup,
            ),
            spec_parse_init(init_open@, ls, pos as int) == srest,
            n as int == if nprup >= 0 {
                nprup as int
            } else {
                0
            },
        decreases n - j,
    {
        let rline = get_line_sum(lines, pos, 1, j);
        let rtoks = tokenize(rline.as_slice());
        let xsecw = mk_word_xsecup();
        let xs = match parse_float_entry(make_name1(xsecw.as_slice(), (j as u64) + 1), &rtoks, 0) {
            Ok(v) => v,
            Err(e) => {
                proof {
                    assert(spec_sub_row(ls, base, j as int) == Err::<SubRow, PErr>(e@));
                }
                return Err(e);
            },
        };
        let xerrw = mk_word_xerrup();
        let xe = match parse_float_entry(make_name1(xerrw.as_slice(), (j as u64) + 1), &rtoks, 1) {
            Ok(v) => v,
            Err(e) => {
                proof {
                    assert(spec_sub_row(ls, base, j as int) == Err::<SubRow, PErr>(e@));
                }
                return Err(e);
            },
        };
        let xmaxw = mk_word_xmaxup();
        let xm = match parse_float_entry(make_name1(xmaxw.as_slice(), (j as u64) + 1), &rtoks, 2) {
            Ok(v) => v,
            Err(e) => {
                proof {
                    assert(spec_sub_row(ls, base, j as int) == Err::<SubRow, PErr>(e@));
                }
                return Err(e);
            },
        };
        let lprw = mk_word_lprup();
        let lp = match parse(make_name1(lprw.as_slice(), (j as u64) + 1), &rtoks, 3) {
            Ok(v) => v,
            Err(e) => {
                proof {
                    assert(spec_sub_row(ls, base, j as int) == Err::<SubRow, PErr>(e@));
                }
                return Err(e);
            },
        };
        let ghost row = SubRow { xsec: xs@, xerr: xe@, xmax: xm@, lpr: lp };
        proof {
            assert(spec_sub_row(ls, base, j as int) == Ok::<SubRow, PErr>(row));
        }
        let ghost pre_done = done;
        let ghost pre_xsecs = xsecs.deep_view();
        xsecs.push(xs);
        xerrs.push(xe);
        xmaxs.push(xm);
        lprs.push(lp);
        proof {
            done = done.push(row);
            assert(xsecs.deep_view() =~~= pre_done.map_values(|r: SubRow| r.xsec).push(row.xsec));
            assert(pre_done.map_values(|r: SubRow| r.xsec).push(row.xsec) =~= done.map_values(
                |r: SubRow| r.xsec,
            ));
            assert(xerrs.deep_view() =~~= pre_done.map_values(|r: SubRow| r.xerr).push(row.xerr));
            assert(pre_done.map_values(|r: SubRow| r.xerr).push(row.xerr) =~= done.map_values(
                |r: SubRow| r.xerr,
            ));
            assert(xmaxs.deep_view() =~~= pre_done.map_values(|r: SubRow| r.xmax).push(row.xmax));
            assert(pre_done.map_values(|r: SubRow| r.xmax).push(row.xmax) =~= done.map_values(
                |r: SubRow| r.xmax,
            ));
            assert(lprs@ =~= pre_done.map_values(|r: SubRow| r.lpr).push(row.lpr));
            assert(pre_done.map_values(|r: SubRow| r.lpr).push(row.lpr) =~= done.map_values(
                |r: SubRow| r.lpr,
            ));
            match spec_sub_rows(ls, base, j + 1, n as int) {
                Ok(rest) => {
                    assert(pre_done + (seq![row] + rest) =~= done + rest);
                },
                Err(_) => {},
            }
        }
        j = j + 1;
    }
    proof {
        assert(spec_sub_rows(ls, base, n as int, n as int) == Ok::<Seq<SubRow>, PErr>(
            Seq::empty(),
        ));
        assert(done + Seq::<SubRow>::empty() =~= done);
        assert(spec_sub_rows(ls, base, 0, n as int) == Ok::<Seq<SubRow>, PErr>(done));
    }
    let start = clamp_index(lines, pos, 1, n);
    proof {
        if pos + 1 + n > ls.len() {
            assert(find_close(ls, start as int, CloseKind::Init) == ls.len());
            assert(find_close(ls, pos + 1 + n, CloseKind::Init) == ls.len());
            assert(collect_lines(ls, pos + 1 + n, find_close(ls, pos + 1 + n, CloseKind::Init))
                =~= Seq::<u8>::empty());
            assert(collect_lines(ls, start as int, ls.len() as int) =~= Seq::<u8>::empty());
        }
    }
    let (info, close_at) = match read_lines_until(lines, start, CloseKind::Init) {
        Some(tc) => tc,
        None => {
            return Err(ParseError::EndOfFile(BlockKind::Init));
        },
    };
    proof {
        if start < pos + 1 + n {
            lemma_find_close(ls, start as int, CloseKind::Init);
        }
        assert(find_close(ls, pos + 1 + n, CloseKind::Init) == close_at);
        assert(collect_lines(ls, pos + 1 + n, close_at as int) == info@);
    }
    let nl_count = lines.len();
    proof {
        assert(close_at < nl_count);
    }
    let attr = match extract_xml_attr(init_open.as_slice()) {
        Ok(a) => a,
        Err(e) => {
            return Err(e);
        },
    };
    let h = HEPRUP {
        IDBMUP: [idb1, idb2],
        EBMUP: [eb1, eb2],
        PDFGUP: [pg1, pg2],
        PDFSUP: [ps1, ps2],
        IDWTUP: idw,
        NPRUP: nprup,
        XSECUP: xsecs,
        XERRUP: xerrs,
        XMAXUP: xmaxs,
        LPRUP: lprs,
        info,
        attr,
    };
    proof {
        let p = srest->Ok_0;
        assert(h@.idbmup =~= p.0.idbmup);
        assert(h@.ebmup =~= p.0.ebmup);
        assert(h@.pdfgup =~= p.0.pdfgup);
        assert(h@.pdfsup =~= p.0.pdfsup);
        assert(h@ =~~= p.0);
    }
    Ok((h, close_at + 1))
}

/// Parse an event block after its opening line: the scalar line at `pos`,
/// one line per declared particle, free text until the closing line, and
/// the attributes of the opening line.
#[verifier::rlimit(60)]
pub fn parse_event(event_open: &Vec<u8>, lines: &Vec<Vec<u8>>, pos: usize) -> (r: Result<
    (HEPEUP, usize),
    ParseError,
>)
    requires
        pos <= lines@.len(),
    ensures
        ({
            let s = spec_parse_event_block(event_open@, lines.deep_view(), pos as int);
            match r {
                Ok((h, np)) => s matches Ok(p) && h@ == p.0 && np == p.1 && np <= lines@.len(),
                Err(e) => s matches Err(se) && e@ == se,
            }
        }),
{
    let ghost ls = lines.deep_view();
    let line0 = get_line(lines, pos);
    let toks = tokenize(line0.as_slice());
    let nup = match parse(mk_name_nup(), &toks, 0) {
        Ok(v) => v,
        Err(e) => {
            return Err(e);
        },
    };
    let idrup = match parse(mk_name_idrup(), &toks, 1) {
        Ok(v) => v,
        Err(e) => {
            return Err(e);
        },
    };
    let xw = match parse_float_entry(mk_name_xwgtup(), &toks, 2) {
        Ok(v) => v,
        Err(e) => {
            return Err(e);
        },
    };
    let sc = match parse_float_entry(mk_name_scalup(), &toks, 3) {
        Ok(v) => v,
        Err(e) => {
            return Err(e);
        },
    };
    let ae = match parse_float_entry(mk_name_aqedup(), &toks, 4) {
        Ok(v) => v,
        Err(e) => {
            return Err(e);
        },
    };
    let ac = match parse_float_entry(mk_name_aqcdup(), &toks, 5) {
        Ok(v) => v,
        Err(e) => {
            return Err(e);
        },
    };
    let ghost srest = crate::pspec::spec_parse_event_rest(
        event_open@,
        ls,
        pos as int,
        nup,
        idrup,
        xw@,
        sc@,
        ae@,
        ac@,
    );
    proof {
        assert(spec_parse_event_block(event_open@, ls, pos as int) == srest);
    }
    let n: usize = if nup >= 0 {
        nup as usize
    } else {
        0
    };
    let ghost base = pos + 1int;
    let mut idups: Vec<i32> = Vec::new();
    let mut istups: Vec<i32> = Vec::new();
    let mut moths: Vec<[i32; 2]> = Vec::new();
    let mut icols: Vec<[i32; 2]> = Vec::new();
    let mut pups: Vec<[Vec<u8>; 5]> = Vec::new();
    let mut vtims: Vec<Vec<u8>> = Vec::new();
    let mut spins: Vec<Vec<u8>> = Vec::new();
    let ghost mut done: Seq<ParticleRow> = Seq::empty();
    let mut j: usize = 0;
    proof {
        assert(join_particle_rows(done, spec_particle_rows(ls, base, 0, n as int))
            == spec_particle_rows(ls, base, 0, n as int)) by {
            match spec_particle_rows(ls, base, 0, n as int) {
                Ok(rest) => {
                    assert(done + rest =~= rest);
                },
                Err(_) => {},
            }
        }
    }
    while j < n
        invariant
            0 <= j <= n,
            ls == lines.deep_view(),
            pos <= lines@.len(),
            base == pos + 1int,
            done.len() == j,
            idups@ == done.map_values(|r: ParticleRow| r.idup),
            istups@ == done.map_values(|r: ParticleRow| r.istup),
            moths@.map_values(|a: [i32; 2]| a@) == done.map_values(|r: ParticleRow| r.moth),
            icols@.map_values(|a: [i32; 2]| a@) == done.map_values(|r: ParticleRow| r.icol),
            pups@.map_values(|a: [Vec<u8>; 5]| a@.map_values(|v: Vec<u8>| v@)) == done.map_values(
                |r: ParticleRow| r.pup,
            ),
            vtims.deep_view() == done.map_values(|r: ParticleRow| r.vtim),
            spins.deep_view() == done.map_values(|r: ParticleRow| r.spin),
            spec_particle_rows(ls, base, 0, n as int) == join_particle_rows(
                done,
                spec_particle_rows(ls, base, j as int, n as int),
            ),
            srest == crate::pspec::spec_parse_event_rest(
                event_open@,
                ls,
                pos as int,
                nup,
                idrup,
                xw@,
                sc@,
                ae@,
                ac@,
            ),
            spec_parse_event_block(event_open@, ls, pos as int) == srest,
            n as int == if nup >= 0 {
                nup as int
            } else {
                0
            },
        decreases n - j,
    {
        let rline = get_line_sum(lines, pos, 1, j);
        let rtoks = tokenize(rline.as_slice());
        let idupw = mk_word_idup();
        let f_id = match parse(make_name1(idupw.as_slice(), (j as u64) + 1), &rtoks, 0) {
            Ok(v) => v,
            Err(e) => {
                proof {
                    assert(spec_particle_row(ls, base, j as int) == Err::<ParticleRow, PErr>(e@));
                }
                return Err(e);
            },
        };
        let istupw = mk_word_istup();
        let f_st = match parse(make_name1(istupw.as_slice(), (j as u64) + 1), &rtoks, 1) {
            Ok(v) => v,
            Err(e) => {
                proof {
                    assert(spec_particle_row(ls, base, j as int) == Err::<ParticleRow, PErr>(e@));
                }
                return Err(e);
            },
        };
        let mothw = mk_word_mothup();
        let f_m1 = match parse(make_name2(mothw.as_slice(), (j as u64) + 1, 1), &rtoks, 2) {
            Ok(v) => v,
            Err(e) => {
                proof {
                    assert(spec_particle_row(ls, base, j as int) == Err::<ParticleRow, PErr>(e@));
                }
                return Err(e);
            },
        };
        let f_m2 = match parse(make_name2(mothw.as_slice(), (j as u64) + 1, 2), &rtoks, 3) {
            Ok(v) => v,
            Err(e) => {
                proof {
                    assert(spec_particle_row(ls, base, j as int) == Err::<ParticleRow, PErr>(e@));
                }
                return Err(e);
            },
        };
        let icolw = mk_word_icolup();
        let f_c1 = match parse(make_name2(icolw.as_slice(), (j as u64) + 1, 1), &rtoks, 4) {
            Ok(v) => v,
            Err(e) => {
                proof {
                    assert(spec_particle_row(ls, base, j as int) == Err::<ParticleRow, PErr>(e@));
                }
                return Err(e);
            },
        };
        let f_c2 = match parse(make_name2(icolw.as_slice(), (j as u64) + 1, 2), &rtoks, 5) {
            Ok(v) => v,
            Err(e) => {
                proof {
                    assert(spec_particle_row(ls, base, j as int) == Err::<ParticleRow, PErr>(e@));
                }
                return Err(e);
            },
        };
        let pupw = mk_word_pup();
        let f_p1 = match parse_float_entry(
            make_name2(pupw.as_slice(), (j as u64) + 1, 1),
            &rtoks,
            6,
        ) {
            Ok(v) => v,
            Err(e) => {
                proof {
                    assert(spec_particle_row(ls, base, j as int) == Err::<ParticleRow, PErr>(e@));
                }
                return Err(e);
            },
        };
        let f_p2 = match parse_float_entry(
            make_name2(pupw.as_slice(), (j as u64) + 1, 2),
            &rtoks,
            7,
        ) {
            Ok(v) => v,
            Err(e) => {
                proof {
                    assert(spec_particle_row(ls, base, j as int) == Err::<ParticleRow, PErr>(e@));
                }
                return Err(e);
            },
        };
        let f_p3 = match parse_float_entry(
            make_name2(pupw.as_slice(), (j as u64) + 1, 3),
            &rtoks,
            8,
        ) {
            Ok(v) => v,
            Err(e) => {
                proof {
                    assert(spec_particle_row(ls, base, j as int) == Err::<ParticleRow, PErr>(e@));
                }
                return Err(e);
            },
        };
        let f_p4 = match parse_float_entry(
            make_name2(pupw.as_slice(), (j as u64) + 1, 4),
            &rtoks,
            9,
        ) {
            Ok(v) => v,
            Err(e) => {
                proof {
                    assert(spec_particle_row(ls, base, j as int) == Err::<ParticleRow, PErr>(e@));
                }
                return Err(e);
            },
        };
        let f_p5 = match parse_float_entry(
            make_name2(pupw.as_slice(), (j as u64) + 1, 5),
            &rtoks,
            10,
        ) {
            Ok(v) => v,
            Err(e) => {
                proof {
                    assert(spec_particle_row(ls, base, j as int) == Err::<ParticleRow, PErr>(e@));
                }
                return Err(e);
            },
        };
        let vtimw = mk_word_vtimup();
        let f_vt = match parse_float_entry(
            make_name1(vtimw.as_slice(), (j as u64) + 1),
            &rtoks,
            11,
        ) {
            Ok(v) => v,
            Err(e) => {
                proof {
                    assert(spec_particle_row(ls, base, j as int) == Err::<ParticleRow, PErr>(e@));
                }
                return Err(e);
            },
        };
        let spinw = mk_word_spinup();
        let f_sp = match parse_float_entry(
            make_name1(spinw.as_slice(), (j as u64) + 1),
            &rtoks,
            12,
        ) {
            Ok(v) => v,
            Err(e) => {
                proof {
                    assert(spec_particle_row(ls, base, j as int) == Err::<ParticleRow, PErr>(e@));
                }
                return Err(e);
            },
        };
        let ghost row = ParticleRow {
            idup: f_id,
            istup: f_st,
            moth: seq![f_m1, f_m2],
            icol: seq![f_c1, f_c2],
            pup: seq![f_p1@, f_p2@, f_p3@, f_p4@, f_p5@],
            vtim: f_vt@,
            spin: f_sp@,
        };
        proof {
            assert(spec_particle_row(ls, base, j as int) == Ok::<ParticleRow, PErr>(row));
        }
        let ghost pre_done = done;
        idups.push(f_id);
        istups.push(f_st);
        moths.push([f_m1, f_m2]);
        icols.push([f_c1, f_c2]);
        pups.push([f_p1, f_p2, f_p3, f_p4, f_p5]);
        vtims.push(f_vt);
        spins.push(f_sp);
        proof {
            done = done.push(row);
            assert(idups@ =~= pre_done.map_values(|r: ParticleRow| r.idup).push(row.idup));
            assert(pre_done.map_values(|r: ParticleRow| r.idup).push(row.idup) =~= done.map_values(
                |r: ParticleRow| r.idup,
            ));
            assert(istups@ =~= pre_done.map_values(|r: ParticleRow| r.istup).push(row.istup));
            assert(pre_done.map_values(|r: ParticleRow| r.istup).push(row.istup)
                =~= done.map_values(|r: ParticleRow| r.istup));
            assert([f_m1, f_m2]@ =~= row.moth);
            assert(moths@.map_values(|a: [i32; 2]| a@) =~= pre_done.map_values(
                |r: ParticleRow| r.moth,
            ).push(row.moth));
            assert(pre_done.map_values(|r: ParticleRow| r.moth).push(row.moth) =~= done.map_values(
                |r: ParticleRow| r.moth,
            ));
            assert([f_c1, f_c2]@ =~= row.icol);
            assert(icols@.map_values(|a: [i32; 2]| a@) =~= pre_done.map_values(
                |r: ParticleRow| r.icol,
            ).push(row.icol));
            assert(pre_done.map_values(|r: ParticleRow| r.icol).push(row.icol) =~= done.map_values(
                |r: ParticleRow| r.icol,
            ));
            assert([f_p1, f_p2, f_p3, f_p4, f_p5]@.map_values(|v: Vec<u8>| v@) =~= row.pup);
            assert(pups@.map_values(|a: [Vec<u8>; 5]| a@.map_values(|v: Vec<u8>| v@))
                =~= pre_done.map_values(|r: ParticleRow| r.pup).push(row.pup));
            assert(pre_done.map_values(|r: ParticleRow| r.pup).push(row.pup) =~= done.map_values(
                |r: ParticleRow| r.pup,
            ));
            assert(vtims.deep_view() =~~= pre_done.map_values(|r: ParticleRow| r.vtim).push(
                row.vtim,
            ));
            assert(pre_done.map_values(|r: ParticleRow| r.vtim).push(row.vtim) =~= done.map_values(
                |r: ParticleRow| r.vtim,
            ));
            assert(spins.deep_view() =~~= pre_done.map_values(|r: ParticleRow| r.spin).push(
                row.spin,
            ));
            assert(pre_done.map_values(|r: ParticleRow| r.spin).push(row.spin) =~= done.map_values(
                |r: ParticleRow| r.spin,
            ));
            match spec_particle_rows(ls, base, j + 1, n as int) {
                Ok(rest) => {
                    assert(pre_done + (seq![row] + rest) =~= done + rest);
                },
                Err(_) => {},
            }
        }
        j = j + 1;
    }
    proof {
        assert(spec_particle_rows(ls, base, n as int, n as int) == Ok::<Seq<ParticleRow>, PErr>(
            Seq::empty(),
        ));
        assert(done + Seq::<ParticleRow>::empty() =~= done);
        assert(spec_particle_rows(ls, base, 0, n as int) == Ok::<Seq<ParticleRow>, PErr>(done));
    }
    let start = clamp_index(lines, pos, 1, n);
    proof {
        if pos + 1 + n > ls.len() {
            assert(find_close(ls, start as int, CloseKind::Event) == ls.len());
            assert(find_close(ls, pos + 1 + n, CloseKind::Event) == ls.len());
            assert(collect_lines(ls, pos + 1 + n, find_close(ls, pos + 1 + n, CloseKind::Event))
                =~= Seq::<u8>::empty());
            assert(collect_lines(ls, start as int, ls.len() as int) =~= Seq::<u8>::empty());
        }
    }
    let (info, close_at) = match read_lines_until(lines, start, CloseKind::Event) {
        Some(tc) => tc,
        None => {
            return Err(ParseError::EndOfFile(BlockKind::Event));
        },
    };
    proof {
        assert(find_close(ls, pos + 1 + n, CloseKind::Event) == close_at);
        assert(collect_lines(ls, pos + 1 + n, close_at as int) == info@);
    }
    let nl_count = lines.len();
    proof {
        assert(close_at < nl_count);
    }
    let attr = match extract_xml_attr(event_open.as_slice()) {
        Ok(a) => a,
        Err(e) => {
            return Err(e);
        },
    };
    let h = HEPEUP {
        NUP: nup,
        IDRUP: idrup,
        XWGTUP: xw,
        SCALUP: sc,
        AQEDUP: ae,
        AQCDUP: ac,
        IDUP: idups,
        ISTUP: istups,
        MOTHUP: moths,
        ICOLUP: icols,
        PUP: pups,
        VTIMUP: vtims,
        SPINUP: spins,
        info,
        attr,
    };
    proof {
        let p = srest->Ok_0;
        assert(h@ =~~= p.0);
    }
    Ok((h, close_at + 1))
}


/// Classify header lines until the run-information opening line: the
/// comment text, the raw structured sub-header text if present, the
/// unconsumed opening line, and the next position.
pub fn parse_header(lines: &Vec<Vec<u8>>, start: usize) -> (r: Result<
    (Vec<u8>, Option<Vec<u8>>, Vec<u8>, usize),
    ParseError,
>)
    requires
        start <= lines@.len(),
    ensures
        ({
            let s = spec_parse_header(lines.deep_view(), start as int);
            match r {
                Ok((hdr, xml, init_line, next)) => s matches Ok(h) && hdr@ == h.header && (match xml {
                    Some(x) => h.xml_text == Some(x@),
                    None => h.xml_text is None,
                }) && init_line@ == h.init_line && next == h.next && next <= lines@.len(),
                Err(e) => s matches Err(se) && e@ == se,
            }
        }),
{
    let ghost ls = lines.deep_view();
    let mut hdr: Vec<u8> = Vec::new();
    let mut xml: Option<Vec<u8>> = None;
    let ghost mut xmlv: Option<Seq<u8>> = None;
    let mut i: usize = start;
    proof {
        assert(ls.len() == lines@.len());
        assert(hdr@ =~= Seq::<u8>::empty());
    }
    loop
        invariant
            start <= i <= ls.len(),
            ls == lines.deep_view(),
            ls.len() == lines@.len(),
            match xml {
                Some(x) => xmlv == Some(x@),
                None => xmlv is None,
            },
            spec_parse_header(ls, start as int) == spec_parse_header_loop(ls, i as int, hdr@, xmlv),
        decreases ls.len() - i,
    {
        let l = get_line(lines, i);
        let t = trimmed(l.as_slice());
        let comment_tag = tags::tag_comment_open();
        let header_tag = tags::tag_header_open();
        let init_tag = tags::tag_init_open();
        if starts_with(t.as_slice(), comment_tag.as_slice()) {
            if !bytes_eq(t.as_slice(), comment_tag.as_slice()) {
                return Err(ParseError::BadHeaderStart(l));
            }
            let n_here = lines.len();
            proof {
                assert(i < n_here);
            }
            match read_lines_until(lines, i + 1, CloseKind::Comment) {
                None => {
                    return Err(ParseError::EndOfFile(BlockKind::Header));
                },
                Some((text, c)) => {
                    proof {
                        lemma_find_close(ls, i + 1, CloseKind::Comment);
                    }
                    hdr = text;
                    i = c + 1;
                },
            }
        } else if starts_with(t.as_slice(), header_tag.as_slice()) {
            let n_here = lines.len();
            proof {
                assert(i < n_here);
            }
            match read_lines_until(lines, i + 1, CloseKind::Header) {
                None => {
                    return Err(ParseError::EndOfFile(BlockKind::Header));
                },
                Some((text, c)) => {
                    proof {
                        lemma_find_close(ls, i + 1, CloseKind::Header);
                    }
                    let mut buf = clone_bytes(&l);
                    buf.push(crate::lines::NL);
                    crate::syntax::push_all(&mut buf, text.as_slice());
                    let lc = get_line(lines, c);
                    crate::syntax::push_all(&mut buf, lc.as_slice());
                    buf.push(crate::lines::NL);
                    proof {
                        crate::pspec::lemma_collect_snoc(ls, i + 1, c as int);
                        assert(collect_lines(ls, i as int, c + 1) == line_at(ls, i as int) + seq![
                            crate::lines::NL,
                        ] + collect_lines(ls, i + 1, c + 1));
                        assert(buf@ =~= collect_lines(ls, i as int, c + 1));
                    }
                    xml = Some(buf);
                    proof {
                        xmlv = Some(collect_lines(ls, i as int, c + 1));
                    }
                    i = c + 1;
                },
            }
        } else if starts_with(t.as_slice(), init_tag.as_slice()) {
            let n_here = lines.len();
            proof {
                assert(i < n_here);
            }
            return Ok((hdr, xml, l, i + 1));
        } else {
            return Err(ParseError::BadHeaderStart(l));
        }
    }
}

/// Reader for the format: owns the split lines of the stream, the version,
/// the header material and the run information; events are pulled one per
/// call.
#[derive(Debug)]
pub struct Reader {
    lines: Vec<Vec<u8>>,
    pos: usize,
    finished: bool,
    version: Vec<u8>,
    header: Vec<u8>,
    xml_header: Option<XmlTree>,
    heprup: HEPRUP,
}

impl Reader {
    /// The lines of the stream the reader was built over.
    pub closed spec fn lines_v(&self) -> Seq<Seq<u8>> {
        self.lines.deep_view()
    }

    /// The next unread line position.
    pub closed spec fn pos_v(&self) -> int {
        self.pos as int
    }

    /// Whether the end marker has been seen.
    pub closed spec fn finished_v(&self) -> bool {
        self.finished
    }

    pub closed spec fn version_v(&self) -> Seq<u8> {
        self.version@
    }

    pub closed spec fn header_v(&self) -> Seq<u8> {
        self.header@
    }

    pub closed spec fn heprup_v(&self) -> crate::data::HeprupV {
        self.heprup@
    }

    pub closed spec fn xml_header_v(&self) -> Option<XmlTree> {
        self.xml_header
    }

    /// The reader's position never leaves the stream.
    pub closed spec fn wf(&self) -> bool {
        self.pos <= self.lines@.len()
    }

    /// Build a reader over a byte stream: reads the version line, the
    /// header region and the run information; events remain to be pulled.
    pub fn new(input: &[u8]) -> (r: Result<Reader, ParseError>)
        ensures
            ({
                let s = crate::pspec::spec_parse_prelude(spec_lines(input@));
                match r {
                    Ok(rd) => s matches Ok(p) && rd.wf() && rd.lines_v() == spec_lines(input@)
                        && rd.pos_v() == p.next && !rd.finished_v() && rd.version_v() == p.version
                        && rd.header_v() == p.header && rd.heprup_v() == p.heprup && (p.xml_text
                        is None ==> rd.xml_header_v() is None) && (rd.xml_header_v() is Some
                        ==> p.xml_text is Some),
                    Err(e) => (s matches Err(se) && e@ == se) || (s matches Ok(p)
                        && p.xml_text matches Some(tx) && e@ == PErr::BadXmlHeader(tx)),
                }
            }),
    {
        let lines = split_lines(input);
        let ghost ls = lines.deep_view();
        let version = match parse_version(&lines) {
            Ok(v) => v,
            Err(e) => {
                return Err(e);
            },
        };
        proof {
            assert(1 <= lines@.len() || 1 > lines@.len());
        }
        let start: usize = if lines.len() >= 1 {
            1
        } else {
            proof {
                let t = crate::syntax::spec_trim(line_at(ls, 0));
                assert(line_at(ls, 0) =~= Seq::<u8>::empty());
                assert(crate::syntax::spec_trim(Seq::<u8>::empty()) =~= Seq::<u8>::empty());
                crate::syntax::lemma_find_from(t, 34, 0);
                assert(t.take(0) =~= Seq::<u8>::empty());
                assert(tags::lhef_open_tag().len() == 26);
                assert(spec_parse_version(ls) is Err);
            }
            1
        };
        let (header, xml_text, init_line, next) = match parse_header(&lines, start) {
            Ok(h) => h,
            Err(e) => {
                return Err(e);
            },
        };
        let (heprup, after) = match parse_init(&init_line, &lines, next) {
            Ok(h) => h,
            Err(e) => {
                return Err(e);
            },
        };
        let xml_header = match xml_text {
            None => None,
            Some(text) => match parse_xml_tree(text.as_slice()) {
                Some(tree) => Some(tree),
                None => {
                    return Err(ParseError::BadXmlHeader(text));
                },
            },
        };
        Ok(
            Reader {
                lines,
                pos: after,
                finished: false,
                version,
                header,
                xml_header,
                heprup,
            },
        )
    }

    /// The version of the format the stream declares.
    pub fn version(&self) -> (r: &Vec<u8>)
        ensures
            r@ == self.version_v(),
    {
        &self.version
    }

    /// The comment header text: the lines between the comment marks, empty
    /// when the stream had no comment block.
    pub fn header(&self) -> (r: &Vec<u8>)
        ensures
            r@ == self.header_v(),
    {
        &self.header
    }

    /// The structured sub-header, when the stream had one that read as an
    /// element tree.
    pub fn xml_header(&self) -> (r: &Option<XmlTree>)
        ensures
            *r == self.xml_header_v(),
    {
        &self.xml_header
    }

    /// The run information.
    pub fn heprup(&self) -> (r: &HEPRUP)
        ensures
            r@ == self.heprup_v(),
    {
        &self.heprup
    }

    /// The next event, or nothing at the end marker; end is sticky: after
    /// it, every further call yields nothing.
    pub fn hepeup(&mut self) -> (r: Result<Option<HEPEUP>, ParseError>)
        requires
            old(self).wf(),
        ensures
            final(self).wf(),
            final(self).lines_v() == old(self).lines_v(),
            final(self).version_v() == old(self).version_v(),
            final(self).header_v() == old(self).header_v(),
            final(self).heprup_v() == old(self).heprup_v(),
            final(self).xml_header_v() == old(self).xml_header_v(),
            old(self).finished_v() ==> (r matches Ok(e) && e is None && *final(self) == *old(
                self,
            )),
            !old(self).finished_v() ==> ({
                let s = spec_parse_event(old(self).lines_v(), old(self).pos_v());
                match r {
                    Ok(Some(e)) => s matches Ok(p) && p matches Some(q) && e@ == q.0
                        && final(self).pos_v() == q.1 && !final(self).finished_v(),
                    Ok(None) => s matches Ok(p) && p is None && final(self).finished_v(),
                    Err(e) => s matches Err(se) && e@ == se,
                }
            }),
    {
        if self.finished {
            return Ok(None);
        }
        let ghost ls = self.lines.deep_view();
        let l = get_line(&self.lines, self.pos);
        let event_tag = tags::tag_event_open();
        if starts_with(l.as_slice(), event_tag.as_slice()) {
            let n_here = self.lines.len();
            proof {
                assert(self.pos < n_here);
            }
            match parse_event(&l, &self.lines, self.pos + 1) {
                Ok((e, np)) => {
                    self.pos = np;
                    Ok(Some(e))
                },
                Err(e) => Err(e),
            }
        } else {
            let t = trimmed(l.as_slice());
            let close_tag = tags::tag_lhef_close();
            if bytes_eq(t.as_slice(), close_tag.as_slice()) {
                self.finished = true;
                Ok(None)
            } else {
                Err(ParseError::BadEventStart(l))
            }
        }
    }
}

/// The scan start for a block's closing line, clamped to the line count.
fn clamp_index(lines: &Vec<Vec<u8>>, a: usize, b: usize, c: usize) -> (r: usize)
    ensures
        r <= lines@.len(),
        r == if a + b + c <= lines@.len() {
            a + b + c
        } else {
            lines@.len() as int
        },
{
    let n = lines.len();
    if a >= n {
        return n;
    }
    if b >= n - a {
        return n;
    }
    if c > n - a - b {
        return n;
    }
    a + b + c
}

} // verus!
