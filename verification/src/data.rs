//! The record types of the format: per-run information, per-event records,
//! and the structured sub-header tree; with their mathematical views and the
//! well-formedness that guarantees a written record reads back unchanged.
//!
//! Floating-point fields hold their decimal text tokens. A token is valid
//! when it matches the decimal-float grammar; records built by the parser
//! hold only valid tokens, and writing emits tokens byte-for-byte.
use crate::attr::{attrs_wf, XmlAttr};
use crate::floattok::is_float_token;
use crate::lines::{spec_lines, NL};
use crate::syntax::spec_trim;
use crate::tags;
use vstd::prelude::*;

verus! {

/// Generator run information: the per-run record.
#[allow(non_snake_case)]
#[derive(Debug, Clone, PartialEq)]
pub struct HEPRUP {
    /// Beam IDs
    pub IDBMUP: [i32; 2],
    /// Beam energies, as decimal text
    pub EBMUP: [Vec<u8>; 2],
    /// PDF groups
    pub PDFGUP: [i32; 2],
    /// PDF set IDs
    pub PDFSUP: [i32; 2],
    /// Event weight specification
    pub IDWTUP: i32,
    /// Number of subprocesses
    pub NPRUP: i32,
    /// Subprocess cross sections, as decimal text
    pub XSECUP: Vec<Vec<u8>>,
    /// Subprocess cross section errors, as decimal text
    pub XERRUP: Vec<Vec<u8>>,
    /// Subprocess maximum weights, as decimal text
    pub XMAXUP: Vec<Vec<u8>>,
    /// Process IDs
    pub LPRUP: Vec<i32>,
    /// Optional run information
    pub info: Vec<u8>,
    /// Attributes of the run-information opening tag
    pub attr: XmlAttr,
}

/// Event information: the per-event record.
#[allow(non_snake_case)]
#[derive(Debug, Clone, PartialEq)]
pub struct HEPEUP {
    /// Number of particles
    pub NUP: i32,
    /// Process ID
    pub IDRUP: i32,
    /// Event weight, as decimal text
    pub XWGTUP: Vec<u8>,
    /// Scale, as decimal text
    pub SCALUP: Vec<u8>,
    /// QED coupling, as decimal text
    pub AQEDUP: Vec<u8>,
    /// QCD coupling, as decimal text
    pub AQCDUP: Vec<u8>,
    /// Particle IDs
    pub IDUP: Vec<i32>,
    /// Particle status
    pub ISTUP: Vec<i32>,
    /// Indices of decay mothers
    pub MOTHUP: Vec<[i32; 2]>,
    /// Colour flow
    pub ICOLUP: Vec<[i32; 2]>,
    /// Particle momentum, five components as decimal text
    pub PUP: Vec<[Vec<u8>; 5]>,
    /// Lifetime, as decimal text
    pub VTIMUP: Vec<Vec<u8>>,
    /// Spin angle, as decimal text
    pub SPINUP: Vec<Vec<u8>>,
    /// Optional event information
    pub info: Vec<u8>,
    /// Attributes of the event opening tag
    pub attr: XmlAttr,
}

/// A structured sub-header element: name, attributes, text, children.
#[derive(Debug)]
pub struct XmlTree {
    /// Tag name
    pub name: Vec<u8>,
    /// Attributes of the tag
    pub attributes: XmlAttr,
    /// Text content, if any
    pub text: Option<Vec<u8>>,
    /// Child elements, in order
    pub children: Vec<XmlTree>,
}

/// Mathematical view of `HEPRUP`.
#[verifier::ext_equal]
pub struct HeprupV {
    pub idbmup: Seq<i32>,
    pub ebmup: Seq<Seq<u8>>,
    pub pdfgup: Seq<i32>,
    pub pdfsup: Seq<i32>,
    pub idwtup: i32,
    pub nprup: i32,
    pub xsecup: Seq<Seq<u8>>,
    pub xerrup: Seq<Seq<u8>>,
    pub xmaxup: Seq<Seq<u8>>,
    pub lprup: Seq<i32>,
    pub info: Seq<u8>,
    pub attr: Seq<(Seq<u8>, Seq<u8>)>,
}

impl View for HEPRUP {
    type V = HeprupV;

    open spec fn view(&self) -> HeprupV {
        HeprupV {
            idbmup: self.IDBMUP@,
            ebmup: self.EBMUP@.map_values(|v: Vec<u8>| v@),
            pdfgup: self.PDFGUP@,
            pdfsup: self.PDFSUP@,
            idwtup: self.IDWTUP,
            nprup: self.NPRUP,
            xsecup: self.XSECUP.deep_view(),
            xerrup: self.XERRUP.deep_view(),
            xmaxup: self.XMAXUP.deep_view(),
            lprup: self.LPRUP@,
            info: self.info@,
            attr: self.attr@,
        }
    }
}

/// Mathematical view of `HEPEUP`.
#[verifier::ext_equal]
pub struct HepeupV {
    pub nup: i32,
    pub idrup: i32,
    pub xwgtup: Seq<u8>,
    pub scalup: Seq<u8>,
    pub aqedup: Seq<u8>,
    pub aqcdup: Seq<u8>,
    pub idup: Seq<i32>,
    pub istup: Seq<i32>,
    pub mothup: Seq<Seq<i32>>,
    pub icolup: Seq<Seq<i32>>,
    pub pup: Seq<Seq<Seq<u8>>>,
    pub vtimup: Seq<Seq<u8>>,
    pub spinup: Seq<Seq<u8>>,
    pub info: Seq<u8>,
    pub attr: Seq<(Seq<u8>, Seq<u8>)>,
}

impl View for HEPEUP {
    type V = HepeupV;

    open spec fn view(&self) -> HepeupV {
        HepeupV {
            nup: self.NUP,
            idrup: self.IDRUP,
            xwgtup: self.XWGTUP@,
            scalup: self.SCALUP@,
            aqedup: self.AQEDUP@,
            aqcdup: self.AQCDUP@,
            idup: self.IDUP@,
            istup: self.ISTUP@,
            mothup: self.MOTHUP@.map_values(|a: [i32; 2]| a@),
            icolup: self.ICOLUP@.map_values(|a: [i32; 2]| a@),
            pup: self.PUP@.map_values(|a: [Vec<u8>; 5]| a@.map_values(|v: Vec<u8>| v@)),
            vtimup: self.VTIMUP.deep_view(),
            spinup: self.SPINUP.deep_view(),
            info: self.info@,
            attr: self.attr@,
        }
    }
}

/// The declared subprocess count is non-negative and every per-subprocess
/// sequence has exactly that length. This is what writing validates.
pub open spec fn heprup_counts_ok(r: HeprupV) -> bool {
    &&& r.nprup >= 0
    &&& r.xsecup.len() == r.nprup
    &&& r.xerrup.len() == r.nprup
    &&& r.xmaxup.len() == r.nprup
    &&& r.lprup.len() == r.nprup
}

/// The declared particle count is non-negative and every per-particle
/// sequence has exactly that length. This is what writing validates.
pub open spec fn hepeup_counts_ok(e: HepeupV) -> bool {
    &&& e.nup >= 0
    &&& e.idup.len() == e.nup
    &&& e.istup.len() == e.nup
    &&& e.mothup.len() == e.nup
    &&& e.icolup.len() == e.nup
    &&& e.pup.len() == e.nup
    &&& e.vtimup.len() == e.nup
    &&& e.spinup.len() == e.nup
}

/// A line that closes the run-information block: the literal closing tag,
/// one trailing carriage return allowed.
pub open spec fn strip_cr(l: Seq<u8>) -> Seq<u8> {
    if l.len() > 0 && l[l.len() - 1] == 13 {
        l.take(l.len() - 1)
    } else {
        l
    }
}

pub open spec fn is_init_close_line(l: Seq<u8>) -> bool {
    strip_cr(l) == tags::init_close_tag()
}

/// A line that closes an event block: the closing tag once trimmed.
pub open spec fn is_event_close_line(l: Seq<u8>) -> bool {
    spec_trim(l) == tags::event_close_tag()
}

/// A line that closes the comment block: the closing mark once trimmed.
pub open spec fn is_comment_close_line(l: Seq<u8>) -> bool {
    spec_trim(l) == tags::comment_close_tag()
}

/// A line that closes the structured sub-header: the closing tag once
/// trimmed.
pub open spec fn is_header_close_line(l: Seq<u8>) -> bool {
    spec_trim(l) == tags::header_close_tag()
}

/// Free text that a block can carry and read back: empty, or
/// newline-terminated with no line that would close the block early.
pub open spec fn init_info_wf(info: Seq<u8>) -> bool {
    info.len() == 0 || (info[info.len() - 1] == NL && forall|i: int|
        0 <= i < spec_lines(info).len() ==> !is_init_close_line(#[trigger] spec_lines(info)[i]))
}

pub open spec fn event_info_wf(info: Seq<u8>) -> bool {
    info.len() == 0 || (info[info.len() - 1] == NL && forall|i: int|
        0 <= i < spec_lines(info).len() ==> !is_event_close_line(#[trigger] spec_lines(info)[i]))
}

/// Comment-header text that writes out and reads back unchanged.
pub open spec fn header_text_wf(h: Seq<u8>) -> bool {
    h.len() == 0 || (h[h.len() - 1] == NL && forall|i: int|
        0 <= i < spec_lines(h).len() ==> !is_comment_close_line(#[trigger] spec_lines(h)[i]))
}

/// All float fields of a run record hold valid decimal-float tokens.
pub open spec fn heprup_tokens_ok(r: HeprupV) -> bool {
    &&& forall|i: int| 0 <= i < r.ebmup.len() ==> is_float_token(#[trigger] r.ebmup[i])
    &&& forall|i: int| 0 <= i < r.xsecup.len() ==> is_float_token(#[trigger] r.xsecup[i])
    &&& forall|i: int| 0 <= i < r.xerrup.len() ==> is_float_token(#[trigger] r.xerrup[i])
    &&& forall|i: int| 0 <= i < r.xmaxup.len() ==> is_float_token(#[trigger] r.xmaxup[i])
}

/// All float fields of an event record hold valid decimal-float tokens.
pub open spec fn hepeup_tokens_ok(e: HepeupV) -> bool {
    &&& is_float_token(e.xwgtup)
    &&& is_float_token(e.scalup)
    &&& is_float_token(e.aqedup)
    &&& is_float_token(e.aqcdup)
    &&& forall|i: int|
        0 <= i < e.pup.len() ==> (#[trigger] e.pup[i]).len() == 5 && forall|j: int|
            0 <= j < 5 ==> is_float_token(#[trigger] e.pup[i][j])
    &&& forall|i: int| 0 <= i < e.vtimup.len() ==> is_float_token(#[trigger] e.vtimup[i])
    &&& forall|i: int| 0 <= i < e.spinup.len() ==> is_float_token(#[trigger] e.spinup[i])
}

/// A run record that writes out and reads back unchanged.
pub open spec fn heprup_wf(r: HeprupV) -> bool {
    &&& heprup_counts_ok(r)
    &&& heprup_tokens_ok(r)
    &&& r.idbmup.len() == 2
    &&& r.ebmup.len() == 2
    &&& r.pdfgup.len() == 2
    &&& r.pdfsup.len() == 2
    &&& attrs_wf(r.attr)
    &&& init_info_wf(r.info)
}

/// An event record that writes out and reads back unchanged.
pub open spec fn hepeup_wf(e: HepeupV) -> bool {
    &&& hepeup_counts_ok(e)
    &&& hepeup_tokens_ok(e)
    &&& forall|i: int| 0 <= i < e.mothup.len() ==> (#[trigger] e.mothup[i]).len() == 2
    &&& forall|i: int| 0 <= i < e.icolup.len() ==> (#[trigger] e.icolup[i]).len() == 2
    &&& attrs_wf(e.attr)
    &&& event_info_wf(e.info)
}

/// A supported version token.
pub open spec fn version_wf(v: Seq<u8>) -> bool {
    v == tags::version_10() || v == tags::version_20() || v == tags::version_30()
}

} // verus!
