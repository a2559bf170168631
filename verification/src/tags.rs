//! The literal tag strings of the file format, as byte sequences: one
//! specification constant and one executable builder for each.
use vstd::prelude::*;

verus! {

/// `<LesHouchesEvents version=`
pub open spec fn lhef_open_tag() -> Seq<u8> {
    seq![60u8, 76u8, 101u8, 115u8, 72u8, 111u8, 117u8, 99u8, 104u8, 101u8, 115u8, 69u8, 118u8, 101u8, 110u8, 116u8, 115u8, 32u8, 118u8, 101u8, 114u8, 115u8, 105u8, 111u8, 110u8, 61u8]
}

pub fn tag_lhef_open() -> (r: Vec<u8>)
    ensures
        r@ == lhef_open_tag(),
{
    let mut v: Vec<u8> = Vec::new();
    v.push(60);
    v.push(76);
    v.push(101);
    v.push(115);
    v.push(72);
    v.push(111);
    v.push(117);
    v.push(99);
    v.push(104);
    v.push(101);
    v.push(115);
    v.push(69);
    v.push(118);
    v.push(101);
    v.push(110);
    v.push(116);
    v.push(115);
    v.push(32);
    v.push(118);
    v.push(101);
    v.push(114);
    v.push(115);
    v.push(105);
    v.push(111);
    v.push(110);
    v.push(61);
    proof {
        assert(v@ =~= lhef_open_tag());
    }
    v
}

/// `</LesHouchesEvents>`
pub open spec fn lhef_close_tag() -> Seq<u8> {
    seq![60u8, 47u8, 76u8, 101u8, 115u8, 72u8, 111u8, 117u8, 99u8, 104u8, 101u8, 115u8, 69u8, 118u8, 101u8, 110u8, 116u8, 115u8, 62u8]
}

pub fn tag_lhef_close() -> (r: Vec<u8>)
    ensures
        r@ == lhef_close_tag(),
{
    let mut v: Vec<u8> = Vec::new();
    v.push(60);
    v.push(47);
    v.push(76);
    v.push(101);
    v.push(115);
    v.push(72);
    v.push(111);
    v.push(117);
    v.push(99);
    v.push(104);
    v.push(101);
    v.push(115);
    v.push(69);
    v.push(118);
    v.push(101);
    v.push(110);
    v.push(116);
    v.push(115);
    v.push(62);
    proof {
        assert(v@ =~= lhef_close_tag());
    }
    v
}

/// `<!--`
pub open spec fn comment_open_tag() -> Seq<u8> {
    seq![60u8, 33u8, 45u8, 45u8]
}

pub fn tag_comment_open() -> (r: Vec<u8>)
    ensures
        r@ == comment_open_tag(),
{
    let mut v: Vec<u8> = Vec::new();
    v.push(60);
    v.push(33);
    v.push(45);
    v.push(45);
    proof {
        assert(v@ =~= comment_open_tag());
    }
    v
}

/// `-->`
pub open spec fn comment_close_tag() -> Seq<u8> {
    seq![45u8, 45u8, 62u8]
}

pub fn tag_comment_close() -> (r: Vec<u8>)
    ensures
        r@ == comment_close_tag(),
{
    let mut v: Vec<u8> = Vec::new();
    v.push(45);
    v.push(45);
    v.push(62);
    proof {
        assert(v@ =~= comment_close_tag());
    }
    v
}

/// `<header`
pub open spec fn header_open_tag() -> Seq<u8> {
    seq![60u8, 104u8, 101u8, 97u8, 100u8, 101u8, 114u8]
}

pub fn tag_header_open() -> (r: Vec<u8>)
    ensures
        r@ == header_open_tag(),
{
    let mut v: Vec<u8> = Vec::new();
    v.push(60);
    v.push(104);
    v.push(101);
    v.push(97);
    v.push(100);
    v.push(101);
    v.push(114);
    proof {
        assert(v@ =~= header_open_tag());
    }
    v
}

/// `</header>`
pub open spec fn header_close_tag() -> Seq<u8> {
    seq![60u8, 47u8, 104u8, 101u8, 97u8, 100u8, 101u8, 114u8, 62u8]
}

pub fn tag_header_close() -> (r: Vec<u8>)
    ensures
        r@ == header_close_tag(),
{
    let mut v: Vec<u8> = Vec::new();
    v.push(60);
    v.push(47);
    v.push(104);
    v.push(101);
    v.push(97);
    v.push(100);
    v.push(101);
    v.push(114);
    v.push(62);
    proof {
        assert(v@ =~= header_close_tag());
    }
    v
}

/// `<init`
pub open spec fn init_open_tag() -> Seq<u8> {
    seq![60u8, 105u8, 110u8, 105u8, 116u8]
}

pub fn tag_init_open() -> (r: Vec<u8>)
    ensures
        r@ == init_open_tag(),
{
    let mut v: Vec<u8> = Vec::new();
    v.push(60);
    v.push(105);
    v.push(110);
    v.push(105);
    v.push(116);
    proof {
        assert(v@ =~= init_open_tag());
    }
    v
}

/// `</init>`
pub open spec fn init_close_tag() -> Seq<u8> {
    seq![60u8, 47u8, 105u8, 110u8, 105u8, 116u8, 62u8]
}

pub fn tag_init_close() -> (r: Vec<u8>)
    ensures
        r@ == init_close_tag(),
{
    let mut v: Vec<u8> = Vec::new();
    v.push(60);
    v.push(47);
    v.push(105);
    v.push(110);
    v.push(105);
    v.push(116);
    v.push(62);
    proof {
        assert(v@ =~= init_close_tag());
    }
    v
}

/// `<event`
pub open spec fn event_open_tag() -> Seq<u8> {
    seq![60u8, 101u8, 118u8, 101u8, 110u8, 116u8]
}

pub fn tag_event_open() -> (r: Vec<u8>)
    ensures
        r@ == event_open_tag(),
{
    let mut v: Vec<u8> = Vec::new();
    v.push(60);
    v.push(101);
    v.push(118);
    v.push(101);
    v.push(110);
    v.push(116);
    proof {
        assert(v@ =~= event_open_tag());
    }
    v
}

/// `</event>`
pub open spec fn event_close_tag() -> Seq<u8> {
    seq![60u8, 47u8, 101u8, 118u8, 101u8, 110u8, 116u8, 62u8]
}

pub fn tag_event_close() -> (r: Vec<u8>)
    ensures
        r@ == event_close_tag(),
{
    let mut v: Vec<u8> = Vec::new();
    v.push(60);
    v.push(47);
    v.push(101);
    v.push(118);
    v.push(101);
    v.push(110);
    v.push(116);
    v.push(62);
    proof {
        assert(v@ =~= event_close_tag());
    }
    v
}

/// `header`
pub open spec fn header_word() -> Seq<u8> {
    seq![104u8, 101u8, 97u8, 100u8, 101u8, 114u8]
}

pub fn tag_header_word() -> (r: Vec<u8>)
    ensures
        r@ == header_word(),
{
    let mut v: Vec<u8> = Vec::new();
    v.push(104);
    v.push(101);
    v.push(97);
    v.push(100);
    v.push(101);
    v.push(114);
    proof {
        assert(v@ =~= header_word());
    }
    v
}

/// `1.0`
pub open spec fn version_10() -> Seq<u8> {
    seq![49u8, 46u8, 48u8]
}

pub fn tag_version_10() -> (r: Vec<u8>)
    ensures
        r@ == version_10(),
{
    let mut v: Vec<u8> = Vec::new();
    v.push(49);
    v.push(46);
    v.push(48);
    proof {
        assert(v@ =~= version_10());
    }
    v
}

/// `2.0`
pub open spec fn version_20() -> Seq<u8> {
    seq![50u8, 46u8, 48u8]
}

pub fn tag_version_20() -> (r: Vec<u8>)
    ensures
        r@ == version_20(),
{
    let mut v: Vec<u8> = Vec::new();
    v.push(50);
    v.push(46);
    v.push(48);
    proof {
        assert(v@ =~= version_20());
    }
    v
}

/// `3.0`
pub open spec fn version_30() -> Seq<u8> {
    seq![51u8, 46u8, 48u8]
}

pub fn tag_version_30() -> (r: Vec<u8>)
    ensures
        r@ == version_30(),
{
    let mut v: Vec<u8> = Vec::new();
    v.push(51);
    v.push(46);
    v.push(48);
    proof {
        assert(v@ =~= version_30());
    }
    v
}

} // verus!
