//! Serializing the structured sub-header tree: the exact bytes the writer
//! emits for a tree, and the builder proved to produce them.
use crate::data::XmlTree;
use crate::lines::NL;
use crate::serial::{attrs_text, push_attrs};
use crate::syntax::{bytes_eq, push_all};
use crate::tags;
use vstd::prelude::*;

verus! {

/// The plain serialization of one element: opening tag with attributes,
/// text, children, closing tag.
pub open spec fn xml_bytes(t: XmlTree) -> Seq<u8>
    decreases t, 0int, 0int,
{
    seq![60u8] + t.name@ + attrs_text(t.attributes@) + seq![62u8] + (match t.text {
        Some(tx) => tx@,
        None => Seq::empty(),
    }) + xml_children_bytes(t.children@, 0) + seq![60u8, 47u8] + t.name@ + seq![62u8]
}

/// The serializations of the children from index `i` on.
pub open spec fn xml_children_bytes(cs: Seq<XmlTree>, i: int) -> Seq<u8>
    decreases cs, cs.len() - i, 1int,
{
    if i < 0 || i >= cs.len() {
        Seq::empty()
    } else {
        xml_bytes(cs[i]) + xml_children_bytes(cs, i + 1)
    }
}

/// The sub-header block: a tree whose root is already named `header` keeps
/// its attributes, text and children on the header tag itself; any other
/// root is wrapped in a bare header tag.
pub open spec fn header_block(t: XmlTree) -> Seq<u8> {
    tags::header_open_tag() + (if t.name@ != tags::header_word() {
        seq![62u8, NL] + xml_bytes(t) + seq![NL]
    } else {
        attrs_text(t.attributes@) + seq![62u8] + header_children_part(t) + header_text_part(t)
    }) + tags::header_close_tag() + seq![NL]
}

pub open spec fn header_children_part(t: XmlTree) -> Seq<u8> {
    if t.children@.len() > 0 {
        seq![NL] + xml_children_bytes(t.children@, 0)
    } else {
        Seq::empty()
    }
}

pub open spec fn header_text_part(t: XmlTree) -> Seq<u8> {
    match t.text {
        None => seq![NL],
        Some(tx) => (if t.children@.len() == 0 && (tx@.len() == 0 || tx@[0] != NL) {
            seq![NL]
        } else {
            Seq::empty()
        }) + tx@ + (if tx@.len() == 0 || tx@[tx@.len() - 1] != NL {
            seq![NL]
        } else {
            Seq::empty()
        }),
    }
}

/// Append the plain serialization of `t`.
pub fn push_xml(t: &XmlTree, out: &mut Vec<u8>)
    ensures
        final(out)@ == old(out)@ + xml_bytes(*t),
    decreases *t,
{
    out.push(60);
    push_all(out, t.name.as_slice());
    push_attrs(out, &t.attributes);
    out.push(62);
    match &t.text {
        Some(tx) => push_all(out, tx.as_slice()),
        None => (),
    }
    let ghost cs = t.children@;
    let ghost base = out@;
    let mut i: usize = 0;
    while i < t.children.len()
        invariant
            0 <= i <= cs.len(),
            cs == t.children@,
            out@ + xml_children_bytes(cs, i as int) == base + xml_children_bytes(cs, 0),
        decreases cs.len() - i,
    {
        let ghost pre = out@;
        push_xml(&t.children[i], out);
        proof {
            assert(pre + (xml_bytes(cs[i as int]) + xml_children_bytes(cs, i + 1)) =~= (pre
                + xml_bytes(cs[i as int])) + xml_children_bytes(cs, i + 1));
        }
        i = i + 1;
    }
    proof {
        assert(xml_children_bytes(cs, i as int) =~= Seq::<u8>::empty());
        assert(out@ + Seq::<u8>::empty() =~= out@);
    }
    out.push(60);
    out.push(47);
    push_all(out, t.name.as_slice());
    out.push(62);
    proof {
        assert(out@ =~= old(out)@ + xml_bytes(*t));
    }
}

/// The sub-header block as bytes.
pub fn build_header_block(t: &XmlTree) -> (r: Vec<u8>)
    ensures
        r@ == header_block(*t),
{
    let mut out = tags::tag_header_open();
    let word = tags::tag_header_word();
    if !bytes_eq(t.name.as_slice(), word.as_slice()) {
        out.push(62);
        out.push(NL);
        push_xml(t, &mut out);
        out.push(NL);
    } else {
        push_attrs(&mut out, &t.attributes);
        out.push(62);
        if t.children.len() > 0 {
            out.push(NL);
            let ghost cs = t.children@;
            let ghost base = out@;
            let mut i: usize = 0;
            while i < t.children.len()
                invariant
                    0 <= i <= cs.len(),
                    cs == t.children@,
                    out@ + xml_children_bytes(cs, i as int) == base + xml_children_bytes(cs, 0),
                decreases cs.len() - i,
            {
                let ghost pre = out@;
                push_xml(&t.children[i], &mut out);
                proof {
                    assert(pre + (xml_bytes(cs[i as int]) + xml_children_bytes(cs, i + 1)) =~= (pre
                        + xml_bytes(cs[i as int])) + xml_children_bytes(cs, i + 1));
                }
                i = i + 1;
            }
            proof {
                assert(xml_children_bytes(cs, i as int) =~= Seq::<u8>::empty());
                assert(out@ + Seq::<u8>::empty() =~= out@);
            }
        }
        match &t.text {
            None => {
                out.push(NL);
            },
            Some(tx) => {
                if t.children.len() == 0 && (tx.len() == 0 || tx[0] != NL) {
                    out.push(NL);
                }
                push_all(&mut out, tx.as_slice());
                if tx.len() == 0 || tx[tx.len() - 1] != NL {
                    out.push(NL);
                }
            },
        }
    }
    let close = tags::tag_header_close();
    push_all(&mut out, close.as_slice());
    out.push(NL);
    proof {
        assert(out@ =~= header_block(*t));
    }
    out
}

} // verus!
