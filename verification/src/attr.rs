//! The attribute map of an opening tag: name/value pairs of bytes, keys
//! unique, held in insertion order so that output is deterministic.
use crate::syntax::{bytes_eq, is_ws};
use vstd::prelude::*;

verus! {

/// Attributes of an opening tag.
#[derive(Debug, Clone, PartialEq)]
pub struct XmlAttr {
    items: Vec<(Vec<u8>, Vec<u8>)>,
}

impl View for XmlAttr {
    type V = Seq<(Seq<u8>, Seq<u8>)>;

    closed spec fn view(&self) -> Seq<(Seq<u8>, Seq<u8>)> {
        Seq::new(self.items@.len(), |i: int| (self.items@[i].0@, self.items@[i].1@))
    }
}

/// Index of `key` among the pairs, or the length when absent.
pub open spec fn key_index(m: Seq<(Seq<u8>, Seq<u8>)>, key: Seq<u8>) -> int
    decreases m.len(),
{
    if m.len() == 0 {
        0
    } else if m[0].0 == key {
        0
    } else {
        1 + key_index(m.skip(1), key)
    }
}

pub open spec fn has_key(m: Seq<(Seq<u8>, Seq<u8>)>, key: Seq<u8>) -> bool {
    exists|i: int| 0 <= i < m.len() && m[i].0 == key
}

/// The value bound to `key`, if any.
pub open spec fn spec_get(m: Seq<(Seq<u8>, Seq<u8>)>, key: Seq<u8>) -> Option<Seq<u8>> {
    if has_key(m, key) {
        Some(m[key_index(m, key)].1)
    } else {
        None
    }
}

pub proof fn lemma_key_index(m: Seq<(Seq<u8>, Seq<u8>)>, key: Seq<u8>)
    ensures
        0 <= key_index(m, key) <= m.len(),
        key_index(m, key) < m.len() ==> m[key_index(m, key)].0 == key,
        forall|j: int| 0 <= j < key_index(m, key) ==> (#[trigger] m[j]).0 != key,
        has_key(m, key) <==> key_index(m, key) < m.len(),
    decreases m.len(),
{
    if m.len() == 0 {
    } else if m[0].0 == key {
    } else {
        lemma_key_index(m.skip(1), key);
        let t = m.skip(1);
        assert(forall|j: int| 0 <= j < t.len() ==> t[j] == m[j + 1]);
        assert forall|j: int| 0 <= j < key_index(m, key) implies (#[trigger] m[j]).0 != key by {
            if j >= 1 {
                assert(t[j - 1] == m[j]);
                assert(t[j - 1].0 != key);
            }
        }
        if has_key(m, key) {
            let w = choose|i: int| 0 <= i < m.len() && m[i].0 == key;
            assert(t[w - 1].0 == key);
        }
        if has_key(t, key) {
            let w = choose|i: int| 0 <= i < t.len() && t[i].0 == key;
            assert(m[w + 1].0 == key);
        }
    }
}

/// Binding a key: replace the bound value in place when the key is
/// present, append the pair when it is not.
pub open spec fn attrs_insert(
    m: Seq<(Seq<u8>, Seq<u8>)>,
    k: Seq<u8>,
    v: Seq<u8>,
) -> Seq<(Seq<u8>, Seq<u8>)> {
    if has_key(m, k) {
        m.update(key_index(m, k), (k, v))
    } else {
        m.push((k, v))
    }
}

/// Keys pairwise distinct.
pub open spec fn keys_unique(m: Seq<(Seq<u8>, Seq<u8>)>) -> bool {
    forall|i: int, j: int|
        0 <= i < j < m.len() ==> (#[trigger] m[i]).0 != (#[trigger] m[j]).0
}

/// A name that an opening tag can carry and read back.
pub open spec fn attr_name_wf(n: Seq<u8>) -> bool {
    &&& n.len() > 0
    &&& forall|i: int| 0 <= i < n.len() ==> !is_ws(#[trigger] n[i]) && n[i] != 61 && n[i] != 34
}

/// A value that an opening tag can carry and read back.
pub open spec fn attr_value_wf(v: Seq<u8>) -> bool {
    forall|i: int| 0 <= i < v.len() ==> #[trigger] v[i] != 34 && v[i] != 10
}

/// An attribute map that writes out and reads back unchanged.
pub open spec fn attrs_wf(m: Seq<(Seq<u8>, Seq<u8>)>) -> bool {
    &&& keys_unique(m)
    &&& forall|i: int|
        0 <= i < m.len() ==> attr_name_wf((#[trigger] m[i]).0) && attr_value_wf(m[i].1)
}

impl XmlAttr {
    /// An empty attribute map.
    pub fn new() -> (r: XmlAttr)
        ensures
            r@ == Seq::<(Seq<u8>, Seq<u8>)>::empty(),
    {
        let r = XmlAttr { items: Vec::new() };
        proof {
            assert(r@ =~= Seq::<(Seq<u8>, Seq<u8>)>::empty());
        }
        r
    }

    pub fn len(&self) -> (r: usize)
        ensures
            r == self@.len(),
    {
        self.items.len()
    }

    pub fn is_empty(&self) -> (r: bool)
        ensures
            r == (self@.len() == 0),
    {
        self.items.len() == 0
    }

    /// The pair at position `i`, for walking the map in insertion order.
    pub fn pair_at(&self, i: usize) -> (r: (&Vec<u8>, &Vec<u8>))
        requires
            i < self@.len(),
        ensures
            r.0@ == self@[i as int].0,
            r.1@ == self@[i as int].1,
    {
        let p = &self.items[i];
        (&p.0, &p.1)
    }

    /// Bind `key` to `value`: replace the bound value when the key is
    /// present, append the pair when it is not.
    pub fn insert(&mut self, key: Vec<u8>, value: Vec<u8>)
        ensures
            final(self)@ == attrs_insert(old(self)@, key@, value@),
    {
        proof {
            lemma_key_index(self@, key@);
        }
        let ghost m = self@;
        let mut i: usize = 0;
        while i < self.items.len()
            invariant
                0 <= i <= self.items@.len(),
                m == self@,
                m == old(self)@,
                forall|j: int| 0 <= j < i ==> (#[trigger] m[j]).0 != key@,
            decreases self.items@.len() - i,
        {
            if bytes_eq(self.items[i].0.as_slice(), key.as_slice()) {
                proof {
                    assert(m[i as int].0 == key@);
                    assert(key_index(m, key@) == i) by {
                        lemma_key_index(m, key@);
                    }
                }
                proof {
                    assert(has_key(m, key@));
                }
                self.items.set(i, (key, value));
                proof {
                    assert(self@ =~= m.update(i as int, (key@, value@)));
                }
                return ;
            }
            i = i + 1;
        }
        self.items.push((key, value));
        proof {
            assert(!has_key(m, key@));
            assert(self@ =~= m.push((key@, value@)));
        }
    }

    /// The value bound to `key`, if any.
    pub fn get(&self, key: &[u8]) -> (r: Option<&Vec<u8>>)
        ensures
            match r {
                Some(v) => spec_get(self@, key@) == Some(v@),
                None => spec_get(self@, key@) is None,
            },
    {
        proof {
            lemma_key_index(self@, key@);
        }
        let ghost m = self@;
        let mut i: usize = 0;
        while i < self.items.len()
            invariant
                0 <= i <= self.items@.len(),
                m == self@,
                forall|j: int| 0 <= j < i ==> (#[trigger] m[j]).0 != key@,
            decreases self.items@.len() - i,
        {
            if bytes_eq(self.items[i].0.as_slice(), key) {
                proof {
                    assert(m[i as int].0 == key@);
                    assert(has_key(m, key@));
                    lemma_key_index(m, key@);
                    assert(key_index(m, key@) == i);
                }
                return Some(&self.items[i].1);
            }
            i = i + 1;
        }
        proof {
            assert(!has_key(m, key@));
        }
        None
    }
}

} // verus!
