//! The format-agnostic document tree.
//!
//! A document is a tree of mappings, sequences, scalars and comments.  Keys
//! and text are held as UTF-8 bytes so that every format adapter and the
//! cipher speak the same plain values.

use vstd::prelude::*;

verus! {

broadcast use vstd::std_specs::vec::axiom_vec_index_decreases, vstd::std_specs::vec::axiom_vec_decreases_to_view, vstd::seq::axiom_seq_index_decreases, vstd::seq::axiom_seq_subrange_decreases;

/// A leaf value of the document tree.
///
/// `Float` keeps the decimal literal text verbatim, so a document that uses
/// fractional numbers round-trips byte-for-byte without the library doing
/// floating-point arithmetic.  `Bytes` carries the payload of a binary
/// document.
#[derive(Debug, Clone, PartialEq)]
pub enum Scalar {
    Str(Vec<u8>),
    Int(i64),
    Float(Vec<u8>),
    Bool(bool),
    Null,
    Bytes(Vec<u8>),
}

/// One position of a mapping: either a keyed entry or a comment line that
/// precedes the next entry.
#[derive(Debug, PartialEq)]
pub enum MapItem {
    Entry(Vec<u8>, Node),
    Comment(Vec<u8>),
}

/// A node of the document tree.  `Comment` appears as an element of a
/// sequence; inside mappings, comments are carried by [`MapItem::Comment`].
#[derive(Debug, PartialEq)]
pub enum Node {
    Scalar(Scalar),
    Comment(Vec<u8>),
    Sequence(Vec<Node>),
    Mapping(Vec<MapItem>),
}

/// Mathematical model of a [`Scalar`].
pub enum ScalarV {
    Str(Seq<u8>),
    Int(int),
    Float(Seq<u8>),
    Bool(bool),
    Null,
    Bytes(Seq<u8>),
}

/// Mathematical model of a [`MapItem`].
pub enum MapItemV {
    Entry(Seq<u8>, NodeV),
    Comment(Seq<u8>),
}

/// Mathematical model of a [`Node`].
pub enum NodeV {
    Scalar(ScalarV),
    Comment(Seq<u8>),
    Sequence(Seq<NodeV>),
    Mapping(Seq<MapItemV>),
}

impl DeepView for Scalar {
    type V = ScalarV;

    open spec fn deep_view(&self) -> ScalarV {
        match self {
            Scalar::Str(s) => ScalarV::Str(s@),
            Scalar::Int(i) => ScalarV::Int(*i as int),
            Scalar::Float(s) => ScalarV::Float(s@),
            Scalar::Bool(b) => ScalarV::Bool(*b),
            Scalar::Null => ScalarV::Null,
            Scalar::Bytes(s) => ScalarV::Bytes(s@),
        }
    }
}

impl DeepView for MapItem {
    type V = MapItemV;

    open spec fn deep_view(&self) -> MapItemV
        decreases self,
    {
        match self {
            MapItem::Entry(k, n) => MapItemV::Entry(k@, n.deep_view()),
            MapItem::Comment(c) => MapItemV::Comment(c@),
        }
    }
}

impl DeepView for Node {
    type V = NodeV;

    open spec fn deep_view(&self) -> NodeV
        decreases self,
    {
        match self {
            Node::Scalar(s) => NodeV::Scalar(s.deep_view()),
            Node::Comment(c) => NodeV::Comment(c@),
            Node::Sequence(v) => NodeV::Sequence(
                Seq::new(
                    v.len() as nat,
                    |i: int|
                        if 0 <= i < v.len() {
                            v[i].deep_view()
                        } else {
                            NodeV::Comment(Seq::empty())
                        },
                ),
            ),
            Node::Mapping(v) => NodeV::Mapping(
                Seq::new(
                    v.len() as nat,
                    |i: int|
                        if 0 <= i < v.len() {
                            v[i].deep_view()
                        } else {
                            MapItemV::Comment(Seq::empty())
                        },
                ),
            ),
        }
    }
}

/// The key of a mapping item, when it is an entry.
pub open spec fn item_key(it: MapItemV) -> Option<Seq<u8>> {
    match it {
        MapItemV::Entry(k, _) => Some(k),
        MapItemV::Comment(_) => None,
    }
}

/// No two entries of one mapping carry the same key.
pub open spec fn keys_unique(items: Seq<MapItemV>) -> bool {
    forall|i: int, j: int|
        0 <= i < j < items.len() && item_key(#[trigger] items[i]) is Some && item_key(
            #[trigger] items[j],
        ) is Some ==> item_key(items[i]) != item_key(items[j])
}

/// Structural well-formedness: every mapping of the tree has unique keys.
pub open spec fn node_wf(n: NodeV) -> bool
    decreases n,
{
    match n {
        NodeV::Scalar(_) => true,
        NodeV::Comment(_) => true,
        NodeV::Sequence(ch) => elems_wf(ch),
        NodeV::Mapping(items) => keys_unique(items) && items_wf(items),
    }
}

pub open spec fn elems_wf(ch: Seq<NodeV>) -> bool
    decreases ch,
{
    if ch.len() == 0 {
        true
    } else {
        elems_wf(ch.drop_last()) && node_wf(ch.last())
    }
}

pub open spec fn items_wf(items: Seq<MapItemV>) -> bool
    decreases items,
{
    if items.len() == 0 {
        true
    } else {
        items_wf(items.drop_last()) && match items.last() {
            MapItemV::Entry(_, v) => node_wf(v),
            MapItemV::Comment(_) => true,
        }
    }
}

/// Every integer scalar of the tree fits the machine integer type.  This
/// holds of the model of every executable tree.
pub open spec fn node_in_range(n: NodeV) -> bool
    decreases n,
{
    match n {
        NodeV::Scalar(s) => match s {
            ScalarV::Int(i) => i64::MIN <= i <= i64::MAX,
            _ => true,
        },
        NodeV::Comment(_) => true,
        NodeV::Sequence(ch) => elems_in_range(ch),
        NodeV::Mapping(items) => items_in_range(items),
    }
}

pub open spec fn elems_in_range(ch: Seq<NodeV>) -> bool
    decreases ch,
{
    if ch.len() == 0 {
        true
    } else {
        elems_in_range(ch.drop_last()) && node_in_range(ch.last())
    }
}

pub open spec fn items_in_range(items: Seq<MapItemV>) -> bool
    decreases items,
{
    if items.len() == 0 {
        true
    } else {
        items_in_range(items.drop_last()) && match items.last() {
            MapItemV::Entry(_, v) => node_in_range(v),
            MapItemV::Comment(_) => true,
        }
    }
}

/// Copies a byte vector.
pub fn clone_bytes(b: &Vec<u8>) -> (r: Vec<u8>)
    ensures
        r@ == b@,
{
    let mut out: Vec<u8> = Vec::new();
    crate::bytes::push_all(&mut out, b);
    proof {
        assert(out@ =~= b@);
    }
    out
}

impl Scalar {
    /// Copies a scalar.
    pub fn duplicate(&self) -> (r: Scalar)
        ensures
            r.deep_view() == self.deep_view(),
    {
        match self {
            Scalar::Str(t) => Scalar::Str(clone_bytes(t)),
            Scalar::Int(i) => Scalar::Int(*i),
            Scalar::Float(t) => Scalar::Float(clone_bytes(t)),
            Scalar::Bool(b) => Scalar::Bool(*b),
            Scalar::Null => Scalar::Null,
            Scalar::Bytes(b) => Scalar::Bytes(clone_bytes(b)),
        }
    }
}

impl Node {
    /// Copies a tree.
    #[verifier::loop_isolation(false)]
    pub fn duplicate(&self) -> (r: Node)
        ensures
            r.deep_view() == self.deep_view(),
        decreases self,
    {
        match self {
            Node::Scalar(s) => Node::Scalar(s.duplicate()),
            Node::Comment(c) => Node::Comment(clone_bytes(c)),
            Node::Sequence(v) => {
                let mut out: Vec<Node> = Vec::new();
                let mut i: usize = 0;
                while i < v.len()
                    invariant
                        0 <= i <= v@.len(),
                        out@.len() == i,
                        forall|j: int|
                            0 <= j < i ==> (#[trigger] out@[j]).deep_view() == v@[
                                j
                            ].deep_view(),
                    decreases v@.len() - i,
                {
                    out.push(v[i].duplicate());
                    i += 1;
                }
                let r = Node::Sequence(out);
                proof {
                    assert(r.deep_view() matches NodeV::Sequence(s2) && self.deep_view()
                        matches NodeV::Sequence(s1) && s1 =~= s2);
                }
                r
            },
            Node::Mapping(v) => {
                let mut out: Vec<MapItem> = Vec::new();
                let mut i: usize = 0;
                while i < v.len()
                    invariant
                        0 <= i <= v@.len(),
                        out@.len() == i,
                        forall|j: int|
                            0 <= j < i ==> (#[trigger] out@[j]).deep_view() == v@[
                                j
                            ].deep_view(),
                    decreases v@.len() - i,
                {
                    out.push(v[i].duplicate());
                    i += 1;
                }
                let r = Node::Mapping(out);
                proof {
                    assert(r.deep_view() matches NodeV::Mapping(s2) && self.deep_view()
                        matches NodeV::Mapping(s1) && s1 =~= s2);
                }
                r
            },
        }
    }
}

impl MapItem {
    /// Copies a mapping item.
    pub fn duplicate(&self) -> (r: MapItem)
        ensures
            r.deep_view() == self.deep_view(),
        decreases self,
    {
        match self {
            MapItem::Entry(k, v) => MapItem::Entry(clone_bytes(k), v.duplicate()),
            MapItem::Comment(c) => MapItem::Comment(clone_bytes(c)),
        }
    }
}

/// The model of an executable tree always keeps its integers in range.
pub proof fn lemma_deep_view_in_range(n: Node)
    ensures
        node_in_range(n.deep_view()),
    decreases n, 0int,
{
    match n {
        Node::Scalar(_) => {},
        Node::Comment(_) => {},
        Node::Sequence(v) => {
            lemma_elems_deep_view_in_range(v@, v@.len() as int);
            let m = Seq::new(v@.len() as nat, |i: int| if 0 <= i < v@.len() {
                v@[i].deep_view()
            } else {
                NodeV::Comment(Seq::empty())
            });
            match n.deep_view() {
                NodeV::Sequence(ch) => {
                    assert(ch =~= m);
                    assert(elems_in_range(ch));
                },
                _ => {
                    assert(false);
                },
            }
        },
        Node::Mapping(v) => {
            lemma_items_deep_view_in_range(v@, v@.len() as int);
            let m = Seq::new(v@.len() as nat, |i: int| if 0 <= i < v@.len() {
                v@[i].deep_view()
            } else {
                MapItemV::Comment(Seq::empty())
            });
            match n.deep_view() {
                NodeV::Mapping(items) => {
                    assert(items =~= m);
                    assert(items_in_range(items));
                },
                _ => {
                    assert(false);
                },
            }
        },
    }
}

proof fn lemma_elems_deep_view_in_range(v: Seq<Node>, k: int)
    requires
        0 <= k <= v.len(),
    ensures
        elems_in_range(Seq::new(k as nat, |i: int| if 0 <= i < v.len() {
            v[i].deep_view()
        } else {
            NodeV::Comment(Seq::empty())
        })),
    decreases v, k,
{
    let m = Seq::new(k as nat, |i: int| if 0 <= i < v.len() {
        v[i].deep_view()
    } else {
        NodeV::Comment(Seq::empty())
    });
    if k > 0 {
        lemma_elems_deep_view_in_range(v, k - 1);
        assert(m.drop_last() =~= Seq::new((k - 1) as nat, |i: int| if 0 <= i < v.len() {
            v[i].deep_view()
        } else {
            NodeV::Comment(Seq::empty())
        }));
        lemma_deep_view_in_range(v[k - 1]);
        assert(m.last() == v[k - 1].deep_view());
    }
}

proof fn lemma_items_deep_view_in_range(v: Seq<MapItem>, k: int)
    requires
        0 <= k <= v.len(),
    ensures
        items_in_range(Seq::new(k as nat, |i: int| if 0 <= i < v.len() {
            v[i].deep_view()
        } else {
            MapItemV::Comment(Seq::empty())
        })),
    decreases v, k,
{
    let m = Seq::new(k as nat, |i: int| if 0 <= i < v.len() {
        v[i].deep_view()
    } else {
        MapItemV::Comment(Seq::empty())
    });
    if k > 0 {
        lemma_items_deep_view_in_range(v, k - 1);
        assert(m.drop_last() =~= Seq::new((k - 1) as nat, |i: int| if 0 <= i < v.len() {
            v[i].deep_view()
        } else {
            MapItemV::Comment(Seq::empty())
        }));
        match v[k - 1] {
            MapItem::Entry(_, val) => {
                lemma_deep_view_in_range(val);
                assert(m.last() == v[k - 1].deep_view());
            },
            MapItem::Comment(_) => {
                assert(m.last() == v[k - 1].deep_view());
            },
        }
    }
}

} // verus!
