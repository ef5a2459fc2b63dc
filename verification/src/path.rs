//! Path-addressed subtree operations: `set` replaces or creates the subtree
//! at a path of mapping keys and sequence indices, `extract` reads it.

use vstd::prelude::*;
use crate::tree::{Node, NodeV, MapItem, MapItemV, clone_bytes};
use crate::bytes::bytes_eq;
use crate::error::Error;

verus! {

broadcast use vstd::std_specs::vec::axiom_vec_index_decreases, vstd::std_specs::vec::axiom_vec_decreases_to_view, vstd::seq::axiom_seq_index_decreases, vstd::seq::axiom_seq_subrange_decreases;

/// One selector of a path: a mapping key or a sequence position.
#[derive(Debug)]
pub enum PathSeg {
    Key(Vec<u8>),
    Idx(usize),
}

/// Ghost selector.
pub enum PathSegV {
    Key(Seq<u8>),
    Idx(int),
}

impl View for PathSeg {
    type V = PathSegV;

    open spec fn view(&self) -> PathSegV {
        match self {
            PathSeg::Key(k) => PathSegV::Key(k@),
            PathSeg::Idx(i) => PathSegV::Idx(*i as int),
        }
    }
}

pub open spec fn segs_view(p: Seq<PathSeg>) -> Seq<PathSegV> {
    Seq::new(p.len(), |i: int| p[i]@)
}

/// The position of the entry with key `k`, or `-1`.
pub open spec fn key_index(items: Seq<MapItemV>, k: Seq<u8>) -> int
    decreases items.len(),
{
    if items.len() == 0 {
        -1
    } else if items[0] matches MapItemV::Entry(k0, _) && k0 == k {
        0
    } else {
        let r = key_index(items.skip(1), k);
        if r < 0 {
            -1
        } else {
            r + 1
        }
    }
}

/// The subtree at `path`, if the path resolves.
pub open spec fn get_at(n: NodeV, path: Seq<PathSegV>) -> Option<NodeV>
    decreases path.len(),
{
    if path.len() == 0 {
        Some(n)
    } else {
        match path[0] {
            PathSegV::Key(k) => match n {
                NodeV::Mapping(items) => {
                    let j = key_index(items, k);
                    if j < 0 {
                        None
                    } else {
                        match items[j] {
                            MapItemV::Entry(_, v) => get_at(v, path.skip(1)),
                            MapItemV::Comment(_) => None,
                        }
                    }
                },
                _ => None,
            },
            PathSegV::Idx(i) => match n {
                NodeV::Sequence(ch) => if 0 <= i < ch.len() {
                    get_at(ch[i], path.skip(1))
                } else {
                    None
                },
                _ => None,
            },
        }
    }
}

/// The fresh structure created for the unresolved remainder of a path: a
/// mapping for a key selector, a sequence for an index selector, the value
/// itself at the end.
pub open spec fn create_at(path: Seq<PathSegV>, v: NodeV) -> Option<NodeV>
    decreases path.len(),
{
    if path.len() == 0 {
        Some(v)
    } else {
        match path[0] {
            PathSegV::Key(k) => match create_at(path.skip(1), v) {
                Some(c) => Some(NodeV::Mapping(seq![MapItemV::Entry(k, c)])),
                None => None,
            },
            PathSegV::Idx(i) => if i == 0 {
                match create_at(path.skip(1), v) {
                    Some(c) => Some(NodeV::Sequence(seq![c])),
                    None => None,
                }
            } else {
                None
            },
        }
    }
}

/// The tree with the subtree at `path` replaced by `v`, existing entries
/// replaced in place and missing ones created (a new mapping entry, or an
/// appended sequence element).  `None` exactly when the path cannot resolve
/// meaningfully.
pub open spec fn set_at(n: NodeV, path: Seq<PathSegV>, v: NodeV) -> Option<NodeV>
    decreases path.len(),
{
    if path.len() == 0 {
        Some(v)
    } else {
        match path[0] {
            PathSegV::Key(k) => match n {
                NodeV::Mapping(items) => {
                    let j = key_index(items, k);
                    if j < 0 {
                        match create_at(path.skip(1), v) {
                            Some(c) => Some(
                                NodeV::Mapping(items.push(MapItemV::Entry(k, c))),
                            ),
                            None => None,
                        }
                    } else {
                        match items[j] {
                            MapItemV::Entry(k0, old) => match set_at(old, path.skip(1), v) {
                                Some(nv) => Some(
                                    NodeV::Mapping(
                                        items.update(j, MapItemV::Entry(k0, nv)),
                                    ),
                                ),
                                None => None,
                            },
                            MapItemV::Comment(_) => None,
                        }
                    }
                },
                _ => None,
            },
            PathSegV::Idx(i) => match n {
                NodeV::Sequence(ch) => if 0 <= i < ch.len() {
                    match set_at(ch[i], path.skip(1), v) {
                        Some(nv) => Some(NodeV::Sequence(ch.update(i, nv))),
                        None => None,
                    }
                } else if i == ch.len() {
                    match create_at(path.skip(1), v) {
                        Some(c) => Some(NodeV::Sequence(ch.push(c))),
                        None => None,
                    }
                } else {
                    None
                },
                _ => None,
            },
        }
    }
}

/// Finds the entry with key `k`.
pub fn key_index_exec(items: &Vec<MapItem>, k: &Vec<u8>) -> (r: Option<usize>)
    ensures
        r matches Some(j) ==> 0 <= j < items@.len() && key_index(items_view(items@), k@)
            == j,
        r is None ==> key_index(items_view(items@), k@) == -1,
{
    let ghost iv = items_view(items@);
    let mut i: usize = 0;
    proof {
        assert(iv.skip(0) =~= iv);
    }
    while i < items.len()
        invariant
            0 <= i <= items@.len(),
            iv == items_view(items@),
            key_index(iv, k@) >= 0 ==> key_index(iv, k@) >= i && key_index(iv, k@)
                == key_index(iv.skip(i as int), k@) + i,
            key_index(iv, k@) < 0 ==> key_index(iv.skip(i as int), k@) < 0,
        decreases items@.len() - i,
    {
        proof {
            assert(iv.skip(i as int)[0] == iv[i as int]);
            assert(iv.skip(i as int).skip(1) =~= iv.skip(i + 1));
        }
        match &items[i] {
            MapItem::Entry(k0, _) => {
                if bytes_eq(k0, k) {
                    proof {
                        assert(key_index(iv.skip(i as int), k@) == 0);
                    }
                    return Some(i);
                }
            },
            MapItem::Comment(_) => {},
        }
        i += 1;
    }
    proof {
        assert(iv.skip(items@.len() as int).len() == 0);
    }
    None
}

/// A found key position holds an entry with that key.
pub proof fn lemma_key_index_entry(items: Seq<MapItemV>, k: Seq<u8>)
    requires
        key_index(items, k) >= 0,
    ensures
        0 <= key_index(items, k) < items.len(),
        items[key_index(items, k)] matches MapItemV::Entry(k0, _) && k0 == k,
    decreases items.len(),
{
    if items.len() > 0 {
        if items[0] matches MapItemV::Entry(k0, _) && k0 == k {
        } else {
            lemma_key_index_entry(items.skip(1), k);
            assert(items[key_index(items, k)] == items.skip(1)[key_index(items.skip(1), k)]);
        }
    }
}

/// An absent key matches no entry.
pub proof fn lemma_key_index_absent(items: Seq<MapItemV>, k: Seq<u8>)
    requires
        key_index(items, k) < 0,
    ensures
        forall|i: int|
            0 <= i < items.len() ==> crate::tree::item_key(#[trigger] items[i]) != Some(k),
    decreases items.len(),
{
    if items.len() > 0 {
        lemma_key_index_absent(items.skip(1), k);
        assert forall|i: int| 0 <= i < items.len() implies crate::tree::item_key(#[trigger] items[i])
            != Some(k) by {
            if i > 0 {
                assert(items.skip(1)[i - 1] == items[i]);
            }
        }
    }
}

/// Appending an entry with a fresh key puts it where lookup finds it.
pub proof fn lemma_key_index_push(items: Seq<MapItemV>, k: Seq<u8>, v: NodeV)
    requires
        forall|i: int|
            0 <= i < items.len() ==> crate::tree::item_key(#[trigger] items[i]) != Some(k),
    ensures
        key_index(items.push(MapItemV::Entry(k, v)), k) == items.len(),
    decreases items.len(),
{
    let new = items.push(MapItemV::Entry(k, v));
    if items.len() == 0 {
        assert(new[0] == MapItemV::Entry(k, v));
    } else {
        assert(crate::tree::item_key(items[0]) != Some(k));
        assert(new[0] == items[0]);
        assert forall|i: int|
            0 <= i < items.skip(1).len() implies crate::tree::item_key(
            #[trigger] items.skip(1)[i],
        ) != Some(k) by {
            assert(items.skip(1)[i] == items[i + 1]);
        }
        lemma_key_index_push(items.skip(1), k, v);
        assert(new.skip(1) =~= items.skip(1).push(MapItemV::Entry(k, v)));
    }
}

/// Item sequence view.
pub open spec fn items_view(items: Seq<MapItem>) -> Seq<MapItemV> {
    Seq::new(items.len(), |i: int| items[i].deep_view())
}

/// Reads the subtree at `path`; fails exactly where the ghost [`get_at`]
/// does.
#[verifier::loop_isolation(false)]
pub fn extract_at(n: &Node, path: &Vec<PathSeg>, from: usize) -> (r: Result<Node, Error>)
    requires
        from <= path@.len(),
    ensures
        (r is Ok) == (get_at(n.deep_view(), segs_view(path@).skip(from as int)) is Some),
        r matches Ok(s) ==> get_at(n.deep_view(), segs_view(path@).skip(from as int)) == Some(
            s.deep_view(),
        ),
        r matches Err(e) ==> e == Error::PathError,
    decreases path@.len() - from,
{
    let ghost p = segs_view(path@).skip(from as int);
    if from == path.len() {
        proof {
            assert(p.len() == 0);
        }
        return Ok(n.duplicate());
    }
    proof {
        assert(p[0] == path@[from as int]@);
        assert(p.skip(1) =~= segs_view(path@).skip(from + 1));
    }
    match &path[from] {
        PathSeg::Key(k) => {
            match n {
                Node::Mapping(items) => {
                    proof {
                        assert(n.deep_view() matches NodeV::Mapping(iv) && iv =~= items_view(
                            items@,
                        ));
                    }
                    match key_index_exec(items, k) {
                        Some(j) => {
                            match &items[j] {
                                MapItem::Entry(_, v) => extract_at(v, path, from + 1),
                                MapItem::Comment(_) => Err(Error::PathError),
                            }
                        },
                        None => Err(Error::PathError),
                    }
                },
                _ => Err(Error::PathError),
            }
        },
        PathSeg::Idx(i) => {
            match n {
                Node::Sequence(ch) => {
                    proof {
                        assert(n.deep_view() matches NodeV::Sequence(cv) && cv.len()
                            == ch@.len() && (forall|q: int|
                            0 <= q < ch@.len() ==> cv[q] == ch@[q].deep_view()));
                    }
                    if *i < ch.len() {
                        extract_at(&ch[*i], path, from + 1)
                    } else {
                        Err(Error::PathError)
                    }
                },
                _ => Err(Error::PathError),
            }
        },
    }
}

pub fn copy_items_range(out: &mut Vec<MapItem>, items: &Vec<MapItem>, from: usize, to: usize)
    requires
        from <= to <= items@.len(),
    ensures
        final(out)@.len() == old(out)@.len() + (to - from),
        forall|t: int| 0 <= t < old(out)@.len() ==> final(out)@[t] == old(out)@[t],
        forall|t: int|
            old(out)@.len() <= t < final(out)@.len()
                ==> (#[trigger] final(out)@[t]).deep_view()
                == items@[from + (t - old(out)@.len())].deep_view(),
{
    let mut q: usize = from;
    while q < to
        invariant
            from <= q <= to <= items@.len(),
            out@.len() == old(out)@.len() + (q - from),
            forall|t: int| 0 <= t < old(out)@.len() ==> out@[t] == old(out)@[t],
            forall|t: int|
                old(out)@.len() <= t < out@.len() ==> (#[trigger] out@[t]).deep_view()
                    == items@[from + (t - old(out)@.len())].deep_view(),
        decreases to - q,
    {
        out.push(items[q].duplicate());
        q += 1;
    }
}

pub fn copy_nodes_range(out: &mut Vec<Node>, nodes: &Vec<Node>, from: usize, to: usize)
    requires
        from <= to <= nodes@.len(),
    ensures
        final(out)@.len() == old(out)@.len() + (to - from),
        forall|t: int| 0 <= t < old(out)@.len() ==> final(out)@[t] == old(out)@[t],
        forall|t: int|
            old(out)@.len() <= t < final(out)@.len()
                ==> (#[trigger] final(out)@[t]).deep_view()
                == nodes@[from + (t - old(out)@.len())].deep_view(),
{
    let mut q: usize = from;
    while q < to
        invariant
            from <= q <= to <= nodes@.len(),
            out@.len() == old(out)@.len() + (q - from),
            forall|t: int| 0 <= t < old(out)@.len() ==> out@[t] == old(out)@[t],
            forall|t: int|
                old(out)@.len() <= t < out@.len() ==> (#[trigger] out@[t]).deep_view()
                    == nodes@[from + (t - old(out)@.len())].deep_view(),
        decreases to - q,
    {
        out.push(nodes[q].duplicate());
        q += 1;
    }
}

/// Builds the fresh structure for the unresolved remainder of a path;
/// fails exactly where the ghost [`create_at`] does.
#[verifier::loop_isolation(false)]
pub fn create_at_exec(path: &Vec<PathSeg>, from: usize, v: &Node) -> (r: Result<Node, Error>)
    requires
        from <= path@.len(),
    ensures
        (r is Ok) == (create_at(segs_view(path@).skip(from as int), v.deep_view()) is Some),
        r matches Ok(s) ==> create_at(segs_view(path@).skip(from as int), v.deep_view())
            == Some(s.deep_view()),
        r matches Err(e) ==> e == Error::PathError,
    decreases path@.len() - from,
{
    let ghost p = segs_view(path@).skip(from as int);
    if from == path.len() {
        proof {
            assert(p.len() == 0);
        }
        return Ok(v.duplicate());
    }
    proof {
        assert(p[0] == path@[from as int]@);
        assert(p.skip(1) =~= segs_view(path@).skip(from + 1));
    }
    match &path[from] {
        PathSeg::Key(k) => {
            let c = match create_at_exec(path, from + 1, v) {
                Ok(c) => c,
                Err(e) => {
                    return Err(e);
                },
            };
            let mut items: Vec<MapItem> = Vec::new();
            let ck = clone_bytes(k);
            let ghost ckv = ck@;
            let ghost cdv = c.deep_view();
            let it = MapItem::Entry(ck, c);
            proof {
                assert(it.deep_view() == MapItemV::Entry(ckv, cdv));
            }
            items.push(it);
            let r = Node::Mapping(items);
            proof {
                let cv = create_at(p.skip(1), v.deep_view()).unwrap();
                assert(cv == cdv);
                assert(r.deep_view() matches NodeV::Mapping(iv2) && iv2 =~= seq![
                    MapItemV::Entry(k@, cv),
                ]);
            }
            Ok(r)
        },
        PathSeg::Idx(i) => {
            if *i != 0 {
                return Err(Error::PathError);
            }
            let c = match create_at_exec(path, from + 1, v) {
                Ok(c) => c,
                Err(e) => {
                    return Err(e);
                },
            };
            let mut ch: Vec<Node> = Vec::new();
            ch.push(c);
            let r = Node::Sequence(ch);
            proof {
                let cv = create_at(p.skip(1), v.deep_view()).unwrap();
                assert(r.deep_view() matches NodeV::Sequence(iv) && iv =~= seq![cv]);
            }
            Ok(r)
        },
    }
}

/// Replaces or creates the subtree at `path`; succeeds and fails exactly
/// where the ghost [`set_at`] does, and then returns exactly its tree.
#[verifier::loop_isolation(false)]
#[verifier::rlimit(60)]
pub fn set_at_exec(n: &Node, path: &Vec<PathSeg>, from: usize, v: &Node) -> (r: Result<
    Node,
    Error,
>)
    requires
        from <= path@.len(),
    ensures
        (r is Ok) == (set_at(n.deep_view(), segs_view(path@).skip(from as int), v.deep_view())
            is Some),
        r matches Ok(s) ==> set_at(
            n.deep_view(),
            segs_view(path@).skip(from as int),
            v.deep_view(),
        ) == Some(s.deep_view()),
        r matches Err(e) ==> e == Error::PathError,
    decreases path@.len() - from,
{
    let ghost p = segs_view(path@).skip(from as int);
    if from == path.len() {
        proof {
            assert(p.len() == 0);
        }
        return Ok(v.duplicate());
    }
    proof {
        assert(p[0] == path@[from as int]@);
        assert(p.skip(1) =~= segs_view(path@).skip(from + 1));
    }
    match &path[from] {
        PathSeg::Key(k) => {
            match n {
                Node::Mapping(items) => {
                    let ghost iv = items_view(items@);
                    proof {
                        assert(n.deep_view() matches NodeV::Mapping(iv2) && iv2 =~= iv);
                    }
                    match key_index_exec(items, k) {
                        Some(j) => {
                            match &items[j] {
                                MapItem::Entry(k0, old_v) => {
                                    let nv = match set_at_exec(old_v, path, from + 1, v) {
                                        Ok(nv) => nv,
                                        Err(e) => {
                                            return Err(e);
                                        },
                                    };
                                    let mut out: Vec<MapItem> = Vec::new();
                                    copy_items_range(&mut out, items, 0, j);
                                    let ck = clone_bytes(k0);
                                    let ghost ckv = ck@;
                                    let ghost ndv = nv.deep_view();
                                    let it = MapItem::Entry(ck, nv);
                                    proof {
                                        assert(it.deep_view() == MapItemV::Entry(ckv, ndv));
                                    }
                                    out.push(it);
                                    copy_items_range(&mut out, items, j + 1, items.len());
                                    let r = Node::Mapping(out);
                                    proof {
                                        let rec = set_at(
                                            old_v.deep_view(),
                                            p.skip(1),
                                            v.deep_view(),
                                        ).unwrap();
                                        assert(rec == ndv);
                                        assert(r.deep_view() matches NodeV::Mapping(ov)
                                            && ov =~= iv.update(
                                            j as int,
                                            MapItemV::Entry(k0@, rec),
                                        ));
                                    }
                                    Ok(r)
                                },
                                MapItem::Comment(_) => Err(Error::PathError),
                            }
                        },
                        None => {
                            let c = match create_at_exec(path, from + 1, v) {
                                Ok(c) => c,
                                Err(e) => {
                                    return Err(e);
                                },
                            };
                            let mut out: Vec<MapItem> = Vec::new();
                            copy_items_range(&mut out, items, 0, items.len());
                            let ck = clone_bytes(k);
                            let ghost ckv = ck@;
                            let ghost cdv = c.deep_view();
                            let it = MapItem::Entry(ck, c);
                            proof {
                                assert(it.deep_view() == MapItemV::Entry(ckv, cdv));
                            }
                            out.push(it);
                            let r = Node::Mapping(out);
                            proof {
                                let cv2 = create_at(p.skip(1), v.deep_view()).unwrap();
                                assert(cv2 == cdv);
                                assert(r.deep_view() matches NodeV::Mapping(ov) && ov
                                    =~= iv.push(MapItemV::Entry(k@, cv2)));
                            }
                            Ok(r)
                        },
                    }
                },
                _ => Err(Error::PathError),
            }
        },
        PathSeg::Idx(i) => {
            match n {
                Node::Sequence(ch) => {
                    let ghost cv = match n.deep_view() {
                        NodeV::Sequence(c) => c,
                        _ => Seq::empty(),
                    };
                    proof {
                        assert(cv.len() == ch@.len());
                        assert(forall|q: int|
                            0 <= q < ch@.len() ==> cv[q] == ch@[q].deep_view());
                    }
                    if *i < ch.len() {
                        let nv = match set_at_exec(&ch[*i], path, from + 1, v) {
                            Ok(nv) => nv,
                            Err(e) => {
                                return Err(e);
                            },
                        };
                        let mut out: Vec<Node> = Vec::new();
                        copy_nodes_range(&mut out, ch, 0, *i);
                        let ghost ndv = nv.deep_view();
                        out.push(nv);
                        copy_nodes_range(&mut out, ch, *i + 1, ch.len());
                        let r = Node::Sequence(out);
                        proof {
                            let rec = set_at(
                                ch@[*i as int].deep_view(),
                                p.skip(1),
                                v.deep_view(),
                            ).unwrap();
                            assert(rec == ndv);
                            assert(r.deep_view() matches NodeV::Sequence(ov) && ov
                                =~= cv.update(*i as int, rec));
                        }
                        Ok(r)
                    } else if *i == ch.len() {
                        let c = match create_at_exec(path, from + 1, v) {
                            Ok(c) => c,
                            Err(e) => {
                                return Err(e);
                            },
                        };
                        let mut out: Vec<Node> = Vec::new();
                        copy_nodes_range(&mut out, ch, 0, ch.len());
                        let ghost cdv = c.deep_view();
                        out.push(c);
                        let r = Node::Sequence(out);
                        proof {
                            let cc = create_at(p.skip(1), v.deep_view()).unwrap();
                            assert(cc == cdv);
                            assert(r.deep_view() matches NodeV::Sequence(ov) && ov
                                =~= cv.push(cc));
                        }
                        Ok(r)
                    } else {
                        Err(Error::PathError)
                    }
                },
                _ => Err(Error::PathError),
            }
        },
    }
}

} // verus!
