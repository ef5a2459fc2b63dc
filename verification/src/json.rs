//! The JSON adapter: serializes a document tree to JSON text and parses
//! JSON text back into a tree.  Comments have no JSON form and are skipped
//! on output; binary scalars are written as base64 strings.

use vstd::prelude::*;
use crate::tree::{Node, NodeV, Scalar, ScalarV, MapItem, MapItemV, node_wf, keys_unique};
use crate::num::{dec_text, push_dec_i64, parse_i64};
use crate::b64::{b64_enc, b64_encode};
use crate::value::{bool_text, null_text};
use crate::bytes::{push_all, push_range};
use crate::error::Error;
use crate::path::items_view;

verus! {

broadcast use vstd::std_specs::vec::axiom_vec_index_decreases, vstd::std_specs::vec::axiom_vec_decreases_to_view, vstd::seq::axiom_seq_index_decreases, vstd::seq::axiom_seq_subrange_decreases;

/// A lowercase hexadecimal digit.
pub open spec fn hex_digit(n: u8) -> u8 {
    if n < 10 {
        (48 + n) as u8
    } else {
        (87 + n) as u8
    }
}

/// The JSON escape of one text byte.
pub open spec fn esc_byte(c: u8) -> Seq<u8> {
    if c == 34 {
        seq![92u8, 34u8]
    } else if c == 92 {
        seq![92u8, 92u8]
    } else if c == 10 {
        seq![92u8, 110u8]
    } else if c == 13 {
        seq![92u8, 114u8]
    } else if c == 9 {
        seq![92u8, 116u8]
    } else if c < 32 {
        seq![92u8, 117u8, 48u8, 48u8, hex_digit(c / 16), hex_digit(c % 16)]
    } else {
        seq![c]
    }
}

/// The JSON escape of a text.
pub open spec fn json_escape(s: Seq<u8>) -> Seq<u8>
    decreases s.len(),
{
    if s.len() == 0 {
        Seq::empty()
    } else {
        esc_byte(s[0]) + json_escape(s.skip(1))
    }
}

/// The JSON text of a tree.  Comment nodes produce nothing.
pub open spec fn json_node(n: NodeV) -> Seq<u8>
    decreases n,
{
    match n {
        NodeV::Scalar(s) => match s {
            ScalarV::Str(t) => seq![34u8] + json_escape(t) + seq![34u8],
            ScalarV::Int(i) => dec_text(i),
            ScalarV::Float(t) => t,
            ScalarV::Bool(b) => bool_text(b),
            ScalarV::Null => null_text(),
            ScalarV::Bytes(b) => seq![34u8] + b64_enc(b) + seq![34u8],
        },
        NodeV::Comment(_) => Seq::empty(),
        NodeV::Sequence(ch) => seq![91u8] + json_elems(ch, true) + seq![93u8],
        NodeV::Mapping(items) => seq![123u8] + json_items(items, true) + seq![125u8],
    }
}

pub open spec fn json_elems(ch: Seq<NodeV>, first: bool) -> Seq<u8>
    decreases ch,
{
    if ch.len() == 0 {
        Seq::empty()
    } else {
        match ch[0] {
            NodeV::Comment(_) => json_elems(ch.skip(1), first),
            _ => (if first {
                Seq::<u8>::empty()
            } else {
                seq![44u8, 32u8]
            }) + json_node(ch[0]) + json_elems(ch.skip(1), false),
        }
    }
}

pub open spec fn json_items(items: Seq<MapItemV>, first: bool) -> Seq<u8>
    decreases items,
{
    if items.len() == 0 {
        Seq::empty()
    } else {
        match items[0] {
            MapItemV::Comment(_) => json_items(items.skip(1), first),
            MapItemV::Entry(k, v) => (if first {
                Seq::<u8>::empty()
            } else {
                seq![44u8, 32u8]
            }) + seq![34u8] + json_escape(k) + seq![34u8, 58u8, 32u8] + json_node(v)
                + json_items(items.skip(1), false),
        }
    }
}

fn hex_digit_of(n: u8) -> (r: u8)
    requires
        n < 16,
    ensures
        r == hex_digit(n),
{
    if n < 10 {
        48 + n
    } else {
        87 + n
    }
}

fn push_escaped(out: &mut Vec<u8>, s: &Vec<u8>)
    ensures
        final(out)@ == old(out)@ + json_escape(s@),
{
    let mut i: usize = 0;
    proof {
        assert(s@.skip(0) =~= s@);
    }
    while i < s.len()
        invariant
            0 <= i <= s@.len(),
            out@ + json_escape(s@.skip(i as int)) == old(out)@ + json_escape(s@),
        decreases s@.len() - i,
    {
        let ghost pre = out@;
        let c = s[i];
        proof {
            assert(s@.skip(i as int)[0] == c);
            assert(s@.skip(i as int).skip(1) =~= s@.skip(i + 1));
        }
        if c == 34 {
            out.push(92);
            out.push(34);
        } else if c == 92 {
            out.push(92);
            out.push(92);
        } else if c == 10 {
            out.push(92);
            out.push(110);
        } else if c == 13 {
            out.push(92);
            out.push(114);
        } else if c == 9 {
            out.push(92);
            out.push(116);
        } else if c < 32 {
            out.push(92);
            out.push(117);
            out.push(48);
            out.push(48);
            out.push(hex_digit_of(c / 16));
            out.push(hex_digit_of(c % 16));
        } else {
            out.push(c);
        }
        proof {
            assert(out@ =~= pre + esc_byte(c));
            assert(pre + esc_byte(c) + json_escape(s@.skip(i + 1)) =~= pre + (esc_byte(c)
                + json_escape(s@.skip(i + 1))));
        }
        i += 1;
    }
    proof {
        assert(json_escape(s@.skip(s@.len() as int)) =~= Seq::<u8>::empty());
        assert(out@ + Seq::<u8>::empty() =~= out@);
        assert(old(out)@ + json_escape(s@) =~= out@);
    }
}

/// Writes the JSON text of a tree onto `out`.
#[verifier::loop_isolation(false)]
#[verifier::rlimit(100)]
pub fn write_json(n: &Node, out: &mut Vec<u8>)
    ensures
        final(out)@ == old(out)@ + json_node(n.deep_view()),
    decreases n,
{
    match n {
        Node::Scalar(s) => {
            match s {
                Scalar::Str(t) => {
                    out.push(34);
                    push_escaped(out, t);
                    out.push(34);
                    proof {
                        assert(out@ =~= old(out)@ + json_node(n.deep_view()));
                    }
                },
                Scalar::Int(i) => {
                    push_dec_i64(out, *i);
                },
                Scalar::Float(t) => {
                    push_all(out, t);
                },
                Scalar::Bool(b) => {
                    if *b {
                        out.push(116);
                        out.push(114);
                        out.push(117);
                        out.push(101);
                    } else {
                        out.push(102);
                        out.push(97);
                        out.push(108);
                        out.push(115);
                        out.push(101);
                    }
                    proof {
                        assert(out@ =~= old(out)@ + json_node(n.deep_view()));
                    }
                },
                Scalar::Null => {
                    out.push(110);
                    out.push(117);
                    out.push(108);
                    out.push(108);
                    proof {
                        assert(out@ =~= old(out)@ + json_node(n.deep_view()));
                    }
                },
                Scalar::Bytes(b) => {
                    out.push(34);
                    let e = b64_encode(b);
                    push_all(out, &e);
                    out.push(34);
                    proof {
                        assert(out@ =~= old(out)@ + json_node(n.deep_view()));
                    }
                },
            }
        },
        Node::Comment(_) => {
            proof {
                assert(out@ =~= old(out)@ + json_node(n.deep_view()));
            }
        },
        Node::Sequence(v) => {
            let ghost pch = match n.deep_view() {
                NodeV::Sequence(c) => c,
                _ => Seq::empty(),
            };
            proof {
                assert(pch.len() == v@.len());
                assert(forall|q: int| 0 <= q < v@.len() ==> pch[q] == v@[q].deep_view());
            }
            out.push(91);
            let mut first = true;
            let mut i: usize = 0;
            proof {
                assert(pch.skip(0) =~= pch);
                assert(out@ =~= old(out)@ + seq![91u8]);
            }
            while i < v.len()
                invariant
                    0 <= i <= v@.len(),
                    out@ + json_elems(pch.skip(i as int), first) == old(out)@ + seq![91u8]
                        + json_elems(pch, true),
                decreases v@.len() - i,
            {
                let ghost pre = out@;
                proof {
                    assert(pch.skip(i as int)[0] == pch[i as int]);
                    assert(pch.skip(i as int).skip(1) =~= pch.skip(i + 1));
                }
                match &v[i] {
                    Node::Comment(_) => {},
                    _ => {
                        if !first {
                            out.push(44);
                            out.push(32);
                        }
                        write_json(&v[i], out);
                        proof {
                            if first {
                                assert(out@ =~= pre + json_node(pch[i as int]));
                            } else {
                                assert(out@ =~= pre + (seq![44u8, 32u8] + json_node(
                                    pch[i as int],
                                )));
                            }
                        }
                        first = false;
                    },
                }
                i += 1;
            }
            out.push(93);
            proof {
                assert(json_elems(pch.skip(v@.len() as int), first) =~= Seq::<u8>::empty());
                assert(out@ =~= old(out)@ + json_node(n.deep_view()));
            }
        },
        Node::Mapping(v) => {
            let ghost pit = match n.deep_view() {
                NodeV::Mapping(c) => c,
                _ => Seq::empty(),
            };
            proof {
                assert(pit.len() == v@.len());
                assert(forall|q: int| 0 <= q < v@.len() ==> pit[q] == v@[q].deep_view());
            }
            out.push(123);
            let mut first = true;
            let mut i: usize = 0;
            proof {
                assert(pit.skip(0) =~= pit);
                assert(out@ =~= old(out)@ + seq![123u8]);
            }
            while i < v.len()
                invariant
                    0 <= i <= v@.len(),
                    out@ + json_items(pit.skip(i as int), first) == old(out)@ + seq![123u8]
                        + json_items(pit, true),
                decreases v@.len() - i,
            {
                let ghost pre = out@;
                proof {
                    assert(pit.skip(i as int)[0] == pit[i as int]);
                    assert(pit.skip(i as int).skip(1) =~= pit.skip(i + 1));
                }
                match &v[i] {
                    MapItem::Comment(_) => {},
                    MapItem::Entry(k, val) => {
                        if !first {
                            out.push(44);
                            out.push(32);
                        }
                        out.push(34);
                        push_escaped(out, k);
                        out.push(34);
                        out.push(58);
                        out.push(32);
                        write_json(val, out);
                        proof {
                            let piece = seq![34u8] + json_escape(k@) + seq![
                                34u8, 58u8, 32u8,
                            ] + json_node(val.deep_view());
                            if first {
                                assert(out@ =~= pre + piece);
                            } else {
                                assert(out@ =~= pre + (seq![44u8, 32u8] + piece));
                            }
                        }
                        first = false;
                    },
                }
                i += 1;
            }
            out.push(125);
            proof {
                assert(json_items(pit.skip(v@.len() as int), first) =~= Seq::<u8>::empty());
                assert(out@ =~= old(out)@ + json_node(n.deep_view()));
            }
        },
    }
}

/// Serializes a tree as JSON text.
pub fn to_json(n: &Node) -> (r: Vec<u8>)
    ensures
        r@ == json_node(n.deep_view()),
{
    let mut out: Vec<u8> = Vec::new();
    write_json(n, &mut out);
    out
}

/// Node sequence view.
pub open spec fn nodes_view(v: Seq<Node>) -> Seq<NodeV> {
    Seq::new(v.len(), |i: int| v[i].deep_view())
}

/// Is this byte JSON whitespace?
pub open spec fn is_ws(c: u8) -> bool {
    c == 32 || c == 9 || c == 10 || c == 13
}

/// First position at or after `pos` that holds no whitespace.
pub open spec fn ws_end(s: Seq<u8>, pos: int) -> int
    decreases s.len() - pos,
{
    if pos < 0 || pos >= s.len() {
        pos
    } else if is_ws(s[pos]) {
        ws_end(s, pos + 1)
    } else {
        pos
    }
}

/// The value of a hexadecimal digit.
pub open spec fn hex_v(c: u8) -> Option<u8> {
    if 48 <= c <= 57 {
        Some((c - 48) as u8)
    } else if 97 <= c <= 102 {
        Some((c - 87) as u8)
    } else if 65 <= c <= 70 {
        Some((c - 55) as u8)
    } else {
        None
    }
}

/// The code point of a `\u` escape.
pub open spec fn cp_of(h0: u8, h1: u8, h2: u8, h3: u8) -> u32 {
    ((h0 as u32) << 12) | ((h1 as u32) << 8) | ((h2 as u32) << 4) | (h3 as u32)
}

/// The UTF-8 bytes of a basic-plane code point.
pub open spec fn utf8_of(cp: u32) -> Seq<u8> {
    if cp < 0x80 {
        seq![cp as u8]
    } else if cp < 0x800 {
        seq![(0xc0 | (cp >> 6)) as u8, (0x80 | (cp & 0x3f)) as u8]
    } else {
        seq![
            (0xe0 | (cp >> 12)) as u8,
            (0x80 | ((cp >> 6) & 0x3f)) as u8,
            (0x80 | (cp & 0x3f)) as u8,
        ]
    }
}

/// The unescaped byte of a one-character escape, if it is one.
pub open spec fn esc_of(e: u8) -> Option<u8> {
    if e == 34 {
        Some(34u8)
    } else if e == 92 {
        Some(92u8)
    } else if e == 47 {
        Some(47u8)
    } else if e == 110 {
        Some(10u8)
    } else if e == 114 {
        Some(13u8)
    } else if e == 116 {
        Some(9u8)
    } else if e == 98 {
        Some(8u8)
    } else if e == 102 {
        Some(12u8)
    } else {
        None
    }
}

/// Reads a JSON string body from just after the opening quote: the
/// unescaped bytes and the position past the closing quote.
pub open spec fn str_body(s: Seq<u8>, pos: int) -> Option<(Seq<u8>, int)>
    decreases s.len() - pos,
{
    if pos < 0 || pos >= s.len() {
        None
    } else {
        let c = s[pos];
        if c == 34 {
            Some((Seq::empty(), pos + 1))
        } else if c == 92 {
            if pos + 1 >= s.len() {
                None
            } else {
                let e = s[pos + 1];
                if e == 117 {
                    if s.len() - (pos + 1) < 5 {
                        None
                    } else {
                        match (hex_v(s[pos + 2]), hex_v(s[pos + 3]), hex_v(s[pos + 4]), hex_v(
                            s[pos + 5],
                        )) {
                            (Some(h0), Some(h1), Some(h2), Some(h3)) => {
                                match str_body(s, pos + 6) {
                                    Some(p) => Some(
                                        (utf8_of(cp_of(h0, h1, h2, h3)) + p.0, p.1),
                                    ),
                                    None => None,
                                }
                            },
                            _ => None,
                        }
                    }
                } else {
                    match esc_of(e) {
                        Some(b) => match str_body(s, pos + 2) {
                            Some(p) => Some((seq![b] + p.0, p.1)),
                            None => None,
                        },
                        None => None,
                    }
                }
            }
        } else {
            match str_body(s, pos + 1) {
                Some(p) => Some((seq![c] + p.0, p.1)),
                None => None,
            }
        }
    }
}

/// Is this a byte a JSON number may contain?
pub open spec fn is_num_b(c: u8) -> bool {
    (48 <= c <= 57) || c == 45 || c == 43 || c == 46 || c == 101 || c == 69
}

/// End of the run of number bytes starting at `pos`.
pub open spec fn num_end(s: Seq<u8>, pos: int) -> int
    decreases s.len() - pos,
{
    if pos < 0 || pos >= s.len() {
        pos
    } else if is_num_b(s[pos]) {
        num_end(s, pos + 1)
    } else {
        pos
    }
}

/// Does the run `s[a..b]` hold a fraction or exponent mark?
pub open spec fn has_frac(s: Seq<u8>, a: int, b: int) -> bool
    decreases b - a,
{
    if a >= b {
        false
    } else {
        has_frac(s, a, b - 1) || s[b - 1] == 46 || s[b - 1] == 101 || s[b - 1] == 69
    }
}

/// Reads one JSON value at `pos`, leading whitespace included: the tree
/// and the position just past the value.
pub open spec fn json_value(s: Seq<u8>, pos: int) -> Option<(NodeV, int)>
    decreases s.len() - pos, 1int,
{
    if pos < 0 || pos > s.len() {
        None
    } else {
        let i = ws_end(s, pos);
        if i >= s.len() || i < pos {
            None
        } else {
            let c = s[i];
            if c == 123 {
                let cur = ws_end(s, i + 1);
                if cur < s.len() && s[cur] == 125 {
                    Some((NodeV::Mapping(Seq::empty()), cur + 1))
                } else if cur <= pos || cur > s.len() {
                    None
                } else {
                    match obj_rest(s, cur, Seq::empty()) {
                        Some(p) => Some((NodeV::Mapping(p.0), p.1)),
                        None => None,
                    }
                }
            } else if c == 91 {
                let cur = ws_end(s, i + 1);
                if cur < s.len() && s[cur] == 93 {
                    Some((NodeV::Sequence(Seq::empty()), cur + 1))
                } else if cur <= pos || cur > s.len() {
                    None
                } else {
                    match arr_rest(s, cur, Seq::empty()) {
                        Some(p) => Some((NodeV::Sequence(p.0), p.1)),
                        None => None,
                    }
                }
            } else if c == 34 {
                match str_body(s, i + 1) {
                    Some(p) => Some((NodeV::Scalar(ScalarV::Str(p.0)), p.1)),
                    None => None,
                }
            } else if c == 116 {
                if s.len() - i >= 4 && s[i + 1] == 114 && s[i + 2] == 117 && s[i + 3]
                    == 101 {
                    Some((NodeV::Scalar(ScalarV::Bool(true)), i + 4))
                } else {
                    None
                }
            } else if c == 102 {
                if s.len() - i >= 5 && s[i + 1] == 97 && s[i + 2] == 108 && s[i + 3] == 115
                    && s[i + 4] == 101 {
                    Some((NodeV::Scalar(ScalarV::Bool(false)), i + 5))
                } else {
                    None
                }
            } else if c == 110 {
                if s.len() - i >= 4 && s[i + 1] == 117 && s[i + 2] == 108 && s[i + 3]
                    == 108 {
                    Some((NodeV::Scalar(ScalarV::Null), i + 4))
                } else {
                    None
                }
            } else if c == 45 || (48 <= c <= 57) {
                let j = num_end(s, i + 1);
                let raw = s.subrange(i, j);
                if has_frac(s, i + 1, j) {
                    Some((NodeV::Scalar(ScalarV::Float(raw)), j))
                } else if crate::num::valid_i64_text(raw) {
                    Some((NodeV::Scalar(ScalarV::Int(crate::num::parsed_i64(raw))), j))
                } else {
                    Some((NodeV::Scalar(ScalarV::Float(raw)), j))
                }
            } else {
                None
            }
        }
    }
}

/// Reads the entries of an object from the position of its first key
/// onward, given the entries already read (whose keys bar duplicates);
/// yields all entries and the position past the closing brace.
pub open spec fn obj_rest(s: Seq<u8>, pos: int, acc: Seq<MapItemV>) -> Option<
    (Seq<MapItemV>, int),
>
    decreases s.len() - pos, 0int,
{
    if pos < 0 || pos > s.len() {
        None
    } else {
        let cur2 = ws_end(s, pos);
        if cur2 >= s.len() || s[cur2] != 34 {
            None
        } else {
            match str_body(s, cur2 + 1) {
                None => None,
                Some(kp) => {
                    let p2 = ws_end(s, kp.1);
                    if p2 >= s.len() || s[p2] != 58 || p2 + 1 <= pos {
                        None
                    } else {
                        match json_value(s, p2 + 1) {
                            None => None,
                            Some(vp) => {
                                if crate::path::key_index(acc, kp.0) >= 0 {
                                    None
                                } else {
                                    let acc2 = acc.push(MapItemV::Entry(kp.0, vp.0));
                                    let p4 = ws_end(s, vp.1);
                                    if p4 >= s.len() {
                                        None
                                    } else if s[p4] == 125 {
                                        Some((acc2, p4 + 1))
                                    } else if s[p4] != 44 || p4 + 1 <= pos {
                                        None
                                    } else {
                                        obj_rest(s, p4 + 1, acc2)
                                    }
                                }
                            },
                        }
                    }
                },
            }
        }
    }
}

/// Reads the elements of an array from the position of its first element
/// onward, given the elements already read; yields all elements and the
/// position past the closing bracket.
pub open spec fn arr_rest(s: Seq<u8>, pos: int, acc: Seq<NodeV>) -> Option<(Seq<NodeV>, int)>
    decreases s.len() - pos, 2int,
{
    if pos < 0 || pos > s.len() {
        None
    } else {
        match json_value(s, pos) {
            None => None,
            Some(vp) => {
                let acc2 = acc.push(vp.0);
                let p2 = ws_end(s, vp.1);
                if p2 >= s.len() {
                    None
                } else if s[p2] == 93 {
                    Some((acc2, p2 + 1))
                } else if s[p2] != 44 || p2 + 1 <= pos {
                    None
                } else {
                    arr_rest(s, p2 + 1, acc2)
                }
            },
        }
    }
}

/// Reads a whole JSON document: one value with only whitespace after it.
pub open spec fn json_parse(s: Seq<u8>) -> Option<NodeV> {
    match json_value(s, 0) {
        Some(p) => if ws_end(s, p.1) == s.len() {
            Some(p.0)
        } else {
            None
        },
        None => None,
    }
}


fn skip_ws(s: &Vec<u8>, pos: usize) -> (r: usize)
    requires
        pos <= s@.len(),
    ensures
        pos <= r <= s@.len(),
        r == ws_end(s@, pos as int),
{
    let mut i = pos;
    while i < s.len() && (s[i] == 32 || s[i] == 9 || s[i] == 10 || s[i] == 13)
        invariant
            pos <= i <= s@.len(),
            ws_end(s@, pos as int) == ws_end(s@, i as int),
        decreases s@.len() - i,
    {
        i += 1;
    }
    i
}

fn hex_val(c: u8) -> (r: Option<u8>)
    ensures
        r == hex_v(c),
        r matches Some(v) ==> v < 16,
{
    if 48 <= c && c <= 57 {
        Some(c - 48)
    } else if 97 <= c && c <= 102 {
        Some(c - 87)
    } else if 65 <= c && c <= 70 {
        Some(c - 55)
    } else {
        None
    }
}

/// A string body's remainder, with already-unescaped bytes in front.
pub open spec fn str_cont(done: Seq<u8>, rest: Option<(Seq<u8>, int)>) -> Option<
    (Seq<u8>, int),
> {
    match rest {
        Some(p) => Some((done + p.0, p.1)),
        None => None,
    }
}

/// Parses a JSON string body starting after the opening quote; succeeds
/// and fails exactly where the ghost [`str_body`] does, and then returns
/// exactly its bytes and position.
#[verifier::loop_isolation(false)]
#[verifier::rlimit(60)]
fn parse_json_string(s: &Vec<u8>, pos: usize) -> (r: Result<(Vec<u8>, usize), Error>)
    requires
        pos <= s@.len(),
    ensures
        r matches Ok(p) ==> pos < p.1 <= s@.len() && str_body(s@, pos as int) == Some(
            (p.0@, p.1 as int),
        ),
        r matches Err(e) ==> e == Error::ParseError && str_body(s@, pos as int) is None,
{
    let mut out: Vec<u8> = Vec::new();
    let mut i = pos;
    while i < s.len()
        invariant
            pos <= i <= s@.len(),
            str_body(s@, pos as int) == str_cont(out@, str_body(s@, i as int)),
        decreases s@.len() - i,
    {
        let c = s[i];
        if c == 34 {
            proof {
                assert(out@ + Seq::<u8>::empty() =~= out@);
            }
            return Ok((out, i + 1));
        }
        if c == 92 {
            if i + 1 >= s.len() {
                return Err(Error::ParseError);
            }
            let e = s[i + 1];
            let ghost pre = out@;
            if e == 34 {
                out.push(34);
            } else if e == 92 {
                out.push(92);
            } else if e == 47 {
                out.push(47);
            } else if e == 110 {
                out.push(10);
            } else if e == 114 {
                out.push(13);
            } else if e == 116 {
                out.push(9);
            } else if e == 98 {
                out.push(8);
            } else if e == 102 {
                out.push(12);
            } else if e == 117 {
                if s.len() - (i + 1) < 5 {
                    return Err(Error::ParseError);
                }
                let h0 = match hex_val(s[i + 2]) {
                    Some(v) => v,
                    None => {
                        return Err(Error::ParseError);
                    },
                };
                let h1 = match hex_val(s[i + 3]) {
                    Some(v) => v,
                    None => {
                        return Err(Error::ParseError);
                    },
                };
                let h2 = match hex_val(s[i + 4]) {
                    Some(v) => v,
                    None => {
                        return Err(Error::ParseError);
                    },
                };
                let h3 = match hex_val(s[i + 5]) {
                    Some(v) => v,
                    None => {
                        return Err(Error::ParseError);
                    },
                };
                let cp: u32 = ((h0 as u32) << 12) | ((h1 as u32) << 8) | ((h2 as u32) << 4)
                    | (h3 as u32);
                proof {
                    assert(cp < 0x10000) by (bit_vector)
                        requires
                            cp == ((h0 as u32) << 12) | ((h1 as u32) << 8) | ((h2 as u32)
                                << 4) | (h3 as u32) && h0 < 16 && h1 < 16 && h2 < 16 && h3
                                < 16,
                    ;
                    assert(cp == cp_of(h0, h1, h2, h3));
                }
                if cp < 0x80 {
                    out.push(cp as u8);
                } else if cp < 0x800 {
                    proof {
                        assert((0xc0 | (cp >> 6)) < 256 && (0x80 | (cp & 0x3f)) < 256)
                            by (bit_vector)
                            requires
                                cp < 0x800,
                        ;
                    }
                    out.push((0xc0 | (cp >> 6)) as u8);
                    out.push((0x80 | (cp & 0x3f)) as u8);
                } else {
                    proof {
                        assert((0xe0 | (cp >> 12)) < 256 && (0x80 | ((cp >> 6) & 0x3f))
                            < 256 && (0x80 | (cp & 0x3f)) < 256) by (bit_vector)
                            requires
                                cp < 0x10000,
                        ;
                    }
                    out.push((0xe0 | (cp >> 12)) as u8);
                    out.push((0x80 | ((cp >> 6) & 0x3f)) as u8);
                    out.push((0x80 | (cp & 0x3f)) as u8);
                }
                proof {
                    assert(out@ =~= pre + utf8_of(cp_of(h0, h1, h2, h3)));
                    match str_body(s@, i + 6) {
                        Some(p) => {
                            assert(pre + (utf8_of(cp_of(h0, h1, h2, h3)) + p.0) =~= out@
                                + p.0);
                        },
                        None => {},
                    }
                }
                i += 6;
                continue ;
            } else {
                return Err(Error::ParseError);
            }
            proof {
                let b = esc_of(e).unwrap();
                assert(out@ =~= pre + seq![b]);
                match str_body(s@, i + 2) {
                    Some(p) => {
                        assert(pre + (seq![b] + p.0) =~= out@ + p.0);
                    },
                    None => {},
                }
            }
            i += 2;
            continue ;
        }
        let ghost pre = out@;
        out.push(c);
        proof {
            match str_body(s@, i + 1) {
                Some(p) => {
                    assert(pre + (seq![c] + p.0) =~= out@ + p.0);
                },
                None => {},
            }
        }
        i += 1;
    }
    Err(Error::ParseError)
}

/// Is this a byte a JSON number may contain?
fn is_num_byte(c: u8) -> (r: bool)
    ensures
        r == is_num_b(c),
{
    (48 <= c && c <= 57) || c == 45 || c == 43 || c == 46 || c == 101 || c == 69
}

/// Parses one JSON value at `pos` (after leading whitespace); returns the
/// tree and the position just past it.  Every mapping of the result has
/// unique keys.
#[verifier::loop_isolation(false)]
#[verifier::rlimit(60)]
pub fn parse_json_value(s: &Vec<u8>, pos: usize) -> (r: Result<(Node, usize), Error>)
    requires
        pos <= s@.len(),
    ensures
        r matches Ok(p) ==> pos < p.1 <= s@.len() && node_wf(p.0.deep_view()) && json_value(
            s@,
            pos as int,
        ) == Some((p.0.deep_view(), p.1 as int)),
        r matches Err(e) ==> e == Error::ParseError && json_value(s@, pos as int) is None,
    decreases s@.len() - pos,
{
    let i = skip_ws(s, pos);
    if i >= s.len() {
        return Err(Error::ParseError);
    }
    let c = s[i];
    if c == 123 {
        // An object.
        let mut items: Vec<MapItem> = Vec::new();
        let mut cur = skip_ws(s, i + 1);
        if cur < s.len() && s[cur] == 125 {
            let ghost fv = items_view(items@);
            let n = Node::Mapping(items);
            proof {
                assert(n.deep_view() matches NodeV::Mapping(iv) && iv =~= Seq::<
                    MapItemV,
                >::empty());
            }
            return Ok((n, cur + 1));
        }
        let ghost cur0 = cur as int;
        proof {
            assert(items_view(items@) =~= Seq::<MapItemV>::empty());
        }
        loop
            invariant
                i < cur <= s@.len(),
                pos <= i,
                s@.len() <= usize::MAX,
                keys_unique(items_view(items@)),
                crate::tree::items_wf(items_view(items@)),
                obj_rest(s@, cur0, Seq::empty()) == obj_rest(
                    s@,
                    cur as int,
                    items_view(items@),
                ),
                json_value(s@, pos as int) == (match obj_rest(s@, cur0, Seq::empty()) {
                    Some(p) => Some((NodeV::Mapping(p.0), p.1)),
                    None => None,
                }),
            decreases s@.len() - cur,
        {
            let ghost acc = items_view(items@);
            let cur2 = skip_ws(s, cur);
            if cur2 >= s.len() || s[cur2] != 34 {
                proof {
                    assert(obj_rest(s@, cur as int, acc) is None);
                }
                return Err(Error::ParseError);
            }
            let (k, p1) = match parse_json_string(s, cur2 + 1) {
                Ok(kp) => kp,
                Err(e) => {
                    proof {
                        assert(obj_rest(s@, cur as int, acc) is None);
                    }
                    return Err(e);
                },
            };
            let p2 = skip_ws(s, p1);
            if p2 >= s.len() || s[p2] != 58 {
                proof {
                    assert(obj_rest(s@, cur as int, acc) is None);
                }
                return Err(Error::ParseError);
            }
            let (v, p3) = match parse_json_value(s, p2 + 1) {
                Ok(vp) => vp,
                Err(e) => {
                    proof {
                        assert(obj_rest(s@, cur as int, acc) is None);
                    }
                    return Err(e);
                },
            };
            if let Some(_) = crate::path::key_index_exec(&items, &k) {
                proof {
                    assert(obj_rest(s@, cur as int, acc) is None);
                }
                return Err(Error::ParseError);
            }
            let ghost oldv = items_view(items@);
            let ghost kv = k@;
            let ghost vv = v.deep_view();
            let it = MapItem::Entry(k, v);
            let ghost itv = it.deep_view();
            proof {
                assert(itv == MapItemV::Entry(kv, vv));
                crate::path::lemma_key_index_absent(oldv, kv);
            }
            items.push(it);
            proof {
                let newv = items_view(items@);
                assert(newv =~= oldv.push(itv));
                assert(newv.drop_last() =~= oldv);
                assert(newv.last() == itv);
                assert(keys_unique(newv)) by {
                    assert forall|a: int, b: int|
                        0 <= a < b < newv.len() && crate::tree::item_key(
                            #[trigger] newv[a],
                        ) is Some && crate::tree::item_key(#[trigger] newv[b]) is Some
                        implies crate::tree::item_key(newv[a]) != crate::tree::item_key(
                        newv[b],
                    ) by {
                        if b < newv.len() - 1 {
                            assert(newv[a] == oldv[a] && newv[b] == oldv[b]);
                        } else {
                            assert(newv[a] == oldv[a]);
                            assert(crate::tree::item_key(newv[b]) == Some(kv));
                        }
                    }
                }
                assert(crate::tree::items_wf(newv));
            }
            let p4 = skip_ws(s, p3);
            proof {
                assert(obj_rest(s@, cur as int, acc) == (match obj_rest(
                    s@,
                    cur as int,
                    acc,
                ) {
                    Some(p) => Some(p),
                    None => None,
                }));
            }
            if p4 >= s.len() {
                proof {
                    assert(obj_rest(s@, cur as int, acc) is None);
                }
                return Err(Error::ParseError);
            }
            if s[p4] == 125 {
                let ghost fv = items_view(items@);
                let n = Node::Mapping(items);
                proof {
                    match n.deep_view() {
                        NodeV::Mapping(iv) => {
                            assert(iv =~= fv);
                            assert(node_wf(n.deep_view()));
                        },
                        _ => {
                            assert(false);
                        },
                    }
                    assert(obj_rest(s@, cur as int, acc) == Some((fv, p4 + 1)));
                }
                return Ok((n, p4 + 1));
            }
            if s[p4] != 44 {
                proof {
                    assert(obj_rest(s@, cur as int, acc) is None);
                }
                return Err(Error::ParseError);
            }
            proof {
                assert(obj_rest(s@, cur as int, acc) == obj_rest(
                    s@,
                    p4 + 1,
                    items_view(items@),
                ));
            }
            cur = p4 + 1;
        }
    } else if c == 91 {
        // An array.
        let mut elems: Vec<Node> = Vec::new();
        let mut cur = skip_ws(s, i + 1);
        if cur < s.len() && s[cur] == 93 {
            let n = Node::Sequence(elems);
            proof {
                assert(n.deep_view() matches NodeV::Sequence(cv) && cv =~= Seq::<
                    NodeV,
                >::empty());
            }
            return Ok((n, cur + 1));
        }
        let ghost cur0 = cur as int;
        proof {
            assert(nodes_view(elems@) =~= Seq::<NodeV>::empty());
        }
        loop
            invariant
                i < cur <= s@.len(),
                pos <= i,
                s@.len() <= usize::MAX,
                crate::tree::elems_wf(nodes_view(elems@)),
                arr_rest(s@, cur0, Seq::empty()) == arr_rest(
                    s@,
                    cur as int,
                    nodes_view(elems@),
                ),
                json_value(s@, pos as int) == (match arr_rest(s@, cur0, Seq::empty()) {
                    Some(p) => Some((NodeV::Sequence(p.0), p.1)),
                    None => None,
                }),
            decreases s@.len() - cur,
        {
            let ghost acc = nodes_view(elems@);
            let (v, p1) = match parse_json_value(s, cur) {
                Ok(vp) => vp,
                Err(e) => {
                    proof {
                        assert(arr_rest(s@, cur as int, acc) is None);
                    }
                    return Err(e);
                },
            };
            let ghost oldv = nodes_view(elems@);
            let ghost vv = v.deep_view();
            elems.push(v);
            proof {
                let newv = nodes_view(elems@);
                assert(newv =~= oldv.push(vv));
                assert(newv.drop_last() =~= oldv);
                assert(newv.last() == vv);
                assert(crate::tree::elems_wf(newv));
            }
            let p2 = skip_ws(s, p1);
            if p2 >= s.len() {
                proof {
                    assert(arr_rest(s@, cur as int, acc) is None);
                }
                return Err(Error::ParseError);
            }
            if s[p2] == 93 {
                let ghost fv = nodes_view(elems@);
                let n = Node::Sequence(elems);
                proof {
                    match n.deep_view() {
                        NodeV::Sequence(cv) => {
                            assert(cv =~= fv);
                            assert(node_wf(n.deep_view()));
                        },
                        _ => {
                            assert(false);
                        },
                    }
                    assert(arr_rest(s@, cur as int, acc) == Some((fv, p2 + 1)));
                }
                return Ok((n, p2 + 1));
            }
            if s[p2] != 44 {
                proof {
                    assert(arr_rest(s@, cur as int, acc) is None);
                }
                return Err(Error::ParseError);
            }
            proof {
                assert(arr_rest(s@, cur as int, acc) == arr_rest(
                    s@,
                    p2 + 1,
                    nodes_view(elems@),
                ));
            }
            cur = p2 + 1;
        }
    } else if c == 34 {
        let (t, p1) = match parse_json_string(s, i + 1) {
            Ok(tp) => tp,
            Err(e) => {
                return Err(e);
            },
        };
        Ok((Node::Scalar(Scalar::Str(t)), p1))
    } else if c == 116 {
        if s.len() - i >= 4 && s[i + 1] == 114 && s[i + 2] == 117 && s[i + 3] == 101 {
            Ok((Node::Scalar(Scalar::Bool(true)), i + 4))
        } else {
            Err(Error::ParseError)
        }
    } else if c == 102 {
        if s.len() - i >= 5 && s[i + 1] == 97 && s[i + 2] == 108 && s[i + 3] == 115 && s[i
            + 4] == 101 {
            Ok((Node::Scalar(Scalar::Bool(false)), i + 5))
        } else {
            Err(Error::ParseError)
        }
    } else if c == 110 {
        if s.len() - i >= 4 && s[i + 1] == 117 && s[i + 2] == 108 && s[i + 3] == 108 {
            Ok((Node::Scalar(Scalar::Null), i + 4))
        } else {
            Err(Error::ParseError)
        }
    } else if c == 45 || (48 <= c && c <= 57) {
        let mut j = i + 1;
        let mut fractional = false;
        while j < s.len() && is_num_byte(s[j])
            invariant
                i < j <= s@.len(),
                num_end(s@, (i + 1) as int) == num_end(s@, j as int),
                fractional == has_frac(s@, (i + 1) as int, j as int),
            decreases s@.len() - j,
        {
            if s[j] == 46 || s[j] == 101 || s[j] == 69 {
                fractional = true;
            }
            j += 1;
        }
        proof {
            assert(num_end(s@, j as int) == j);
        }
        let mut raw: Vec<u8> = Vec::new();
        push_range(&mut raw, s, i, j);
        if fractional {
            return Ok((Node::Scalar(Scalar::Float(raw)), j));
        }
        match parse_i64(&raw) {
            Some(v) => Ok((Node::Scalar(Scalar::Int(v)), j)),
            None => Ok((Node::Scalar(Scalar::Float(raw)), j)),
        }
    } else {
        Err(Error::ParseError)
    }
}

/// Parses a whole JSON document: one value with nothing but whitespace
/// after it.  Succeeds and fails exactly where the ghost [`json_parse`]
/// does, and then returns exactly its tree; every mapping of the result
/// has unique keys.
pub fn parse_json(s: &Vec<u8>) -> (r: Result<Node, Error>)
    ensures
        (r is Ok) == (json_parse(s@) is Some),
        r matches Ok(t) ==> json_parse(s@) == Some(t.deep_view()) && node_wf(t.deep_view()),
        r matches Err(e) ==> e == Error::ParseError,
{
    let (n, p) = match parse_json_value(s, 0) {
        Ok(np) => np,
        Err(e) => {
            return Err(e);
        },
    };
    let p2 = skip_ws(s, p);
    if p2 != s.len() {
        return Err(Error::ParseError);
    }
    Ok(n)
}

} // verus!
