//! The YAML adapter, for the block-style subset the engine emits: nested
//! mappings and sequences by two-space indentation, full-line comments,
//! plain and single-quoted scalars, and literal block scalars (`|`, `|-`).

use vstd::prelude::*;
use crate::tree::{Node, NodeV, Scalar, ScalarV, MapItem, MapItemV, node_wf, keys_unique};
use crate::num::{push_dec_i64, parse_i64};
use crate::b64::b64_encode;
use crate::bytes::{push_all, push_range, bytes_eq};
use crate::error::Error;
use crate::path::{items_view, key_index_exec, lemma_key_index_absent};
use crate::json::nodes_view;

verus! {

broadcast use vstd::std_specs::vec::axiom_vec_index_decreases, vstd::std_specs::vec::axiom_vec_decreases_to_view, vstd::seq::axiom_seq_index_decreases, vstd::seq::axiom_seq_subrange_decreases;


/// `n` spaces.
pub open spec fn sp(n: int) -> Seq<u8> {
    if n < 0 {
        Seq::empty()
    } else {
        Seq::new(n as nat, |i: int| 32u8)
    }
}

/// May the first byte of a plain scalar be this one?
pub open spec fn plain_head(c: u8) -> bool {
    (48 <= c <= 57) || (65 <= c <= 90) || (97 <= c <= 122) || c == 95 || c == 47
}

/// May this text stand unquoted as a plain YAML scalar?
pub open spec fn plain_safe_s(t: Seq<u8>) -> bool {
    &&& t.len() > 0
    &&& plain_head(t[0])
    &&& t.last() != 32
    &&& forall|i: int|
        0 <= i < t.len() ==> #[trigger] t[i] >= 32 && !(t[i] == 58 && (i + 1 == t.len()
            || t[i + 1] == 32)) && !(t[i] == 35 && i > 0 && t[i - 1] == 32)
}

/// All number-run bytes, opening like a number.
pub open spec fn looks_numeric_s(t: Seq<u8>) -> bool {
    &&& t.len() > 0
    &&& ((48 <= t[0] <= 57) || t[0] == 45)
    &&& forall|i: int|
        0 <= i < t.len() ==> ((48 <= #[trigger] t[i] <= 57) || t[i] == 45 || t[i] == 43
            || t[i] == 46 || t[i] == 101 || t[i] == 69)
}

/// Would the reader take this text for another scalar kind?
pub open spec fn reads_as_other_s(t: Seq<u8>) -> bool {
    ||| crate::num::valid_i64_text(t)
    ||| t == crate::value::bool_text(true)
    ||| t == crate::value::bool_text(false)
    ||| t == crate::value::null_text()
    ||| looks_numeric_s(t)
}

/// Does the text hold a line break among its first `j` bytes?
pub open spec fn has_nl_upto(t: Seq<u8>, j: int) -> bool
    decreases j,
{
    j > 0 && (has_nl_upto(t, j - 1) || t[j - 1] == 10)
}

/// The indented body lines of a literal block scalar, from byte `j` on.
pub open spec fn block_lines(t: Seq<u8>, j: int, end: int, indent: int, ls: bool) -> Seq<u8>
    decreases end - j,
{
    if j < 0 || j >= end {
        Seq::empty()
    } else {
        (if ls {
            sp(indent + 2)
        } else {
            Seq::empty()
        }) + seq![t[j]] + block_lines(t, j + 1, end, indent, t[j] == 10)
    }
}

/// The single-quoted body of a text, quotes doubled; `None` on a control
/// byte the subset cannot quote.
pub open spec fn squote(t: Seq<u8>, j: int) -> Option<Seq<u8>>
    decreases t.len() - j,
{
    if j < 0 || j >= t.len() {
        Some(Seq::empty())
    } else if t[j] < 32 {
        None
    } else {
        match squote(t, j + 1) {
            Some(q) => if t[j] == 39 {
                Some(seq![39u8, 39u8] + q)
            } else {
                Some(seq![t[j]] + q)
            },
            None => None,
        }
    }
}

/// The line text of one scalar (after `key: ` or `- `), newline included;
/// a multi-line text becomes a literal block scalar on following lines.
pub open spec fn yaml_scalar(sc: ScalarV, indent: int) -> Option<Seq<u8>> {
    match sc {
        ScalarV::Int(i) => Some(crate::num::dec_text(i) + seq![10u8]),
        ScalarV::Float(t) => Some(t + seq![10u8]),
        ScalarV::Bool(b) => Some(crate::value::bool_text(b) + seq![10u8]),
        ScalarV::Null => Some(crate::value::null_text() + seq![10u8]),
        ScalarV::Bytes(b) => Some(crate::b64::b64_enc(b) + seq![10u8]),
        ScalarV::Str(t) => {
            if has_nl_upto(t, t.len() as int) {
                let keep_final = t.len() > 0 && t.last() == 10;
                if keep_final && t.len() >= 2 && t[t.len() - 2] == 10 {
                    None
                } else {
                    let body_end = if keep_final {
                        t.len() - 1
                    } else {
                        t.len() as int
                    };
                    Some(
                        seq![124u8] + (if keep_final {
                            Seq::empty()
                        } else {
                            seq![45u8]
                        }) + seq![10u8] + block_lines(t, 0, body_end, indent, true) + seq![
                            10u8,
                        ],
                    )
                }
            } else if plain_safe_s(t) && !reads_as_other_s(t) {
                Some(t + seq![10u8])
            } else {
                match squote(t, 0) {
                    Some(q) => Some(seq![39u8] + q + seq![39u8, 10u8]),
                    None => None,
                }
            }
        },
    }
}

/// The text of a key: plain where safe, single-quoted otherwise.
pub open spec fn yaml_key(k: Seq<u8>) -> Option<Seq<u8>> {
    if plain_safe_s(k) && !reads_as_other_s(k) {
        Some(k)
    } else {
        match squote(k, 0) {
            Some(q) => Some(seq![39u8] + q + seq![39u8]),
            None => None,
        }
    }
}

/// A block's remainder, with already-written text in front.
pub open spec fn opt_pre(done: Seq<u8>, rest: Option<Seq<u8>>) -> Option<Seq<u8>> {
    match rest {
        Some(r) => Some(done + r),
        None => None,
    }
}

/// The block text of a tree at an indent: `None` on what the subset cannot
/// carry (an empty or non-block root, a comment value, nesting too deep).
pub open spec fn yaml_block(nv: NodeV, indent: int) -> Option<Seq<u8>>
    decreases nv, 0int,
{
    if indent >= 9000 {
        None
    } else {
        match nv {
            NodeV::Mapping(items) => if items.len() == 0 {
                None
            } else {
                yaml_items(items, indent)
            },
            NodeV::Sequence(ch) => if ch.len() == 0 {
                None
            } else {
                yaml_elems(ch, indent)
            },
            _ => None,
        }
    }
}

pub open spec fn yaml_items(items: Seq<MapItemV>, indent: int) -> Option<Seq<u8>>
    decreases items, 1int,
{
    if items.len() == 0 {
        Some(Seq::empty())
    } else {
        match items[0] {
            MapItemV::Comment(c) => opt_pre(
                sp(indent) + seq![35u8, 32u8] + c + seq![10u8],
                yaml_items(items.skip(1), indent),
            ),
            MapItemV::Entry(k, v) => match yaml_key(k) {
                None => None,
                Some(kt) => match v {
                    NodeV::Scalar(sc) => match yaml_scalar(sc, indent) {
                        None => None,
                        Some(st) => opt_pre(
                            sp(indent) + kt + seq![58u8, 32u8] + st,
                            yaml_items(items.skip(1), indent),
                        ),
                    },
                    NodeV::Comment(_) => None,
                    _ => match yaml_block(v, indent + 2) {
                        None => None,
                        Some(bt) => opt_pre(
                            sp(indent) + kt + seq![58u8, 10u8] + bt,
                            yaml_items(items.skip(1), indent),
                        ),
                    },
                },
            },
        }
    }
}

pub open spec fn yaml_elems(ch: Seq<NodeV>, indent: int) -> Option<Seq<u8>>
    decreases ch, 1int,
{
    if ch.len() == 0 {
        Some(Seq::empty())
    } else {
        match ch[0] {
            NodeV::Comment(c) => opt_pre(
                sp(indent) + seq![35u8, 32u8] + c + seq![10u8],
                yaml_elems(ch.skip(1), indent),
            ),
            NodeV::Scalar(sc) => match yaml_scalar(sc, indent) {
                None => None,
                Some(st) => opt_pre(
                    sp(indent) + seq![45u8, 32u8] + st,
                    yaml_elems(ch.skip(1), indent),
                ),
            },
            _ => match yaml_block(ch[0], indent + 2) {
                None => None,
                Some(bt) => opt_pre(
                    sp(indent) + seq![45u8, 10u8] + bt,
                    yaml_elems(ch.skip(1), indent),
                ),
            },
        }
    }
}

/// May this text stand unquoted as a plain YAML scalar?
#[verifier::loop_isolation(false)]
fn plain_safe(t: &Vec<u8>) -> (r: bool)
    ensures
        r == plain_safe_s(t@),
{
    if t.len() == 0 {
        return false;
    }
    let c0 = t[0];
    let head_ok = (48 <= c0 && c0 <= 57) || (65 <= c0 && c0 <= 90) || (97 <= c0 && c0 <= 122)
        || c0 == 95 || c0 == 47;
    if !head_ok {
        return false;
    }
    if t[t.len() - 1] == 32 {
        return false;
    }
    let mut i: usize = 0;
    while i < t.len()
        invariant
            0 <= i <= t@.len(),
            forall|j: int|
                0 <= j < i ==> #[trigger] t@[j] >= 32 && !(t@[j] == 58 && (j + 1
                    == t@.len() || t@[j + 1] == 32)) && !(t@[j] == 35 && j > 0 && t@[j - 1]
                    == 32),
        decreases t@.len() - i,
    {
        let c = t[i];
        if c < 32 {
            return false;
        }
        if c == 58 && (i + 1 == t.len() || t[i + 1] == 32) {
            return false;
        }
        if c == 35 && i > 0 && t[i - 1] == 32 {
            return false;
        }
        i += 1;
    }
    true
}

/// Does the text look like another scalar kind when read back?
fn reads_as_other(t: &Vec<u8>) -> (r: bool)
    ensures
        r == reads_as_other_s(t@),
{
    if parse_i64(t).is_some() {
        return true;
    }
    let tr: Vec<u8> = vec![116, 114, 117, 101];
    let fa: Vec<u8> = vec![102, 97, 108, 115, 101];
    let nu: Vec<u8> = vec![110, 117, 108, 108];
    proof {
        assert(tr@ =~= crate::value::bool_text(true));
        assert(fa@ =~= crate::value::bool_text(false));
        assert(nu@ =~= crate::value::null_text());
    }
    if bytes_eq(t, &tr) || bytes_eq(t, &fa) || bytes_eq(t, &nu) {
        return true;
    }
    if looks_numeric(t) {
        return true;
    }
    false
}

/// All digits, dots, signs and exponent letters, starting with a digit or
/// a minus: what the reader would take for a number.
#[verifier::loop_isolation(false)]
fn looks_numeric(t: &Vec<u8>) -> (r: bool)
    ensures
        r == looks_numeric_s(t@),
{
    if t.len() == 0 {
        return false;
    }
    let c0 = t[0];
    if !((48 <= c0 && c0 <= 57) || c0 == 45) {
        return false;
    }
    let mut i: usize = 0;
    while i < t.len()
        invariant
            0 <= i <= t@.len(),
            forall|j: int|
                0 <= j < i ==> ((48 <= #[trigger] t@[j] <= 57) || t@[j] == 45 || t@[j]
                    == 43 || t@[j] == 46 || t@[j] == 101 || t@[j] == 69),
        decreases t@.len() - i,
    {
        let c = t[i];
        if !((48 <= c && c <= 57) || c == 45 || c == 43 || c == 46 || c == 101 || c == 69) {
            return false;
        }
        i += 1;
    }
    true
}

fn push_spaces(out: &mut Vec<u8>, n: usize)
    ensures
        final(out)@ == old(out)@ + sp(n as int),
    decreases n,
{
    let mut i: usize = 0;
    while i < n
        invariant
            0 <= i <= n,
            out@ == old(out)@ + sp(i as int),
        decreases n - i,
    {
        out.push(32);
        proof {
            assert(out@ =~= old(out)@ + sp(i + 1));
        }
        i += 1;
    }
}

/// Writes one text scalar; writes and fails exactly as the ghost
/// [`yaml_scalar`] says of it.
#[verifier::loop_isolation(false)]
#[verifier::rlimit(100)]
fn write_text_scalar(t: &Vec<u8>, indent: usize, out: &mut Vec<u8>) -> (r: Result<(), Error>)
    requires
        indent < 10000,
    ensures
        r matches Ok(u) ==> yaml_scalar(ScalarV::Str(t@), indent as int) matches Some(st)
            && final(out)@ == old(out)@ + st,
        r matches Err(e) ==> e == Error::SerializeError && yaml_scalar(
            ScalarV::Str(t@),
            indent as int,
        ) is None,
{
    // Multi-line text becomes a literal block scalar.
    let mut has_nl = false;
    let mut i: usize = 0;
    while i < t.len()
        invariant
            0 <= i <= t@.len(),
            has_nl == has_nl_upto(t@, i as int),
        decreases t@.len() - i,
    {
        if t[i] == 10 {
            has_nl = true;
        }
        i += 1;
    }
    if has_nl {
        let keep_final = t.len() > 0 && t[t.len() - 1] == 10;
        if keep_final && t.len() >= 2 && t[t.len() - 2] == 10 {
            // More than one trailing newline is outside the subset.
            return Err(Error::SerializeError);
        }
        let ghost hdr = seq![124u8] + (if keep_final {
            Seq::<u8>::empty()
        } else {
            seq![45u8]
        }) + seq![10u8];
        out.push(124);
        if !keep_final {
            out.push(45);
        }
        out.push(10);
        proof {
            assert(out@ =~= old(out)@ + hdr);
        }
        // Write each line of the text, indented two deeper.
        let mut j: usize = 0;
        let mut line_start = true;
        let body_end = if keep_final {
            t.len() - 1
        } else {
            t.len()
        };
        let ghost mut body: Seq<u8> = Seq::empty();
        proof {
            assert(out@ =~= old(out)@ + hdr + body);
        }
        while j < body_end
            invariant
                0 <= j <= body_end <= t@.len(),
                indent < 10000,
                out@ == old(out)@ + hdr + body,
                block_lines(t@, 0, body_end as int, indent as int, true) == body
                    + block_lines(
                    t@,
                    j as int,
                    body_end as int,
                    indent as int,
                    line_start,
                ),
            decreases body_end - j,
        {
            let ghost pre = body;
            let ghost delta = (if line_start {
                sp(indent + 2)
            } else {
                Seq::<u8>::empty()
            }) + seq![t@[j as int]];
            if line_start {
                push_spaces(out, indent + 2);
                line_start = false;
            }
            let c = t[j];
            out.push(c);
            if c == 10 {
                line_start = true;
            }
            proof {
                body = pre + delta;
                assert(out@ =~= old(out)@ + hdr + body);
                assert(pre + (delta + block_lines(
                    t@,
                    j + 1,
                    body_end as int,
                    indent as int,
                    c == 10,
                )) =~= body + block_lines(
                    t@,
                    j + 1,
                    body_end as int,
                    indent as int,
                    c == 10,
                ));
            }
            j += 1;
        }
        out.push(10);
        proof {
            assert(body + Seq::<u8>::empty() =~= body);
            assert(yaml_scalar(ScalarV::Str(t@), indent as int) matches Some(st) && st
                =~= hdr + body + seq![10u8]);
            assert(out@ =~= old(out)@ + (hdr + body + seq![10u8]));
        }
        Ok(())
    } else if plain_safe(t) && !reads_as_other(t) {
        push_all(out, t);
        out.push(10);
        proof {
            assert(out@ =~= old(out)@ + (t@ + seq![10u8]));
        }
        Ok(())
    } else {
        // Single-quoted, with quotes doubled.
        out.push(39);
        let ghost mut qb: Seq<u8> = Seq::empty();
        let mut j: usize = 0;
        proof {
            assert(out@ =~= old(out)@ + seq![39u8] + qb);
        }
        while j < t.len()
            invariant
                0 <= j <= t@.len(),
                out@ == old(out)@ + seq![39u8] + qb,
                squote(t@, 0) == opt_pre(qb, squote(t@, j as int)),
            decreases t@.len() - j,
        {
            let c = t[j];
            if c < 32 {
                return Err(Error::SerializeError);
            }
            let ghost pre = qb;
            if c == 39 {
                out.push(39);
                out.push(39);
                proof {
                    qb = qb + seq![39u8, 39u8];
                }
            } else {
                out.push(c);
                proof {
                    qb = qb + seq![c];
                }
            }
            proof {
                assert(out@ =~= old(out)@ + seq![39u8] + qb);
                match squote(t@, j + 1) {
                    Some(q) => {
                        if c == 39 {
                            assert(pre + (seq![39u8, 39u8] + q) =~= qb + q);
                        } else {
                            assert(pre + (seq![c] + q) =~= qb + q);
                        }
                    },
                    None => {},
                }
            }
            j += 1;
        }
        out.push(39);
        out.push(10);
        proof {
            assert(squote(t@, t@.len() as int) == Some(Seq::<u8>::empty()));
            assert(qb + Seq::<u8>::empty() =~= qb);
            assert(yaml_scalar(ScalarV::Str(t@), indent as int) matches Some(st) && st
                =~= seq![39u8] + qb + seq![39u8, 10u8]);
            assert(out@ =~= old(out)@ + (seq![39u8] + qb + seq![39u8, 10u8]));
        }
        Ok(())
    }
}

/// Writes one scalar in line position (after `key: ` or `- `), or a block
/// scalar on the following lines; writes and fails exactly as the ghost
/// [`yaml_scalar`] says.
#[verifier::loop_isolation(false)]
#[verifier::rlimit(100)]
fn write_scalar(s: &Scalar, indent: usize, out: &mut Vec<u8>) -> (r: Result<(), Error>)
    requires
        indent < 10000,
    ensures
        r matches Ok(u) ==> yaml_scalar(s.deep_view(), indent as int) matches Some(st)
            && final(out)@ == old(out)@ + st,
        r matches Err(e) ==> e == Error::SerializeError && yaml_scalar(
            s.deep_view(),
            indent as int,
        ) is None,
{
    match s {
        Scalar::Int(i) => {
            push_dec_i64(out, *i);
            out.push(10);
            proof {
                assert(out@ =~= old(out)@ + (crate::num::dec_text(*i as int) + seq![10u8]));
            }
            Ok(())
        },
        Scalar::Float(t) => {
            push_all(out, t);
            out.push(10);
            proof {
                assert(out@ =~= old(out)@ + (t@ + seq![10u8]));
            }
            Ok(())
        },
        Scalar::Bool(b) => {
            if *b {
                out.push(116);
                out.push(114);
                out.push(117);
                out.push(101);
            } else {
                out.push(102);
                out.push(97);
                out.push(108);
                out.push(115);
                out.push(101);
            }
            out.push(10);
            proof {
                assert(out@ =~= old(out)@ + (crate::value::bool_text(*b) + seq![10u8]));
            }
            Ok(())
        },
        Scalar::Null => {
            out.push(110);
            out.push(117);
            out.push(108);
            out.push(108);
            out.push(10);
            proof {
                assert(out@ =~= old(out)@ + (crate::value::null_text() + seq![10u8]));
            }
            Ok(())
        },
        Scalar::Bytes(b) => {
            let e = b64_encode(b);
            push_all(out, &e);
            out.push(10);
            proof {
                assert(out@ =~= old(out)@ + (crate::b64::b64_enc(b@) + seq![10u8]));
            }
            Ok(())
        },
        Scalar::Str(t) => write_text_scalar(t, indent, out),
    }
}

/// Writes a key (plain or quoted); writes and fails exactly as the ghost
/// [`yaml_key`] says.
#[verifier::loop_isolation(false)]
fn write_key(k: &Vec<u8>, out: &mut Vec<u8>) -> (r: Result<(), Error>)
    ensures
        r matches Ok(u) ==> yaml_key(k@) matches Some(kt) && final(out)@ == old(out)@ + kt,
        r matches Err(e) ==> e == Error::SerializeError && yaml_key(k@) is None,
{
    if plain_safe(k) && !reads_as_other(k) {
        push_all(out, k);
        Ok(())
    } else {
        out.push(39);
        let ghost mut qb: Seq<u8> = Seq::empty();
        let mut j: usize = 0;
        proof {
            assert(out@ =~= old(out)@ + seq![39u8] + qb);
        }
        while j < k.len()
            invariant
                0 <= j <= k@.len(),
                out@ == old(out)@ + seq![39u8] + qb,
                squote(k@, 0) == opt_pre(qb, squote(k@, j as int)),
            decreases k@.len() - j,
        {
            let c = k[j];
            if c < 32 {
                return Err(Error::SerializeError);
            }
            let ghost pre = qb;
            if c == 39 {
                out.push(39);
                out.push(39);
                proof {
                    qb = qb + seq![39u8, 39u8];
                }
            } else {
                out.push(c);
                proof {
                    qb = qb + seq![c];
                }
            }
            proof {
                assert(out@ =~= old(out)@ + seq![39u8] + qb);
                match squote(k@, j + 1) {
                    Some(q) => {
                        if c == 39 {
                            assert(pre + (seq![39u8, 39u8] + q) =~= qb + q);
                        } else {
                            assert(pre + (seq![c] + q) =~= qb + q);
                        }
                    },
                    None => {},
                }
            }
            j += 1;
        }
        out.push(39);
        proof {
            assert(squote(k@, k@.len() as int) == Some(Seq::<u8>::empty()));
            assert(qb + Seq::<u8>::empty() =~= qb);
            assert(yaml_key(k@) matches Some(kt) && kt =~= seq![39u8] + qb + seq![39u8]);
            assert(out@ =~= old(out)@ + (seq![39u8] + qb + seq![39u8]));
        }
        Ok(())
    }
}

/// Writes a block (mapping or sequence) at the given indent.
/// Writes the items of a mapping block; writes and fails exactly as the
/// ghost [`yaml_items`] says.
#[verifier::loop_isolation(false)]
#[verifier::rlimit(100)]
fn write_map_items(items: &Vec<MapItem>, indent: usize, out: &mut Vec<u8>) -> (r: Result<
    (),
    Error,
>)
    requires
        indent < 9000,
    ensures
        r matches Ok(u) ==> yaml_items(items_view(items@), indent as int) matches Some(bt)
            && final(out)@ == old(out)@ + bt,
        r matches Err(e) ==> e == Error::SerializeError && yaml_items(
            items_view(items@),
            indent as int,
        ) is None,
    decreases items,
{
    let ghost iv = items_view(items@);
    proof {
        assert(items_view(items@) =~= iv);
        assert(iv.skip(0) =~= iv);
        match yaml_items(iv, indent as int) {
            Some(rr) => {
                assert(Seq::<u8>::empty() + rr =~= rr);
            },
            None => {},
        }
    }
    let ghost mut written: Seq<u8> = Seq::empty();
    proof {
        assert(out@ =~= old(out)@ + written);
    }
    let mut i: usize = 0;
    while i < items.len()
        invariant
            0 <= i <= items@.len(),
            out@ == old(out)@ + written,
            yaml_items(iv, indent as int) == opt_pre(
                written,
                yaml_items(iv.skip(i as int), indent as int),
            ),
        decreases items@.len() - i,
    {
        proof {
            assert(iv.skip(i as int)[0] == iv[i as int]);
            assert(iv.skip(i as int).skip(1) =~= iv.skip(i + 1));
        }
        let ghost pre = written;
        match &items[i] {
            MapItem::Comment(c) => {
                let ghost delta = sp(indent as int) + seq![35u8, 32u8] + c@ + seq![
                    10u8,
                ];
                push_spaces(out, indent);
                out.push(35);
                out.push(32);
                push_all(out, c);
                out.push(10);
                proof {
                    written = pre + delta;
                    assert(out@ =~= old(out)@ + written);
                    match yaml_items(iv.skip(i + 1), indent as int) {
                        Some(rr) => {
                            assert(pre + (delta + rr) =~= written + rr);
                        },
                        None => {},
                    }
                }
            },
            MapItem::Entry(k, v) => {
                push_spaces(out, indent);
                let ghost kt = match yaml_key(k@) {
                    Some(kt) => kt,
                    None => Seq::empty(),
                };
                match write_key(k, out) {
                    Ok(()) => {},
                    Err(e) => {
                        proof {
                            assert(yaml_items(iv.skip(i as int), indent as int)
                                is None);
                        }
                        return Err(e);
                    },
                }
                out.push(58);
                match v {
                    Node::Scalar(sc) => {
                        out.push(32);
                        match write_scalar(sc, indent, out) {
                            Ok(()) => {},
                            Err(e) => {
                                proof {
                                    assert(yaml_items(
                                        iv.skip(i as int),
                                        indent as int,
                                    ) is None);
                                }
                                return Err(e);
                            },
                        }
                        proof {
                            let st = yaml_scalar(
                                sc.deep_view(),
                                indent as int,
                            ).unwrap();
                            let delta = sp(indent as int) + kt + seq![58u8, 32u8]
                                + st;
                            written = pre + delta;
                            assert(out@ =~= old(out)@ + written);
                            match yaml_items(iv.skip(i + 1), indent as int) {
                                Some(rr) => {
                                    assert(pre + (delta + rr) =~= written + rr);
                                },
                                None => {},
                            }
                        }
                    },
                    Node::Comment(_) => {
                        proof {
                            assert(yaml_items(iv.skip(i as int), indent as int)
                                is None);
                        }
                        return Err(Error::SerializeError);
                    },
                    _ => {
                        out.push(10);
                        match write_block(v, indent + 2, out) {
                            Ok(()) => {},
                            Err(e) => {
                                proof {
                                    assert(yaml_items(
                                        iv.skip(i as int),
                                        indent as int,
                                    ) is None);
                                }
                                return Err(e);
                            },
                        }
                        proof {
                            let bt = yaml_block(
                                v.deep_view(),
                                indent + 2,
                            ).unwrap();
                            let delta = sp(indent as int) + kt + seq![58u8, 10u8]
                                + bt;
                            written = pre + delta;
                            assert(out@ =~= old(out)@ + written);
                            match yaml_items(iv.skip(i + 1), indent as int) {
                                Some(rr) => {
                                    assert(pre + (delta + rr) =~= written + rr);
                                },
                                None => {},
                            }
                        }
                    },
                }
            },
        }
        i += 1;
    }
    proof {
        assert(iv.skip(items@.len() as int).len() == 0);
        assert(written + Seq::<u8>::empty() =~= written);
    }
    Ok(())
}

/// Writes the elements of a sequence block; writes and fails exactly as
/// the ghost [`yaml_elems`] says.
#[verifier::loop_isolation(false)]
#[verifier::rlimit(100)]
fn write_seq_elems(elems: &Vec<Node>, indent: usize, out: &mut Vec<u8>) -> (r: Result<
    (),
    Error,
>)
    requires
        indent < 9000,
    ensures
        r matches Ok(u) ==> yaml_elems(nodes_view(elems@), indent as int) matches Some(bt)
            && final(out)@ == old(out)@ + bt,
        r matches Err(e) ==> e == Error::SerializeError && yaml_elems(
            nodes_view(elems@),
            indent as int,
        ) is None,
    decreases elems,
{
    let ghost cv = nodes_view(elems@);
    proof {
        assert(nodes_view(elems@) =~= cv);
        assert(cv.skip(0) =~= cv);
        match yaml_elems(cv, indent as int) {
            Some(rr) => {
                assert(Seq::<u8>::empty() + rr =~= rr);
            },
            None => {},
        }
    }
    let ghost mut written: Seq<u8> = Seq::empty();
    proof {
        assert(out@ =~= old(out)@ + written);
    }
    let mut i: usize = 0;
    while i < elems.len()
        invariant
            0 <= i <= elems@.len(),
            out@ == old(out)@ + written,
            yaml_elems(cv, indent as int) == opt_pre(
                written,
                yaml_elems(cv.skip(i as int), indent as int),
            ),
        decreases elems@.len() - i,
    {
        proof {
            assert(cv.skip(i as int)[0] == cv[i as int]);
            assert(cv.skip(i as int).skip(1) =~= cv.skip(i + 1));
        }
        let ghost pre = written;
        match &elems[i] {
            Node::Comment(c) => {
                let ghost delta = sp(indent as int) + seq![35u8, 32u8] + c@ + seq![
                    10u8,
                ];
                push_spaces(out, indent);
                out.push(35);
                out.push(32);
                push_all(out, c);
                out.push(10);
                proof {
                    written = pre + delta;
                    assert(out@ =~= old(out)@ + written);
                    match yaml_elems(cv.skip(i + 1), indent as int) {
                        Some(rr) => {
                            assert(pre + (delta + rr) =~= written + rr);
                        },
                        None => {},
                    }
                }
            },
            Node::Scalar(sc) => {
                push_spaces(out, indent);
                out.push(45);
                out.push(32);
                match write_scalar(sc, indent, out) {
                    Ok(()) => {},
                    Err(e) => {
                        proof {
                            assert(yaml_elems(cv.skip(i as int), indent as int)
                                is None);
                        }
                        return Err(e);
                    },
                }
                proof {
                    let st = yaml_scalar(sc.deep_view(), indent as int).unwrap();
                    let delta = sp(indent as int) + seq![45u8, 32u8] + st;
                    written = pre + delta;
                    assert(out@ =~= old(out)@ + written);
                    match yaml_elems(cv.skip(i + 1), indent as int) {
                        Some(rr) => {
                            assert(pre + (delta + rr) =~= written + rr);
                        },
                        None => {},
                    }
                }
            },
            _ => {
                push_spaces(out, indent);
                out.push(45);
                out.push(10);
                match write_block(&elems[i], indent + 2, out) {
                    Ok(()) => {},
                    Err(e) => {
                        proof {
                            assert(yaml_elems(cv.skip(i as int), indent as int)
                                is None);
                        }
                        return Err(e);
                    },
                }
                proof {
                    let bt = yaml_block(cv[i as int], indent + 2).unwrap();
                    let delta = sp(indent as int) + seq![45u8, 10u8] + bt;
                    written = pre + delta;
                    assert(out@ =~= old(out)@ + written);
                    match yaml_elems(cv.skip(i + 1), indent as int) {
                        Some(rr) => {
                            assert(pre + (delta + rr) =~= written + rr);
                        },
                        None => {},
                    }
                }
            },
        }
        i += 1;
    }
    proof {
        assert(cv.skip(elems@.len() as int).len() == 0);
        assert(written + Seq::<u8>::empty() =~= written);
    }
    Ok(())
}

/// Writes a block (mapping or sequence) at the given indent; writes and
/// fails exactly as the ghost [`yaml_block`] says.
#[verifier::loop_isolation(false)]
fn write_block(n: &Node, indent: usize, out: &mut Vec<u8>) -> (r: Result<(), Error>)
    requires
        indent < 10000,
    ensures
        r matches Ok(u) ==> yaml_block(n.deep_view(), indent as int) matches Some(bt)
            && final(out)@ == old(out)@ + bt,
        r matches Err(e) ==> e == Error::SerializeError && yaml_block(
            n.deep_view(),
            indent as int,
        ) is None,
    decreases n,
{
    if indent >= 9000 {
        // Nesting deeper than the subset supports.
        return Err(Error::SerializeError);
    }
    match n {
        Node::Mapping(items) => {
            if items.len() == 0 {
                return Err(Error::SerializeError);
            }
            proof {
                assert(n.deep_view() matches NodeV::Mapping(iv2) && iv2 =~= items_view(
                    items@,
                ));
            }
            write_map_items(items, indent, out)
        },
        Node::Sequence(elems) => {
            if elems.len() == 0 {
                return Err(Error::SerializeError);
            }
            proof {
                assert(n.deep_view() matches NodeV::Sequence(cv2) && cv2 =~= nodes_view(
                    elems@,
                ));
            }
            write_seq_elems(elems, indent, out)
        },
        _ => Err(Error::SerializeError),
    }
}

/// Serializes a tree as block-style YAML text.  Succeeds and fails
/// exactly where the ghost printer [`yaml_block`] does at the outermost
/// indent, and then returns exactly its text.  The root must be a
/// non-empty mapping or sequence.
pub fn to_yaml(n: &Node) -> (r: Result<Vec<u8>, Error>)
    ensures
        (r is Ok) == (yaml_block(n.deep_view(), 0) is Some),
        r matches Ok(b) ==> yaml_block(n.deep_view(), 0) == Some(b@),
        r matches Err(e) ==> e == Error::SerializeError,
{
    let mut out: Vec<u8> = Vec::new();
    match write_block(n, 0, &mut out) {
        Ok(()) => Ok(out),
        Err(e) => Err(e),
    }
}


/// The index of the line break at or after `pos` (or the text's end).
pub open spec fn line_end_s(s: Seq<u8>, pos: int) -> int
    decreases s.len() - pos,
{
    if pos < 0 || pos >= s.len() {
        pos
    } else if s[pos] == 10 {
        pos
    } else {
        line_end_s(s, pos + 1)
    }
}

/// The index of the first non-space byte at or after `pos`.
pub open spec fn sp_run(s: Seq<u8>, pos: int) -> int
    decreases s.len() - pos,
{
    if pos < 0 || pos >= s.len() {
        pos
    } else if s[pos] == 32 {
        sp_run(s, pos + 1)
    } else {
        pos
    }
}

/// The position after any all-space lines at `pos`.
pub open spec fn sbl(s: Seq<u8>, pos: int) -> int
    decreases s.len() - pos,
{
    if pos < 0 || pos >= s.len() {
        pos
    } else {
        let e = line_end_s(s, pos);
        if e < pos || e > s.len() {
            pos
        } else if sp_run(s, pos) == e {
            if e >= s.len() {
                e
            } else {
                sbl(s, e + 1)
            }
        } else {
            pos
        }
    }
}

/// The typed scalar a plain text reads back as.
pub open spec fn scalar_text_s(raw: Seq<u8>) -> NodeV {
    if raw == crate::value::bool_text(true) {
        NodeV::Scalar(ScalarV::Bool(true))
    } else if raw == crate::value::bool_text(false) {
        NodeV::Scalar(ScalarV::Bool(false))
    } else if raw == crate::value::null_text() {
        NodeV::Scalar(ScalarV::Null)
    } else if crate::num::valid_i64_text(raw) {
        NodeV::Scalar(ScalarV::Int(crate::num::parsed_i64(raw)))
    } else if looks_numeric_s(raw) {
        NodeV::Scalar(ScalarV::Float(raw))
    } else {
        NodeV::Scalar(ScalarV::Str(raw))
    }
}

/// Reads a single-quoted body from index `i` (just after the opening
/// quote) up to `limit`: the unescaped bytes and the position after the
/// closing quote.
pub open spec fn pq_s(s: Seq<u8>, i: int, limit: int) -> Option<(Seq<u8>, int)>
    decreases limit - i,
{
    if i < 0 || i >= limit || limit > s.len() {
        None
    } else if s[i] == 39 {
        if i + 1 < limit && s[i + 1] == 39 {
            match pq_s(s, i + 2, limit) {
                Some(p) => Some((seq![39u8] + p.0, p.1)),
                None => None,
            }
        } else {
            Some((Seq::empty(), i + 1))
        }
    } else {
        match pq_s(s, i + 1, limit) {
            Some(p) => Some((seq![s[i]] + p.0, p.1)),
            None => None,
        }
    }
}

/// The end of the text once trailing spaces before `end` are dropped.
pub open spec fn rtrim(s: Seq<u8>, v: int, end: int) -> int
    decreases end,
{
    if end <= v || end < 1 || end > s.len() {
        end
    } else if s[end - 1] == 32 {
        rtrim(s, v, end - 1)
    } else {
        end
    }
}

/// The first non-space position in `[v, e)`, or `e`.
pub open spec fn nsp(s: Seq<u8>, v: int, e: int) -> int
    decreases e - v,
{
    if v < 0 || v >= e || e > s.len() {
        v
    } else if s[v] == 32 {
        nsp(s, v + 1, e)
    } else {
        v
    }
}

/// Reads the body lines of a literal block scalar: the collected text (one
/// line break per line), the position after the block, and whether any
/// content line was found.
pub open spec fn pbs_s(s: Seq<u8>, cur: int, indent: int, child: int, hc: bool) -> Option<
    (Seq<u8>, int, bool),
>
    decreases s.len() - cur,
{
    if cur < 0 || cur >= s.len() {
        Some((Seq::empty(), if cur < 0 {
            cur
        } else {
            s.len() as int
        }, hc))
    } else {
        let e = line_end_s(s, cur);
        let ind = sp_run(s, cur) - cur;
        if e < cur || e > s.len() {
            None
        } else if cur + ind == e {
            // A blank line inside the block.
            if e >= s.len() {
                Some((Seq::empty(), cur, hc))
            } else {
                match pbs_s(s, e + 1, indent, child, hc) {
                    Some(p) => Some((seq![10u8] + p.0, p.1, p.2)),
                    None => None,
                }
            }
        } else if !hc && ind <= indent {
            Some((Seq::empty(), cur, hc))
        } else {
            let child2 = if hc {
                child
            } else {
                ind
            };
            if hc && ind < child {
                Some((Seq::empty(), cur, hc))
            } else if cur + child2 > e {
                None
            } else {
                let piece = s.subrange(cur + child2, e);
                if e >= s.len() {
                    Some((piece, s.len() as int, true))
                } else {
                    match pbs_s(s, e + 1, indent, child2, true) {
                        Some(p) => Some((piece + seq![10u8] + p.0, p.1, p.2)),
                        None => None,
                    }
                }
            }
        }
    }
}

/// Drops every trailing line break.
pub open spec fn chomp_strip(t: Seq<u8>) -> Seq<u8>
    decreases t.len(),
{
    if t.len() > 0 && t.last() == 10 {
        chomp_strip(t.drop_last())
    } else {
        t
    }
}

/// Drops trailing line breaks down to one.
pub open spec fn chomp_keep(t: Seq<u8>) -> Seq<u8>
    decreases t.len(),
{
    if t.len() > 1 && t.last() == 10 && t[t.len() - 2] == 10 {
        chomp_keep(t.drop_last())
    } else {
        t
    }
}

/// Reads a whole literal block scalar whose header line ends at `hdr_end`.
pub open spec fn pbs_full(s: Seq<u8>, hdr_end: int, indent: int, strip: bool) -> Option<
    (Seq<u8>, int),
> {
    let start = if hdr_end >= s.len() {
        s.len() as int
    } else {
        hdr_end + 1
    };
    match pbs_s(s, start, indent, 0, false) {
        None => None,
        Some(p) => if !p.2 {
            None
        } else {
            Some((if strip {
                chomp_strip(p.0)
            } else {
                chomp_keep(p.0)
            }, p.1))
        },
    }
}

/// Reads the inline value of an entry or sequence item.
pub open spec fn piv_s(s: Seq<u8>, vstart: int, eolp: int, indent: int) -> Option<
    (NodeV, int),
> {
    let v = nsp(s, vstart, eolp);
    if v >= eolp || v < 0 || eolp > s.len() {
        None
    } else {
        let c = s[v];
        if c == 124 {
            let strip = v + 1 < eolp && s[v + 1] == 45;
            match pbs_full(s, eolp, indent, strip) {
                None => None,
                Some(p) => if p.1 <= vstart {
                    None
                } else {
                    Some((NodeV::Scalar(ScalarV::Str(p.0)), p.1))
                },
            }
        } else if c == 39 {
            match pq_s(s, v + 1, eolp) {
                None => None,
                Some(p) => {
                    let e2 = if eolp >= s.len() {
                        s.len() as int
                    } else {
                        eolp + 1
                    };
                    if e2 <= vstart {
                        None
                    } else {
                        Some((NodeV::Scalar(ScalarV::Str(p.0)), e2))
                    }
                },
            }
        } else {
            let end = rtrim(s, v, eolp);
            let raw = s.subrange(v, end);
            let e2 = if eolp >= s.len() {
                s.len() as int
            } else {
                eolp + 1
            };
            if e2 <= vstart || end < v {
                None
            } else {
                Some((scalar_text_s(raw), e2))
            }
        }
    }
}

/// The position of the colon ending a plain key, or `-1`.
pub open spec fn fkc_s(s: Seq<u8>, from: int, e: int) -> int
    decreases e - from,
{
    if from < 0 || from >= e || e > s.len() {
        -1
    } else if s[from] == 58 && (from + 1 >= e || s[from + 1] == 32) {
        from
    } else {
        fkc_s(s, from + 1, e)
    }
}

/// The end of the line starting at or containing `pos`.
#[verifier::loop_isolation(false)]
fn line_end(s: &Vec<u8>, pos: usize) -> (r: usize)
    requires
        pos <= s@.len(),
    ensures
        pos <= r <= s@.len(),
        r == line_end_s(s@, pos as int),
{
    let mut i = pos;
    while i < s.len() && s[i] != 10
        invariant
            pos <= i <= s@.len(),
            line_end_s(s@, pos as int) == line_end_s(s@, i as int),
        decreases s@.len() - i,
    {
        i += 1;
    }
    i
}

/// Number of leading spaces of the line at `pos`.
#[verifier::loop_isolation(false)]
fn indent_of(s: &Vec<u8>, pos: usize) -> (r: usize)
    requires
        pos <= s@.len(),
    ensures
        pos + r <= s@.len(),
        pos + r == sp_run(s@, pos as int),
{
    let mut i = pos;
    while i < s.len() && s[i] == 32
        invariant
            pos <= i <= s@.len(),
            sp_run(s@, pos as int) == sp_run(s@, i as int),
        decreases s@.len() - i,
    {
        i += 1;
    }
    i - pos
}

/// Skips lines that hold nothing but spaces.
#[verifier::loop_isolation(false)]
fn skip_blank_lines(s: &Vec<u8>, pos: usize) -> (r: usize)
    requires
        pos <= s@.len(),
    ensures
        pos <= r <= s@.len(),
        r == sbl(s@, pos as int),
    decreases s@.len() - pos,
{
    if pos >= s.len() {
        return pos;
    }
    let ind = indent_of(s, pos);
    let e = line_end(s, pos);
    if pos + ind == e {
        if e >= s.len() {
            return e;
        }
        skip_blank_lines(s, e + 1)
    } else {
        pos
    }
}

/// Reads a plain scalar text back into a typed scalar.
fn scalar_of_text(raw: Vec<u8>) -> (r: Node)
    ensures
        r.deep_view() matches NodeV::Scalar(_),
        r.deep_view() == scalar_text_s(raw@),
{
    let tr: Vec<u8> = vec![116, 114, 117, 101];
    let fa: Vec<u8> = vec![102, 97, 108, 115, 101];
    let nu: Vec<u8> = vec![110, 117, 108, 108];
    proof {
        assert(tr@ =~= crate::value::bool_text(true));
        assert(fa@ =~= crate::value::bool_text(false));
        assert(nu@ =~= crate::value::null_text());
    }
    if bytes_eq(&raw, &tr) {
        return Node::Scalar(Scalar::Bool(true));
    }
    if bytes_eq(&raw, &fa) {
        return Node::Scalar(Scalar::Bool(false));
    }
    if bytes_eq(&raw, &nu) {
        return Node::Scalar(Scalar::Null);
    }
    match parse_i64(&raw) {
        Some(v) => Node::Scalar(Scalar::Int(v)),
        None => {
            if looks_numeric(&raw) {
                Node::Scalar(Scalar::Float(raw))
            } else {
                Node::Scalar(Scalar::Str(raw))
            }
        },
    }
}

/// Reads a single-quoted text starting at `pos` (at the opening quote);
/// returns the unescaped bytes and the position after the closing quote.
#[verifier::loop_isolation(false)]
fn parse_quoted(s: &Vec<u8>, pos: usize, limit: usize) -> (r: Result<(Vec<u8>, usize), Error>)
    requires
        pos < limit <= s@.len(),
    ensures
        r matches Ok(p) ==> pos < p.1 <= limit && pq_s(s@, (pos + 1) as int, limit as int)
            == Some((p.0@, p.1 as int)),
        r matches Err(e) ==> e == Error::ParseError && pq_s(
            s@,
            (pos + 1) as int,
            limit as int,
        ) is None,
{
    let mut out: Vec<u8> = Vec::new();
    let mut i = pos + 1;
    while i < limit
        invariant
            pos < i <= limit <= s@.len(),
            pq_s(s@, (pos + 1) as int, limit as int) == crate::json::str_cont(
                out@,
                pq_s(s@, i as int, limit as int),
            ),
        decreases limit - i,
    {
        let c = s[i];
        if c == 39 {
            if i + 1 < limit && s[i + 1] == 39 {
                let ghost pre = out@;
                out.push(39);
                proof {
                    match pq_s(s@, i + 2, limit as int) {
                        Some(p) => {
                            assert(pre + (seq![39u8] + p.0) =~= out@ + p.0);
                        },
                        None => {},
                    }
                }
                i += 2;
            } else {
                proof {
                    assert(out@ + Seq::<u8>::empty() =~= out@);
                }
                return Ok((out, i + 1));
            }
        } else {
            let ghost pre = out@;
            out.push(c);
            proof {
                match pq_s(s@, i + 1, limit as int) {
                    Some(p) => {
                        assert(pre + (seq![c] + p.0) =~= out@ + p.0);
                    },
                    None => {},
                }
            }
            i += 1;
        }
    }
    Err(Error::ParseError)
}

/// A block body's remainder, with already-collected text in front.
pub open spec fn pbs_cont(
    done: Seq<u8>,
    rest: Option<(Seq<u8>, int, bool)>,
) -> Option<(Seq<u8>, int, bool)> {
    match rest {
        Some(p) => Some((done + p.0, p.1, p.2)),
        None => None,
    }
}

/// Drops trailing line breaks: all of them, or down to one.
fn chomp(text: Vec<u8>, strip: bool) -> (r: Vec<u8>)
    ensures
        r@ == if strip {
            chomp_strip(text@)
        } else {
            chomp_keep(text@)
        },
{
    let ghost t0 = text@;
    let mut text = text;
    if strip {
        while text.len() > 0 && text[text.len() - 1] == 10
            invariant
                chomp_strip(text@) == chomp_strip(t0),
            decreases text@.len(),
        {
            let ghost pre = text@;
            let _ = text.pop();
            proof {
                assert(text@ =~= pre.drop_last());
            }
        }
    } else {
        while text.len() > 1 && text[text.len() - 1] == 10 && text[text.len() - 2] == 10
            invariant
                chomp_keep(text@) == chomp_keep(t0),
            decreases text@.len(),
        {
            let ghost pre = text@;
            let _ = text.pop();
            proof {
                assert(text@ =~= pre.drop_last());
            }
        }
    }
    text
}

/// Reads a literal block scalar whose header line ends at `hdr_end`; body
/// lines are those more indented than `indent`.  Returns the text and the
/// position after the block; reads and fails exactly as the ghost
/// [`pbs_full`] says.
#[verifier::loop_isolation(false)]
#[verifier::rlimit(100)]
fn parse_block_scalar(s: &Vec<u8>, hdr_end: usize, indent: usize, strip: bool) -> (r: Result<
    (Vec<u8>, usize),
    Error,
>)
    requires
        hdr_end <= s@.len(),
    ensures
        r matches Ok(p) ==> hdr_end <= p.1 <= s@.len() && pbs_full(
            s@,
            hdr_end as int,
            indent as int,
            strip,
        ) == Some((p.0@, p.1 as int)),
        r matches Err(e) ==> e == Error::ParseError && pbs_full(
            s@,
            hdr_end as int,
            indent as int,
            strip,
        ) is None,
{
    let mut text: Vec<u8> = Vec::new();
    let start = if hdr_end >= s.len() {
        s.len()
    } else {
        hdr_end + 1
    };
    let mut cur = start;
    let mut child: usize = 0;
    let mut have_child = false;
    proof {
        match pbs_s(s@, cur as int, indent as int, child as int, have_child) {
            Some(p) => {
                assert(Seq::<u8>::empty() + p.0 =~= p.0);
            },
            None => {},
        }
    }
    loop
        invariant
            hdr_end <= cur <= s@.len(),
            start <= cur,
            pbs_s(s@, start as int, indent as int, 0, false) == pbs_cont(
                text@,
                pbs_s(s@, cur as int, indent as int, child as int, have_child),
            ),
        decreases s@.len() - cur,
    {
        if cur >= s.len() {
            break ;
        }
        let ghost pre = text@;
        let ind = indent_of(s, cur);
        let e = line_end(s, cur);
        if cur + ind == e {
            // A blank line inside the block.
            if e >= s.len() {
                break ;
            }
            text.push(10);
            proof {
                match pbs_s(s@, e + 1, indent as int, child as int, have_child) {
                    Some(p) => {
                        assert(pre + (seq![10u8] + p.0) =~= text@ + p.0);
                    },
                    None => {},
                }
            }
            cur = e + 1;
            continue ;
        }
        if !have_child {
            if ind <= indent {
                break ;
            }
            child = ind;
            have_child = true;
        }
        if ind < child {
            break ;
        }
        if cur + child > e {
            return Err(Error::ParseError);
        }
        push_range(&mut text, s, cur + child, e);
        let ghost piece = s@.subrange(cur + child, e as int);
        if e >= s.len() {
            // The document ends without a line break, so the text does too.
            proof {
                assert(text@ =~= pre + piece);
            }
            cur = s.len();
            break ;
        }
        text.push(10);
        proof {
            assert(text@ =~= pre + (piece + seq![10u8]));
            match pbs_s(s@, e + 1, indent as int, child as int, true) {
                Some(p) => {
                    assert(pre + (piece + seq![10u8] + p.0) =~= text@ + p.0);
                },
                None => {},
            }
        }
        cur = e + 1;
    }
    proof {
        assert(pbs_s(s@, cur as int, indent as int, child as int, have_child) == Some(
            (Seq::<u8>::empty(), cur as int, have_child),
        ));
        assert(text@ + Seq::<u8>::empty() =~= text@);
    }
    if !have_child {
        return Err(Error::ParseError);
    }
    let out = chomp(text, strip);
    Ok((out, cur))
}

/// Reads the inline value of an entry or sequence item: a quoted or plain
/// scalar on the line, or a literal block scalar on the following lines.
#[verifier::loop_isolation(false)]
fn parse_inline_value(s: &Vec<u8>, vstart: usize, eolp: usize, indent: usize) -> (r: Result<
    (Node, usize),
    Error,
>)
    requires
        vstart <= eolp <= s@.len(),
    ensures
        r matches Ok(p) ==> vstart < p.1 <= s@.len() && (p.0.deep_view() matches
            NodeV::Scalar(_)) && piv_s(s@, vstart as int, eolp as int, indent as int)
            == Some((p.0.deep_view(), p.1 as int)),
        r matches Err(e) ==> e == Error::ParseError && piv_s(
            s@,
            vstart as int,
            eolp as int,
            indent as int,
        ) is None,
{
    let mut v = vstart;
    while v < eolp && s[v] == 32
        invariant
            vstart <= v <= eolp,
            nsp(s@, vstart as int, eolp as int) == nsp(s@, v as int, eolp as int),
        decreases eolp - v,
    {
        v += 1;
    }
    if v >= eolp {
        return Err(Error::ParseError);
    }
    let c = s[v];
    if c == 124 {
        let strip = v + 1 < eolp && s[v + 1] == 45;
        let (text, np) = match parse_block_scalar(s, eolp, indent, strip) {
            Ok(p) => p,
            Err(e) => {
                return Err(e);
            },
        };
        if np <= vstart {
            return Err(Error::ParseError);
        }
        Ok((Node::Scalar(Scalar::Str(text)), np))
    } else if c == 39 {
        let (t, np) = match parse_quoted(s, v, eolp) {
            Ok(p) => p,
            Err(e) => {
                return Err(e);
            },
        };
        let e2 = if eolp >= s.len() {
            s.len()
        } else {
            eolp + 1
        };
        if e2 <= vstart {
            return Err(Error::ParseError);
        }
        Ok((Node::Scalar(Scalar::Str(t)), e2))
    } else {
        let mut end = eolp;
        while end > v && s[end - 1] == 32
            invariant
                v <= end <= eolp,
                rtrim(s@, v as int, eolp as int) == rtrim(s@, v as int, end as int),
            decreases end,
        {
            end -= 1;
        }
        let mut raw: Vec<u8> = Vec::new();
        push_range(&mut raw, s, v, end);
        let e2 = if eolp >= s.len() {
            s.len()
        } else {
            eolp + 1
        };
        if e2 <= vstart {
            return Err(Error::ParseError);
        }
        Ok((scalar_of_text(raw), e2))
    }
}

/// The position of the colon ending a plain key, if any: the first colon
/// followed by a space or the line end.
#[verifier::loop_isolation(false)]
fn find_key_colon(s: &Vec<u8>, from: usize, e: usize) -> (r: Option<usize>)
    requires
        from <= e <= s@.len(),
    ensures
        r matches Some(j) ==> from <= j < e && fkc_s(s@, from as int, e as int) == j,
        r is None ==> fkc_s(s@, from as int, e as int) == -1,
{
    let mut j = from;
    while j < e
        invariant
            from <= j <= e,
            fkc_s(s@, from as int, e as int) == fkc_s(s@, j as int, e as int),
        decreases e - j,
    {
        if s[j] == 58 && (j + 1 >= e || s[j + 1] == 32) {
            return Some(j);
        }
        j += 1;
    }
    None
}


/// Does the block at `probe` open as a sequence?  Scans past comments to
/// the first content line at the block's own indent; `None` on a line the
/// subset cannot read.
pub open spec fn probe_s(s: Seq<u8>, probe: int, indent: int) -> Option<bool>
    decreases s.len() - probe,
{
    if probe < 0 || probe >= s.len() {
        Some(false)
    } else {
        let p2 = sbl(s, probe);
        if p2 >= s.len() || p2 < probe {
            Some(false)
        } else {
            let ind = sp_run(s, p2) - p2;
            if ind < indent {
                Some(false)
            } else {
                let cpos = p2 + ind;
                let e = line_end_s(s, p2);
                if e < p2 || e > s.len() {
                    Some(false)
                } else if cpos >= e {
                    None
                } else if ind == indent && s[cpos] != 35 {
                    Some(s[cpos] == 45 && (cpos + 1 >= e || s[cpos + 1] == 32))
                } else if e >= s.len() {
                    Some(false)
                } else if e + 1 <= probe {
                    Some(false)
                } else {
                    probe_s(s, e + 1, indent)
                }
            }
        }
    }
}

/// Reads the elements of a sequence block from `cur` on, given the
/// elements already read; yields all elements and the position after the
/// block.
pub open spec fn selems(s: Seq<u8>, cur: int, indent: int, acc: Seq<NodeV>) -> Option<
    (Seq<NodeV>, int),
>
    decreases s.len() - cur, 0int,
{
    if cur < 0 || cur > s.len() {
        None
    } else {
        let c2 = sbl(s, cur);
        if c2 >= s.len() {
            Some((acc, c2))
        } else {
            let ind = sp_run(s, c2) - c2;
            if ind < indent {
                Some((acc, c2))
            } else if ind > indent {
                None
            } else {
                let cpos = c2 + ind;
                let e = line_end_s(s, c2);
                if e < c2 || e > s.len() || cpos >= e {
                    None
                } else if s[cpos] == 35 {
                    let tstart = if cpos + 1 < e && s[cpos + 1] == 32 {
                        cpos + 2
                    } else {
                        cpos + 1
                    };
                    let t = s.subrange(tstart, e);
                    if e >= s.len() {
                        Some((acc.push(NodeV::Comment(t)), s.len() as int))
                    } else if e + 1 <= cur {
                        None
                    } else {
                        selems(s, e + 1, indent, acc.push(NodeV::Comment(t)))
                    }
                } else if s[cpos] != 45 {
                    None
                } else {
                    let vp = if cpos + 1 >= e {
                        if e >= s.len() {
                            None
                        } else {
                            let nxt = sbl(s, e + 1);
                            if nxt >= s.len() {
                                None
                            } else {
                                let cind = sp_run(s, nxt) - nxt;
                                if cind <= indent || e + 1 <= cur {
                                    None
                                } else {
                                    pyb(s, e + 1, cind)
                                }
                            }
                        }
                    } else {
                        piv_s(s, cpos + 1, e, indent)
                    };
                    match vp {
                        None => None,
                        Some(p) => if p.1 <= cur || p.1 > s.len() {
                            None
                        } else {
                            selems(s, p.1, indent, acc.push(p.0))
                        },
                    }
                }
            }
        }
    }
}

/// Reads the entries of a mapping block from `cur` on, given the items
/// already read (whose keys bar duplicates); yields all items and the
/// position after the block.
pub open spec fn sitems(s: Seq<u8>, cur: int, indent: int, acc: Seq<MapItemV>) -> Option<
    (Seq<MapItemV>, int),
>
    decreases s.len() - cur, 0int,
{
    if cur < 0 || cur > s.len() {
        None
    } else {
        let c2 = sbl(s, cur);
        if c2 >= s.len() {
            Some((acc, c2))
        } else {
            let ind = sp_run(s, c2) - c2;
            if ind < indent {
                Some((acc, c2))
            } else if ind > indent {
                None
            } else {
                let cpos = c2 + ind;
                let e = line_end_s(s, c2);
                if e < c2 || e > s.len() || cpos >= e {
                    None
                } else if s[cpos] == 35 {
                    let tstart = if cpos + 1 < e && s[cpos + 1] == 32 {
                        cpos + 2
                    } else {
                        cpos + 1
                    };
                    let t = s.subrange(tstart, e);
                    if e >= s.len() {
                        Some((acc.push(MapItemV::Comment(t)), s.len() as int))
                    } else if e + 1 <= cur {
                        None
                    } else {
                        sitems(s, e + 1, indent, acc.push(MapItemV::Comment(t)))
                    }
                } else {
                    let kp: Option<(Seq<u8>, int)> = if s[cpos] == 39 {
                        match pq_s(s, cpos + 1, e) {
                            None => None,
                            Some(q) => if q.1 >= e || s[q.1] != 58 {
                                None
                            } else {
                                Some((q.0, q.1 + 1))
                            },
                        }
                    } else {
                        let j = fkc_s(s, cpos, e);
                        if j < 0 {
                            None
                        } else {
                            Some((s.subrange(cpos, j), j + 1))
                        }
                    };
                    match kp {
                        None => None,
                        Some(ka) => {
                            if crate::path::key_index(acc, ka.0) >= 0 {
                                None
                            } else {
                                let after = ka.1;
                                let v2 = nsp(s, after, e);
                                let vp: Option<(NodeV, int)> = if v2 >= e {
                                    if e >= s.len() {
                                        Some((NodeV::Scalar(ScalarV::Null), s.len() as int))
                                    } else {
                                        let nxt = sbl(s, e + 1);
                                        let deeper = nxt < s.len() && sp_run(s, nxt) - nxt
                                            > indent;
                                        if deeper {
                                            let cind = sp_run(s, nxt) - nxt;
                                            if e + 1 <= cur {
                                                None
                                            } else {
                                                pyb(s, e + 1, cind)
                                            }
                                        } else {
                                            Some((NodeV::Scalar(ScalarV::Null), e + 1))
                                        }
                                    }
                                } else {
                                    piv_s(s, after, e, indent)
                                };
                                match vp {
                                    None => None,
                                    Some(p) => if p.1 <= cur || p.1 > s.len() {
                                        None
                                    } else {
                                        sitems(
                                            s,
                                            p.1,
                                            indent,
                                            acc.push(MapItemV::Entry(ka.0, p.0)),
                                        )
                                    },
                                }
                            }
                        },
                    }
                }
            }
        }
    }
}

/// Reads a block (mapping or sequence) whose lines sit at exactly
/// `indent`: the tree and the position after the block.
pub open spec fn pyb(s: Seq<u8>, pos: int, indent: int) -> Option<(NodeV, int)>
    decreases s.len() - pos, 1int,
{
    if pos < 0 || pos > s.len() {
        None
    } else {
        let start = sbl(s, pos);
        if start >= s.len() || start < pos {
            None
        } else {
            let ind0 = sp_run(s, start) - start;
            if ind0 != indent {
                None
            } else {
                match probe_s(s, start, indent) {
                    None => None,
                    Some(seq_mode) => if seq_mode {
                        match selems(s, start, indent, Seq::empty()) {
                            None => None,
                            Some(p) => if p.0.len() == 0 || p.1 <= pos {
                                None
                            } else {
                                Some((NodeV::Sequence(p.0), p.1))
                            },
                        }
                    } else {
                        match sitems(s, start, indent, Seq::empty()) {
                            None => None,
                            Some(p) => if p.0.len() == 0 || p.1 <= pos {
                                None
                            } else {
                                Some((NodeV::Mapping(p.0), p.1))
                            },
                        }
                    },
                }
            }
        }
    }
}

/// Reads a whole YAML document of the block subset: one block at the
/// outermost indent with only blank lines after it.
pub open spec fn yaml_parse(s: Seq<u8>) -> Option<NodeV> {
    match pyb(s, 0, 0) {
        None => None,
        Some(p) => if sbl(s, p.1) == s.len() {
            Some(p.0)
        } else {
            None
        },
    }
}

/// Decides between a sequence and a mapping by the first line that is not
/// a comment; exactly as the ghost [`probe_s`] does.
#[verifier::loop_isolation(false)]
fn probe_mode(s: &Vec<u8>, start: usize, indent: usize) -> (r: Result<bool, Error>)
    requires
        start <= s@.len(),
    ensures
        r matches Ok(b) ==> probe_s(s@, start as int, indent as int) == Some(b),
        r matches Err(e) ==> e == Error::ParseError && probe_s(
            s@,
            start as int,
            indent as int,
        ) is None,
{
    let mut probe = start;
    while probe < s.len()
        invariant
            start <= probe <= s@.len(),
            probe_s(s@, start as int, indent as int) == probe_s(
                s@,
                probe as int,
                indent as int,
            ),
        decreases s@.len() - probe,
    {
        let p2 = skip_blank_lines(s, probe);
        if p2 >= s.len() {
            return Ok(false);
        }
        let ind = indent_of(s, p2);
        if ind < indent {
            return Ok(false);
        }
        let cpos = p2 + ind;
        let e = line_end(s, p2);
        if cpos >= e {
            return Err(Error::ParseError);
        }
        if ind == indent && s[cpos] != 35 {
            return Ok(s[cpos] == 45 && (cpos + 1 >= e || s[cpos + 1] == 32));
        }
        if e >= s.len() {
            return Ok(false);
        }
        probe = e + 1;
    }
    Ok(false)
}

/// Closes a sequence block: the read elements become the tree, provided
/// the block was not empty and made progress.
#[verifier::loop_isolation(false)]
fn finish_seq(s: &Vec<u8>, elems: Vec<Node>, cur: usize, pos: usize, indent: usize) -> (r:
    Result<(Node, usize), Error>)
    requires
        pos <= s@.len(),
        cur <= s@.len(),
        crate::tree::elems_wf(nodes_view(elems@)),
        pos <= sbl(s@, pos as int) < s@.len(),
        sp_run(s@, sbl(s@, pos as int)) - sbl(s@, pos as int) == indent,
        probe_s(s@, sbl(s@, pos as int), indent as int) == Some(true),
        selems(s@, sbl(s@, pos as int), indent as int, Seq::empty()) == Some(
            (nodes_view(elems@), cur as int),
        ),
    ensures
        r matches Ok(p) ==> pos < p.1 <= s@.len() && node_wf(p.0.deep_view()) && pyb(
            s@,
            pos as int,
            indent as int,
        ) == Some((p.0.deep_view(), p.1 as int)),
        r matches Err(e) ==> e == Error::ParseError && pyb(s@, pos as int, indent as int)
            is None,
{
    if elems.len() == 0 {
        return Err(Error::ParseError);
    }
    if cur <= pos {
        return Err(Error::ParseError);
    }
    let ghost fv = nodes_view(elems@);
    let n = Node::Sequence(elems);
    proof {
        match n.deep_view() {
            NodeV::Sequence(cv) => {
                assert(cv =~= fv);
                assert(node_wf(n.deep_view()));
            },
            _ => {
                assert(false);
            },
        }
    }
    Ok((n, cur))
}

/// Closes a mapping block, as [`finish_seq`] does for sequences.
#[verifier::loop_isolation(false)]
fn finish_map(s: &Vec<u8>, items: Vec<MapItem>, cur: usize, pos: usize, indent: usize) -> (r:
    Result<(Node, usize), Error>)
    requires
        pos <= s@.len(),
        cur <= s@.len(),
        keys_unique(items_view(items@)),
        crate::tree::items_wf(items_view(items@)),
        pos <= sbl(s@, pos as int) < s@.len(),
        sp_run(s@, sbl(s@, pos as int)) - sbl(s@, pos as int) == indent,
        probe_s(s@, sbl(s@, pos as int), indent as int) == Some(false),
        sitems(s@, sbl(s@, pos as int), indent as int, Seq::empty()) == Some(
            (items_view(items@), cur as int),
        ),
    ensures
        r matches Ok(p) ==> pos < p.1 <= s@.len() && node_wf(p.0.deep_view()) && pyb(
            s@,
            pos as int,
            indent as int,
        ) == Some((p.0.deep_view(), p.1 as int)),
        r matches Err(e) ==> e == Error::ParseError && pyb(s@, pos as int, indent as int)
            is None,
{
    if items.len() == 0 {
        return Err(Error::ParseError);
    }
    if cur <= pos {
        return Err(Error::ParseError);
    }
    let ghost fv = items_view(items@);
    let n = Node::Mapping(items);
    proof {
        match n.deep_view() {
            NodeV::Mapping(iv) => {
                assert(iv =~= fv);
                assert(node_wf(n.deep_view()));
            },
            _ => {
                assert(false);
            },
        }
    }
    Ok((n, cur))
}

/// Parses a block (mapping or sequence) whose lines sit at exactly
/// `indent`.  Reads and fails exactly as the ghost [`pyb`] does; every
/// mapping of the result has unique keys.
#[verifier::loop_isolation(false)]
#[verifier::rlimit(100)]
pub fn parse_yaml_block(s: &Vec<u8>, pos: usize, indent: usize) -> (r: Result<
    (Node, usize),
    Error,
>)
    requires
        pos <= s@.len(),
    ensures
        r matches Ok(p) ==> pos < p.1 <= s@.len() && node_wf(p.0.deep_view()) && pyb(
            s@,
            pos as int,
            indent as int,
        ) == Some((p.0.deep_view(), p.1 as int)),
        r matches Err(e) ==> e == Error::ParseError && pyb(s@, pos as int, indent as int)
            is None,
    decreases s@.len() - pos, 0int,
{
    let start = skip_blank_lines(s, pos);
    if start >= s.len() {
        return Err(Error::ParseError);
    }
    let ind0 = indent_of(s, start);
    if ind0 != indent {
        return Err(Error::ParseError);
    }
    let seq_mode = match probe_mode(s, start, indent) {
        Ok(b) => b,
        Err(e) => {
            return Err(e);
        },
    };
    if seq_mode {
        let mut elems: Vec<Node> = Vec::new();
        let mut cur = start;
        proof {
            assert(nodes_view(elems@) =~= Seq::<NodeV>::empty());
        }
        loop
            invariant
                start <= cur <= s@.len(),
                crate::tree::elems_wf(nodes_view(elems@)),
                selems(s@, start as int, indent as int, Seq::empty()) == selems(
                    s@,
                    cur as int,
                    indent as int,
                    nodes_view(elems@),
                ),
            decreases s@.len() - cur,
        {
            let ghost acc = nodes_view(elems@);
            let c2 = skip_blank_lines(s, cur);
            if c2 >= s.len() {
                return finish_seq(s, elems, c2, pos, indent);
            }
            let ind = indent_of(s, c2);
            if ind < indent {
                return finish_seq(s, elems, c2, pos, indent);
            }
            if ind > indent {
                return Err(Error::ParseError);
            }
            let cpos = c2 + ind;
            let e = line_end(s, c2);
            if cpos >= e {
                return Err(Error::ParseError);
            }
            if s[cpos] == 35 {
                let tstart = if cpos + 1 < e && s[cpos + 1] == 32 {
                    cpos + 2
                } else {
                    cpos + 1
                };
                let mut t: Vec<u8> = Vec::new();
                push_range(&mut t, s, tstart, e);
                let ghost cv = Node::Comment(t).deep_view();
                proof {
                    assert(cv matches NodeV::Comment(_));
                    assert(node_wf(cv));
                }
                elems.push(Node::Comment(t));
                proof {
                    let newv = nodes_view(elems@);
                    assert(newv =~= acc.push(cv));
                    assert(newv.drop_last() =~= acc);
                    assert(newv.last() == cv);
                    assert(crate::tree::elems_wf(newv));
                }
                if e >= s.len() {
                    return finish_seq(s, elems, s.len(), pos, indent);
                }
                cur = e + 1;
                continue ;
            }
            if s[cpos] != 45 {
                return Err(Error::ParseError);
            }
            let (v, np) = if cpos + 1 >= e {
                // A nested block under a bare dash.
                if e >= s.len() {
                    return Err(Error::ParseError);
                }
                let nxt = skip_blank_lines(s, e + 1);
                if nxt >= s.len() {
                    return Err(Error::ParseError);
                }
                let cind = indent_of(s, nxt);
                if cind <= indent {
                    return Err(Error::ParseError);
                }
                match parse_yaml_block(s, e + 1, cind) {
                    Ok(p) => p,
                    Err(er) => {
                        return Err(er);
                    },
                }
            } else {
                match parse_inline_value(s, cpos + 1, e, indent) {
                    Ok(p) => p,
                    Err(er) => {
                        return Err(er);
                    },
                }
            };
            let ghost vv = v.deep_view();
            proof {
                assert(node_wf(vv));
            }
            elems.push(v);
            proof {
                let newv = nodes_view(elems@);
                assert(newv =~= acc.push(vv));
                assert(newv.drop_last() =~= acc);
                assert(newv.last() == vv);
                assert(crate::tree::elems_wf(newv));
            }
            if np <= cur {
                return Err(Error::ParseError);
            }
            cur = np;
        }
    } else {
        let mut items: Vec<MapItem> = Vec::new();
        let mut cur = start;
        proof {
            assert(items_view(items@) =~= Seq::<MapItemV>::empty());
        }
        loop
            invariant
                start <= cur <= s@.len(),
                keys_unique(items_view(items@)),
                crate::tree::items_wf(items_view(items@)),
                sitems(s@, start as int, indent as int, Seq::empty()) == sitems(
                    s@,
                    cur as int,
                    indent as int,
                    items_view(items@),
                ),
            decreases s@.len() - cur,
        {
            let ghost acc = items_view(items@);
            let c2 = skip_blank_lines(s, cur);
            if c2 >= s.len() {
                return finish_map(s, items, c2, pos, indent);
            }
            let ind = indent_of(s, c2);
            if ind < indent {
                return finish_map(s, items, c2, pos, indent);
            }
            if ind > indent {
                return Err(Error::ParseError);
            }
            let cpos = c2 + ind;
            let e = line_end(s, c2);
            if cpos >= e {
                return Err(Error::ParseError);
            }
            if s[cpos] == 35 {
                let tstart = if cpos + 1 < e && s[cpos + 1] == 32 {
                    cpos + 2
                } else {
                    cpos + 1
                };
                let mut t: Vec<u8> = Vec::new();
                push_range(&mut t, s, tstart, e);
                let ghost cv = MapItem::Comment(t).deep_view();
                proof {
                    assert(cv matches MapItemV::Comment(_));
                }
                items.push(MapItem::Comment(t));
                proof {
                    let newv = items_view(items@);
                    assert(newv =~= acc.push(cv));
                    assert(newv.drop_last() =~= acc);
                    assert(newv.last() == cv);
                    assert(crate::tree::items_wf(newv));
                    assert(keys_unique(newv)) by {
                        assert forall|a: int, b: int|
                            0 <= a < b < newv.len() && crate::tree::item_key(
                                #[trigger] newv[a],
                            ) is Some && crate::tree::item_key(#[trigger] newv[b]) is Some
                            implies crate::tree::item_key(newv[a]) != crate::tree::item_key(
                            newv[b],
                        ) by {
                            assert(newv[a] == acc[a]);
                            if b < newv.len() - 1 {
                                assert(newv[b] == acc[b]);
                            }
                        }
                    }
                }
                if e >= s.len() {
                    return finish_map(s, items, s.len(), pos, indent);
                }
                cur = e + 1;
                continue ;
            }
            // Read the key.
            let (k, after) = if s[cpos] == 39 {
                let (kq, kend) = match parse_quoted(s, cpos, e) {
                    Ok(p) => p,
                    Err(er) => {
                        return Err(er);
                    },
                };
                if kend >= e || s[kend] != 58 {
                    return Err(Error::ParseError);
                }
                (kq, kend + 1)
            } else {
                let j = match find_key_colon(s, cpos, e) {
                    Some(j) => j,
                    None => {
                        return Err(Error::ParseError);
                    },
                };
                let mut kb: Vec<u8> = Vec::new();
                push_range(&mut kb, s, cpos, j);
                (kb, j + 1)
            };
            if let Some(_) = key_index_exec(&items, &k) {
                return Err(Error::ParseError);
            }
            // Read the value: inline on this line, or a nested block.
            let mut v2 = after;
            while v2 < e && s[v2] == 32
                invariant
                    after <= v2 <= e,
                    nsp(s@, after as int, e as int) == nsp(s@, v2 as int, e as int),
                decreases e - v2,
            {
                v2 += 1;
            }
            let (v, np) = if v2 >= e {
                if e >= s.len() {
                    (Node::Scalar(Scalar::Null), s.len())
                } else {
                    let nxt = skip_blank_lines(s, e + 1);
                    let deeper = if nxt < s.len() {
                        indent_of(s, nxt) > indent
                    } else {
                        false
                    };
                    if deeper {
                        let cind = indent_of(s, nxt);
                        match parse_yaml_block(s, e + 1, cind) {
                            Ok(p) => p,
                            Err(er) => {
                                return Err(er);
                            },
                        }
                    } else {
                        (Node::Scalar(Scalar::Null), e + 1)
                    }
                }
            } else {
                match parse_inline_value(s, after, e, indent) {
                    Ok(p) => p,
                    Err(er) => {
                        return Err(er);
                    },
                }
            };
            let ghost kv = k@;
            let ghost vv = v.deep_view();
            let it = MapItem::Entry(k, v);
            let ghost itv = it.deep_view();
            proof {
                assert(itv == MapItemV::Entry(kv, vv));
                assert(node_wf(vv));
                lemma_key_index_absent(acc, kv);
            }
            items.push(it);
            proof {
                let newv = items_view(items@);
                assert(newv =~= acc.push(itv));
                assert(newv.drop_last() =~= acc);
                assert(newv.last() == itv);
                assert(keys_unique(newv)) by {
                    assert forall|a: int, b: int|
                        0 <= a < b < newv.len() && crate::tree::item_key(
                            #[trigger] newv[a],
                        ) is Some && crate::tree::item_key(#[trigger] newv[b]) is Some
                        implies crate::tree::item_key(newv[a]) != crate::tree::item_key(
                        newv[b],
                    ) by {
                        assert(newv[a] == acc[a]);
                        if b < newv.len() - 1 {
                            assert(newv[b] == acc[b]);
                        } else {
                            assert(crate::tree::item_key(newv[b]) == Some(kv));
                        }
                    }
                }
                assert(crate::tree::items_wf(newv));
            }
            if np <= cur {
                return Err(Error::ParseError);
            }
            cur = np;
        }
    }
}

/// Parses a whole YAML document of the block subset.  Succeeds and fails
/// exactly where the ghost [`yaml_parse`] does, and then returns exactly
/// its tree; every mapping of the result has unique keys.
pub fn parse_yaml(s: &Vec<u8>) -> (r: Result<Node, Error>)
    ensures
        (r is Ok) == (yaml_parse(s@) is Some),
        r matches Ok(t) ==> yaml_parse(s@) == Some(t.deep_view()) && node_wf(t.deep_view()),
        r matches Err(e) ==> e == Error::ParseError,
{
    let (n, p) = match parse_yaml_block(s, 0, 0) {
        Ok(np) => np,
        Err(e) => {
            return Err(e);
        },
    };
    let p2 = skip_blank_lines(s, p);
    if p2 != s.len() {
        return Err(Error::ParseError);
    }
    Ok(n)
}

} // verus!
