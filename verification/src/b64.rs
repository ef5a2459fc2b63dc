//! Base64 (standard alphabet, padded) with an exact decode/encode round trip.

use vstd::prelude::*;

verus! {

/// The alphabet character for a sextet (meaningful for `v < 64`).
pub open spec fn b64_char(v: u8) -> u8 {
    if v < 26 {
        (65 + v) as u8
    } else if v < 52 {
        (71 + v) as u8
    } else if v < 62 {
        (v - 4) as u8
    } else if v == 62 {
        43
    } else {
        47
    }
}

/// Is `c` an alphabet character (excluding padding)?
pub open spec fn is_b64_digit(c: u8) -> bool {
    (65 <= c <= 90) || (97 <= c <= 122) || (48 <= c <= 57) || c == 43 || c == 47
}

/// The sextet of an alphabet character (meaningful when `is_b64_digit(c)`).
pub open spec fn b64_v(c: u8) -> u8 {
    if 65 <= c <= 90 {
        (c - 65) as u8
    } else if 97 <= c <= 122 {
        (c - 71) as u8
    } else if 48 <= c <= 57 {
        (c + 4) as u8
    } else if c == 43 {
        62
    } else {
        63
    }
}

/// The base64 text of a byte string.
pub open spec fn b64_enc(s: Seq<u8>) -> Seq<u8>
    decreases s.len(),
{
    if s.len() == 0 {
        Seq::empty()
    } else if s.len() == 1 {
        let b0 = s[0];
        seq![b64_char(b0 >> 2), b64_char((b0 & 3) << 4), 61u8, 61u8]
    } else if s.len() == 2 {
        let b0 = s[0];
        let b1 = s[1];
        seq![
            b64_char(b0 >> 2),
            b64_char(((b0 & 3) << 4) | (b1 >> 4)),
            b64_char((b1 & 15) << 2),
            61u8,
        ]
    } else {
        let b0 = s[0];
        let b1 = s[1];
        let b2 = s[2];
        seq![
            b64_char(b0 >> 2),
            b64_char(((b0 & 3) << 4) | (b1 >> 4)),
            b64_char(((b1 & 15) << 2) | (b2 >> 6)),
            b64_char(b2 & 63),
        ] + b64_enc(s.skip(3))
    }
}

/// Strict base64 decoding: `None` on any text that `b64_enc` cannot produce.
pub open spec fn b64_dec(s: Seq<u8>) -> Option<Seq<u8>>
    decreases s.len(),
{
    if s.len() == 0 {
        Some(Seq::empty())
    } else if s.len() < 4 {
        None
    } else if !is_b64_digit(s[0]) || !is_b64_digit(s[1]) {
        None
    } else {
        let v0 = b64_v(s[0]);
        let v1 = b64_v(s[1]);
        if s[2] == 61 {
            if s.len() == 4 && s[3] == 61 && (v1 & 15) == 0 {
                Some(seq![(v0 << 2) | (v1 >> 4)])
            } else {
                None
            }
        } else if !is_b64_digit(s[2]) {
            None
        } else {
            let v2 = b64_v(s[2]);
            if s[3] == 61 {
                if s.len() == 4 && (v2 & 3) == 0 {
                    Some(seq![(v0 << 2) | (v1 >> 4), (v1 << 4) | (v2 >> 2)])
                } else {
                    None
                }
            } else if !is_b64_digit(s[3]) {
                None
            } else {
                let v3 = b64_v(s[3]);
                match b64_dec(s.skip(4)) {
                    Some(rest) => Some(
                        seq![
                            (v0 << 2) | (v1 >> 4),
                            (v1 << 4) | (v2 >> 2),
                            (v2 << 6) | v3,
                        ] + rest,
                    ),
                    None => None,
                }
            }
        }
    }
}

/// Base64 text never holds a comma, a closing bracket or a colon, so it can
/// be scanned for inside the textual encoding of an encrypted value.
pub open spec fn b64_sane(s: Seq<u8>) -> bool {
    forall|i: int|
        0 <= i < s.len() ==> (#[trigger] s[i] != 44 && s[i] != 93 && s[i] != 58 && s[i] != 91)
}

/// Alphabet facts for one sextet.
proof fn lemma_b64_char(v: u8)
    requires
        v < 64,
    ensures
        is_b64_digit(b64_char(v)),
        b64_v(b64_char(v)) == v,
        b64_char(v) != 61,
        b64_char(v) != 44,
        b64_char(v) != 93,
        b64_char(v) != 58,
        b64_char(v) != 91,
{
}

/// Exec mirror of [`b64_char`].
fn b64_char_of(v: u8) -> (r: u8)
    requires
        v < 64,
    ensures
        r == b64_char(v),
{
    if v < 26 {
        65 + v
    } else if v < 52 {
        71 + v
    } else if v < 62 {
        v - 4
    } else if v == 62 {
        43
    } else {
        47
    }
}

/// Exec mirror of [`b64_v`], with a validity flag.
fn b64_v_of(c: u8) -> (r: (bool, u8))
    ensures
        r.0 == is_b64_digit(c),
        r.1 == b64_v(c),
{
    if 65 <= c && c <= 90 {
        (true, c - 65)
    } else if 97 <= c && c <= 122 {
        (true, c - 71)
    } else if 48 <= c && c <= 57 {
        (true, c + 4)
    } else if c == 43 {
        (true, 62)
    } else if c == 47 {
        (true, 63)
    } else {
        (false, 63)
    }
}

fn b64_encode_from(s: &Vec<u8>, i: usize, out: &mut Vec<u8>)
    requires
        i <= s@.len(),
    ensures
        final(out)@ == old(out)@ + b64_enc(s@.skip(i as int)),
    decreases s@.len() - i,
{
    let ghost t = s@.skip(i as int);
    let n = s.len() - i;
    if n == 0 {
        proof {
            assert(out@ =~= old(out)@ + b64_enc(t));
        }
    } else if n == 1 {
        let b0 = s[i];
        proof {
            assert(t[0] == s@[i as int]);
            assert(b0 >> 2 < 64 && (b0 & 3) << 4 < 64) by (bit_vector);
        }
        out.push(b64_char_of(b0 >> 2));
        out.push(b64_char_of((b0 & 3) << 4));
        out.push(61);
        out.push(61);
        proof {
            assert(out@ =~= old(out)@ + b64_enc(t));
        }
    } else if n == 2 {
        let b0 = s[i];
        let b1 = s[i + 1];
        proof {
            assert(t[0] == s@[i as int] && t[1] == s@[i + 1]);
            assert(b0 >> 2 < 64 && ((b0 & 3) << 4) | (b1 >> 4) < 64 && (b1 & 15) << 2 < 64)
                by (bit_vector);
        }
        out.push(b64_char_of(b0 >> 2));
        out.push(b64_char_of(((b0 & 3) << 4) | (b1 >> 4)));
        out.push(b64_char_of((b1 & 15) << 2));
        out.push(61);
        proof {
            assert(out@ =~= old(out)@ + b64_enc(t));
        }
    } else {
        let b0 = s[i];
        let b1 = s[i + 1];
        let b2 = s[i + 2];
        proof {
            assert(t[0] == s@[i as int] && t[1] == s@[i + 1] && t[2] == s@[i + 2]);
            assert(b0 >> 2 < 64 && ((b0 & 3) << 4) | (b1 >> 4) < 64 && ((b1 & 15) << 2) | (b2
                >> 6) < 64 && b2 & 63 < 64) by (bit_vector);
        }
        out.push(b64_char_of(b0 >> 2));
        out.push(b64_char_of(((b0 & 3) << 4) | (b1 >> 4)));
        out.push(b64_char_of(((b1 & 15) << 2) | (b2 >> 6)));
        out.push(b64_char_of(b2 & 63));
        b64_encode_from(s, i + 3, out);
        proof {
            assert(t.skip(3) =~= s@.skip(i + 3));
            assert(out@ =~= old(out)@ + b64_enc(t));
        }
    }
}

/// Encodes bytes as base64 text.
pub fn b64_encode(s: &Vec<u8>) -> (r: Vec<u8>)
    ensures
        r@ == b64_enc(s@),
{
    let mut out: Vec<u8> = Vec::new();
    proof {
        assert(s@.skip(0) =~= s@);
    }
    b64_encode_from(s, 0, &mut out);
    out
}

fn b64_decode_from(s: &Vec<u8>, i: usize, out: &mut Vec<u8>) -> (ok: bool)
    requires
        i <= s@.len(),
    ensures
        ok == (b64_dec(s@.skip(i as int)) is Some),
        ok ==> final(out)@ == old(out)@ + b64_dec(s@.skip(i as int)).unwrap(),
    decreases s@.len() - i,
{
    let ghost t = s@.skip(i as int);
    let n = s.len() - i;
    if n == 0 {
        proof {
            assert(out@ =~= old(out)@ + b64_dec(t).unwrap());
        }
        return true;
    }
    if n < 4 {
        return false;
    }
    proof {
        assert(t[0] == s@[i as int] && t[1] == s@[i + 1] && t[2] == s@[i + 2] && t[3] == s@[i
            + 3]);
    }
    let (ok0, v0) = b64_v_of(s[i]);
    let (ok1, v1) = b64_v_of(s[i + 1]);
    if !ok0 || !ok1 {
        return false;
    }
    let c2 = s[i + 2];
    let c3 = s[i + 3];
    if c2 == 61 {
        if n == 4 && c3 == 61 && (v1 & 15) == 0 {
            out.push((v0 << 2) | (v1 >> 4));
            proof {
                assert(out@ =~= old(out)@ + b64_dec(t).unwrap());
            }
            return true;
        }
        return false;
    }
    let (ok2, v2) = b64_v_of(c2);
    if !ok2 {
        return false;
    }
    if c3 == 61 {
        if n == 4 && (v2 & 3) == 0 {
            out.push((v0 << 2) | (v1 >> 4));
            out.push((v1 << 4) | (v2 >> 2));
            proof {
                assert(out@ =~= old(out)@ + b64_dec(t).unwrap());
            }
            return true;
        }
        return false;
    }
    let (ok3, v3) = b64_v_of(c3);
    if !ok3 {
        return false;
    }
    out.push((v0 << 2) | (v1 >> 4));
    out.push((v1 << 4) | (v2 >> 2));
    out.push((v2 << 6) | v3);
    let r = b64_decode_from(s, i + 4, out);
    proof {
        assert(t.skip(4) =~= s@.skip(i + 4));
    }
    if r {
        proof {
            assert(out@ =~= old(out)@ + b64_dec(t).unwrap());
        }
    }
    r
}

/// Decodes base64 text; `None` exactly on text that `b64_enc` cannot produce.
pub fn b64_decode(s: &Vec<u8>) -> (r: Option<Vec<u8>>)
    ensures
        (r is Some) == (b64_dec(s@) is Some),
        r matches Some(v) ==> v@ == b64_dec(s@).unwrap(),
{
    let mut out: Vec<u8> = Vec::new();
    proof {
        assert(s@.skip(0) =~= s@);
    }
    let ok = b64_decode_from(s, 0, &mut out);
    if ok {
        Some(out)
    } else {
        None
    }
}

/// Decoding inverts encoding, and encoded text stays clear of the
/// delimiter characters of the `ENC[...]` notation.
pub proof fn lemma_b64_roundtrip(s: Seq<u8>)
    ensures
        b64_dec(b64_enc(s)) == Some(s),
        b64_sane(b64_enc(s)),
        s.len() == 0 ==> b64_enc(s).len() == 0,
        s.len() > 0 ==> b64_enc(s).len() >= 4,
    decreases s.len(),
{
    let e = b64_enc(s);
    if s.len() == 0 {
        assert(b64_dec(e) =~= Some(Seq::<u8>::empty()));
        assert(b64_dec(e).unwrap() =~= s);
    } else if s.len() == 1 {
        let b0 = s[0];
        let s0 = b0 >> 2;
        let s1 = (b0 & 3) << 4;
        assert(b0 >> 2 < 64 && (b0 & 3) << 4 < 64 && (((b0 & 3) << 4) & 15) == 0)
            by (bit_vector);
        lemma_b64_char(s0);
        lemma_b64_char(s1);
        assert((s0 << 2) | (s1 >> 4) == b0) by (bit_vector)
            requires
                s0 == b0 >> 2 && s1 == (b0 & 3) << 4,
        ;
        assert(b64_dec(e).unwrap() =~= s);
    } else if s.len() == 2 {
        let b0 = s[0];
        let b1 = s[1];
        let s0 = b0 >> 2;
        let s1 = ((b0 & 3) << 4) | (b1 >> 4);
        let s2 = (b1 & 15) << 2;
        assert(b0 >> 2 < 64 && (((b0 & 3) << 4) | (b1 >> 4)) < 64 && (b1 & 15) << 2 < 64
            && (((b1 & 15) << 2) & 3) == 0) by (bit_vector);
        lemma_b64_char(s0);
        lemma_b64_char(s1);
        lemma_b64_char(s2);
        assert((s0 << 2) | (s1 >> 4) == b0 && (s1 << 4) | (s2 >> 2) == b1) by (bit_vector)
            requires
                s0 == b0 >> 2 && s1 == ((b0 & 3) << 4) | (b1 >> 4) && s2 == (b1 & 15) << 2,
        ;
        assert(b64_dec(e).unwrap() =~= s);
    } else {
        let b0 = s[0];
        let b1 = s[1];
        let b2 = s[2];
        let s0 = b0 >> 2;
        let s1 = ((b0 & 3) << 4) | (b1 >> 4);
        let s2 = ((b1 & 15) << 2) | (b2 >> 6);
        let s3 = b2 & 63;
        assert(b0 >> 2 < 64 && (((b0 & 3) << 4) | (b1 >> 4)) < 64 && ((((b1 & 15) << 2) | (
        b2 >> 6))) < 64 && b2 & 63 < 64) by (bit_vector);
        lemma_b64_char(s0);
        lemma_b64_char(s1);
        lemma_b64_char(s2);
        lemma_b64_char(s3);
        lemma_b64_roundtrip(s.skip(3));
        let rest = b64_enc(s.skip(3));
        assert(e =~= seq![
            b64_char(s0),
            b64_char(s1),
            b64_char(s2),
            b64_char(s3),
        ] + rest);
        assert(e.len() >= 4 + rest.len());
        assert(e[0] == b64_char(s0) && e[1] == b64_char(s1) && e[2] == b64_char(s2) && e[3]
            == b64_char(s3));
        assert(e.skip(4) =~= rest);
        assert((s0 << 2) | (s1 >> 4) == b0 && (s1 << 4) | (s2 >> 2) == b1 && (s2 << 6) | s3
            == b2) by (bit_vector)
            requires
                s0 == b0 >> 2 && s1 == ((b0 & 3) << 4) | (b1 >> 4) && s2 == ((b1 & 15) << 2)
                    | (b2 >> 6) && s3 == b2 & 63,
        ;
        assert(b64_dec(e).unwrap() =~= s);
        assert forall|i: int| 0 <= i < e.len() implies (#[trigger] e[i] != 44 && e[i] != 93
            && e[i] != 58 && e[i] != 91) by {
            if i >= 4 {
                assert(e[i] == rest[i - 4]);
            }
        }
    }
}

} // verus!
