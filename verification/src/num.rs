//! Decimal text for integers, with an exact parse/print round trip.

use vstd::prelude::*;

verus! {

/// The decimal digits of `n`, most significant first.
pub open spec fn dec_digits(n: nat) -> Seq<u8>
    decreases n,
{
    if n < 10 {
        seq![(48 + n) as u8]
    } else {
        dec_digits(n / 10) + seq![(48 + n % 10) as u8]
    }
}

/// The decimal text of a signed integer: a minus sign before the magnitude.
pub open spec fn dec_text(i: int) -> Seq<u8> {
    if i < 0 {
        seq![45u8] + dec_digits((-i) as nat)
    } else {
        dec_digits(i as nat)
    }
}

pub open spec fn is_digit(c: u8) -> bool {
    48 <= c <= 57
}

/// The value of a digit string, read most significant first.
pub open spec fn dec_val(s: Seq<u8>) -> nat
    decreases s.len(),
{
    if s.len() == 0 {
        0
    } else {
        dec_val(s.drop_last()) * 10 + (s.last() - 48) as nat
    }
}

pub open spec fn all_digits(s: Seq<u8>) -> bool {
    forall|i: int| 0 <= i < s.len() ==> is_digit(#[trigger] s[i])
}

/// What `parse_u64` accepts: a nonempty digit string whose value fits.
pub open spec fn valid_u64_text(s: Seq<u8>) -> bool {
    s.len() > 0 && all_digits(s) && dec_val(s) <= u64::MAX
}

/// What `parse_i64` accepts.
pub open spec fn valid_i64_text(s: Seq<u8>) -> bool {
    if s.len() > 0 && s[0] == 45 {
        let m = s.skip(1);
        m.len() > 0 && all_digits(m) && dec_val(m) <= 0x8000_0000_0000_0000
    } else {
        s.len() > 0 && all_digits(s) && dec_val(s) <= i64::MAX
    }
}

/// The signed value of a decimal text (meaningful when it is valid).
pub open spec fn parsed_i64(s: Seq<u8>) -> int {
    if s.len() > 0 && s[0] == 45 {
        -(dec_val(s.skip(1)) as int)
    } else {
        dec_val(s) as int
    }
}

/// Writes the digits of `n` onto `out`.
pub fn push_dec_u64(out: &mut Vec<u8>, n: u64)
    ensures
        final(out)@ == old(out)@ + dec_digits(n as nat),
    decreases n,
{
    if n >= 10 {
        push_dec_u64(out, n / 10);
    }
    out.push(48 + (n % 10) as u8);
    proof {
        if n < 10 {
            assert(out@ =~= old(out)@ + dec_digits(n as nat));
        } else {
            assert(out@ =~= old(out)@ + dec_digits(n as nat));
        }
    }
}

/// Writes the decimal text of `i` onto `out`.
pub fn push_dec_i64(out: &mut Vec<u8>, i: i64)
    ensures
        final(out)@ == old(out)@ + dec_text(i as int),
{
    if i < 0 {
        out.push(45);
        let m: u64 = ((-(i + 1)) as u64) + 1;
        assert(m == -(i as int));
        push_dec_u64(out, m);
        proof {
            assert(out@ =~= old(out)@ + dec_text(i as int));
        }
    } else {
        push_dec_u64(out, i as u64);
    }
}

/// Parses a nonempty digit string; `None` exactly on malformed or
/// out-of-range input.
pub fn parse_u64(s: &Vec<u8>, from: usize, to: usize) -> (r: Option<u64>)
    requires
        from <= to <= s@.len(),
    ensures
        valid_u64_text(s@.subrange(from as int, to as int)) ==> r == Some(
            dec_val(s@.subrange(from as int, to as int)) as u64,
        ),
        !valid_u64_text(s@.subrange(from as int, to as int)) ==> r is None,
{
    let ghost text = s@.subrange(from as int, to as int);
    if from == to {
        return None;
    }
    let mut acc: u64 = 0;
    let mut i: usize = from;
    while i < to
        invariant
            from <= i <= to <= s@.len(),
            text == s@.subrange(from as int, to as int),
            text.len() > 0,
            all_digits(s@.subrange(from as int, i as int)),
            acc == dec_val(s@.subrange(from as int, i as int)),
        decreases to - i,
    {
        let c = s[i];
        if c < 48 || c > 57 {
            assert(!all_digits(text)) by {
                assert(text[i - from] == c);
            }
            return None;
        }
        let d: u64 = (c - 48) as u64;
        let ghost pre = s@.subrange(from as int, i as int);
        let ghost pre1 = s@.subrange(from as int, i + 1);
        proof {
            assert(pre1.drop_last() =~= pre);
            assert(pre1.last() == c);
        }
        if acc > (u64::MAX - d) / 10 {
            // The value exceeds `u64::MAX`; longer digit strings only grow.
            proof {
                assert(dec_val(pre1) > u64::MAX);
                lemma_dec_val_monotonic(text, (i + 1 - from) as int);
                assert(text.subrange(0, i + 1 - from) =~= pre1);
            }
            return None;
        }
        acc = acc * 10 + d;
        i += 1;
    }
    proof {
        assert(s@.subrange(from as int, i as int) =~= text);
    }
    Some(acc)
}

/// A digit string's value only grows as it gets longer.
proof fn lemma_dec_val_monotonic(s: Seq<u8>, k: int)
    requires
        0 <= k <= s.len(),
    ensures
        dec_val(s) >= dec_val(s.subrange(0, k)),
    decreases s.len() - k,
{
    if k < s.len() {
        lemma_dec_val_monotonic(s, k + 1);
        let a = s.subrange(0, k);
        let b = s.subrange(0, k + 1);
        assert(b.drop_last() =~= a);
        assert(dec_val(b) == dec_val(a) * 10 + (b.last() - 48) as nat);
    } else {
        assert(s.subrange(0, k) =~= s);
    }
}

/// Parses an optionally minus-signed decimal text into an `i64`.
pub fn parse_i64(s: &Vec<u8>) -> (r: Option<i64>)
    ensures
        valid_i64_text(s@) ==> r == Some(parsed_i64(s@) as i64),
        !valid_i64_text(s@) ==> r is None,
{
    if s.len() > 0 && s[0] == 45 {
        proof {
            assert(s@.subrange(1, s@.len() as int) =~= s@.skip(1));
        }
        match parse_u64(s, 1, s.len()) {
            Some(v) => {
                if v <= i64::MAX as u64 {
                    Some(-(v as i64))
                } else if v == 0x8000_0000_0000_0000 {
                    Some(i64::MIN)
                } else {
                    None
                }
            },
            None => None,
        }
    } else {
        proof {
            assert(s@.subrange(0, s@.len() as int) =~= s@);
        }
        match parse_u64(s, 0, s.len()) {
            Some(v) => {
                if v <= i64::MAX as u64 {
                    Some(v as i64)
                } else {
                    None
                }
            },
            None => None,
        }
    }
}

/// Printing then parsing an unsigned value gives the value back.
pub proof fn lemma_dec_digits_roundtrip(n: nat)
    ensures
        dec_digits(n).len() > 0,
        all_digits(dec_digits(n)),
        dec_val(dec_digits(n)) == n,
    decreases n,
{
    if n < 10 {
        let s = dec_digits(n);
        assert(s =~= seq![(48 + n) as u8]);
        assert(s.drop_last() =~= Seq::<u8>::empty());
        assert(dec_val(s.drop_last()) == 0);
        assert(dec_val(s) == (s.last() - 48) as nat);
    } else {
        lemma_dec_digits_roundtrip(n / 10);
        let s = dec_digits(n);
        let a = dec_digits(n / 10);
        assert(s.drop_last() =~= a);
        assert(s.last() == (48 + n % 10) as u8);
        assert((s.last() - 48) as nat == n % 10);
        assert(dec_val(s) == dec_val(a) * 10 + (s.last() - 48) as nat);
        assert(dec_val(s) == (n / 10) * 10 + n % 10);
        assert((n / 10) * 10 + n % 10 == n);
        assert forall|i: int| 0 <= i < s.len() implies is_digit(#[trigger] s[i]) by {
            if i < a.len() {
                assert(s[i] == a[i]);
            } else {
                assert(s[i] == (48 + n % 10) as u8);
            }
        }
    }
}

/// Printing then parsing a signed value gives the value back.
pub proof fn lemma_dec_text_roundtrip(i: int)
    requires
        i64::MIN <= i <= i64::MAX,
    ensures
        valid_i64_text(dec_text(i)),
        parsed_i64(dec_text(i)) == i,
{
    if i < 0 {
        lemma_dec_digits_roundtrip((-i) as nat);
        let s = dec_text(i);
        assert(s[0] == 45);
        assert(s.skip(1) =~= dec_digits((-i) as nat));
    } else {
        lemma_dec_digits_roundtrip(i as nat);
        let s = dec_text(i);
        assert(s.len() > 0);
        assert(s[0] != 45) by {
            assert(is_digit(s[0]));
        }
    }
}

} // verus!
