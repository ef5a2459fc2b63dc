//! Threshold secret sharing: a secret is split byte-wise into evaluations
//! of random polynomials over the 256-element field, and recovered from any
//! sufficient set of shares by Lagrange interpolation at zero.

use vstd::prelude::*;
use crate::gf::{gf_mul_spec, gf_inv_spec, gf_mul, gf_inv, lemma_gf_mul_one};
use crate::cipher::random_bytes;
use crate::bytes::push_all;
use crate::error::Error;

verus! {

/// One share: the evaluation point and one byte of polynomial value per
/// byte of the secret.
pub struct Share {
    pub x: u8,
    pub y: Vec<u8>,
}

/// Ghost share.
pub struct ShareV {
    pub x: u8,
    pub y: Seq<u8>,
}

impl View for Share {
    type V = ShareV;

    open spec fn view(&self) -> ShareV {
        ShareV { x: self.x, y: self.y@ }
    }
}

pub open spec fn shares_view(s: Seq<Share>) -> Seq<ShareV> {
    Seq::new(s.len(), |i: int| s[i]@)
}

/// Horner evaluation of a polynomial given by its coefficients, constant
/// term first.
pub open spec fn poly_eval_spec(c: Seq<u8>, x: u8) -> u8
    decreases c.len(),
{
    if c.len() == 0 {
        0
    } else {
        c[0] ^ gf_mul_spec(x, poly_eval_spec(c.skip(1), x))
    }
}

/// A one-coefficient polynomial is constant.
pub proof fn lemma_poly_eval_single(c: Seq<u8>, x: u8)
    requires
        c.len() == 1,
    ensures
        poly_eval_spec(c, x) == c[0],
{
    assert(c.skip(1).len() == 0);
    assert(poly_eval_spec(c.skip(1), x) == 0);
    assert(gf_mul_spec(x, 0) == 0);
    assert(poly_eval_spec(c, x) == c[0] ^ gf_mul_spec(x, poly_eval_spec(c.skip(1), x)));
    let b = c[0];
    assert(b ^ 0u8 == b) by (bit_vector);
}

fn poly_eval_from(c: &Vec<u8>, k: usize, x: u8) -> (r: u8)
    requires
        k <= c@.len(),
    ensures
        r == poly_eval_spec(c@.skip(k as int), x),
    decreases c@.len() - k,
{
    if k == c.len() {
        0
    } else {
        let rest = poly_eval_from(c, k + 1, x);
        proof {
            assert(c@.skip(k as int)[0] == c@[k as int]);
            assert(c@.skip(k as int).skip(1) =~= c@.skip(k + 1));
        }
        c[k] ^ gf_mul(x, rest)
    }
}

/// Evaluates the polynomial at `x`.
pub fn poly_eval(c: &Vec<u8>, x: u8) -> (r: u8)
    ensures
        r == poly_eval_spec(c@, x),
{
    proof {
        assert(c@.skip(0) =~= c@);
    }
    poly_eval_from(c, 0, x)
}

/// Splits a secret into `n` shares.  One coefficient vector per secret
/// byte is drawn, with the secret byte as its constant term; the share for
/// position `i` holds, byte for byte, the evaluations of those polynomials
/// at `i + 1`.  With threshold one every share holds the secret itself.
#[verifier::loop_isolation(false)]
pub fn split_secret(secret: &Vec<u8>, t: usize, n: usize) -> (r: Vec<Share>)
    requires
        1 <= t <= n <= 255,
    ensures
        r@.len() == n,
        forall|i: int|
            0 <= i < n ==> (#[trigger] r@[i])@.x == i + 1 && r@[i]@.y.len() == secret@.len(),
        t == 1 ==> forall|i: int| 0 <= i < n ==> (#[trigger] r@[i])@.y == secret@,
        exists|cs: Seq<Seq<u8>>|
            #![trigger cs.len()]
            cs.len() == secret@.len() && (forall|k: int|
                0 <= k < secret@.len() ==> (#[trigger] cs[k]).len() == t && cs[k][0]
                    == secret@[k]) && (forall|i: int, k: int|
                0 <= i < n && 0 <= k < secret@.len() ==> #[trigger] r@[i]@.y[k]
                    == poly_eval_spec(cs[k], (i + 1) as u8)),
{
    let mut coeffs_all: Vec<Vec<u8>> = Vec::new();
    let mut j: usize = 0;
    while j < secret.len()
        invariant
            0 <= j <= secret@.len(),
            coeffs_all@.len() == j,
            forall|k: int|
                0 <= k < j ==> (#[trigger] coeffs_all@[k])@.len() == t && coeffs_all@[k]@[0]
                    == secret@[k],
        decreases secret@.len() - j,
    {
        let mut c: Vec<u8> = Vec::new();
        c.push(secret[j]);
        let extra = random_bytes(t - 1);
        push_all(&mut c, &extra);
        coeffs_all.push(c);
        j += 1;
    }
    let mut out: Vec<Share> = Vec::new();
    let mut i: usize = 0;
    while i < n
        invariant
            0 <= i <= n,
            1 <= t <= n <= 255,
            out@.len() == i,
            coeffs_all@.len() == secret@.len(),
            forall|k: int|
                0 <= k < secret@.len() ==> (#[trigger] coeffs_all@[k])@.len() == t
                    && coeffs_all@[k]@[0] == secret@[k],
            forall|q: int|
                0 <= q < i ==> (#[trigger] out@[q])@.x == q + 1 && out@[q]@.y.len()
                    == secret@.len(),
            forall|q: int, k: int|
                0 <= q < i && 0 <= k < secret@.len() ==> #[trigger] out@[q]@.y[k]
                    == poly_eval_spec(coeffs_all@[k]@, (q + 1) as u8),
            t == 1 ==> forall|q: int| 0 <= q < i ==> (#[trigger] out@[q])@.y == secret@,
        decreases n - i,
    {
        let x: u8 = (i + 1) as u8;
        let mut y: Vec<u8> = Vec::new();
        let mut j2: usize = 0;
        while j2 < coeffs_all.len()
            invariant
                0 <= j2 <= coeffs_all@.len(),
                coeffs_all@.len() == secret@.len(),
                forall|k: int|
                    0 <= k < secret@.len() ==> (#[trigger] coeffs_all@[k])@.len() == t
                        && coeffs_all@[k]@[0] == secret@[k],
                y@.len() == j2,
                1 <= t,
                forall|k: int|
                    0 <= k < j2 ==> #[trigger] y@[k] == poly_eval_spec(coeffs_all@[k]@, x),
                t == 1 ==> forall|k: int| 0 <= k < j2 ==> #[trigger] y@[k] == secret@[k],
            decreases coeffs_all@.len() - j2,
        {
            let b = poly_eval(&coeffs_all[j2], x);
            proof {
                if t == 1 {
                    lemma_poly_eval_single(coeffs_all@[j2 as int]@, x);
                }
            }
            y.push(b);
            j2 += 1;
        }
        proof {
            if t == 1 {
                assert(y@ =~= secret@);
            }
        }
        out.push(Share { x, y });
        i += 1;
    }
    proof {
        let cs = Seq::new(secret@.len(), |k: int| coeffs_all@[k]@);
        assert(cs.len() == secret@.len());
        assert(forall|k: int|
            0 <= k < secret@.len() ==> (#[trigger] cs[k]).len() == t && cs[k][0]
                == secret@[k]);
        assert(forall|i2: int, k: int|
            0 <= i2 < n && 0 <= k < secret@.len() ==> #[trigger] out@[i2]@.y[k]
                == poly_eval_spec(cs[k], (i2 + 1) as u8));
    }
    out
}

/// The product of the evaluation points of all shares but `i`, from `k` on.
pub open spec fn prod_num(sh: Seq<ShareV>, i: int, k: int) -> u8
    decreases sh.len() - k,
{
    if k < 0 || k >= sh.len() {
        1
    } else if k == i {
        prod_num(sh, i, k + 1)
    } else {
        gf_mul_spec(sh[k].x, prod_num(sh, i, k + 1))
    }
}

/// The product of the differences between the other evaluation points and
/// share `i`'s, from `k` on.
pub open spec fn prod_den(sh: Seq<ShareV>, i: int, k: int) -> u8
    decreases sh.len() - k,
{
    if k < 0 || k >= sh.len() {
        1
    } else if k == i {
        prod_den(sh, i, k + 1)
    } else {
        gf_mul_spec(sh[k].x ^ sh[i].x, prod_den(sh, i, k + 1))
    }
}

/// Share `i`'s Lagrange term for byte `j`; `None` when the denominator has
/// no inverse (as with a repeated evaluation point).
pub open spec fn lag_term(sh: Seq<ShareV>, i: int, j: int) -> Option<u8> {
    match gf_inv_spec(prod_den(sh, i, 0)) {
        None => None,
        Some(inv) => Some(
            gf_mul_spec(sh[i].y[j], gf_mul_spec(prod_num(sh, i, 0), inv)),
        ),
    }
}

/// The interpolated byte `j`: the field sum of every share's term, from
/// share `i` on.
pub open spec fn byte_sum(sh: Seq<ShareV>, j: int, i: int) -> Option<u8>
    decreases sh.len() - i,
{
    if i < 0 || i >= sh.len() {
        Some(0)
    } else {
        match lag_term(sh, i, j) {
            None => None,
            Some(t) => match byte_sum(sh, j, i + 1) {
                None => None,
                Some(rest) => Some(t ^ rest),
            },
        }
    }
}

/// The interpolated secret from byte `j` on.
pub open spec fn combine_from(sh: Seq<ShareV>, j: int) -> Option<Seq<u8>>
    decreases sh[0].y.len() - j,
{
    if sh.len() == 0 || j < 0 || j > sh[0].y.len() {
        None
    } else if j == sh[0].y.len() {
        Some(Seq::empty())
    } else {
        match byte_sum(sh, j, 0) {
            None => None,
            Some(b) => match combine_from(sh, j + 1) {
                None => None,
                Some(rest) => Some(seq![b] + rest),
            },
        }
    }
}

/// The secret that interpolating the shares at zero yields; `None` when the
/// shares are unusable (none at all, unequal lengths, or a repeated
/// evaluation point).
pub open spec fn combine_spec(sh: Seq<ShareV>) -> Option<Seq<u8>> {
    if sh.len() == 0 || !(forall|k: int| 0 <= k < sh.len() ==> (#[trigger] sh[k]).y.len()
        == sh[0].y.len()) {
        None
    } else {
        combine_from(sh, 0)
    }
}

fn lag_term_exec(sh: &Vec<Share>, i: usize, j: usize) -> (r: Option<u8>)
    requires
        i < sh@.len(),
        j < sh@[i as int]@.y.len(),
    ensures
        r == lag_term(shares_view(sh@), i as int, j as int),
{
    let ghost shv = shares_view(sh@);
    let mut den: u8 = 1;
    let mut num: u8 = 1;
    let mut k: usize = sh.len();
    while k > 0
        invariant
            0 <= k <= sh@.len(),
            i < sh@.len(),
            num == prod_num(shares_view(sh@), i as int, k as int),
            den == prod_den(shares_view(sh@), i as int, k as int),
        decreases k,
    {
        k -= 1;
        if k != i {
            num = gf_mul(sh[k].x, num);
            den = gf_mul(sh[k].x ^ sh[i].x, den);
        }
    }
    match gf_inv(den) {
        None => None,
        Some(inv) => Some(gf_mul(sh[i].y[j], gf_mul(num, inv))),
    }
}

fn byte_sum_exec(sh: &Vec<Share>, j: usize) -> (r: Option<u8>)
    requires
        forall|k: int| 0 <= k < sh@.len() ==> (j as int) < (#[trigger] sh@[k])@.y.len(),
    ensures
        r == byte_sum(shares_view(sh@), j as int, 0),
{
    let ghost shv = shares_view(sh@);
    let mut acc: u8 = 0;
    let mut i: usize = sh.len();
    while i > 0
        invariant
            0 <= i <= sh@.len(),
            forall|k: int| 0 <= k < sh@.len() ==> (j as int) < (#[trigger] sh@[k])@.y.len(),
            byte_sum(shares_view(sh@), j as int, i as int) == Some(acc),
        decreases i,
    {
        i -= 1;
        match lag_term_exec(sh, i, j) {
            None => {
                proof {
                    lemma_byte_sum_none(shares_view(sh@), j as int, 0, i as int);
                }
                return None;
            },
            Some(t) => {
                acc = t ^ acc;
            },
        }
    }
    Some(acc)
}

/// If one term is undefined the whole sum is.
proof fn lemma_byte_sum_none(sh: Seq<ShareV>, j: int, from: int, i: int)
    requires
        0 <= from <= i < sh.len(),
        lag_term(sh, i, j) is None,
    ensures
        byte_sum(sh, j, from) is None,
    decreases i - from,
{
    if from < i {
        lemma_byte_sum_none(sh, j, from + 1, i);
    }
}

/// Interpolates the shares at zero.  Succeeds exactly where the ghost
/// [`combine_spec`] does, and then returns its secret; the failure is the
/// key-recovery error.
#[verifier::loop_isolation(false)]
pub fn combine_shares(sh: &Vec<Share>) -> (r: Result<Vec<u8>, Error>)
    ensures
        (r is Ok) == (combine_spec(shares_view(sh@)) is Some),
        r matches Ok(s) ==> combine_spec(shares_view(sh@)) == Some(s@),
        r matches Err(e) ==> e == Error::KeyRecoveryError,
{
    let ghost shv = shares_view(sh@);
    if sh.len() == 0 {
        return Err(Error::KeyRecoveryError);
    }
    let len0 = sh[0].y.len();
    let mut k: usize = 0;
    while k < sh.len()
        invariant
            0 <= k <= sh@.len(),
            len0 == sh@[0]@.y.len(),
            sh@.len() > 0,
            forall|q: int| 0 <= q < k ==> (#[trigger] shares_view(sh@)[q]).y.len() == len0,
        decreases sh@.len() - k,
    {
        if sh[k].y.len() != len0 {
            proof {
                assert(shares_view(sh@)[k as int].y.len() != len0);
            }
            return Err(Error::KeyRecoveryError);
        }
        k += 1;
    }
    let mut out: Vec<u8> = Vec::new();
    let mut j: usize = 0;
    proof {
        assert(forall|q: int|
            0 <= q < sh@.len() ==> (#[trigger] shv[q]).y.len() == shv[0].y.len());
    }
    while j < len0
        invariant
            0 <= j <= len0,
            sh@.len() > 0,
            len0 == shares_view(sh@)[0].y.len(),
            forall|q: int|
                0 <= q < sh@.len() ==> (#[trigger] shares_view(sh@)[q]).y.len() == len0,
            out@.len() == j,
            combine_from(shares_view(sh@), j as int) matches Some(rest) ==> combine_from(
                shares_view(sh@),
                0,
            ) == Some(out@ + rest),
            combine_from(shares_view(sh@), j as int) is None ==> combine_from(
                shares_view(sh@),
                0,
            ) is None,
        decreases len0 - j,
    {
        proof {
            assert forall|k2: int| 0 <= k2 < sh@.len() implies (j as int) < (#[trigger] sh@[
                k2
            ])@.y.len() by {
                assert(shares_view(sh@)[k2] == sh@[k2]@);
            }
        }
        match byte_sum_exec(sh, j) {
            None => {
                return Err(Error::KeyRecoveryError);
            },
            Some(b) => {
                proof {
                    let s0 = shares_view(sh@);
                    match combine_from(s0, j + 1) {
                        Some(rest) => {
                            assert(combine_from(s0, j as int) == Some(seq![b] + rest));
                            assert(out@.push(b) + rest =~= out@ + (seq![b] + rest));
                        },
                        None => {
                            assert(combine_from(s0, j as int) is None);
                        },
                    }
                }
                out.push(b);
            },
        }
        j += 1;
    }
    proof {
        let s0 = shares_view(sh@);
        assert(combine_from(s0, len0 as int) == Some(Seq::<u8>::empty()));
        assert(out@ + Seq::<u8>::empty() =~= out@);
    }
    Ok(out)
}

/// A single share with any evaluation point recovers its own bytes: the
/// degenerate interpolation.
pub proof fn lemma_combine_single(sh: Seq<ShareV>)
    requires
        sh.len() == 1,
    ensures
        combine_spec(sh) == Some(sh[0].y),
{
    assert(gf_mul_spec(1, 0) == 0);
    lemma_gf_mul_one(1);
    assert(crate::gf::gf_inv_from(1, 0) == crate::gf::gf_inv_from(1, 1));
    assert(gf_inv_spec(1) == Some(1u8));
    lemma_combine_single_from(sh, 0);
    assert(combine_from(sh, 0) == Some(sh[0].y.skip(0)));
    assert(sh[0].y.skip(0) =~= sh[0].y);
}

proof fn lemma_combine_single_from(sh: Seq<ShareV>, j: int)
    requires
        sh.len() == 1,
        0 <= j <= sh[0].y.len(),
        gf_inv_spec(1) == Some(1u8),
    ensures
        combine_from(sh, j) == Some(sh[0].y.skip(j)),
    decreases sh[0].y.len() - j,
{
    if j == sh[0].y.len() {
        assert(sh[0].y.skip(j) =~= Seq::<u8>::empty());
    } else {
        lemma_combine_single_from(sh, j + 1);
        assert(prod_den(sh, 0, 1) == 1);
        assert(prod_den(sh, 0, 0) == prod_den(sh, 0, 1));
        assert(prod_num(sh, 0, 1) == 1);
        assert(prod_num(sh, 0, 0) == prod_num(sh, 0, 1));
        lemma_gf_mul_one(sh[0].y[j]);
        lemma_gf_mul_one(1);
        assert(lag_term(sh, 0, j) == Some(sh[0].y[j]));
        assert(byte_sum(sh, j, 1) == Some(0u8));
        let b = sh[0].y[j];
        assert(b ^ 0u8 == b) by (bit_vector);
        assert(byte_sum(sh, j, 0) == Some(b));
        assert(seq![b] + sh[0].y.skip(j + 1) =~= sh[0].y.skip(j));
    }
}

} // verus!
