//! The data-key manager: wraps a fresh data key against every entry of
//! every key group, and recovers it from any satisfying set of groups —
//! one group in direct mode, any threshold-many groups under secret
//! sharing.

use vstd::prelude::*;
use crate::keysvc::{KeyService, KeyKind, MasterKey, MasterKeyV};
use crate::shamir::{
    Share, ShareV, shares_view, split_secret, combine_shares, combine_spec, poly_eval_spec,
};
use crate::cipher::KEY_LEN;
use crate::error::Error;

verus! {

/// Threshold mode holds with several groups and a threshold strictly
/// between zero and the group count; otherwise any single group wraps the
/// data key directly.
pub open spec fn threshold_mode(n_groups: int, t: int) -> bool {
    n_groups > 1 && 0 < t < n_groups
}

/// Can some entry of this group be unwrapped, according to the backend's
/// own model?
pub open spec fn group_can<S: KeyService>(svc: &S, g: Seq<MasterKey>) -> bool {
    exists|j: int| 0 <= j < g.len() && svc.unwrap_model((#[trigger] g[j])@) is Some
}

/// How many of the first `k` groups can be unwrapped.
pub open spec fn count_can<S: KeyService>(svc: &S, groups: Seq<Vec<MasterKey>>, k: int) -> int
    decreases k,
{
    if k <= 0 {
        0
    } else {
        count_can(svc, groups, k - 1) + if group_can(svc, groups[k - 1]@) {
            1int
        } else {
            0int
        }
    }
}

/// The count of satisfiable groups is never negative.
proof fn lemma_count_nonneg<S: KeyService>(svc: &S, groups: Seq<Vec<MasterKey>>, k: int)
    ensures
        count_can(svc, groups, k) >= 0,
    decreases k,
{
    if k > 0 {
        lemma_count_nonneg(svc, groups, k - 1);
    }
}

/// A strictly increasing list of group positions that can all be unwrapped
/// pushes the count at least that high.
pub proof fn lemma_count_from_positions<S: KeyService>(
    svc: &S,
    groups: Seq<Vec<MasterKey>>,
    idxs: Seq<int>,
    k: int,
)
    requires
        0 <= k <= groups.len(),
        forall|i: int| 0 <= i < idxs.len() ==> 0 <= #[trigger] idxs[i] < k,
        forall|i: int, j: int| 0 <= i < j < idxs.len() ==> idxs[i] < idxs[j],
        forall|i: int| 0 <= i < idxs.len() ==> group_can(svc, groups[#[trigger] idxs[i]]@),
    ensures
        count_can(svc, groups, k) >= idxs.len(),
    decreases k,
{
    if idxs.len() == 0 {
        lemma_count_nonneg(svc, groups, k);
    } else {
        let last = idxs[idxs.len() - 1];
        assert(forall|i: int| 0 <= i < idxs.len() - 1 ==> #[trigger] idxs[i] < last);
        assert(forall|i: int|
            0 <= i < idxs.len() - 1 ==> #[trigger] idxs.drop_last()[i] == idxs[i]);
        if last == k - 1 {
            lemma_count_from_positions(svc, groups, idxs.drop_last(), k - 1);
            assert(group_can(svc, groups[k - 1]@));
            assert(count_can(svc, groups, k) == count_can(svc, groups, k - 1) + 1);
        } else {
            assert(forall|i: int| 0 <= i < idxs.len() ==> #[trigger] idxs[i] < k - 1);
            lemma_count_from_positions(svc, groups, idxs, k - 1);
            assert(count_can(svc, groups, k) >= count_can(svc, groups, k - 1));
        }
    }
}

/// Every entry of the group is modelled to unwrap to one same key-sized
/// value (in threshold mode: that group's share).
pub open spec fn group_wraps_same<S: KeyService>(svc: &S, g: Seq<MasterKey>) -> bool {
    exists|y: Seq<u8>|
        y.len() == KEY_LEN && (forall|j: int|
            0 <= j < g.len() ==> svc.unwrap_model((#[trigger] g[j])@) == Some(y))
}

/// As [`group_can`], over a ghost group.
pub open spec fn group_can_v<S: KeyService>(svc: &S, g: Seq<MasterKeyV>) -> bool {
    exists|j: int| 0 <= j < g.len() && svc.unwrap_model(#[trigger] g[j]) is Some
}

/// As [`count_can`], over ghost groups.
pub open spec fn count_can_v<S: KeyService>(
    svc: &S,
    gs: Seq<Seq<MasterKeyV>>,
    k: int,
) -> int
    decreases k,
{
    if k <= 0 {
        0
    } else {
        count_can_v(svc, gs, k - 1) + if group_can_v(svc, gs[k - 1]) {
            1int
        } else {
            0int
        }
    }
}

/// Every entry of the group is modelled to unwrap to the share of the
/// polynomials `cs` at evaluation point `x`.
pub open spec fn group_wraps_share<S: KeyService>(
    svc: &S,
    g: Seq<MasterKey>,
    cs: Seq<Seq<u8>>,
    x: u8,
) -> bool {
    forall|j: int|
        0 <= j < g.len() ==> svc.unwrap_model((#[trigger] g[j])@) == Some(
            Seq::new(KEY_LEN as nat, |k: int| crate::shamir::poly_eval_spec(cs[k], x)),
        )
}

/// As [`group_wraps_share`], over a ghost group.
pub open spec fn group_wraps_share_v<S: KeyService>(
    svc: &S,
    g: Seq<MasterKeyV>,
    cs: Seq<Seq<u8>>,
    x: u8,
) -> bool {
    forall|j: int|
        0 <= j < g.len() ==> svc.unwrap_model(#[trigger] g[j]) == Some(
            Seq::new(KEY_LEN as nat, |k: int| crate::shamir::poly_eval_spec(cs[k], x)),
        )
}

/// As [`group_wraps_same`], over a ghost group.
pub open spec fn group_wraps_same_v<S: KeyService>(svc: &S, g: Seq<MasterKeyV>) -> bool {
    exists|y: Seq<u8>|
        y.len() == KEY_LEN && (forall|j: int|
            0 <= j < g.len() ==> svc.unwrap_model(#[trigger] g[j]) == Some(y))
}

/// How many of the first `k` groups hold at least one wrapped entry.
pub open spec fn count_nonempty(gs: Seq<Vec<MasterKey>>, k: int) -> int
    decreases k,
{
    if k <= 0 {
        0
    } else {
        count_nonempty(gs, k - 1) + if gs[k - 1]@.len() > 0 {
            1int
        } else {
            0int
        }
    }
}

/// As [`count_nonempty`], over ghost groups.
pub open spec fn count_nonempty_v(gs: Seq<Seq<MasterKeyV>>, k: int) -> int
    decreases k,
{
    if k <= 0 {
        0
    } else {
        count_nonempty_v(gs, k - 1) + if gs[k - 1].len() > 0 {
            1int
        } else {
            0int
        }
    }
}

/// The count over the first `k` groups depends only on those groups.
proof fn lemma_count_nonempty_same(a: Seq<Vec<MasterKey>>, b: Seq<Vec<MasterKey>>, k: int)
    requires
        0 <= k,
        forall|i: int| 0 <= i < k ==> #[trigger] a[i] == b[i],
    ensures
        count_nonempty(a, k) == count_nonempty(b, k),
    decreases k,
{
    if k > 0 {
        lemma_count_nonempty_same(a, b, k - 1);
    }
}

/// Tries the entries of one group in order and stops at the first success.
/// A returned key is what the backend models some entry to unwrap to.
pub fn unwrap_group<S: KeyService>(svc: &S, g: &Vec<MasterKey>) -> (r: Result<Vec<u8>, Error>)
    ensures
        r matches Ok(k) ==> group_can(svc, g@) && (exists|j: int|
            0 <= j < g@.len() && svc.unwrap_model((#[trigger] g@[j])@) == Some(k@)),
        r matches Err(er) ==> er == Error::KeyRecoveryError,
{
    let mut j: usize = 0;
    while j < g.len()
        decreases g@.len() - j,
    {
        match svc.unwrap_key(&g[j]) {
            Ok(k) => {
                proof {
                    assert(svc.unwrap_model(g@[j as int]@) == Some(k@));
                }
                return Ok(k);
            },
            Err(_) => {},
        }
        j += 1;
    }
    Err(Error::KeyRecoveryError)
}

/// Recovers the document data key from the key groups.
///
/// In direct mode the groups are tried in order and the first entry that
/// unwraps wins: the result is a key that some backend entry models.  In
/// threshold mode one share is collected per satisfiable group, in group
/// order, until `threshold` shares are held, and the key is their
/// interpolation; a returned key therefore certifies that at least
/// `threshold` groups could be unwrapped.  With fewer satisfiable groups
/// the result is the key-recovery error — the designed failure for a
/// missing decryption key.
#[verifier::loop_isolation(false)]
pub fn recover_data_key<S: KeyService>(
    svc: &S,
    groups: &Vec<Vec<MasterKey>>,
    threshold: usize,
) -> (r: Result<Vec<u8>, Error>)
    ensures
        r matches Ok(k) ==> !threshold_mode(groups@.len() as int, threshold as int) ==> (
        exists|i: int, j: int|
            0 <= i < groups@.len() && 0 <= j < groups@[i]@.len() && svc.unwrap_model(
                (#[trigger] groups@[i]@[j])@,
            ) == Some(k@)),
        r matches Ok(k) ==> threshold_mode(groups@.len() as int, threshold as int) ==> (
        count_can(svc, groups@, groups@.len() as int) >= threshold && (exists|sh: Seq<ShareV>|
            sh.len() == threshold && combine_spec(sh) == Some(k@))),
        r is Ok ==> groups@.len() >= 1,
        r is Ok ==> threshold_mode(groups@.len() as int, threshold as int) ==> groups@.len()
            <= 255,
        r matches Err(er) ==> er == Error::KeyRecoveryError,
{
    if groups.len() == 0 {
        return Err(Error::KeyRecoveryError);
    }
    if !(groups.len() > 1 && 0 < threshold && threshold < groups.len()) {
        // Direct mode: any single group suffices.
        let mut i: usize = 0;
        while i < groups.len()
            decreases groups@.len() - i,
        {
            match unwrap_group(svc, &groups[i]) {
                Ok(k) => {
                    return Ok(k);
                },
                Err(_) => {},
            }
            i += 1;
        }
        return Err(Error::KeyRecoveryError);
    }
    if groups.len() > 255 {
        return Err(Error::KeyRecoveryError);
    }
    let mut shares: Vec<Share> = Vec::new();
    let ghost mut idxs: Seq<int> = Seq::empty();
    let mut i: usize = 0;
    while i < groups.len() && shares.len() < threshold
        invariant
            0 <= i <= groups@.len(),
            shares@.len() == idxs.len(),
            shares@.len() <= threshold,
            forall|q: int| 0 <= q < idxs.len() ==> 0 <= #[trigger] idxs[q] < i,
            forall|q: int, q2: int| 0 <= q < q2 < idxs.len() ==> idxs[q] < idxs[q2],
            forall|q: int|
                0 <= q < idxs.len() ==> group_can(svc, groups@[#[trigger] idxs[q]]@),
        decreases groups@.len() - i,
    {
        match unwrap_group(svc, &groups[i]) {
            Ok(y) => {
                shares.push(Share { x: (i + 1) as u8, y });
                proof {
                    idxs = idxs.push(i as int);
                }
            },
            Err(_) => {},
        }
        i += 1;
    }
    if shares.len() < threshold {
        return Err(Error::KeyRecoveryError);
    }
    proof {
        lemma_count_from_positions(svc, groups@, idxs, groups@.len() as int);
    }
    match combine_shares(&shares) {
        Ok(k) => {
            proof {
                let w = shares_view(shares@);
                assert(w.len() == threshold);
                assert(combine_spec(w) == Some(k@));
            }
            Ok(k)
        },
        Err(_) => Err(Error::KeyRecoveryError),
    }
}

/// Wraps a fresh data key against every recipient of every group.
///
/// In direct mode every entry wraps the data key itself; in threshold mode
/// the key is split into one share per group and each group's entries wrap
/// that group's share.  A failing recipient is recorded and skipped; the
/// whole operation fails only when a group ends up empty in direct mode, or
/// fewer than `threshold` groups end up non-empty in threshold mode.
#[verifier::loop_isolation(false)]
pub fn wrap_data_key<S: KeyService>(
    svc: &S,
    key: &Vec<u8>,
    recipients: &Vec<Vec<(KeyKind, Vec<u8>)>>,
    threshold: usize,
) -> (r: Result<Vec<Vec<MasterKey>>, Error>)
    requires
        key@.len() == KEY_LEN,
    ensures
        r matches Ok(gs) ==> gs@.len() == recipients@.len() && recipients@.len() >= 1,
        r matches Ok(gs) ==> !threshold_mode(recipients@.len() as int, threshold as int) ==> (
        forall|i: int, j: int|
            0 <= i < gs@.len() && 0 <= j < gs@[i]@.len() ==> svc.unwrap_model(
                (#[trigger] gs@[i]@[j])@,
            ) == Some(key@)) && (forall|i: int| 0 <= i < gs@.len() ==> (#[trigger] gs@[i])@.len()
            >= 1),
        r matches Ok(gs) ==> threshold_mode(recipients@.len() as int, threshold as int) ==> (
        forall|i: int| 0 <= i < gs@.len() ==> group_wraps_same(svc, (#[trigger] gs@[i])@)),
        r matches Ok(gs) ==> threshold_mode(recipients@.len() as int, threshold as int)
            ==> count_nonempty(gs@, gs@.len() as int) >= threshold,
        r matches Ok(gs) ==> threshold_mode(recipients@.len() as int, threshold as int)
            ==> (exists|cs: Seq<Seq<u8>>|
            #![trigger cs.len()]
            cs.len() == KEY_LEN && (forall|k: int|
                0 <= k < KEY_LEN ==> (#[trigger] cs[k]).len() == threshold && cs[k][0]
                    == key@[k]) && (forall|i: int|
                0 <= i < gs@.len() ==> group_wraps_share(
                    svc,
                    (#[trigger] gs@[i])@,
                    cs,
                    (i + 1) as u8,
                ))),
        r matches Err(er) ==> er == Error::KeyRecoveryError,
{
    let n = recipients.len();
    if n == 0 {
        return Err(Error::KeyRecoveryError);
    }
    let tmode = n > 1 && 0 < threshold && threshold < n;
    if tmode && n > 255 {
        return Err(Error::KeyRecoveryError);
    }
    let shares: Vec<Share> = if tmode {
        split_secret(key, threshold, n)
    } else {
        Vec::new()
    };
    let ghost cs: Seq<Seq<u8>> = if tmode {
        choose|cs: Seq<Seq<u8>>|
            #![trigger cs.len()]
            cs.len() == key@.len() && (forall|k: int|
                0 <= k < key@.len() ==> (#[trigger] cs[k]).len() == threshold && cs[k][0]
                    == key@[k]) && (forall|i: int, k: int|
                0 <= i < n && 0 <= k < key@.len() ==> #[trigger] shares@[i]@.y[k]
                    == poly_eval_spec(cs[k], (i + 1) as u8))
    } else {
        Seq::empty()
    };
    proof {
        if tmode {
            assert(cs.len() == KEY_LEN && (forall|k: int|
                0 <= k < KEY_LEN ==> (#[trigger] cs[k]).len() == threshold && cs[k][0]
                    == key@[k]) && (forall|i: int, k: int|
                0 <= i < n && 0 <= k < KEY_LEN ==> #[trigger] shares@[i]@.y[k]
                    == poly_eval_spec(cs[k], (i + 1) as u8)));
        }
    }
    let mut gs: Vec<Vec<MasterKey>> = Vec::new();
    let mut filled: usize = 0;
    let mut i: usize = 0;
    while i < n
        invariant
            0 <= i <= n,
            gs@.len() == i,
            filled <= i,
            tmode ==> shares@.len() == n && (forall|q: int|
                0 <= q < n ==> (#[trigger] shares@[q])@.y.len() == KEY_LEN),
            !tmode ==> (forall|q: int, j: int|
                0 <= q < i && 0 <= j < gs@[q]@.len() ==> svc.unwrap_model(
                    (#[trigger] gs@[q]@[j])@,
                ) == Some(key@)),
            !tmode ==> (forall|q: int| 0 <= q < i ==> (#[trigger] gs@[q])@.len() >= 1),
            tmode ==> (forall|q: int|
                0 <= q < i ==> group_wraps_same(svc, (#[trigger] gs@[q])@)),
            tmode ==> cs.len() == KEY_LEN && (forall|k: int|
                0 <= k < KEY_LEN ==> (#[trigger] cs[k]).len() == threshold && cs[k][0]
                    == key@[k]),
            tmode ==> (forall|q: int|
                0 <= q < i ==> group_wraps_share(svc, (#[trigger] gs@[q])@, cs, (q
                    + 1) as u8)),
            filled == count_nonempty(gs@, i as int),
        decreases n - i,
    {
        let to_wrap: &Vec<u8> = if tmode {
            &shares[i].y
        } else {
            key
        };
        let mut group: Vec<MasterKey> = Vec::new();
        let mut j: usize = 0;
        while j < recipients[i].len()
            invariant
                0 <= i < n,
                0 <= j <= recipients@[i as int]@.len(),
                to_wrap@.len() == KEY_LEN,
                tmode ==> shares@.len() == n && to_wrap@ == shares@[i as int]@.y,
                !tmode ==> to_wrap@ == key@,
                forall|q: int|
                    0 <= q < group@.len() ==> svc.unwrap_model((#[trigger] group@[q])@)
                        == Some(to_wrap@),
            decreases recipients@[i as int]@.len() - j,
        {
            let kind = recipients[i][j].0;
            match svc.wrap_key(to_wrap, kind, &recipients[i][j].1) {
                Ok(e) => {
                    group.push(e);
                },
                Err(_) => {
                    // A failing recipient is tolerated; the rest of the
                    // group still guards the key.
                },
            }
            j += 1;
        }
        if group.len() == 0 && !tmode {
            return Err(Error::KeyRecoveryError);
        }
        if group.len() > 0 {
            filled += 1;
        }
        let ghost oldgs = gs@;
        let ghost gv = group@;
        gs.push(group);
        i += 1;
        proof {
            if tmode {
                assert(shares@[i - 1]@.y =~= Seq::new(
                    KEY_LEN as nat,
                    |k: int| poly_eval_spec(cs[k], ((i - 1) + 1) as u8),
                ));
                assert(group_wraps_share(svc, gv, cs, ((i - 1) + 1) as u8));
                assert(gs@[i - 1]@ == gv);
            }
            lemma_count_nonempty_same(gs@, oldgs, i - 1);
            assert(count_nonempty(gs@, i as int) == count_nonempty(gs@, i - 1) + (
            if gs@[i - 1]@.len() > 0 {
                1int
            } else {
                0int
            }));
        }
    }
    if tmode && filled < threshold {
        return Err(Error::KeyRecoveryError);
    }
    Ok(gs)
}

} // verus!
