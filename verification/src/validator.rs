//! Independent validation of an assignment.
//!
//! The validator re-checks every assignment constraint directly against the
//! feasibility relations it is handed, without consulting the solver: each
//! served user sees its satellite on an assignable color, no satellite
//! serves more than the fanout cap, and no two users on one satellite and
//! color interfere. The caller may hand it relations rebuilt independently
//! from the raw positions — typically with a small angular tolerance — and
//! the relaxation lemma below shows a valid assignment stays valid under
//! any such loosening. Coverage is checked separately, in exact rational
//! arithmetic.

use vstd::prelude::*;
use crate::assignment::Beam;
use crate::assignment::all_assigned_visible;
use crate::assignment::assignment_valid;
use crate::assignment::count_assigned_to;
use crate::assignment::count_for_sat;
use crate::domain::Color;
use crate::domain::MAX_FANOUT;
use crate::feasibility::Feasibility;

verus! {

/// Why the validator rejected an assignment.
#[derive(Clone, Copy, Debug, PartialEq, Eq, Structural)]
pub enum ValidationError {
    /// The assignment does not have one slot per user.
    WrongLength,
    /// A served user carries the sentinel color.
    InvalidColor,
    /// A served user names a satellite index out of range.
    SatOutOfRange,
    /// A served user cannot see its serving satellite.
    NotVisible,
    /// A satellite serves more users than the fanout cap.
    FanoutExceeded,
    /// Two users on one satellite and color interfere.
    Interference,
}

/// Checks an assignment against the feasibility relations. Returns `Ok`
/// exactly when the assignment obeys every constraint; each error names a
/// constraint that the assignment breaks.
pub fn validate(feas: &Feasibility, beams: &Vec<Option<Beam>>) -> (r: Result<(), ValidationError>)
    requires
        feas.wf(),
    ensures
        r is Ok <==> assignment_valid(*feas, beams@),
        r == Err::<(), ValidationError>(ValidationError::WrongLength) ==> beams@.len()
            != feas.n_users,
        r == Err::<(), ValidationError>(ValidationError::InvalidColor) ==> exists|u: int|
            0 <= u < beams@.len() && (#[trigger] beams@[u] matches Some(b) && b.color
                == Color::Init),
        r == Err::<(), ValidationError>(ValidationError::SatOutOfRange) ==> exists|u: int|
            0 <= u < beams@.len() && (#[trigger] beams@[u] matches Some(b) && b.sat
                >= feas.n_sats),
        r == Err::<(), ValidationError>(ValidationError::NotVisible) ==> exists|u: int|
            0 <= u < beams@.len() && (#[trigger] beams@[u] matches Some(b) && b.sat < feas.n_sats
                && !feas.visible(b.sat as int, u)),
        r == Err::<(), ValidationError>(ValidationError::FanoutExceeded) ==> exists|s: int|
            0 <= s < feas.n_sats && count_assigned_to(beams@, s) > MAX_FANOUT,
        r == Err::<(), ValidationError>(ValidationError::Interference) ==> exists|u1: int, u2: int|
            #![trigger beams@[u1], beams@[u2]]
            0 <= u1 < beams@.len() && 0 <= u2 < beams@.len() && u1 != u2 && (beams@[u1]
                matches Some(b) && beams@[u2] == Some(b) && feas.interferes(b.sat as int, u1, u2)),
{
    if beams.len() != feas.n_users {
        return Err(ValidationError::WrongLength);
    }
    let n = beams.len();
    let mut u: usize = 0;
    while u < n
        invariant
            feas.wf(),
            n == beams@.len(),
            n == feas.n_users,
            u <= n,
            forall|u2: int|
                0 <= u2 < u ==> (#[trigger] beams@[u2] matches Some(b) ==> b.sat < feas.n_sats
                    && b.color != Color::Init && feas.visible(b.sat as int, u2)),
        decreases n - u,
    {
        match beams[u] {
            Some(b) => {
                if b.color == Color::Init {
                    return Err(ValidationError::InvalidColor);
                }
                if b.sat >= feas.n_sats {
                    return Err(ValidationError::SatOutOfRange);
                }
                if !feas.is_visible(b.sat, u) {
                    return Err(ValidationError::NotVisible);
                }
            },
            None => {},
        }
        u = u + 1;
    }
    let mut s: usize = 0;
    while s < feas.n_sats
        invariant
            feas.wf(),
            n == beams@.len(),
            n == feas.n_users,
            s <= feas.n_sats,
            forall|s2: int| 0 <= s2 < s ==> count_assigned_to(beams@, s2) <= MAX_FANOUT,
        decreases feas.n_sats - s,
    {
        let cnt = count_for_sat(beams, s);
        if cnt > MAX_FANOUT {
            return Err(ValidationError::FanoutExceeded);
        }
        s = s + 1;
    }
    let mut u: usize = 0;
    while u < n
        invariant
            feas.wf(),
            n == beams@.len(),
            n == feas.n_users,
            u <= n,
            all_assigned_visible(*feas, beams@),
            forall|u2: int, i: int|
                #![trigger feas.intf_seq(spec_sat_of(beams@[u2]), u2)[i]]
                0 <= u2 < u && beams@[u2] is Some && 0 <= i < feas.intf_seq(
                    spec_sat_of(beams@[u2]),
                    u2,
                ).len() ==> beams@[feas.intf_seq(spec_sat_of(beams@[u2]), u2)[i] as int]
                    != beams@[u2],
        decreases n - u,
    {
        match beams[u] {
            Some(b) => {
                let m = feas.intf_len(b.sat, u);
                let mut i: usize = 0;
                while i < m
                    invariant
                        feas.wf(),
                        n == beams@.len(),
                        n == feas.n_users,
                        u < n,
                        beams@[u as int] == Some(b),
                        b.sat < feas.n_sats,
                        i <= m,
                        m == feas.intf_seq(b.sat as int, u as int).len(),
                        forall|j: int|
                            0 <= j < i ==> beams@[#[trigger] feas.intf_seq(
                                b.sat as int,
                                u as int,
                            )[j] as int] != Some(b),
                    decreases m - i,
                {
                    let v = feas.intf_at(b.sat, u, i);
                    match beams[v] {
                        Some(bv) => {
                            if bv.sat == b.sat && bv.color == b.color {
                                proof {
                                    assert(feas.intf_seq(b.sat as int, u as int)[i as int] == v);
                                    assert(v as int != u as int);
                                    assert(feas.interferes(b.sat as int, u as int, v as int));
                                    assert(beams@[v as int] == Some(b));
                                }
                                return Err(ValidationError::Interference);
                            }
                        },
                        None => {},
                    }
                    i = i + 1;
                }
                proof {
                    assert(spec_sat_of(beams@[u as int]) == b.sat as int);
                }
            },
            None => {},
        }
        u = u + 1;
    }
    proof {
        assert forall|u1: int, u2: int|
            #![trigger beams@[u1], beams@[u2]]
            0 <= u1 < beams@.len() && 0 <= u2 < beams@.len() && u1 != u2 implies (beams@[u1]
            matches Some(b) ==> (beams@[u2] == Some(b) ==> !feas.interferes(
            b.sat as int,
            u1,
            u2,
        ))) by {
            if beams@[u1] is Some && beams@[u2] == beams@[u1] {
                let b = beams@[u1]->Some_0;
                if feas.interferes(b.sat as int, u1, u2) {
                    let i = choose|i: int|
                        0 <= i < feas.intf_seq(b.sat as int, u1).len() && feas.intf_seq(
                            b.sat as int,
                            u1,
                        )[i] as int == u2;
                    assert(beams@[feas.intf_seq(spec_sat_of(beams@[u1]), u1)[i] as int]
                        != beams@[u1]);
                }
            }
        }
    }
    Ok(())
}

/// The satellite index a slot names, or zero for an empty slot; only used
/// to phrase quantified facts about served users.
pub open spec fn spec_sat_of(slot: Option<Beam>) -> int {
    match slot {
        Some(b) => b.sat as int,
        None => 0,
    }
}

/// Whether `served` out of `total` users meets the required coverage
/// fraction `num / den`, in exact integer arithmetic.
pub fn meets_coverage(served: usize, total: usize, num: u64, den: u64) -> (r: bool)
    ensures
        r == (served * den >= num * total),
{
    proof {
        assert((served as u128) * (den as u128) <= (u64::MAX as u128) * (u64::MAX as u128)
            && (num as u128) * (total as u128) <= (u64::MAX as u128) * (u64::MAX as u128))
            by (nonlinear_arith)
            requires
                served as u128 <= u64::MAX as u128,
                den as u128 <= u64::MAX as u128,
                num as u128 <= u64::MAX as u128,
                total as u128 <= u64::MAX as u128,
        {}
    }
    (served as u128) * (den as u128) >= (num as u128) * (total as u128)
}

/// A valid assignment stays valid when the relations are loosened: any
/// store that sees at least the same visibility and at most the same
/// interference — such as one rebuilt from raw positions with an angular
/// tolerance — accepts it too.
pub proof fn lemma_valid_under_relaxation(
    f1: Feasibility,
    f2: Feasibility,
    beams: Seq<Option<Beam>>,
)
    requires
        assignment_valid(f1, beams),
        f2.n_users == f1.n_users,
        f2.n_sats == f1.n_sats,
        forall|s: int, u: int|
            0 <= s < f1.n_sats && 0 <= u < f1.n_users && f1.visible(s, u)
                ==> #[trigger] f2.visible(s, u),
        forall|s: int, u: int, v: int|
            0 <= s < f1.n_sats && 0 <= u < f1.n_users && 0 <= v < f1.n_users
                && #[trigger] f2.interferes(s, u, v) ==> f1.interferes(s, u, v),
    ensures
        assignment_valid(f2, beams),
{
    assert forall|u: int|
        0 <= u < beams.len() implies (#[trigger] beams[u] matches Some(b) ==> b.sat < f2.n_sats
        && b.color != Color::Init && f2.visible(b.sat as int, u)) by {
        if beams[u] is Some {
            let b = beams[u]->Some_0;
            assert(f1.visible(b.sat as int, u));
        }
    }
    assert forall|u1: int, u2: int|
        #![trigger beams[u1], beams[u2]]
        0 <= u1 < beams.len() && 0 <= u2 < beams.len() && u1 != u2 implies (beams[u1] matches Some(
        b,
    ) ==> (beams[u2] == Some(b) ==> !f2.interferes(b.sat as int, u1, u2))) by {
        if beams[u1] is Some && beams[u2] == beams[u1] {
            let b = beams[u1]->Some_0;
            if f2.interferes(b.sat as int, u1, u2) {
                assert(f1.interferes(b.sat as int, u1, u2));
            }
        }
    }
}

} // verus!
