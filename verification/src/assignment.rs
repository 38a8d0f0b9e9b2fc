//! Assignments of users to beams, and the constraints a correct assignment
//! obeys: every served user sees its satellite, no satellite serves more
//! than `MAX_FANOUT` users, and two users served by the same satellite on
//! the same color never interfere. A user appears at most once by
//! construction: the assignment has one slot per user index.

use vstd::prelude::*;
use crate::domain::Color;
use crate::domain::MAX_FANOUT;
use crate::domain::Sat;
use crate::domain::User;
use crate::feasibility::Feasibility;

verus! {

/// A beam serving one user: the satellite it comes from and its color.
#[derive(Clone, Copy, Debug, PartialEq, Eq, Structural)]
pub struct Beam {
    /// The satellite index.
    pub sat: usize,
    /// The beam color; never `Init` in a valid assignment.
    pub color: Color,
}

/// An assignment with one slot per user, all unassigned.
pub open spec fn empty_beams(n: nat) -> Seq<Option<Beam>> {
    Seq::new(n, |i: int| None)
}

/// How many users the assignment maps to satellite `s`.
pub open spec fn count_assigned_to(beams: Seq<Option<Beam>>, s: int) -> int
    decreases beams.len(),
{
    if beams.len() == 0 {
        0
    } else {
        count_assigned_to(beams.drop_last(), s) + match beams.last() {
            Some(b) => if b.sat == s {
                1int
            } else {
                0int
            },
            None => 0int,
        }
    }
}

/// How many users the assignment serves.
pub open spec fn count_served(beams: Seq<Option<Beam>>) -> int
    decreases beams.len(),
{
    if beams.len() == 0 {
        0
    } else {
        count_served(beams.drop_last()) + if beams.last() is Some {
            1int
        } else {
            0int
        }
    }
}

/// Every served user can see the satellite serving it, the satellite index
/// is in range, and the color is one of the four assignable ones.
pub open spec fn all_assigned_visible(feas: Feasibility, beams: Seq<Option<Beam>>) -> bool {
    forall|u: int|
        0 <= u < beams.len() ==> (#[trigger] beams[u] matches Some(b) ==> b.sat < feas.n_sats
            && b.color != Color::Init && feas.visible(b.sat as int, u))
}

/// No satellite serves more than `MAX_FANOUT` users.
pub open spec fn fanout_ok(feas: Feasibility, beams: Seq<Option<Beam>>) -> bool {
    forall|s: int| 0 <= s < feas.n_sats ==> count_assigned_to(beams, s) <= MAX_FANOUT
}

/// No two distinct users served by the same satellite on the same color
/// interfere as seen from that satellite.
pub open spec fn interference_free(feas: Feasibility, beams: Seq<Option<Beam>>) -> bool {
    forall|u1: int, u2: int|
        #![trigger beams[u1], beams[u2]]
        0 <= u1 < beams.len() && 0 <= u2 < beams.len() && u1 != u2 ==> (beams[u1] matches Some(b)
            ==> (beams[u2] == Some(b) ==> !feas.interferes(b.sat as int, u1, u2)))
}

/// The full correctness contract of an assignment against the feasibility
/// relations.
pub open spec fn assignment_valid(feas: Feasibility, beams: Seq<Option<Beam>>) -> bool {
    &&& beams.len() == feas.n_users
    &&& all_assigned_visible(feas, beams)
    &&& fanout_ok(feas, beams)
    &&& interference_free(feas, beams)
}

/// Appending a slot adds its contribution to the per-satellite count.
pub proof fn lemma_count_push(beams: Seq<Option<Beam>>, x: Option<Beam>, s: int)
    ensures
        count_assigned_to(beams.push(x), s) == count_assigned_to(beams, s) + match x {
            Some(b) => if b.sat == s {
                1int
            } else {
                0int
            },
            None => 0int,
        },
{
    assert(beams.push(x).drop_last() =~= beams);
}

/// Appending a slot adds its contribution to the served count.
pub proof fn lemma_count_served_push(beams: Seq<Option<Beam>>, x: Option<Beam>)
    ensures
        count_served(beams.push(x)) == count_served(beams) + if x is Some {
            1int
        } else {
            0int
        },
{
    assert(beams.push(x).drop_last() =~= beams);
}

/// In the all-unassigned assignment every count is zero.
pub proof fn lemma_count_empty(n: nat, s: int)
    ensures
        count_assigned_to(empty_beams(n), s) == 0,
        count_served(empty_beams(n)) == 0,
    decreases n,
{
    if n > 0 {
        assert(empty_beams(n).drop_last() =~= empty_beams((n - 1) as nat));
        lemma_count_empty((n - 1) as nat, s);
    }
}

/// Assigning an unassigned user to a beam raises the count of that beam's
/// satellite by one, leaves every other satellite's count unchanged, and
/// raises the served count by one.
pub proof fn lemma_count_update(beams: Seq<Option<Beam>>, u: int, b: Beam, s: int)
    requires
        0 <= u < beams.len(),
        beams[u] is None,
    ensures
        count_assigned_to(beams.update(u, Some(b)), s) == count_assigned_to(beams, s) + if b.sat
            == s {
            1int
        } else {
            0int
        },
        count_served(beams.update(u, Some(b))) == count_served(beams) + 1,
    decreases beams.len(),
{
    let upd = beams.update(u, Some(b));
    if u == beams.len() - 1 {
        assert(upd.drop_last() =~= beams.drop_last());
    } else {
        assert(upd.drop_last() =~= beams.drop_last().update(u, Some(b)));
        lemma_count_update(beams.drop_last(), u, b, s);
        assert(upd.last() == beams.last());
    }
}

/// Counts the users the assignment maps to satellite `s`.
pub fn count_for_sat(beams: &Vec<Option<Beam>>, s: usize) -> (n: usize)
    ensures
        n == count_assigned_to(beams@, s as int),
{
    let mut n: usize = 0;
    let mut k: usize = 0;
    while k < beams.len()
        invariant
            k <= beams@.len(),
            n <= k,
            n == count_assigned_to(beams@.take(k as int), s as int),
        decreases beams@.len() - k,
    {
        proof {
            lemma_count_push(beams@.take(k as int), beams@[k as int], s as int);
            assert(beams@.take(k as int).push(beams@[k as int]) =~= beams@.take(k as int + 1));
        }
        match beams[k] {
            Some(b) => {
                if b.sat == s {
                    n = n + 1;
                }
            },
            None => {},
        }
        k = k + 1;
    }
    proof {
        assert(beams@.take(beams@.len() as int) =~= beams@);
    }
    n
}

/// Counts the users the assignment serves.
pub fn count_served_exec(beams: &Vec<Option<Beam>>) -> (n: usize)
    ensures
        n == count_served(beams@),
{
    let mut n: usize = 0;
    let mut k: usize = 0;
    while k < beams.len()
        invariant
            k <= beams@.len(),
            n <= k,
            n == count_served(beams@.take(k as int)),
        decreases beams@.len() - k,
    {
        proof {
            lemma_count_served_push(beams@.take(k as int), beams@[k as int]);
            assert(beams@.take(k as int).push(beams@[k as int]) =~= beams@.take(k as int + 1));
        }
        if beams[k].is_some() {
            n = n + 1;
        }
        k = k + 1;
    }
    proof {
        assert(beams@.take(beams@.len() as int) =~= beams@);
    }
    n
}

/// The assignment as a list of (user, satellite, color) records, one per
/// served user, in ascending user order. User and satellite indices are
/// wrapped in their domain handles.
pub fn assignment_pairs(beams: &Vec<Option<Beam>>) -> (out: Vec<(User, Sat, Color)>)
    ensures
        out@.len() == count_served(beams@),
        forall|i: int|
            0 <= i < out@.len() ==> {
                let (u, sat, color) = #[trigger] out@[i];
                &&& (u.0 as int) < beams@.len()
                &&& (beams@[u.0 as int] matches Some(b) && b.sat as u64 == sat.0 && b.color
                    == color)
            },
{
    let mut out: Vec<(User, Sat, Color)> = Vec::new();
    let mut k: usize = 0;
    while k < beams.len()
        invariant
            k <= beams@.len(),
            out@.len() == count_served(beams@.take(k as int)),
            forall|i: int|
                0 <= i < out@.len() ==> {
                    let (u, sat, color) = #[trigger] out@[i];
                    &&& (u.0 as int) < k
                    &&& (beams@[u.0 as int] matches Some(b) && b.sat as u64 == sat.0 && b.color
                        == color)
                },
        decreases beams@.len() - k,
    {
        proof {
            lemma_count_served_push(beams@.take(k as int), beams@[k as int]);
            assert(beams@.take(k as int).push(beams@[k as int]) =~= beams@.take(k as int + 1));
        }
        match beams[k] {
            Some(b) => {
                out.push((User(k as u64), Sat(b.sat as u64), b.color));
            },
            None => {},
        }
        k = k + 1;
    }
    proof {
        assert(beams@.take(beams@.len() as int) =~= beams@);
    }
    out
}

} // verus!
