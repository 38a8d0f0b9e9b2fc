//! The greedy beam solver.
//!
//! The candidate pool is the set of (satellite, user, color) triples with the
//! user visible to the satellite, taken in a fixed total order: by satellite,
//! then by user, then by color. The commit loop walks the pool once; a
//! candidate is committed exactly when it is still available — its user is
//! unassigned, its satellite below the fanout cap, and no interfering peer
//! already holds the same satellite and color. Committing a candidate prunes,
//! by that availability test, every candidate a commitment may no longer
//! tolerate: the remaining colors of the user, the same color on interfering
//! peers, and the whole satellite once saturated. The walk consumes one pool
//! element per iteration, so it terminates, and the result is a function of
//! the feasibility relations alone: the same input always yields the same
//! assignment.

use vstd::prelude::*;
use crate::assignment::Beam;
use crate::assignment::assignment_valid;
use crate::assignment::count_assigned_to;
use crate::assignment::empty_beams;
use crate::assignment::lemma_count_empty;
use crate::assignment::lemma_count_update;
use crate::domain::Color;
use crate::domain::MAX_FANOUT;
use crate::feasibility::Feasibility;

verus! {

/// One pool candidate: satellite `sat` serving user `user` on `color`.
#[derive(Clone, Copy, Debug)]
pub struct Cand {
    pub sat: usize,
    pub user: usize,
    pub color: Color,
}

/// The four candidates of one visible (satellite, user) pair, in color order.
pub open spec fn color_quad(s: usize, u: usize) -> Seq<Cand> {
    seq![
        (Cand { sat: s, user: u, color: Color::A }),
        (Cand { sat: s, user: u, color: Color::B }),
        (Cand { sat: s, user: u, color: Color::C }),
        (Cand { sat: s, user: u, color: Color::D }),
    ]
}

/// The candidates of satellite `s` for users below `j`, in user order.
pub open spec fn sat_cands_upto(feas: Feasibility, s: usize, j: int) -> Seq<Cand>
    decreases j,
{
    if j <= 0 {
        Seq::empty()
    } else {
        sat_cands_upto(feas, s, j - 1) + if feas.visible(s as int, j - 1) {
            color_quad(s, (j - 1) as usize)
        } else {
            Seq::empty()
        }
    }
}

/// The candidates of satellites below `i`, in satellite order.
pub open spec fn cands_upto(feas: Feasibility, i: int) -> Seq<Cand>
    decreases i,
{
    if i <= 0 {
        Seq::empty()
    } else {
        cands_upto(feas, i - 1) + sat_cands_upto(feas, (i - 1) as usize, feas.n_users as int)
    }
}

/// The whole candidate pool, in its fixed total order.
pub open spec fn candidates(feas: Feasibility) -> Seq<Cand> {
    cands_upto(feas, feas.n_sats as int)
}

/// A candidate names an in-range satellite and user, a visible pair, and an
/// assignable color.
pub open spec fn cand_ok(feas: Feasibility, c: Cand) -> bool {
    &&& c.sat < feas.n_sats
    &&& c.user < feas.n_users
    &&& feas.visible(c.sat as int, c.user as int)
    &&& c.color != Color::Init
}

/// Every candidate of the pool is well-formed.
pub open spec fn cands_ok(feas: Feasibility, q: Seq<Cand>) -> bool {
    forall|i: int| 0 <= i < q.len() ==> cand_ok(feas, #[trigger] q[i])
}

proof fn lemma_sat_cands_ok(feas: Feasibility, s: usize, j: int)
    requires
        s < feas.n_sats,
        0 <= j <= feas.n_users,
    ensures
        cands_ok(feas, sat_cands_upto(feas, s, j)),
    decreases j,
{
    if j > 0 {
        lemma_sat_cands_ok(feas, s, j - 1);
        let q1 = sat_cands_upto(feas, s, j - 1);
        let q = sat_cands_upto(feas, s, j);
        assert forall|i: int| 0 <= i < q.len() implies cand_ok(feas, #[trigger] q[i]) by {
            if i < q1.len() {
                assert(q[i] == q1[i]);
            } else {
                assert(feas.visible(s as int, j - 1));
                assert(q[i] == color_quad(s, (j - 1) as usize)[i - q1.len()]);
            }
        }
    }
}

proof fn lemma_cands_upto_ok(feas: Feasibility, i: int)
    requires
        0 <= i <= feas.n_sats,
    ensures
        cands_ok(feas, cands_upto(feas, i)),
    decreases i,
{
    if i > 0 {
        lemma_cands_upto_ok(feas, i - 1);
        lemma_sat_cands_ok(feas, (i - 1) as usize, feas.n_users as int);
        let q1 = cands_upto(feas, i - 1);
        let q2 = sat_cands_upto(feas, (i - 1) as usize, feas.n_users as int);
        let q = cands_upto(feas, i);
        assert forall|k: int| 0 <= k < q.len() implies cand_ok(feas, #[trigger] q[k]) by {
            if k < q1.len() {
                assert(q[k] == q1[k]);
            } else {
                assert(q[k] == q2[k - q1.len()]);
            }
        }
    }
}

/// Every candidate of the pool names an in-range, visible pair and an
/// assignable color.
pub proof fn lemma_candidates_ok(feas: Feasibility)
    ensures
        cands_ok(feas, candidates(feas)),
{
    lemma_cands_upto_ok(feas, feas.n_sats as int);
}

/// Materializes the candidate pool in its fixed total order.
fn build_candidates(feas: &Feasibility) -> (cands: Vec<Cand>)
    requires
        feas.wf(),
    ensures
        cands@ == candidates(*feas),
{
    let mut cands: Vec<Cand> = Vec::new();
    let mut s: usize = 0;
    while s < feas.n_sats
        invariant
            feas.wf(),
            s <= feas.n_sats,
            cands@ == cands_upto(*feas, s as int),
        decreases feas.n_sats - s,
    {
        let mut u: usize = 0;
        proof {
            assert(cands@ =~= cands_upto(*feas, s as int) + sat_cands_upto(*feas, s, 0));
        }
        while u < feas.n_users
            invariant
                feas.wf(),
                s < feas.n_sats,
                u <= feas.n_users,
                cands@ == cands_upto(*feas, s as int) + sat_cands_upto(*feas, s, u as int),
            decreases feas.n_users - u,
        {
            let ghost before = cands@;
            if feas.is_visible(s, u) {
                cands.push(Cand { sat: s, user: u, color: Color::A });
                cands.push(Cand { sat: s, user: u, color: Color::B });
                cands.push(Cand { sat: s, user: u, color: Color::C });
                cands.push(Cand { sat: s, user: u, color: Color::D });
                proof {
                    assert(cands@ =~= before + color_quad(s, u));
                    assert(cands@ =~= cands_upto(*feas, s as int) + sat_cands_upto(
                        *feas,
                        s,
                        u as int + 1,
                    ));
                }
            } else {
                proof {
                    assert(cands@ =~= cands_upto(*feas, s as int) + sat_cands_upto(
                        *feas,
                        s,
                        u as int + 1,
                    ));
                }
            }
            u = u + 1;
        }
        proof {
            assert(cands@ == cands_upto(*feas, s as int) + sat_cands_upto(
                *feas,
                s,
                feas.n_users as int,
            ));
            assert(cands@ == cands_upto(*feas, s as int + 1));
        }
        s = s + 1;
    }
    cands
}

/// A candidate is available when its user is unassigned, its satellite has
/// spare fanout, and no interfering peer already holds the same satellite
/// and color.
pub open spec fn avail(feas: Feasibility, beams: Seq<Option<Beam>>, c: Cand) -> bool {
    &&& beams[c.user as int] is None
    &&& count_assigned_to(beams, c.sat as int) < MAX_FANOUT
    &&& forall|i: int|
        0 <= i < feas.intf_seq(c.sat as int, c.user as int).len() ==> beams[#[trigger] feas.intf_seq(
            c.sat as int,
            c.user as int,
        )[i] as int] != Some(Beam { sat: c.sat, color: c.color })
}

/// One commit-loop iteration: commit the candidate if it is available,
/// otherwise leave the assignment unchanged.
pub open spec fn step(feas: Feasibility, beams: Seq<Option<Beam>>, c: Cand) -> Seq<Option<Beam>> {
    if avail(feas, beams, c) {
        beams.update(c.user as int, Some(Beam { sat: c.sat, color: c.color }))
    } else {
        beams
    }
}

/// The assignment after the first `k` candidates of the pool have been
/// considered.
pub open spec fn greedy_upto(feas: Feasibility, cands: Seq<Cand>, k: int) -> Seq<Option<Beam>>
    decreases k,
{
    if k <= 0 {
        empty_beams(feas.n_users as nat)
    } else {
        step(feas, greedy_upto(feas, cands, k - 1), cands[k - 1])
    }
}

/// The assignment the solver returns: the whole pool considered, in order.
/// This is a function of the feasibility relations alone, so the solver is
/// deterministic.
pub open spec fn spec_solve(feas: Feasibility) -> Seq<Option<Beam>> {
    greedy_upto(feas, candidates(feas), candidates(feas).len() as int)
}

/// One commit preserves every assignment constraint.
proof fn lemma_step_valid(feas: Feasibility, beams: Seq<Option<Beam>>, c: Cand)
    requires
        feas.wf(),
        cand_ok(feas, c),
        assignment_valid(feas, beams),
    ensures
        assignment_valid(feas, step(feas, beams, c)),
{
    if avail(feas, beams, c) {
        let b = Beam { sat: c.sat, color: c.color };
        let u = c.user as int;
        let upd = beams.update(u, Some(b));
        assert forall|s: int| 0 <= s < feas.n_sats implies count_assigned_to(upd, s)
            <= MAX_FANOUT by {
            lemma_count_update(beams, u, b, s);
        }
        assert forall|u1: int, u2: int|
            #![trigger upd[u1], upd[u2]]
            0 <= u1 < upd.len() && 0 <= u2 < upd.len() && u1 != u2 implies (upd[u1] matches Some(
            bb,
        ) ==> (upd[u2] == Some(bb) ==> !feas.interferes(bb.sat as int, u1, u2))) by {
            if upd[u1] is Some && upd[u2] == upd[u1] {
                let bb = upd[u1]->Some_0;
                if u1 == u {
                    assert(bb == b);
                    assert(beams[u2] == Some(b));
                    if feas.interferes(b.sat as int, u1, u2) {
                        let i = choose|i: int|
                            0 <= i < feas.intf_seq(b.sat as int, u1).len() && feas.intf_seq(
                                b.sat as int,
                                u1,
                            )[i] as int == u2;
                        assert(beams[feas.intf_seq(c.sat as int, c.user as int)[i] as int] != Some(
                            b,
                        ));
                    }
                } else if u2 == u {
                    assert(bb == b);
                    assert(beams[u1] == Some(b));
                    if feas.interferes(b.sat as int, u1, u2) {
                        assert(feas.interferes(b.sat as int, u2, u1));
                        let i = choose|i: int|
                            0 <= i < feas.intf_seq(b.sat as int, u2).len() && feas.intf_seq(
                                b.sat as int,
                                u2,
                            )[i] as int == u1;
                        assert(beams[feas.intf_seq(c.sat as int, c.user as int)[i] as int] != Some(
                            b,
                        ));
                    }
                } else {
                    assert(beams[u1] == upd[u1] && beams[u2] == upd[u2]);
                }
            }
        }
    }
}

/// Every prefix of the commit loop yields an assignment that obeys all the
/// constraints.
proof fn lemma_greedy_valid(feas: Feasibility, cands: Seq<Cand>, k: int)
    requires
        feas.wf(),
        cands_ok(feas, cands),
        0 <= k <= cands.len(),
    ensures
        assignment_valid(feas, greedy_upto(feas, cands, k)),
    decreases k,
{
    if k == 0 {
        assert forall|s: int| 0 <= s < feas.n_sats implies count_assigned_to(
            empty_beams(feas.n_users as nat),
            s,
        ) <= MAX_FANOUT by {
            lemma_count_empty(feas.n_users as nat, s);
        }
    } else {
        lemma_greedy_valid(feas, cands, k - 1);
        lemma_step_valid(feas, greedy_upto(feas, cands, k - 1), cands[k - 1]);
    }
}

/// The solver's specification obeys all the assignment constraints: every
/// served user sees its satellite, no satellite exceeds the fanout cap, no
/// same-satellite same-color pair interferes, and each user holds at most
/// one beam. With the validator's contract this says the validator accepts
/// every assignment the solver emits.
pub proof fn lemma_solve_valid(feas: Feasibility)
    requires
        feas.wf(),
    ensures
        assignment_valid(feas, spec_solve(feas)),
{
    lemma_candidates_ok(feas);
    lemma_greedy_valid(feas, candidates(feas), candidates(feas).len() as int);
}

/// After any number of committed candidates the assignment still has one
/// slot per user.
pub proof fn lemma_greedy_len(feas: Feasibility, cands: Seq<Cand>, k: int)
    requires
        cands_ok(feas, cands),
        0 <= k <= cands.len(),
    ensures
        greedy_upto(feas, cands, k).len() == feas.n_users,
    decreases k,
{
    if k > 0 {
        lemma_greedy_len(feas, cands, k - 1);
    }
}

/// Commits are monotone: a user served after `k1` candidates keeps exactly
/// the same beam after any further candidates are considered. A commitment
/// is never invalidated and never overwritten, so the overwrite case needs
/// no defensive handling — it is unreachable.
pub proof fn lemma_commit_monotone(feas: Feasibility, cands: Seq<Cand>, k1: int, k2: int)
    requires
        cands_ok(feas, cands),
        0 <= k1 <= k2 <= cands.len(),
    ensures
        forall|u: int|
            0 <= u < greedy_upto(feas, cands, k1).len() && #[trigger] greedy_upto(
                feas,
                cands,
                k1,
            )[u] is Some ==> greedy_upto(feas, cands, k2)[u] == greedy_upto(feas, cands, k1)[u],
    decreases k2 - k1,
{
    lemma_greedy_len(feas, cands, k1);
    if k1 < k2 {
        lemma_commit_monotone(feas, cands, k1, k2 - 1);
        lemma_greedy_len(feas, cands, k2 - 1);
        let prev = greedy_upto(feas, cands, k2 - 1);
        let c = cands[k2 - 1];
        assert forall|u: int|
            0 <= u < greedy_upto(feas, cands, k1).len() && #[trigger] greedy_upto(
            feas,
            cands,
            k1,
        )[u] is Some implies greedy_upto(feas, cands, k2)[u] == greedy_upto(feas, cands, k1)[u] by {
            if avail(feas, prev, c) {
                assert(prev[c.user as int] is None);
                assert(c.user < feas.n_users);
                assert(u != c.user as int);
            }
        }
    }
}

/// Where nothing is visible there is nothing to serve: the solver returns
/// the all-unassigned assignment. In particular a scenario with no users,
/// no satellites, or no visible pair yields an empty assignment and no
/// error.
pub proof fn lemma_no_visibility_no_service(feas: Feasibility)
    requires
        forall|s: int, u: int|
            0 <= s < feas.n_sats && 0 <= u < feas.n_users ==> !feas.visible(s, u),
    ensures
        spec_solve(feas) == empty_beams(feas.n_users as nat),
{
    lemma_cands_upto_empty(feas, feas.n_sats as int);
}

proof fn lemma_sat_cands_empty(feas: Feasibility, s: usize, j: int)
    requires
        s < feas.n_sats,
        0 <= j <= feas.n_users,
        forall|u: int| 0 <= u < feas.n_users ==> !feas.visible(s as int, u),
    ensures
        sat_cands_upto(feas, s, j) == Seq::<Cand>::empty(),
    decreases j,
{
    if j > 0 {
        lemma_sat_cands_empty(feas, s, j - 1);
        assert(sat_cands_upto(feas, s, j) =~= Seq::<Cand>::empty());
    }
}

proof fn lemma_cands_upto_empty(feas: Feasibility, i: int)
    requires
        0 <= i <= feas.n_sats,
        forall|s: int, u: int|
            0 <= s < feas.n_sats && 0 <= u < feas.n_users ==> !feas.visible(s, u),
    ensures
        cands_upto(feas, i) == Seq::<Cand>::empty(),
    decreases i,
{
    if i > 0 {
        lemma_cands_upto_empty(feas, i - 1);
        lemma_sat_cands_empty(feas, (i - 1) as usize, feas.n_users as int);
        assert(cands_upto(feas, i) =~= Seq::<Cand>::empty());
    }
}

/// The availability test of the commit loop.
fn is_avail(feas: &Feasibility, beams: &Vec<Option<Beam>>, fanout: &Vec<usize>, c: Cand) -> (r:
    bool)
    requires
        feas.wf(),
        cand_ok(*feas, c),
        beams@.len() == feas.n_users,
        fanout@.len() == feas.n_sats,
        forall|s: int|
            0 <= s < feas.n_sats ==> (#[trigger] fanout@[s]) as int == count_assigned_to(
                beams@,
                s,
            ),
    ensures
        r == avail(*feas, beams@, c),
{
    if beams[c.user].is_some() {
        return false;
    }
    if fanout[c.sat] >= MAX_FANOUT {
        return false;
    }
    let ghost target = Beam { sat: c.sat, color: c.color };
    let m = feas.intf_len(c.sat, c.user);
    let mut t: usize = 0;
    while t < m
        invariant
            feas.wf(),
            cand_ok(*feas, c),
            beams@.len() == feas.n_users,
            t <= m,
            m == feas.intf_seq(c.sat as int, c.user as int).len(),
            target == (Beam { sat: c.sat, color: c.color }),
            forall|i: int|
                0 <= i < t ==> beams@[#[trigger] feas.intf_seq(c.sat as int, c.user as int)[i] as int]
                    != Some(target),
        decreases m - t,
    {
        let v = feas.intf_at(c.sat, c.user, t);
        match beams[v] {
            Some(bb) => {
                if bb.sat == c.sat && bb.color == c.color {
                    return false;
                }
            },
            None => {},
        }
        t = t + 1;
    }
    true
}

/// Builds an assignment with one unassigned slot per user.
fn make_empty_beams(n: usize) -> (beams: Vec<Option<Beam>>)
    ensures
        beams@ == empty_beams(n as nat),
{
    let mut beams: Vec<Option<Beam>> = Vec::new();
    let mut i: usize = 0;
    while i < n
        invariant
            i <= n,
            beams@.len() == i,
            forall|j: int| 0 <= j < i ==> beams@[j] is None,
        decreases n - i,
    {
        beams.push(None);
        i = i + 1;
    }
    proof {
        assert(beams@ =~= empty_beams(n as nat));
    }
    beams
}

/// Builds a zeroed per-satellite fanout table.
fn make_zeros(n: usize) -> (zs: Vec<usize>)
    ensures
        zs@.len() == n,
        forall|j: int| 0 <= j < n ==> (#[trigger] zs@[j]) == 0,
{
    let mut zs: Vec<usize> = Vec::new();
    let mut i: usize = 0;
    while i < n
        invariant
            i <= n,
            zs@.len() == i,
            forall|j: int| 0 <= j < i ==> (#[trigger] zs@[j]) == 0,
        decreases n - i,
    {
        zs.push(0);
        i = i + 1;
    }
    zs
}

/// Solves the beam assignment problem over the given feasibility relations.
///
/// The result has one slot per user: `Some` carries the serving satellite
/// and color, `None` marks an unserved user, so no user is ever served
/// twice. The result equals `spec_solve`, a function of the relations alone
/// — two runs on the same input return the same assignment — and it obeys
/// every assignment constraint: visibility, the fanout cap, and
/// interference-freedom per satellite and color.
pub fn solve(feas: &Feasibility) -> (beams: Vec<Option<Beam>>)
    requires
        feas.wf(),
    ensures
        beams@ == spec_solve(*feas),
        assignment_valid(*feas, beams@),
{
    let cands = build_candidates(feas);
    proof {
        lemma_candidates_ok(*feas);
    }
    let mut beams = make_empty_beams(feas.n_users);
    let mut fanout = make_zeros(feas.n_sats);
    proof {
        assert forall|s: int| 0 <= s < feas.n_sats implies (#[trigger] fanout@[s]) as int
            == count_assigned_to(beams@, s) by {
            lemma_count_empty(feas.n_users as nat, s);
        }
        lemma_greedy_valid(*feas, cands@, 0);
    }
    let mut k: usize = 0;
    while k < cands.len()
        invariant
            feas.wf(),
            cands@ == candidates(*feas),
            cands_ok(*feas, cands@),
            k <= cands@.len(),
            beams@ == greedy_upto(*feas, cands@, k as int),
            beams@.len() == feas.n_users,
            fanout@.len() == feas.n_sats,
            forall|s: int|
                0 <= s < feas.n_sats ==> (#[trigger] fanout@[s]) as int == count_assigned_to(
                    beams@,
                    s,
                ),
        decreases cands@.len() - k,
    {
        let c = cands[k];
        let ghost prev = beams@;
        let ok = is_avail(feas, &beams, &fanout, c);
        if ok {
            let b = Beam { sat: c.sat, color: c.color };
            beams[c.user] = Some(b);
            let f = fanout[c.sat];
            fanout[c.sat] = f + 1;
            proof {
                assert(beams@ == prev.update(c.user as int, Some(b)));
                assert forall|s: int| 0 <= s < feas.n_sats implies (#[trigger] fanout@[s]) as int
                    == count_assigned_to(beams@, s) by {
                    lemma_count_update(prev, c.user as int, b, s);
                }
            }
        }
        proof {
            assert(beams@ == step(*feas, prev, cands@[k as int]));
            assert(beams@ == greedy_upto(*feas, cands@, k as int + 1));
        }
        k = k + 1;
    }
    proof {
        lemma_solve_valid(*feas);
    }
    beams
}

} // verus!
