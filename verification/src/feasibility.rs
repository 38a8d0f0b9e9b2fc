//! The feasibility relations the solver consumes: per-satellite visibility
//! and per-satellite interference between user pairs.
//!
//! Users and satellites are dense indices (`0..n_users`, `0..n_sats`); the
//! caller normalizes its identifiers to indices and decides, by its own
//! geometry, which pairs are visible (elevation from vertical at most the
//! maximum) and which user pairs interfere (angular separation at the
//! satellite below the minimum beam angle). This module only records those
//! verdicts and maintains the structural invariants: entries in range, no
//! self-interference, interference only between users visible to the
//! satellite, and the interference relation symmetric.

use vstd::prelude::*;

verus! {

/// Why the feasibility store rejected a record.
#[derive(Clone, Copy, Debug, PartialEq, Eq, Structural)]
pub enum BuildError {
    /// The satellite index is not below the satellite count.
    SatOutOfRange,
    /// A user index is not below the user count.
    UserOutOfRange,
    /// An interference pair names the same user twice.
    SelfInterference,
    /// An interference pair names a user that cannot see the satellite.
    NotVisible,
}

/// Visibility and interference, over dense user and satellite indices.
pub struct Feasibility {
    /// The number of users; valid user indices are below it.
    pub n_users: usize,
    /// The number of satellites; valid satellite indices are below it.
    pub n_sats: usize,
    /// `vis[s][u]` holds when user `u` can see satellite `s`.
    pub vis: Vec<Vec<bool>>,
    /// `intf[s][u]` lists the users that interfere with `u` as seen from `s`.
    pub intf: Vec<Vec<Vec<usize>>>,
}

impl Feasibility {
    /// Whether user `u` can see satellite `s`.
    pub open spec fn visible(self, s: int, u: int) -> bool {
        self.vis@[s]@[u]
    }

    /// The recorded interference peers of user `u` at satellite `s`.
    pub open spec fn intf_seq(self, s: int, u: int) -> Seq<usize> {
        self.intf@[s]@[u]@
    }

    /// Whether users `u` and `v` interfere as seen from satellite `s`.
    pub open spec fn interferes(self, s: int, u: int, v: int) -> bool {
        exists|i: int|
            0 <= i < self.intf_seq(s, u).len() && self.intf_seq(s, u)[i] as int == v
    }

    /// The container dimensions match the user and satellite counts.
    pub open spec fn dims_ok(self) -> bool {
        &&& self.vis@.len() == self.n_sats
        &&& forall|s: int| 0 <= s < self.n_sats ==> (#[trigger] self.vis@[s])@.len() == self.n_users
        &&& self.intf@.len() == self.n_sats
        &&& forall|s: int| 0 <= s < self.n_sats ==> (#[trigger] self.intf@[s])@.len() == self.n_users
    }

    /// Every recorded interference entry is in range, never the user itself,
    /// and relates two users that can both see the satellite.
    pub open spec fn intf_entries_ok(self) -> bool {
        forall|s: int, u: int, i: int|
            0 <= s < self.n_sats && 0 <= u < self.n_users && 0 <= i < self.intf_seq(s, u).len()
                ==> {
                let v = #[trigger] self.intf_seq(s, u)[i];
                &&& v < self.n_users
                &&& v as int != u
                &&& self.visible(s, u)
                &&& self.visible(s, v as int)
            }
    }

    /// Interference is symmetric: it holds of (u, v) exactly when it holds of
    /// (v, u).
    pub open spec fn intf_symmetric(self) -> bool {
        forall|s: int, u: int, v: int|
            0 <= s < self.n_sats && 0 <= u < self.n_users && 0 <= v < self.n_users ==> (
            #[trigger] self.interferes(s, u, v) <==> self.interferes(s, v, u))
    }

    /// The invariant every constructor establishes and every method keeps.
    pub open spec fn wf(self) -> bool {
        &&& self.dims_ok()
        &&& self.intf_entries_ok()
        &&& self.intf_symmetric()
    }

    /// An empty store: no user sees any satellite and nothing interferes.
    pub fn new(n_users: usize, n_sats: usize) -> (f: Self)
        ensures
            f.wf(),
            f.n_users == n_users,
            f.n_sats == n_sats,
            forall|s: int, u: int| 0 <= s < n_sats && 0 <= u < n_users ==> !f.visible(s, u),
            forall|s: int, u: int|
                0 <= s < n_sats && 0 <= u < n_users ==> f.intf_seq(s, u).len() == 0,
    {
        let mut vis: Vec<Vec<bool>> = Vec::new();
        let mut intf: Vec<Vec<Vec<usize>>> = Vec::new();
        let mut s: usize = 0;
        while s < n_sats
            invariant
                vis@.len() == s,
                intf@.len() == s,
                s <= n_sats,
                forall|j: int| 0 <= j < s ==> (#[trigger] vis@[j])@.len() == n_users,
                forall|j: int| 0 <= j < s ==> (#[trigger] intf@[j])@.len() == n_users,
                forall|j: int, u: int|
                    #![trigger vis@[j]@[u]]
                    0 <= j < s && 0 <= u < n_users ==> !vis@[j]@[u],
                forall|j: int, u: int|
                    #![trigger intf@[j]@[u]]
                    0 <= j < s && 0 <= u < n_users ==> intf@[j]@[u]@.len() == 0,
            decreases n_sats - s,
        {
            let mut vrow: Vec<bool> = Vec::new();
            let mut irow: Vec<Vec<usize>> = Vec::new();
            let mut u: usize = 0;
            while u < n_users
                invariant
                    vrow@.len() == u,
                    irow@.len() == u,
                    u <= n_users,
                    forall|k: int| 0 <= k < u ==> !vrow@[k],
                    forall|k: int| 0 <= k < u ==> (#[trigger] irow@[k])@.len() == 0,
                decreases n_users - u,
            {
                vrow.push(false);
                irow.push(Vec::new());
                u = u + 1;
            }
            vis.push(vrow);
            intf.push(irow);
            s = s + 1;
        }
        Feasibility { n_users, n_sats, vis, intf }
    }

    /// Record that user `u` can see satellite `s`. Recording a pair twice is
    /// harmless. Fails exactly when an index is out of range.
    pub fn add_visible(&mut self, s: usize, u: usize) -> (r: Result<(), BuildError>)
        requires
            old(self).wf(),
        ensures
            final(self).wf(),
            final(self).n_users == old(self).n_users,
            final(self).n_sats == old(self).n_sats,
            final(self).intf == old(self).intf,
            r == Err::<(), BuildError>(BuildError::SatOutOfRange) <==> s >= old(self).n_sats,
            r == Err::<(), BuildError>(BuildError::UserOutOfRange) <==> (s < old(self).n_sats && u
                >= old(self).n_users),
            r is Ok <==> (s < old(self).n_sats && u < old(self).n_users),
            r is Err ==> *final(self) == *old(self),
            r is Ok ==> forall|s2: int, u2: int|
                0 <= s2 < old(self).n_sats && 0 <= u2 < old(self).n_users ==> (
                #[trigger] final(self).visible(s2, u2) <==> (old(self).visible(s2, u2) || (s2 == s
                    && u2 == u))),
    {
        if s >= self.n_sats {
            return Err(BuildError::SatOutOfRange);
        }
        if u >= self.n_users {
            return Err(BuildError::UserOutOfRange);
        }
        let row = &mut self.vis[s];
        row[u] = true;
        assert forall|s2: int, u2: int|
            0 <= s2 < self.n_sats && 0 <= u2 < self.n_users implies (#[trigger] self.visible(
            s2,
            u2,
        ) <==> (old(self).visible(s2, u2) || (s2 == s && u2 == u))) by {
            if s2 != s {
                assert(self.vis@[s2] == old(self).vis@[s2]);
            }
        }
        assert forall|s2: int, u2: int, i: int|
            0 <= s2 < self.n_sats && 0 <= u2 < self.n_users && 0 <= i < self.intf_seq(
                s2,
                u2,
            ).len() implies {
            let v = #[trigger] self.intf_seq(s2, u2)[i];
            &&& v < self.n_users
            &&& v as int != u2
            &&& self.visible(s2, u2)
            &&& self.visible(s2, v as int)
        } by {
            assert(self.intf_seq(s2, u2) == old(self).intf_seq(s2, u2));
            assert(old(self).intf_seq(s2, u2)[i] == self.intf_seq(s2, u2)[i]);
        }
        assert forall|s2: int, u2: int, v2: int|
            0 <= s2 < self.n_sats && 0 <= u2 < self.n_users && 0 <= v2
                < self.n_users implies (#[trigger] self.interferes(s2, u2, v2)
            <==> self.interferes(s2, v2, u2)) by {
            assert(self.intf_seq(s2, u2) == old(self).intf_seq(s2, u2));
            assert(self.intf_seq(s2, v2) == old(self).intf_seq(s2, v2));
            lemma_interferes_congruence(*self, *old(self), s2, u2, v2);
            lemma_interferes_congruence(*self, *old(self), s2, v2, u2);
        }
        Ok(())
    }

    /// Record that users `u` and `v` interfere as seen from satellite `s`,
    /// in both directions, so the relation stays symmetric. Fails exactly
    /// when an index is out of range, the two users are the same, or either
    /// user cannot see the satellite.
    pub fn add_interference(&mut self, s: usize, u: usize, v: usize) -> (r: Result<
        (),
        BuildError,
    >)
        requires
            old(self).wf(),
        ensures
            final(self).wf(),
            final(self).n_users == old(self).n_users,
            final(self).n_sats == old(self).n_sats,
            final(self).vis == old(self).vis,
            r == Err::<(), BuildError>(BuildError::SatOutOfRange) <==> s >= old(self).n_sats,
            r == Err::<(), BuildError>(BuildError::UserOutOfRange) <==> (s < old(self).n_sats && (u
                >= old(self).n_users || v >= old(self).n_users)),
            r == Err::<(), BuildError>(BuildError::SelfInterference) <==> (s < old(self).n_sats
                && u < old(self).n_users && v < old(self).n_users && u == v),
            r == Err::<(), BuildError>(BuildError::NotVisible) <==> (s < old(self).n_sats && u
                < old(self).n_users && v < old(self).n_users && u != v && !(old(self).visible(
                s as int,
                u as int,
            ) && old(self).visible(s as int, v as int))),
            r is Ok <==> (s < old(self).n_sats && u < old(self).n_users && v < old(self).n_users
                && u != v && old(self).visible(s as int, u as int) && old(self).visible(
                s as int,
                v as int,
            )),
            r is Err ==> *final(self) == *old(self),
            r is Ok ==> forall|s2: int, a: int, b: int|
                0 <= s2 < old(self).n_sats && 0 <= a < old(self).n_users && 0 <= b
                    < old(self).n_users ==> (#[trigger] final(self).interferes(s2, a, b) <==> (old(
                    self,
                ).interferes(s2, a, b) || (s2 == s && ((a == u && b == v) || (a == v && b
                    == u))))),
    {
        if s >= self.n_sats {
            return Err(BuildError::SatOutOfRange);
        }
        if u >= self.n_users || v >= self.n_users {
            return Err(BuildError::UserOutOfRange);
        }
        if u == v {
            return Err(BuildError::SelfInterference);
        }
        if !self.vis[s][u] || !self.vis[s][v] {
            return Err(BuildError::NotVisible);
        }
        let ghost pre = *self;
        let srow = &mut self.intf[s];
        srow[u].push(v);
        srow[v].push(u);
        proof {
            lemma_pair_push(pre, *self, s, u, v);
        }
        Ok(())
    }

    /// The number of recorded interference peers of user `u` at satellite `s`.
    pub fn intf_len(&self, s: usize, u: usize) -> (n: usize)
        requires
            self.wf(),
            s < self.n_sats,
            u < self.n_users,
        ensures
            n == self.intf_seq(s as int, u as int).len(),
    {
        self.intf[s][u].len()
    }

    /// The interference peer at position `i` of user `u`'s list at satellite
    /// `s`.
    pub fn intf_at(&self, s: usize, u: usize, i: usize) -> (v: usize)
        requires
            self.wf(),
            s < self.n_sats,
            u < self.n_users,
            i < self.intf_seq(s as int, u as int).len(),
        ensures
            v == self.intf_seq(s as int, u as int)[i as int],
            v < self.n_users,
    {
        self.intf[s][u][i]
    }

    /// Whether user `u` can see satellite `s`, as an executable query.
    pub fn is_visible(&self, s: usize, u: usize) -> (r: bool)
        requires
            self.wf(),
            s < self.n_sats,
            u < self.n_users,
        ensures
            r == self.visible(s as int, u as int),
    {
        self.vis[s][u]
    }

    /// The satellites visible to user `u`, in ascending order: the inverse
    /// direction of the visibility relation.
    pub fn sats_visible_to(&self, u: usize) -> (out: Vec<usize>)
        requires
            self.wf(),
            u < self.n_users,
        ensures
            forall|i: int| 0 <= i < out@.len() ==> (#[trigger] out@[i]) < self.n_sats,
            forall|i: int|
                0 <= i < out@.len() ==> self.visible(#[trigger] out@[i] as int, u as int),
            forall|s: int|
                0 <= s < self.n_sats && self.visible(s, u as int) ==> out@.contains(s as usize),
    {
        let mut out: Vec<usize> = Vec::new();
        let mut s: usize = 0;
        while s < self.n_sats
            invariant
                self.wf(),
                u < self.n_users,
                s <= self.n_sats,
                forall|i: int| 0 <= i < out@.len() ==> (#[trigger] out@[i]) < s,
                forall|i: int|
                    0 <= i < out@.len() ==> self.visible(#[trigger] out@[i] as int, u as int),
                forall|s2: int|
                    0 <= s2 < s && self.visible(s2, u as int) ==> out@.contains(s2 as usize),
            decreases self.n_sats - s,
        {
            if self.vis[s][u] {
                let ghost out0 = out@;
                out.push(s);
                assert forall|s2: int|
                    0 <= s2 < s + 1 && self.visible(s2, u as int) implies out@.contains(
                    s2 as usize,
                ) by {
                    if s2 < s {
                        let i = choose|i: int| 0 <= i < out0.len() && out0[i] == s2 as usize;
                        assert(out@[i] == s2 as usize);
                    } else {
                        assert(out@[out@.len() - 1] == s2 as usize);
                    }
                }
            }
            s = s + 1;
        }
        out
    }
}

/// Two stores with the same peer list for (s, u) agree on interference of
/// (s, u, v).
proof fn lemma_interferes_congruence(f1: Feasibility, f2: Feasibility, s: int, u: int, v: int)
    requires
        f1.intf_seq(s, u) == f2.intf_seq(s, u),
    ensures
        f1.interferes(s, u, v) == f2.interferes(s, u, v),
{
    if f1.interferes(s, u, v) {
        let i = choose|i: int|
            0 <= i < f1.intf_seq(s, u).len() && f1.intf_seq(s, u)[i] as int == v;
        assert(f2.intf_seq(s, u)[i] as int == v);
    }
    if f2.interferes(s, u, v) {
        let i = choose|i: int|
            0 <= i < f2.intf_seq(s, u).len() && f2.intf_seq(s, u)[i] as int == v;
        assert(f1.intf_seq(s, u)[i] as int == v);
    }
}

/// After pushing `v` onto `u`'s peer list and `u` onto `v`'s, at satellite
/// `s`, the store is still well-formed and the interference relation has
/// grown by exactly the symmetric pair.
proof fn lemma_pair_push(pre: Feasibility, post: Feasibility, s: usize, u: usize, v: usize)
    requires
        pre.wf(),
        s < pre.n_sats,
        u < pre.n_users,
        v < pre.n_users,
        u != v,
        pre.visible(s as int, u as int),
        pre.visible(s as int, v as int),
        post.n_users == pre.n_users,
        post.n_sats == pre.n_sats,
        post.vis == pre.vis,
        post.intf@.len() == pre.intf@.len(),
        forall|s2: int|
            0 <= s2 < pre.n_sats && s2 != s ==> #[trigger] post.intf@[s2] == pre.intf@[s2],
        post.intf@[s as int]@.len() == pre.intf@[s as int]@.len(),
        forall|u2: int|
            0 <= u2 < pre.n_users && u2 != u && u2 != v ==> #[trigger] post.intf@[s as int]@[u2]
                == pre.intf@[s as int]@[u2],
        post.intf_seq(s as int, u as int) == pre.intf_seq(s as int, u as int).push(v),
        post.intf_seq(s as int, v as int) == pre.intf_seq(s as int, v as int).push(u),
    ensures
        post.wf(),
        forall|s2: int, a: int, b: int|
            0 <= s2 < post.n_sats && 0 <= a < post.n_users && 0 <= b < post.n_users ==> (
            #[trigger] post.interferes(s2, a, b) <==> (pre.interferes(s2, a, b) || (s2 == s && ((a
                == u && b == v) || (a == v && b == u))))),
{
    assert forall|s2: int, a: int, b: int|
        0 <= s2 < post.n_sats && 0 <= a < post.n_users && 0 <= b
            < post.n_users implies (#[trigger] post.interferes(s2, a, b) <==> (pre.interferes(
        s2,
        a,
        b,
    ) || (s2 == s && ((a == u && b == v) || (a == v && b == u))))) by {
        lemma_interferes_after(pre, post, s, u, v, s2, a, b);
    }
    assert forall|s2: int, u2: int, i: int|
        0 <= s2 < post.n_sats && 0 <= u2 < post.n_users && 0 <= i < post.intf_seq(
            s2,
            u2,
        ).len() implies {
        let w = #[trigger] post.intf_seq(s2, u2)[i];
        &&& w < post.n_users
        &&& w as int != u2
        &&& post.visible(s2, u2)
        &&& post.visible(s2, w as int)
    } by {
        if s2 != s || (u2 != u && u2 != v) {
            assert(post.intf_seq(s2, u2) == pre.intf_seq(s2, u2));
            assert(pre.intf_seq(s2, u2)[i] == post.intf_seq(s2, u2)[i]);
        } else if u2 == u {
            let old_seq = pre.intf_seq(s as int, u as int);
            if i < old_seq.len() {
                assert(old_seq[i] == post.intf_seq(s2, u2)[i]);
            } else {
                assert(post.intf_seq(s2, u2)[i] == v);
            }
        } else {
            let old_seq = pre.intf_seq(s as int, v as int);
            if i < old_seq.len() {
                assert(old_seq[i] == post.intf_seq(s2, u2)[i]);
            } else {
                assert(post.intf_seq(s2, u2)[i] == u);
            }
        }
    }
}

/// How membership in a peer list changes under the two pushes: exactly the
/// pair (u, v) is added, in both directions.
proof fn lemma_interferes_after(
    pre: Feasibility,
    post: Feasibility,
    s: usize,
    u: usize,
    v: usize,
    s2: int,
    a: int,
    b: int,
)
    requires
        pre.wf(),
        s < pre.n_sats,
        u < pre.n_users,
        v < pre.n_users,
        u != v,
        post.n_users == pre.n_users,
        post.n_sats == pre.n_sats,
        0 <= s2 < post.n_sats,
        0 <= a < post.n_users,
        0 <= b < post.n_users,
        forall|s3: int|
            0 <= s3 < pre.n_sats && s3 != s ==> #[trigger] post.intf@[s3] == pre.intf@[s3],
        post.intf@[s as int]@.len() == pre.intf@[s as int]@.len(),
        forall|u2: int|
            0 <= u2 < pre.n_users && u2 != u && u2 != v ==> #[trigger] post.intf@[s as int]@[u2]
                == pre.intf@[s as int]@[u2],
        post.intf_seq(s as int, u as int) == pre.intf_seq(s as int, u as int).push(v),
        post.intf_seq(s as int, v as int) == pre.intf_seq(s as int, v as int).push(u),
    ensures
        post.interferes(s2, a, b) <==> (pre.interferes(s2, a, b) || (s2 == s && ((a == u && b == v)
            || (a == v && b == u)))),
{
    if s2 != s || (a != u && a != v) {
        assert(post.intf_seq(s2, a) == pre.intf_seq(s2, a));
    } else {
        let old_seq = pre.intf_seq(s2, a);
        let new_seq = post.intf_seq(s2, a);
        let added: usize = if a == u {
            v
        } else {
            u
        };
        assert(new_seq == old_seq.push(added));
        if pre.interferes(s2, a, b) {
            let i = choose|i: int| 0 <= i < old_seq.len() && old_seq[i] as int == b;
            assert(new_seq[i] as int == b);
            assert(post.interferes(s2, a, b));
        }
        if b == added as int {
            assert(new_seq[old_seq.len() as int] as int == b);
            assert(post.interferes(s2, a, b));
        }
        if post.interferes(s2, a, b) {
            let i = choose|i: int| 0 <= i < new_seq.len() && new_seq[i] as int == b;
            if i < old_seq.len() {
                assert(old_seq[i] as int == b);
                assert(pre.interferes(s2, a, b));
            } else {
                assert(b == added as int);
            }
        }
    }
}

} // verus!
