use beam_planner::assignment::assignment_pairs;
use beam_planner::assignment::count_for_sat;
use beam_planner::assignment::count_served_exec;
use beam_planner::Beam;
use beam_planner::Color;
use beam_planner::Feasibility;
use beam_planner::Sat;
use beam_planner::User;
use beam_planner::solve;
use beam_planner::validate;
use beam_planner::meets_coverage;
use beam_planner::MAX_FANOUT;

/// A store where every listed (sat, user) pair is visible and every listed
/// (sat, u, v) triple interferes.
fn build(
    n_users: usize,
    n_sats: usize,
    visible: &[(usize, usize)],
    interfering: &[(usize, usize, usize)],
) -> Feasibility {
    let mut f = Feasibility::new(n_users, n_sats);
    for &(s, u) in visible {
        f.add_visible(s, u).unwrap();
    }
    for &(s, u, v) in interfering {
        f.add_interference(s, u, v).unwrap();
    }
    f
}

#[test]
fn empty_scenario_gives_empty_assignment() {
    let f = Feasibility::new(0, 0);
    let beams = solve(&f);
    assert!(beams.is_empty());
    assert_eq!(validate(&f, &beams), Ok(()));
    // An empty scenario is not an error, even at full required coverage.
    assert!(meets_coverage(0, 0, 1, 1));
}

#[test]
fn no_sats_gives_all_unserved() {
    let f = Feasibility::new(3, 0);
    let beams = solve(&f);
    assert_eq!(beams, vec![None, None, None]);
    assert_eq!(validate(&f, &beams), Ok(()));
}

#[test]
fn single_trivial() {
    let f = build(1, 1, &[(0, 0)], &[]);
    let beams = solve(&f);
    assert_eq!(beams, vec![Some(Beam { sat: 0, color: Color::A })]);
    assert_eq!(validate(&f, &beams), Ok(()));
    assert_eq!(count_served_exec(&beams), 1);
    assert!(meets_coverage(1, 1, 1, 1));
}

#[test]
fn invisible_user_stays_unserved() {
    // One user that can see no satellite: empty assignment, no error.
    let f = build(1, 1, &[], &[]);
    let beams = solve(&f);
    assert_eq!(beams, vec![None]);
    assert_eq!(validate(&f, &beams), Ok(()));
    assert!(meets_coverage(0, 1, 0, 1));
    assert!(!meets_coverage(0, 1, 1, 1));
}

#[test]
fn interfering_pair_lands_on_distinct_colors() {
    // Two users too close together as seen from the one satellite: they may
    // not share a color, so the commit loop serves the first on color A and
    // the second on color B.
    let f = build(2, 1, &[(0, 0), (0, 1)], &[(0, 0, 1)]);
    let beams = solve(&f);
    assert_eq!(
        beams,
        vec![
            Some(Beam { sat: 0, color: Color::A }),
            Some(Beam { sat: 0, color: Color::B }),
        ]
    );
    assert_eq!(validate(&f, &beams), Ok(()));
}

#[test]
fn four_pairwise_interfering_users_get_four_colors() {
    let mut pairs = Vec::new();
    for u in 0..4 {
        for v in (u + 1)..4 {
            pairs.push((0, u, v));
        }
    }
    let f = build(4, 1, &[(0, 0), (0, 1), (0, 2), (0, 3)], &pairs);
    let beams = solve(&f);
    assert_eq!(
        beams,
        vec![
            Some(Beam { sat: 0, color: Color::A }),
            Some(Beam { sat: 0, color: Color::B }),
            Some(Beam { sat: 0, color: Color::C }),
            Some(Beam { sat: 0, color: Color::D }),
        ]
    );
    assert_eq!(validate(&f, &beams), Ok(()));
}

#[test]
fn five_pairwise_interfering_users_drop_one() {
    // With only four colors, five mutually interfering users cannot all be
    // served by the one satellite.
    let mut visible = Vec::new();
    let mut pairs = Vec::new();
    for u in 0..5 {
        visible.push((0, u));
        for v in (u + 1)..5 {
            pairs.push((0, u, v));
        }
    }
    let f = build(5, 1, &visible, &pairs);
    let beams = solve(&f);
    assert_eq!(count_served_exec(&beams), 4);
    assert_eq!(beams[4], None);
    assert_eq!(validate(&f, &beams), Ok(()));
}

#[test]
fn boundary_pair_not_interfering_shares_a_color() {
    // A pair exactly at the minimum beam angle is not interfering (the
    // boundary is inclusive), so the caller records no interference and
    // both users may share color A.
    let f = build(2, 1, &[(0, 0), (0, 1)], &[]);
    let beams = solve(&f);
    assert_eq!(
        beams,
        vec![
            Some(Beam { sat: 0, color: Color::A }),
            Some(Beam { sat: 0, color: Color::A }),
        ]
    );
    assert_eq!(validate(&f, &beams), Ok(()));
}

#[test]
fn fanout_exactly_at_cap_serves_all() {
    let visible: Vec<(usize, usize)> = (0..MAX_FANOUT).map(|u| (0, u)).collect();
    let f = build(MAX_FANOUT, 1, &visible, &[]);
    let beams = solve(&f);
    assert_eq!(count_served_exec(&beams), MAX_FANOUT);
    assert_eq!(count_for_sat(&beams, 0), MAX_FANOUT);
    assert_eq!(validate(&f, &beams), Ok(()));
}

#[test]
fn fanout_cap_drops_thirty_third_user() {
    let visible: Vec<(usize, usize)> = (0..MAX_FANOUT + 1).map(|u| (0, u)).collect();
    let f = build(MAX_FANOUT + 1, 1, &visible, &[]);
    let beams = solve(&f);
    assert_eq!(count_served_exec(&beams), MAX_FANOUT);
    assert_eq!(count_for_sat(&beams, 0), MAX_FANOUT);
    assert_eq!(beams[MAX_FANOUT], None);
    assert_eq!(validate(&f, &beams), Ok(()));
}

#[test]
fn two_sats_disjoint_users() {
    let f = build(2, 2, &[(0, 0), (1, 1)], &[]);
    let beams = solve(&f);
    assert_eq!(
        beams,
        vec![
            Some(Beam { sat: 0, color: Color::A }),
            Some(Beam { sat: 1, color: Color::A }),
        ]
    );
    assert_eq!(validate(&f, &beams), Ok(()));
}

#[test]
fn two_sats_disjoint_users_permuted_keeps_coverage() {
    // The same scenario with the user and satellite indices swapped serves
    // the same number of users.
    let f = build(2, 2, &[(0, 1), (1, 0)], &[]);
    let beams = solve(&f);
    assert_eq!(count_served_exec(&beams), 2);
    assert_eq!(
        beams,
        vec![
            Some(Beam { sat: 1, color: Color::A }),
            Some(Beam { sat: 0, color: Color::A }),
        ]
    );
    assert_eq!(validate(&f, &beams), Ok(()));
}

#[test]
fn same_input_same_assignment() {
    let visible = [(0, 0), (0, 1), (0, 2), (1, 1), (1, 2)];
    let interfering = [(0, 0, 1), (1, 1, 2)];
    let f1 = build(3, 2, &visible, &interfering);
    let f2 = build(3, 2, &visible, &interfering);
    let beams1 = solve(&f1);
    let beams2 = solve(&f2);
    assert_eq!(beams1, beams2);
}

#[test]
fn user_served_by_first_satellite_in_order() {
    // A user visible to two satellites is committed once, to the lower
    // satellite index, and never reassigned.
    let f = build(1, 2, &[(0, 0), (1, 0)], &[]);
    let beams = solve(&f);
    assert_eq!(beams, vec![Some(Beam { sat: 0, color: Color::A })]);
    assert_eq!(validate(&f, &beams), Ok(()));
}

#[test]
fn assignment_pairs_lists_served_users() {
    let f = build(3, 2, &[(0, 0), (1, 2)], &[]);
    let beams = solve(&f);
    let pairs = assignment_pairs(&beams);
    assert_eq!(
        pairs,
        vec![
            (User(0), Sat(0), Color::A),
            (User(2), Sat(1), Color::A),
        ]
    );
}

#[test]
fn sats_visible_to_inverts_visibility() {
    let f = build(2, 3, &[(0, 0), (2, 0), (1, 1)], &[]);
    assert_eq!(f.sats_visible_to(0), vec![0, 2]);
    assert_eq!(f.sats_visible_to(1), vec![1]);
}

/// A deterministic pseudo-random scenario generator, for exercising the
/// solver and validator together on larger inputs.
fn lcg_next(state: &mut u64) -> u64 {
    *state = state.wrapping_mul(6364136223846793005).wrapping_add(1442695040888963407);
    *state >> 33
}

#[test]
fn random_scenarios_always_validate() {
    let mut seed: u64 = 42;
    for round in 0..10 {
        let n_users = 5 + (round % 5) * 7;
        let n_sats = 1 + round % 4;
        let mut f = Feasibility::new(n_users, n_sats);
        for s in 0..n_sats {
            for u in 0..n_users {
                if lcg_next(&mut seed) % 3 != 0 {
                    f.add_visible(s, u).unwrap();
                }
            }
        }
        for s in 0..n_sats {
            for u in 0..n_users {
                for v in (u + 1)..n_users {
                    if f.is_visible(s, u) && f.is_visible(s, v) && lcg_next(&mut seed) % 4 == 0 {
                        f.add_interference(s, u, v).unwrap();
                    }
                }
            }
        }
        let beams = solve(&f);
        assert_eq!(validate(&f, &beams), Ok(()));
        let beams_again = solve(&f);
        assert_eq!(beams, beams_again);
    }
}
