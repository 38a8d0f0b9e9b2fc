use beam_planner::Beam;
use beam_planner::BuildError;
use beam_planner::Color;
use beam_planner::Feasibility;
use beam_planner::ValidationError;
use beam_planner::meets_coverage;
use beam_planner::validate;

#[test]
fn builder_rejects_out_of_range_indices() {
    let mut f = Feasibility::new(2, 1);
    assert_eq!(f.add_visible(1, 0), Err(BuildError::SatOutOfRange));
    assert_eq!(f.add_visible(0, 2), Err(BuildError::UserOutOfRange));
    assert_eq!(f.add_visible(0, 1), Ok(()));
    assert_eq!(f.add_interference(1, 0, 1), Err(BuildError::SatOutOfRange));
    assert_eq!(f.add_interference(0, 0, 2), Err(BuildError::UserOutOfRange));
}

#[test]
fn builder_rejects_self_interference() {
    let mut f = Feasibility::new(2, 1);
    f.add_visible(0, 0).unwrap();
    assert_eq!(f.add_interference(0, 0, 0), Err(BuildError::SelfInterference));
}

#[test]
fn builder_rejects_interference_of_invisible_users() {
    let mut f = Feasibility::new(2, 1);
    f.add_visible(0, 0).unwrap();
    // User 1 cannot see the satellite, in either position of the pair.
    assert_eq!(f.add_interference(0, 0, 1), Err(BuildError::NotVisible));
    assert_eq!(f.add_interference(0, 1, 0), Err(BuildError::NotVisible));
}

#[test]
fn interference_is_recorded_symmetrically() {
    let mut f = Feasibility::new(2, 1);
    f.add_visible(0, 0).unwrap();
    f.add_visible(0, 1).unwrap();
    f.add_interference(0, 0, 1).unwrap();
    assert_eq!(f.intf_len(0, 0), 1);
    assert_eq!(f.intf_at(0, 0, 0), 1);
    assert_eq!(f.intf_len(0, 1), 1);
    assert_eq!(f.intf_at(0, 1, 0), 0);
}

#[test]
fn validate_rejects_wrong_length() {
    let f = Feasibility::new(2, 1);
    let beams = vec![None];
    assert_eq!(validate(&f, &beams), Err(ValidationError::WrongLength));
}

#[test]
fn validate_rejects_sentinel_color() {
    let mut f = Feasibility::new(1, 1);
    f.add_visible(0, 0).unwrap();
    let beams = vec![Some(Beam { sat: 0, color: Color::Init })];
    assert_eq!(validate(&f, &beams), Err(ValidationError::InvalidColor));
}

#[test]
fn validate_rejects_sat_out_of_range() {
    let mut f = Feasibility::new(1, 1);
    f.add_visible(0, 0).unwrap();
    let beams = vec![Some(Beam { sat: 1, color: Color::A })];
    assert_eq!(validate(&f, &beams), Err(ValidationError::SatOutOfRange));
}

#[test]
fn validate_rejects_invisible_assignment() {
    let f = Feasibility::new(1, 1);
    let beams = vec![Some(Beam { sat: 0, color: Color::A })];
    assert_eq!(validate(&f, &beams), Err(ValidationError::NotVisible));
}

#[test]
fn validate_rejects_fanout_overflow() {
    let n = 33;
    let mut f = Feasibility::new(n, 1);
    for u in 0..n {
        f.add_visible(0, u).unwrap();
    }
    let beams = vec![Some(Beam { sat: 0, color: Color::A }); n];
    assert_eq!(validate(&f, &beams), Err(ValidationError::FanoutExceeded));
}

#[test]
fn validate_rejects_interfering_pair_on_one_color() {
    let mut f = Feasibility::new(2, 1);
    f.add_visible(0, 0).unwrap();
    f.add_visible(0, 1).unwrap();
    f.add_interference(0, 0, 1).unwrap();
    let shared = Some(Beam { sat: 0, color: Color::A });
    assert_eq!(validate(&f, &vec![shared, shared]), Err(ValidationError::Interference));
    // On distinct colors the same pair is fine.
    let other = Some(Beam { sat: 0, color: Color::B });
    assert_eq!(validate(&f, &vec![shared, other]), Ok(()));
}

#[test]
fn validate_accepts_hand_built_valid_assignment() {
    let mut f = Feasibility::new(2, 2);
    f.add_visible(0, 0).unwrap();
    f.add_visible(1, 1).unwrap();
    let beams = vec![
        Some(Beam { sat: 0, color: Color::D }),
        Some(Beam { sat: 1, color: Color::C }),
    ];
    assert_eq!(validate(&f, &beams), Ok(()));
}

#[test]
fn coverage_comparison_is_exact() {
    // served / total >= num / den, compared without rounding.
    assert!(meets_coverage(1, 2, 1, 2));
    assert!(!meets_coverage(0, 2, 1, 2));
    assert!(meets_coverage(3, 4, 3, 4));
    assert!(!meets_coverage(2, 4, 51, 100));
    assert!(meets_coverage(2, 4, 50, 100));
    assert!(meets_coverage(0, 0, 1, 1));
    assert!(meets_coverage(5, 5, 1, 1));
    // Large values do not overflow.
    assert!(meets_coverage(usize::MAX, usize::MAX, u64::MAX, u64::MAX));
}

#[test]
fn recording_visibility_twice_is_harmless() {
    let mut f = Feasibility::new(2, 1);
    assert_eq!(f.add_visible(0, 0), Ok(()));
    assert_eq!(f.add_visible(0, 0), Ok(()));
    f.add_visible(0, 1).unwrap();
    f.add_interference(0, 0, 1).unwrap();
    // A duplicate interference record keeps the relation intact.
    f.add_interference(0, 0, 1).unwrap();
    let beams = vec![
        Some(Beam { sat: 0, color: Color::A }),
        Some(Beam { sat: 0, color: Color::B }),
    ];
    assert_eq!(validate(&f, &beams), Ok(()));
    let same = Some(Beam { sat: 0, color: Color::A });
    assert_eq!(validate(&f, &vec![same, same]), Err(ValidationError::Interference));
}
