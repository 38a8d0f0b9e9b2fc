use beam_planner::Color;
use beam_planner::Sat;
use beam_planner::User;

#[test]
fn color_from_id_values() {
    assert_eq!(Color::from_id(1), Color::A);
    assert_eq!(Color::from_id(2), Color::B);
    assert_eq!(Color::from_id(3), Color::C);
    assert_eq!(Color::from_id(4), Color::D);
}

#[test]
fn color_next_cycle() {
    assert_eq!(Color::Init.next(), Color::A);
    assert_eq!(Color::A.next(), Color::B);
    assert_eq!(Color::B.next(), Color::C);
    assert_eq!(Color::C.next(), Color::D);
    assert_eq!(Color::D.next(), Color::A);
}

#[test]
fn color_next_four_times_returns() {
    for c in [Color::A, Color::B, Color::C, Color::D] {
        assert_eq!(c.next().next().next().next(), c);
    }
}

#[test]
fn color_id_round_trip() {
    for c in [Color::A, Color::B, Color::C, Color::D] {
        assert_eq!(Color::from_id(c.id()), c);
    }
    for id in 1..=4 {
        assert_eq!(Color::from_id(id).id(), id);
    }
    assert_eq!(Color::Init.id(), 0);
}

#[test]
fn sat_and_user_handles() {
    assert_eq!(Sat::new(7).0, 7);
    assert_eq!(User::new(11).0, 11);
    assert_eq!(Sat::default().0, 0);
    assert_eq!(User::default().0, 0);
    assert!(Sat::new(1) < Sat::new(2));
    assert!(User::new(3) > User::new(2));
}
