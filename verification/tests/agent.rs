//! Tests for the single-agent kinematics: rotation, speed changes,
//! toroidal advancement and renderable geometry.

use boids::bird::{rotate_angle, rotate_left, rotate_right, Bird};
use boids::vec2::Vec2;

#[test]
fn test_rotate_left() {
    let right_down = Vec2::new(500, 100);
    let down_left = Vec2::new(-100, 500);
    assert_eq!(rotate_left(down_left), right_down);
}

#[test]
fn test_rotate_right() {
    let right_down = Vec2::new(500, 100);
    let down_left = Vec2::new(-100, 500);
    assert_eq!(rotate_right(right_down), down_left);
}

#[test]
fn test_rotate_angle() {
    let right_down = Vec2::new(500, 100);
    let down_left = Vec2::new(-100, 500);
    // A quarter turn is exact.
    let rotated = rotate_angle(right_down, 1571);
    assert_eq!(rotated, down_left);
    // Two fifths of a half turn: the fixed-point approximation stays
    // within a few thousandths of the real rotation (0.0594, 0.50643).
    let rotated = rotate_angle(right_down, 1257);
    assert!((rotated.x - 59).abs() <= 2, "x was {}", rotated.x);
    assert!((rotated.y - 506).abs() <= 2, "y was {}", rotated.y);
}

#[test]
fn test_rotate_bird() {
    let mut bird = Bird::new(Vec2::default(), Vec2::new(500, 100));
    let front = bird.get_triangle().front;
    let milliradians = 1571;
    bird.rotate(milliradians);
    let rotated_front = bird.get_triangle().front;
    let expected_rotated = rotate_angle(front, milliradians);
    assert_eq!(rotated_front, expected_rotated);
}

#[test]
fn test_rotate_preserves_speed() {
    let mut bird = Bird::new(Vec2::new(1000, 2000), Vec2::new(3000, 0));
    assert_eq!(bird.get_speed(), 3000);
    for angle in [63, -63, 785, 1571, -3000] {
        bird.rotate(angle);
        assert_eq!(bird.get_speed(), 3000);
    }
}

#[test]
fn test_rotate_round_trip() {
    let mut bird = Bird::new(Vec2::default(), Vec2::new(3000, 0));
    bird.rotate(785);
    bird.rotate(-785);
    let dir = bird.get_direction();
    assert!((dir.x - 3000).abs() <= 5, "x was {}", dir.x);
    assert!(dir.y.abs() <= 5, "y was {}", dir.y);
}

#[test]
fn test_modify_speed_applies_above_floor() {
    let mut bird = Bird::new(Vec2::default(), Vec2::new(3000, 0));
    bird.modify_speed(500);
    assert_eq!(bird.get_speed(), 3500);
    bird.modify_speed(-1999);
    assert_eq!(bird.get_speed(), 1501);
}

#[test]
fn test_modify_speed_rejects_at_or_below_floor() {
    let mut bird = Bird::new(Vec2::default(), Vec2::new(3000, 0));
    // Dropping to exactly the floor is rejected: the floor itself is
    // never reachable.
    bird.modify_speed(-1500);
    assert_eq!(bird.get_speed(), 3000);
    assert_eq!(bird.get_direction(), Vec2::new(3000, 0));
    // Dropping below the floor is rejected too.
    bird.modify_speed(-2000);
    assert_eq!(bird.get_speed(), 3000);
    assert_eq!(bird.get_direction(), Vec2::new(3000, 0));
}

#[test]
fn test_advance_wraps_right_edge() {
    let mut bird = Bird::new(Vec2::new(9000, 5000), Vec2::new(3000, 0));
    bird.advance_toroid(10_000, 6_000);
    assert_eq!(bird.get_pos(), Vec2::new(2000, 5000));
    assert_eq!(bird.get_speed(), 3000);
    assert_eq!(bird.get_direction(), Vec2::new(3000, 0));
}

#[test]
fn test_advance_wraps_negative_edges() {
    let mut bird = Bird::new(Vec2::new(500, 100), Vec2::new(-3000, -3000));
    bird.advance_toroid(10_000, 6_000);
    assert_eq!(bird.get_pos(), Vec2::new(7500, 3100));
}

#[test]
fn test_advance_stays_inside_plane() {
    let mut bird = Bird::new(Vec2::new(4000, 3000), Vec2::new(2500, -2500));
    for _ in 0..100 {
        bird.advance_toroid(10_000, 6_000);
        let pos = bird.get_pos();
        assert!(0 <= pos.x && pos.x < 10_000);
        assert!(0 <= pos.y && pos.y < 6_000);
    }
}

#[test]
fn test_advance_decays_toward_cruise_speed() {
    let mut bird = Bird::new(Vec2::default(), Vec2::new(2000, 0));
    bird.advance_toroid(1_000_000, 1_000_000);
    // One hundredth of the way from 2000 toward 3000.
    assert_eq!(bird.get_speed(), 2010);
    assert_eq!(bird.get_direction(), Vec2::new(2010, 0));
}

#[test]
fn test_modify_direction_commits_blend() {
    let mut bird = Bird::new(Vec2::default(), Vec2::new(3000, 0));
    bird.modify_direction(Vec2::new(0, 3000), 500);
    assert_eq!(bird.get_direction(), Vec2::new(1500, 1500));
    assert_eq!(bird.get_speed(), 2121);
}

#[test]
fn test_modify_direction_rejects_below_floor() {
    let mut bird = Bird::new(Vec2::default(), Vec2::new(1600, 0));
    bird.modify_direction(Vec2::new(0, 0), 1000);
    assert_eq!(bird.get_direction(), Vec2::new(1600, 0));
    assert_eq!(bird.get_speed(), 1600);
}

#[test]
fn test_new_derives_speed_from_heading() {
    let bird = Bird::new(Vec2::new(7, 9), Vec2::new(3, 4));
    assert_eq!(bird.get_speed(), 5);
    assert_eq!(bird.get_pos(), Vec2::new(7, 9));
    assert_eq!(bird.get_direction(), Vec2::new(3, 4));
}

#[test]
fn test_can_see_threshold() {
    let a = Bird::new(Vec2::new(0, 0), Vec2::new(3000, 0));
    let near = Bird::new(Vec2::new(24_999, 0), Vec2::new(3000, 0));
    let far = Bird::new(Vec2::new(25_000, 0), Vec2::new(3000, 0));
    assert!(a.can_see(&near));
    assert!(!a.can_see(&far));
    assert_eq!(a.squared_distance_to(&far), 625_000_000);
}

#[test]
fn test_get_triangle_geometry() {
    let bird = Bird::new(Vec2::new(100, 200), Vec2::new(30, 40));
    let t = bird.get_triangle();
    assert_eq!(t.front, Vec2::new(160, 280));
    assert_eq!(t.left, Vec2::new(100 - 30 + 40, 200 - 40 - 30));
    assert_eq!(t.right, Vec2::new(100 - 30 - 40, 200 - 40 + 30));
}
