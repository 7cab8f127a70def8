//! Tests for the flock controller: deterministic spawning, the social
//! forces and the per-tick update pass.

use boids::bird::Bird;
use boids::bots::{
    angle_to_coords, cohesion_force, control_bot_birds, separation_force, spawn_birds,
    PositionAccumulator,
};
use boids::vec2::Vec2;

#[test]
fn test_spawn_birds() {
    let min_pos = Vec2::new(40_000, 30_000);
    let max_pos = Vec2::new(400_000, 300_000);
    let bots = spawn_birds(10, min_pos, max_pos);
    for bot in bots {
        assert!(bot.get_pos().x >= min_pos.x && bot.get_pos().x <= max_pos.x);
        assert!(bot.get_pos().y >= min_pos.y && bot.get_pos().y <= max_pos.y);
        assert_eq!(bot.get_speed(), 3000);
    }
}

#[test]
fn test_float_modulo() {
    assert_eq!(107.0 % 100.0, 7.0);
    assert_eq!(-107.0 % 100.0, -7.0);
}

#[test]
fn test_angle_to_coords() {
    assert_eq!(angle_to_coords(0), Vec2::new(1000, 0));
    assert_eq!(angle_to_coords(1571), Vec2::new(0, 1000));
    assert_eq!(angle_to_coords(3142), Vec2::new(-1000, 0));
}

#[test]
fn test_spawn_is_deterministic() {
    let min_pos = Vec2::new(40_000, 30_000);
    let max_pos = Vec2::new(400_000, 300_000);
    let first = spawn_birds(10, min_pos, max_pos);
    let second = spawn_birds(10, min_pos, max_pos);
    assert_eq!(first.len(), second.len());
    for (a, b) in first.iter().zip(second.iter()) {
        assert_eq!(a.get_pos(), b.get_pos());
        assert_eq!(a.get_direction(), b.get_direction());
        assert_eq!(a.get_speed(), b.get_speed());
    }
}

#[test]
fn test_separation_outside_personal_space() {
    // The neighbour is 50 pixels away, four times the personal-space
    // radius: no separation force.
    let r = separation_force(Vec2::new(0, 0), Vec2::new(50_000, 0), 2_500_000_000);
    assert_eq!(r, Vec2::new(0, 0));
}

#[test]
fn test_separation_inside_personal_space() {
    // The neighbour is 10 pixels away, inside the 12.5 pixel radius:
    // the force is nonzero and points away from the neighbour.
    let r = separation_force(Vec2::new(0, 0), Vec2::new(10_000, 0), 100_000_000);
    assert_eq!(r, Vec2::new(-2000, 0));
    let r = separation_force(Vec2::new(0, 0), Vec2::new(-6000, 8000), 100_000_000);
    assert_eq!(r, Vec2::new(1200, -1600));
}

#[test]
fn test_cohesion_points_at_centroid() {
    // Three neighbours placed asymmetrically around the agent: the
    // cohesion force is the offset to their centroid scaled by the
    // cohesion gain.
    let mut acc = PositionAccumulator::new();
    acc.add_position(Vec2::new(10_000, 0));
    acc.add_position(Vec2::new(0, 10_000));
    acc.add_position(Vec2::new(2_000, 2_000));
    let average = acc.get_average();
    assert_eq!(average, Vec2::new(4000, 4000));
    let r = cohesion_force(Vec2::new(0, 0), average);
    assert_eq!(r, Vec2::new(40, 40));
    // The pull has the sign of the offset on each axis.
    let r = cohesion_force(Vec2::new(8000, 0), average);
    assert_eq!(r, Vec2::new(-40, 40));
}

#[test]
fn test_update_with_no_visible_neighbours() {
    // A lone agent that sees nobody gets no alignment or cohesion, and
    // the far-away player triggers no separation: the update blends the
    // heading toward the zero vector.
    let player = Bird::new(Vec2::new(500_000, 500_000), Vec2::new(3000, 0));
    let mut bots = vec![Bird::new(Vec2::new(100_000, 100_000), Vec2::new(3000, 0))];
    control_bot_birds(&mut bots, &player, 1_000_000, 1_000_000);
    assert_eq!(bots[0].get_pos(), Vec2::new(103_000, 100_000));
    assert_eq!(bots[0].get_direction(), Vec2::new(2100, 0));
    assert_eq!(bots[0].get_speed(), 2100);
}

#[test]
fn test_update_separates_close_pair() {
    // Two agents four pixels apart, headings parallel; the player is far
    // away.  Each agent is repelled from its closest neighbour.
    let player = Bird::new(Vec2::new(500_000, 500_000), Vec2::new(3000, 0));
    let mut bots = vec![
        Bird::new(Vec2::new(100_000, 100_000), Vec2::new(0, 3000)),
        Bird::new(Vec2::new(104_000, 100_000), Vec2::new(0, 3000)),
    ];
    control_bot_birds(&mut bots, &player, 1_000_000, 1_000_000);
    // The first agent moved to (100000, 103000); its closest neighbour
    // is the not-yet-moved second agent at (104000, 100000), inside
    // personal space, so the separation force pushes it toward smaller
    // x; alignment keeps the shared heading and cohesion pulls slightly
    // toward the neighbour.
    let d0 = bots[0].get_direction();
    assert!(d0.x < 0, "x was {}", d0.x);
    assert!(d0.y > 0, "y was {}", d0.y);
}

#[test]
fn test_update_keeps_player_untouched() {
    let player = Bird::new(Vec2::new(200_000, 200_000), Vec2::new(3000, 0));
    let mut bots = spawn_birds(5, Vec2::new(0, 0), Vec2::new(300_000, 300_000));
    control_bot_birds(&mut bots, &player, 1_000_000, 1_000_000);
    assert_eq!(bots.len(), 5);
    assert_eq!(player.get_pos(), Vec2::new(200_000, 200_000));
    assert_eq!(player.get_direction(), Vec2::new(3000, 0));
    for bot in &bots {
        let pos = bot.get_pos();
        assert!(0 <= pos.x && pos.x < 1_000_000);
        assert!(0 <= pos.y && pos.y < 1_000_000);
    }
}

#[test]
fn test_update_aligns_with_visible_neighbour() {
    // Two agents 20 pixels apart (visible, outside personal space), one
    // heading along x, one along y; the player is far away.  Alignment
    // pulls the first agent's heading toward its neighbour's.
    let player = Bird::new(Vec2::new(500_000, 500_000), Vec2::new(3000, 0));
    let mut bots = vec![
        Bird::new(Vec2::new(100_000, 100_000), Vec2::new(3000, 0)),
        Bird::new(Vec2::new(100_000, 123_000), Vec2::new(0, 3000)),
    ];
    control_bot_birds(&mut bots, &player, 1_000_000, 1_000_000);
    let d0 = bots[0].get_direction();
    assert!(d0.x > 0 && d0.y > 0, "direction was ({}, {})", d0.x, d0.y);
}

#[test]
fn test_update_empty_flock() {
    let player = Bird::new(Vec2::new(200_000, 200_000), Vec2::new(3000, 0));
    let mut bots: Vec<Bird> = vec![];
    control_bot_birds(&mut bots, &player, 1_000_000, 1_000_000);
    assert!(bots.is_empty());
}

#[test]
fn test_spawn_exact_positions() {
    // The spawn sequence is fixed: the first two agents always land on
    // these exact fixed-point positions.
    let bots = spawn_birds(2, Vec2::new(40_000, 30_000), Vec2::new(400_000, 300_000));
    assert_eq!(bots[0].get_pos(), Vec2::new(147_250, 120_062));
    assert_eq!(bots[1].get_pos(), Vec2::new(285_471, 292_838));
}
