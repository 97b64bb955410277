use blackhole_sim::motion::{player_velocity, KeyState};
use blackhole_sim::timer::RepeatTimer;
use blackhole_sim::world::World;

fn keys(left: bool, right: bool, up: bool, down: bool) -> KeyState {
    KeyState { left, right, up, down }
}

fn no_keys() -> KeyState {
    keys(false, false, false, false)
}

#[test]
fn motion_all_key_combinations() {
    for mask in 0..16u32 {
        let left = mask & 1 != 0;
        let right = mask & 2 != 0;
        let up = mask & 4 != 0;
        let down = mask & 8 != 0;
        let (vx, vy) = player_velocity(keys(left, right, up, down));
        let expect_x = match (left, right) {
            (true, false) => -100,
            (false, true) => 100,
            _ => 0,
        };
        let expect_y = match (down, up) {
            (true, false) => -100,
            (false, true) => 100,
            _ => 0,
        };
        assert_eq!(vx, expect_x);
        assert_eq!(vy, expect_y);
        assert!(vx == -100 || vx == 0 || vx == 100);
        assert!(vy == -100 || vy == 0 || vy == 100);
    }
}

#[test]
fn motion_opposing_keys_cancel() {
    let (vx, vy) = player_velocity(keys(true, true, true, true));
    assert_eq!((vx, vy), (0, 0));
}

#[test]
fn player_moves_by_velocity_times_time() {
    // One whole second at 100 units/second moves the player 100 units.
    let mut w = World::new(1000, 1);
    w.step_frame(keys(false, true, false, false), 1);
    assert_eq!(w.player_x, 100);
    assert_eq!(w.player_y, 0);
    assert_eq!(w.player_vx, 100);
    // Releasing the keys stops the player immediately: no inertia.
    w.step_frame(no_keys(), 1);
    assert_eq!(w.player_x, 100);
    assert_eq!(w.player_vx, 0);
}

#[test]
fn timer_fires_once_per_interval_constant_stepping() {
    let mut t = RepeatTimer::new(10);
    let mut fires: u32 = 0;
    for _ in 0..12 {
        if t.tick(3) {
            fires += 1;
        }
    }
    // 36 time units at interval 10: fires at cumulative 12, 21, 30.
    assert_eq!(fires, 3);
}

#[test]
fn timer_variable_deltas_keep_remainder() {
    let mut t = RepeatTimer::new(10);
    assert!(!t.tick(4));
    assert!(t.tick(6)); // exactly 10
    assert!(!t.tick(9));
    assert!(t.tick(1)); // exactly 20
    assert!(t.tick(10)); // exactly 30
    assert!(!t.tick(0));
}

#[test]
fn spawn_fires_on_ninth_fractional_frame() {
    // 9 frames of 5/9 second each against a 5-second interval: with a time
    // unit of 1/9 second the interval is 45 units and each frame 5 units.
    let mut w = World::new(45, 9);
    for frame in 0..9 {
        let spawned = w.step_frame(no_keys(), 5);
        if frame < 8 {
            assert!(!spawned, "spawned before 5 cumulative seconds");
            assert_eq!(w.objects.len(), 0);
        } else {
            assert!(spawned, "no spawn at exactly 5 cumulative seconds");
            assert_eq!(w.objects.len(), 1);
        }
    }
}

#[test]
fn spawned_object_has_standard_attributes() {
    let mut w = World::new(1, 1);
    let spawned = w.step_frame(no_keys(), 1);
    assert!(spawned);
    assert_eq!(w.objects.len(), 1);
    let o = &w.objects[0];
    assert!(-600 <= o.x && o.x <= 600);
    assert!(-600 <= o.y && o.y <= 600);
    assert!(o.variant < 10);
    assert_eq!((o.vx, o.vy), (0, 0));
    assert_eq!(o.id, 0);
}

#[test]
fn distant_object_stays_put() {
    // Player at (0,0), object spawned at (600,0) with zero velocity: no
    // overlap, so after one frame nothing about the object has changed.
    let mut w = World::new(1000, 1);
    w.spawn_object_at(600, 0, 3);
    w.step_frame(no_keys(), 1);
    assert_eq!(w.objects.len(), 1);
    assert_eq!((w.objects[0].x, w.objects[0].y), (600, 0));
    assert_eq!((w.objects[0].vx, w.objects[0].vy), (0, 0));
    assert_eq!(w.objects[0].variant, 3);
}

#[test]
fn overlap_aims_object_at_player() {
    // Player at (0,0), object at (10,0): one resolver pass re-aims the
    // object's velocity to exactly (-10, 0).
    let mut w = World::new(1000, 1);
    w.spawn_object_at(10, 0, 0);
    w.detect_collisions();
    assert_eq!((w.objects[0].vx, w.objects[0].vy), (-10, 0));
    // Positions are untouched by the resolver.
    assert_eq!((w.objects[0].x, w.objects[0].y), (10, 0));
}

#[test]
fn overlap_diagonal_three_four_five() {
    // A 3-4-5 triangle normalizes exactly: velocity (-6, -8), magnitude 10.
    let mut w = World::new(1000, 1);
    w.spawn_object_at(3, 4, 0);
    w.detect_collisions();
    let (vx, vy) = (w.objects[0].vx, w.objects[0].vy);
    assert_eq!((vx, vy), (-6, -8));
    assert_eq!(vx * vx + vy * vy, 100);
}

#[test]
fn coincident_object_keeps_velocity() {
    // Degenerate direction: the update is skipped for this frame.
    let mut w = World::new(1000, 1);
    w.spawn_object_at(0, 0, 0);
    w.detect_collisions();
    assert_eq!((w.objects[0].vx, w.objects[0].vy), (0, 0));
}

#[test]
fn resolver_reaims_every_overlapping_frame() {
    let mut w = World::new(1000, 1);
    w.spawn_object_at(200, 0, 0);
    w.detect_collisions();
    assert_eq!((w.objects[0].vx, w.objects[0].vy), (-10, 0));
    // The object keeps homing toward the player's current position.
    w.player_y = 200;
    w.detect_collisions();
    // Direction is now diagonal up-left: dx = -200, dy = +200.
    assert!(w.objects[0].vx < 0 && w.objects[0].vy > 0);
}

#[test]
fn close_object_is_consumed_and_never_returns() {
    // Object at (5,5), player at (0,0): within threshold 25 on both axes.
    let mut w = World::new(1000, 1);
    w.spawn_object_at(5, 5, 7);
    assert_eq!(w.objects.len(), 1);
    w.consume_planets();
    assert_eq!(w.objects.len(), 0);
    // Idempotent: consuming again changes nothing.
    w.consume_planets();
    assert_eq!(w.objects.len(), 0);
    // Irreversible: later frames never see it again.
    w.step_frame(no_keys(), 1);
    assert_eq!(w.objects.len(), 0);
}

#[test]
fn consumption_threshold_is_square_and_inclusive() {
    let mut w = World::new(1000, 1);
    w.spawn_object_at(25, 25, 0);
    w.spawn_object_at(26, 0, 1);
    w.consume_planets();
    // (25,25) is within the square threshold even though its Euclidean
    // distance exceeds 25; (26,0) is outside on the x axis.
    assert_eq!(w.objects.len(), 1);
    assert_eq!(w.objects[0].variant, 1);
}

#[test]
fn homed_object_consumed_same_frame() {
    // An object already within the threshold is re-aimed and then consumed
    // in the same frame: resolve runs before the consumption rule.
    let mut w = World::new(1000, 1);
    w.spawn_object_at(20, 0, 0);
    w.step_frame(no_keys(), 0);
    assert_eq!(w.objects.len(), 0);
}

#[test]
fn overlapping_but_distant_object_survives() {
    // At (300,0) the sensors just overlap (250 + 50), but the object is far
    // outside the consumption threshold: it is homed, not consumed.
    let mut w = World::new(1000, 1);
    w.spawn_object_at(300, 0, 0);
    w.step_frame(no_keys(), 0);
    assert_eq!(w.objects.len(), 1);
    assert_eq!((w.objects[0].vx, w.objects[0].vy), (-10, 0));
}

#[test]
fn resolver_sees_current_frame_positions() {
    // Player at (0,0), object at (400,0): no overlap yet. Moving right for
    // one second puts the player at (100,0), exactly 300 units away — the
    // resolver must observe that already-integrated position and re-aim the
    // object in the same frame, not one frame late.
    let mut w = World::new(1000, 1);
    w.spawn_object_at(400, 0, 0);
    w.step_frame(keys(false, true, false, false), 1);
    assert_eq!(w.player_x, 100);
    assert_eq!((w.objects[0].vx, w.objects[0].vy), (-10, 0));
}

#[test]
fn homing_object_reaches_player_and_is_consumed() {
    // An object at (100,0) is homed at 10 units/second toward a stationary
    // player: it crosses the 25-unit threshold on the ninth frame and is
    // consumed, never to return.
    let mut w = World::new(1000, 1);
    w.spawn_object_at(100, 0, 0);
    for frame in 1..=9 {
        w.step_frame(no_keys(), 1);
        if frame < 9 {
            assert_eq!(w.objects.len(), 1);
            assert_eq!(w.objects[0].x, 100 - 10 * (frame - 1));
            assert_eq!((w.objects[0].vx, w.objects[0].vy), (-10, 0));
        } else {
            assert_eq!(w.objects.len(), 0);
        }
    }
    w.step_frame(no_keys(), 1);
    assert_eq!(w.objects.len(), 0);
}

#[test]
fn identifiers_are_fresh_and_increasing() {
    let mut w = World::new(1000, 1);
    w.spawn_object_at(100, 0, 0);
    w.spawn_object_at(200, 0, 1);
    assert_eq!(w.objects[0].id, 0);
    assert_eq!(w.objects[1].id, 1);
    // Consume nothing, spawn another: the id watermark keeps rising.
    w.spawn_object_at(-100, -100, 2);
    assert_eq!(w.objects[2].id, 2);
    assert_eq!(w.next_id, 3);
}
