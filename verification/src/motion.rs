use vstd::prelude::*;

verus! {

/// Speed, in units per second, given to the player on an axis while one of
/// that axis's movement keys is held.
pub const MOVE_SPEED: i64 = 100;

/// Pressed state of the four movement keys on one frame.
#[derive(Clone, Copy)]
pub struct KeyState {
    pub left: bool,
    pub right: bool,
    pub up: bool,
    pub down: bool,
}

/// The velocity one axis gets from its two opposing keys: the positive key
/// contributes `+MOVE_SPEED`, the negative key `-MOVE_SPEED`, so pressing
/// both cancels to zero.
pub open spec fn axis_velocity(neg: bool, pos: bool) -> int {
    (if pos {
        MOVE_SPEED as int
    } else {
        0
    }) - (if neg {
        MOVE_SPEED as int
    } else {
        0
    })
}

/// Velocity the player gets this frame from the pressed movement keys.
/// Each axis is evaluated independently; there is no diagonal normalization,
/// so diagonal movement is faster than axis-aligned movement.
pub fn player_velocity(keys: KeyState) -> (v: (i64, i64))
    ensures
        v.0 as int == axis_velocity(keys.left, keys.right),
        v.1 as int == axis_velocity(keys.down, keys.up),
{
    let mut x: i64 = 0;
    let mut y: i64 = 0;
    if keys.left {
        x = x - MOVE_SPEED;
    }
    if keys.right {
        x = x + MOVE_SPEED;
    }
    if keys.up {
        y = y + MOVE_SPEED;
    }
    if keys.down {
        y = y - MOVE_SPEED;
    }
    (x, y)
}

/// Law: for every combination of the two keys of an axis, the axis velocity
/// is one of `-MOVE_SPEED`, `0`, `+MOVE_SPEED`, and pressing both opposing
/// keys (or neither) yields exactly `0`.
pub proof fn lemma_axis_velocity_range(neg: bool, pos: bool)
    ensures
        axis_velocity(neg, pos) == -(MOVE_SPEED as int) || axis_velocity(neg, pos) == 0
            || axis_velocity(neg, pos) == MOVE_SPEED as int,
        neg == pos ==> axis_velocity(neg, pos) == 0,
{
}

} // verus!
