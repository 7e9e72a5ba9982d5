//! Mapping a direction onto a musical scale.

use vstd::prelude::*;

verus! {

/// One full turn, in the angle unit used here: millionths of a turn.
pub const MICRO_TURN: u32 = 1_000_000;

/// The scale position an angle selects: the full circle is divided into
/// `scale_size` equal parts, and an angle of `a` turns selects part
/// `ceil(scale_size * a)`, counted from 1; angle zero selects 0, the root.
pub open spec fn scale_position(angle: u32, scale_size: u8) -> int {
    (scale_size * angle + (MICRO_TURN - 1)) / (MICRO_TURN as int)
}

/// Which scale degree the direction from an activator to a note selects.
/// The angle is measured counter-clockwise from the positive x axis, as a
/// fraction of a full turn in [`MICRO_TURN`]ths; a degenerate direction (the
/// note sits on the activator) is given as angle zero and selects the root.
pub fn calculate_scale_position_by_angle(angle: u32, scale_size: u8) -> (r: u8)
    requires
        angle < MICRO_TURN,
        scale_size >= 1,
    ensures
        r == scale_position(angle, scale_size),
{
    proof {
        assert((scale_size as int) * (angle as int) <= 254_999_745) by (nonlinear_arith)
            requires scale_size <= 255u8, angle <= 999_999u32;
    }
    let prod: u64 = (scale_size as u64) * (angle as u64);
    let r64 = (prod + 999_999) / 1_000_000;
    r64 as u8
}

} // verus!
