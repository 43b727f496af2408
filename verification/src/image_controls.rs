//! Video rotation in quarter turns and mirroring.
use vstd::prelude::*;

verus! {

/// `%` as Rust computes it on integers: the remainder takes the sign of the dividend.
pub open spec fn rem_trunc(a: int, m: int) -> int {
    if a >= 0 {
        a % m
    } else {
        -((-a) % m)
    }
}

/// The rotation after a quarter turn clockwise: `(r + 90) % 360`.
pub open spec fn rotated_cw(r: int) -> int {
    rem_trunc(r + 90, 360)
}

/// The rotation after a quarter turn counter-clockwise: `((r - 90) + 360) % 360`.
pub open spec fn rotated_ccw(r: int) -> int {
    rem_trunc(r - 90 + 360, 360)
}

pub fn rotate_cw_value(r: i64) -> (s: i64)
    requires
        r + 90 <= i64::MAX,
    ensures
        s == rotated_cw(r as int),
{
    let x = r + 90;
    if x >= 0 {
        x % 360
    } else {
        -((-x) % 360)
    }
}

pub fn rotate_ccw_value(r: i64) -> (s: i64)
    requires
        i64::MIN <= r - 90,
        r - 90 + 360 <= i64::MAX,
    ensures
        s == rotated_ccw(r as int),
{
    let x = (r - 90) + 360;
    if x >= 0 {
        x % 360
    } else {
        -((-x) % 360)
    }
}

/// A quarter turn one way and then the other restores a rotation in `0..360`.
pub proof fn rotation_turns_undo(r: int)
    requires
        0 <= r < 360,
    ensures
        rotated_ccw(rotated_cw(r)) == r,
        rotated_cw(rotated_ccw(r)) == r,
        0 <= rotated_cw(r) < 360,
        0 <= rotated_ccw(r) < 360,
{
}

/// The video filter that mirrors the picture: `hflip` for a horizontal flip,
/// `vflip` for a vertical one, both (`vflip,hflip`) or none.
pub fn flip_filter(flip_h: bool, flip_v: bool) -> (r: &'static str)
    ensures
        r@ == (if flip_h && flip_v {
            "vflip,hflip"@
        } else if flip_h {
            "hflip"@
        } else if flip_v {
            "vflip"@
        } else {
            ""@
        }),
{
    match (flip_h, flip_v) {
        (true, true) => "vflip,hflip",
        (true, false) => "hflip",
        (false, true) => "vflip",
        (false, false) => "",
    }
}

} // verus!
