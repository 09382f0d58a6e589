//! Frame-by-frame easing: each frame moves a value towards its target by a
//! share of the distance that grows with the time since the last frame.
//!
//! Lengths are whole numbers of a unit that the caller chooses (a thousandth
//! of a pixel serves well), time is counted in microseconds, and a share of
//! the distance in millionths.

use vstd::prelude::*;

verus! {

/// The whole distance, as a share.
pub const MIX_ONE: u32 = 1_000_000;

/// One pixel, in the units that the thresholds of this library are given
/// in.
pub const PX: i32 = 1000;

/// A position on the plane.
#[derive(Clone, Copy, Debug, PartialEq, Eq, Structural)]
pub struct Point {
    pub x: i32,
    pub y: i32,
}

/// The share of the distance to cover after `elapsed_us` microseconds at
/// `rate` per second: their product, and the whole distance at most.
pub open spec fn mix_for(elapsed_us: nat, rate: nat) -> nat {
    if elapsed_us * rate >= MIX_ONE {
        MIX_ONE as nat
    } else {
        elapsed_us * rate
    }
}

/// How far a value moves over `distance` at the share `mix`: the share of
/// the distance, rounded up to whole units, so that any share moves it.
pub open spec fn travel(distance: nat, mix: nat) -> nat {
    (distance * mix + (MIX_ONE - 1)) as nat / (MIX_ONE as nat)
}

/// The value between `current` and `target` that lies the share `mix` of
/// the way towards `target`.
pub open spec fn approached(current: int, target: int, mix: nat) -> int {
    if target >= current {
        current + travel((target - current) as nat, mix)
    } else {
        current - travel((current - target) as nat, mix)
    }
}

/// The distance between two values.
pub open spec fn gap(a: int, b: int) -> nat {
    if a >= b {
        (a - b) as nat
    } else {
        (b - a) as nat
    }
}

/// The square of the distance between two points.
pub open spec fn distance_squared(a: Point, b: Point) -> nat {
    ((a.x - b.x) * (a.x - b.x) + (a.y - b.y) * (a.y - b.y)) as nat
}

/// A value never travels farther than the distance; it covers all of it at
/// the whole share, none of it at no share, and at least one unit of a
/// distance at any other share.
pub proof fn lemma_travel(distance: nat, mix: nat)
    requires
        mix <= MIX_ONE,
    ensures
        travel(distance, mix) <= distance,
        mix == MIX_ONE ==> travel(distance, mix) == distance,
        mix == 0 ==> travel(distance, mix) == 0,
        mix > 0 && distance > 0 ==> travel(distance, mix) >= 1,
{
    let scale = MIX_ONE as int;
    assert(distance * mix <= distance * scale) by (nonlinear_arith)
        requires
            mix <= scale,
    ;
    assert((distance * scale + (scale - 1)) / scale == distance) by (nonlinear_arith)
        requires
            scale > 0,
    ;
    assert((distance * mix + (scale - 1)) / scale <= (distance * scale + (scale - 1)) / scale)
        by (nonlinear_arith)
        requires
            distance * mix <= distance * scale,
            scale > 0,
    ;
    if mix > 0 && distance > 0 {
        assert(distance * mix >= 1) by (nonlinear_arith)
            requires
                distance >= 1,
                mix >= 1,
        ;
        assert((distance * mix + (scale - 1)) / scale >= 1) by (nonlinear_arith)
            requires
                distance * mix >= 1,
                scale > 0,
        ;
    }
    if mix == 0 {
        assert(distance * mix == 0) by (nonlinear_arith)
            requires
                mix == 0,
        ;
    }
}

/// An eased value lies between where it was and its target, and is the
/// closer to the target the larger the share.
pub proof fn lemma_approached(current: int, target: int, mix: nat)
    requires
        mix <= MIX_ONE,
    ensures
        gap(approached(current, target, mix), target) + travel(gap(current, target), mix) == gap(
            current,
            target,
        ),
        gap(approached(current, target, mix), target) <= gap(current, target),
        mix == MIX_ONE ==> approached(current, target, mix) == target,
        mix > 0 && current != target ==> gap(approached(current, target, mix), target) < gap(
            current,
            target,
        ),
        current <= target ==> current <= approached(current, target, mix) <= target,
        target <= current ==> target <= approached(current, target, mix) <= current,
{
    lemma_travel(gap(current, target), mix);
}

/// Computes `mix_for`.
pub fn mix(elapsed_us: u64, rate: u32) -> (m: u32)
    ensures
        m == mix_for(elapsed_us as nat, rate as nat),
        m <= MIX_ONE,
{
    assert(elapsed_us * rate <= u128::MAX) by (nonlinear_arith)
        requires
            elapsed_us <= u64::MAX,
            rate <= u32::MAX,
    ;
    let product: u128 = (elapsed_us as u128) * (rate as u128);
    if product >= MIX_ONE as u128 {
        MIX_ONE
    } else {
        product as u32
    }
}

/// Moves `current` the share `mix` of the way towards `target`.
pub fn approach(current: i64, target: i64, mix: u32) -> (next: i64)
    requires
        mix <= MIX_ONE,
    ensures
        next == approached(current as int, target as int, mix as nat),
{
    proof {
        lemma_approached(current as int, target as int, mix as nat);
    }
    let far: u64 = distance(current, target);
    assert(far * mix + (MIX_ONE - 1) <= u128::MAX) by (nonlinear_arith)
        requires
            far <= u64::MAX,
            mix <= 1_000_000,
            MIX_ONE == 1_000_000,
    ;
    let step: u128 = ((far as u128) * (mix as u128) + (MIX_ONE as u128 - 1)) / (MIX_ONE as u128);
    if target >= current {
        (current as i128 + step as i128) as i64
    } else {
        (current as i128 - step as i128) as i64
    }
}

/// Computes `gap`.
pub fn distance(a: i64, b: i64) -> (d: u64)
    ensures
        d == gap(a as int, b as int),
{
    if a >= b {
        (a as i128 - b as i128) as u64
    } else {
        (b as i128 - a as i128) as u64
    }
}

/// Whether two points lie farther apart than `limit`.
pub fn farther_than(a: Point, b: Point, limit: u32) -> (far: bool)
    ensures
        far == (distance_squared(a, b) > limit * limit),
{
    let dx: i64 = a.x as i64 - b.x as i64;
    let dy: i64 = a.y as i64 - b.y as i64;
    assert(0 <= dx * dx <= 0x1_0000_0000_0000_0000 && 0 <= dy * dy <= 0x1_0000_0000_0000_0000)
        by (nonlinear_arith)
        requires
            -0x1_0000_0000 <= dx <= 0x1_0000_0000,
            -0x1_0000_0000 <= dy <= 0x1_0000_0000,
    ;
    assert(0 <= limit * limit <= 0x1_0000_0000_0000_0000) by (nonlinear_arith)
        requires
            0 <= limit <= 0xFFFF_FFFF,
    ;
    let squared: i128 = (dx as i128) * (dx as i128) + (dy as i128) * (dy as i128);
    let bound: i128 = (limit as i128) * (limit as i128);
    squared > bound
}

/// The value of `i32` nearest to `v`.
pub open spec fn clamped(v: int) -> int {
    if v < i32::MIN {
        i32::MIN as int
    } else if v > i32::MAX {
        i32::MAX as int
    } else {
        v
    }
}

/// Computes `clamped`.
pub fn clamp_i32(v: i64) -> (c: i32)
    ensures
        c == clamped(v as int),
{
    if v < i32::MIN as i64 {
        i32::MIN
    } else if v > i32::MAX as i64 {
        i32::MAX
    } else {
        v as i32
    }
}

/// The quotient of `a` by `b`, rounded down.
pub fn floor_div(a: i128, b: i128) -> (q: i128)
    requires
        b > 0,
        a > i128::MIN,
    ensures
        q == a / b,
{
    if a >= 0 {
        a / b
    } else {
        let n: i128 = -a;
        let whole: i128 = n / b;
        let rest: i128 = n % b;
        proof {
            assert(n == whole * b + rest) by {
                vstd::arithmetic::div_mod::lemma_fundamental_div_mod(n as int, b as int);
                assert(b * whole == whole * b) by (nonlinear_arith);
            }
            if rest == 0 {
                assert(a == (-whole) * b + 0) by (nonlinear_arith)
                    requires
                        a == -n,
                        n == whole * b + 0,
                ;
                vstd::arithmetic::div_mod::lemma_fundamental_div_mod_converse(
                    a as int,
                    b as int,
                    -whole as int,
                    0,
                );
            } else {
                assert(a == (-whole - 1) * b + (b - rest)) by (nonlinear_arith)
                    requires
                        a == -n,
                        n == whole * b + rest,
                ;
                vstd::arithmetic::div_mod::lemma_fundamental_div_mod_converse(
                    a as int,
                    b as int,
                    -whole - 1,
                    b - rest,
                );
            }
        }
        if rest == 0 {
            -whole
        } else {
            -whole - 1
        }
    }
}

/// The value of `i32` nearest to `v`.
pub fn clamp_wide(v: i128) -> (c: i32)
    ensures
        c == clamped(v as int),
{
    if v < i32::MIN as i128 {
        i32::MIN
    } else if v > i32::MAX as i128 {
        i32::MAX
    } else {
        v as i32
    }
}

} // verus!
