//! Small shared helpers: the grid generator the enumeration strategies walk,
//! and type-level booleans for compile-time guards.

use vstd::prelude::*;

use crate::fixed::{fx_add, fx_sub, tdiv, Fx};

verus! {

/// How many grid entries can still come after `current`: positive while the
/// walk goes on, and strictly shrinking with each advance.
pub open spec fn grid_fuel(current: int, dx: int) -> int {
    if current > dx {
        0
    } else {
        dx - current + 1
    }
}

/// The grid walked from `current` with spacing `dx`: each entry is the
/// previous one advanced by `dx`, and the walk goes on while the previous
/// entry is at most `dx` itself.
pub open spec fn grid_from(current: int, dx: int) -> Seq<int>
    decreases grid_fuel(current, dx),
    via grid_from_decreases
{
    if 1 <= dx < i64::MAX && current <= dx {
        seq![fx_add(current, dx)] + grid_from(fx_add(current, dx), dx)
    } else {
        Seq::empty()
    }
}

#[via_fn]
proof fn grid_from_decreases(current: int, dx: int) {
    if 1 <= dx < i64::MAX && current <= dx {
        assert(fx_add(current, dx) > current);
    }
}

/// The spacing of an `n`-point grid over `[start, end]`.
pub open spec fn grid_spacing(start: int, end: int, n: int) -> int {
    tdiv(fx_sub(end, start), n - 1)
}

/// The grid walked at the `n`-point spacing of `[start, end]`: the entries
/// advance from `start` by the spacing but only while they stay at most one
/// spacing above zero, so the walk can end far short of `end`.
pub fn linspace(start: Fx, end: Fx, n: usize) -> (r: Vec<Fx>)
    requires
        2 <= n <= 0x7fff_ffff_ffff_ffff,
        1 <= grid_spacing(start@, end@, n as int) < i64::MAX,
    ensures
        r@.map_values(|f: Fx| f@) == grid_from(start@, grid_spacing(start@, end@, n as int)),
{
    let dx = end.minus(start).div_int((n - 1) as i64);
    let mut out: Vec<Fx> = Vec::new();
    let mut current = start;
    while current.le(dx)
        invariant
            dx@ == grid_spacing(start@, end@, n as int),
            1 <= dx@ < i64::MAX,
            grid_from(start@, dx@) == out@.map_values(|f: Fx| f@) + grid_from(current@, dx@),
        decreases grid_fuel(current@, dx@),
    {
        proof {
            assert(fx_add(current@, dx@) > current@);
        }
        current = current.plus(dx);
        let ghost pre = out@.map_values(|f: Fx| f@);
        out.push(current);
        proof {
            assert(out@.map_values(|f: Fx| f@) =~= pre + seq![current@]);
            assert(pre + (seq![current@] + grid_from(current@, dx@)) =~= (pre + seq![current@])
                + grid_from(current@, dx@));
        }
    }
    proof {
        assert(grid_from(current@, dx@) =~= Seq::<int>::empty());
        assert(out@.map_values(|f: Fx| f@) + Seq::<int>::empty() =~= out@.map_values(
            |f: Fx| f@,
        ));
    }
    out
}

/// A type-level boolean.
pub struct Bool<const B: bool>;

/// Satisfied by the type-level true.
pub trait True {}

/// Satisfied by the type-level false.
pub trait False {}

impl True for Bool<true> {}

impl False for Bool<false> {}

} // verus!
