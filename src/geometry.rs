use vstd::prelude::*;

verus! {

/// Number of fixed-point steps that make up one cell along either axis.
pub const SUBCELLS: i64 = 65536;

/// The cell that a fixed-point coordinate falls into: the floor of
/// `v / SUBCELLS`, rounding toward negative infinity.
pub open spec fn cell_of(v: int) -> int {
    v / (SUBCELLS as int)
}

/// Rounds a fixed-point coordinate down to the cell that holds it.
pub fn floor_to_cell(v: i128) -> (r: i128)
    ensures
        r as int == cell_of(v as int),
{
    let s: i128 = SUBCELLS as i128;
    if v >= 0 {
        v / s
    } else {
        let m: i128 = -(v + 1);
        let q: i128 = m / s;
        proof {
            assert(v as int / 65536 == -(m as int / 65536) - 1) by (nonlinear_arith)
                requires m == -(v + 1), m >= 0;
        }
        -q - 1
    }
}

} // verus!
