use vstd::prelude::*;

verus! {

/// Whether the half-open ranges `a` and `b` share a position. Ranges that
/// only touch do not.
pub open spec fn ranges_overlap_spec(a: (u64, u64), b: (u64, u64)) -> bool {
    !(a.1 <= b.0 || a.0 >= b.1)
}

/// Whether the half-open ranges `src` and `dst` overlap.
pub fn ranges_overlap(src: (u64, u64), dst: (u64, u64)) -> (r: bool)
    ensures
        r == ranges_overlap_spec(src, dst),
{
    !(src.1 <= dst.0 || src.0 >= dst.1)
}

} // verus!
