//! Fixed-width batches: one slot ("lane") per ray of a group.
//!
//! Every operation here works lane by lane.  Lane `i` of a result depends on
//! lane `i` of the arguments and on nothing else, which each contract says
//! outright.

use crate::scalar::{
    difference, is_difference, is_multiply_add, is_product, is_quotient, is_root, is_sum,
    multiply_add, product, quotient, root, sum, Arithmetic, Real,
};
use vstd::prelude::*;

verus! {

/// The number of rays that are traced together.
pub const LANES: usize = 8;

/// One number per lane.
pub type Reals = [Real; LANES];

/// One integer per lane.
pub type Integers = [i32; LANES];

/// One truth value per lane: the lanes that an update applies to.
pub type Mask = [bool; LANES];

/// Lane by lane, `r` is what `unit` gave for `a + b`.
pub open spec fn are_sums<A: Arithmetic>(unit: &A, a: Reals, b: Reals, r: Reals) -> bool {
    forall|i: int| 0 <= i < LANES ==> is_sum(unit, a[i], b[i], #[trigger] r[i])
}

/// Lane by lane, `r` is what `unit` gave for `a - b`.
pub open spec fn are_differences<A: Arithmetic>(unit: &A, a: Reals, b: Reals, r: Reals) -> bool {
    forall|i: int| 0 <= i < LANES ==> is_difference(unit, a[i], b[i], #[trigger] r[i])
}

/// Lane by lane, `r` is what `unit` gave for `a * b`.
pub open spec fn are_products<A: Arithmetic>(unit: &A, a: Reals, b: Reals, r: Reals) -> bool {
    forall|i: int| 0 <= i < LANES ==> is_product(unit, a[i], b[i], #[trigger] r[i])
}

/// Lane by lane, `r` is what `unit` gave for `a / b`.
pub open spec fn are_quotients<A: Arithmetic>(unit: &A, a: Reals, b: Reals, r: Reals) -> bool {
    forall|i: int| 0 <= i < LANES ==> is_quotient(unit, a[i], b[i], #[trigger] r[i])
}

/// Lane by lane, `r` is what `unit` gave for the square root of `a`.
pub open spec fn are_roots<A: Arithmetic>(unit: &A, a: Reals, r: Reals) -> bool {
    forall|i: int| 0 <= i < LANES ==> is_root(unit, a[i], #[trigger] r[i])
}

/// Lane by lane, `r` is what `unit` gave for `a + b * c`.
pub open spec fn are_multiply_adds<A: Arithmetic>(
    unit: &A,
    a: Reals,
    b: Reals,
    c: Reals,
    r: Reals,
) -> bool {
    forall|i: int| 0 <= i < LANES ==> is_multiply_add(unit, a[i], b[i], c[i], #[trigger] r[i])
}

/// Some lane of the mask is set.
pub open spec fn some_lane(mask: Mask) -> bool {
    exists|i: int| 0 <= i < LANES && mask[i]
}

/// Every lane of the mask is set.
pub open spec fn every_lane(mask: Mask) -> bool {
    forall|i: int| 0 <= i < LANES ==> mask[i]
}

/// The batch that holds `x` in every lane.
pub fn splat(x: Real) -> (r: Reals)
    ensures
        forall|i: int| 0 <= i < LANES ==> r[i] == x,
{
    [x, x, x, x, x, x, x, x]
}

/// Lane by lane: `on_true` where the mask is set, `on_false` elsewhere.
pub fn select(mask: Mask, on_true: Reals, on_false: Reals) -> (r: Reals)
    ensures
        forall|i: int|
            0 <= i < LANES ==> #[trigger] r[i] == if mask[i] {
                on_true[i]
            } else {
                on_false[i]
            },
{
    let mut r: Reals = on_false;
    let mut i: usize = 0;
    while i < LANES
        invariant
            i <= LANES,
            forall|j: int|
                0 <= j < i ==> #[trigger] r[j] == if mask[j] {
                    on_true[j]
                } else {
                    on_false[j]
                },
            forall|j: int| i <= j < LANES ==> #[trigger] r[j] == on_false[j],
        decreases LANES - i,
    {
        if mask[i] {
            r[i] = on_true[i];
        }
        i += 1;
    }
    r
}

/// Lane by lane, `a + b`.
pub fn plus<A: Arithmetic>(unit: &A, a: Reals, b: Reals) -> (r: Reals)
    ensures
        are_sums(unit, a, b, r),
{
    let mut r: Reals = a;
    let mut i: usize = 0;
    while i < LANES
        invariant
            i <= LANES,
            forall|j: int| 0 <= j < i ==> is_sum(unit, a[j], b[j], #[trigger] r[j]),
        decreases LANES - i,
    {
        r[i] = sum(unit, a[i], b[i]);
        i += 1;
    }
    r
}

/// Lane by lane, `a - b`.
pub fn minus<A: Arithmetic>(unit: &A, a: Reals, b: Reals) -> (r: Reals)
    ensures
        are_differences(unit, a, b, r),
{
    let mut r: Reals = a;
    let mut i: usize = 0;
    while i < LANES
        invariant
            i <= LANES,
            forall|j: int| 0 <= j < i ==> is_difference(unit, a[j], b[j], #[trigger] r[j]),
        decreases LANES - i,
    {
        r[i] = difference(unit, a[i], b[i]);
        i += 1;
    }
    r
}

/// Lane by lane, `a * b`.
pub fn times<A: Arithmetic>(unit: &A, a: Reals, b: Reals) -> (r: Reals)
    ensures
        are_products(unit, a, b, r),
{
    let mut r: Reals = a;
    let mut i: usize = 0;
    while i < LANES
        invariant
            i <= LANES,
            forall|j: int| 0 <= j < i ==> is_product(unit, a[j], b[j], #[trigger] r[j]),
        decreases LANES - i,
    {
        r[i] = product(unit, a[i], b[i]);
        i += 1;
    }
    r
}

/// Lane by lane, `a / b`.
pub fn over<A: Arithmetic>(unit: &A, a: Reals, b: Reals) -> (r: Reals)
    ensures
        are_quotients(unit, a, b, r),
{
    let mut r: Reals = a;
    let mut i: usize = 0;
    while i < LANES
        invariant
            i <= LANES,
            forall|j: int| 0 <= j < i ==> is_quotient(unit, a[j], b[j], #[trigger] r[j]),
        decreases LANES - i,
    {
        r[i] = quotient(unit, a[i], b[i]);
        i += 1;
    }
    r
}

/// Lane by lane, `a + b * c`.
pub fn plus_times<A: Arithmetic>(unit: &A, a: Reals, b: Reals, c: Reals) -> (r: Reals)
    ensures
        are_multiply_adds(unit, a, b, c, r),
{
    let mut r: Reals = a;
    let mut i: usize = 0;
    while i < LANES
        invariant
            i <= LANES,
            forall|j: int| 0 <= j < i ==> is_multiply_add(unit, a[j], b[j], c[j], #[trigger] r[j]),
        decreases LANES - i,
    {
        r[i] = multiply_add(unit, a[i], b[i], c[i]);
        i += 1;
    }
    r
}

/// Lane by lane, the square root of `a`.
pub fn sqrt<A: Arithmetic>(unit: &A, a: Reals) -> (r: Reals)
    ensures
        are_roots(unit, a, r),
{
    let mut r: Reals = a;
    let mut i: usize = 0;
    while i < LANES
        invariant
            i <= LANES,
            forall|j: int| 0 <= j < i ==> is_root(unit, a[j], #[trigger] r[j]),
        decreases LANES - i,
    {
        r[i] = root(unit, a[i]);
        i += 1;
    }
    r
}

/// Each lane cut down to an integer.
pub fn truncate(a: Reals) -> (n: Integers)
    ensures
        forall|i: int| 0 <= i < LANES ==> #[trigger] n[i] == a[i].cut(),
{
    let mut n: Integers = [0i32; LANES];
    let mut i: usize = 0;
    while i < LANES
        invariant
            i <= LANES,
            forall|j: int| 0 <= j < i ==> #[trigger] n[j] == a[j].cut(),
        decreases LANES - i,
    {
        n[i] = a[i].truncate();
        i += 1;
    }
    n
}

/// Lane by lane, the larger of the two.
pub fn max(a: Reals, b: Reals) -> (r: Reals)
    ensures
        forall|i: int| 0 <= i < LANES ==> #[trigger] r[i] == a[i].larger(b[i]),
{
    let mut r: Reals = a;
    let mut i: usize = 0;
    while i < LANES
        invariant
            i <= LANES,
            forall|j: int| 0 <= j < i ==> #[trigger] r[j] == a[j].larger(b[j]),
        decreases LANES - i,
    {
        r[i] = a[i].max(b[i]);
        i += 1;
    }
    r
}

/// Lane by lane, the smaller of the two.
pub fn min(a: Reals, b: Reals) -> (r: Reals)
    ensures
        forall|i: int| 0 <= i < LANES ==> #[trigger] r[i] == a[i].smaller(b[i]),
{
    let mut r: Reals = a;
    let mut i: usize = 0;
    while i < LANES
        invariant
            i <= LANES,
            forall|j: int| 0 <= j < i ==> #[trigger] r[j] == a[j].smaller(b[j]),
        decreases LANES - i,
    {
        r[i] = a[i].min(b[i]);
        i += 1;
    }
    r
}

/// Each lane brought into `[low, high]`.
pub fn clamp(a: Reals, low: Real, high: Real) -> (r: Reals)
    ensures
        forall|i: int| 0 <= i < LANES ==> #[trigger] r[i] == a[i].clamped(low, high),
{
    let mut r: Reals = a;
    let mut i: usize = 0;
    while i < LANES
        invariant
            i <= LANES,
            forall|j: int| 0 <= j < i ==> #[trigger] r[j] == a[j].clamped(low, high),
        decreases LANES - i,
    {
        r[i] = a[i].clamp(low, high);
        i += 1;
    }
    r
}

/// The lanes in which `a < b`.
pub fn lt(a: Reals, b: Reals) -> (m: Mask)
    ensures
        forall|i: int| 0 <= i < LANES ==> #[trigger] m[i] == a[i].less(b[i]),
{
    let mut m: Mask = [false; LANES];
    let mut i: usize = 0;
    while i < LANES
        invariant
            i <= LANES,
            forall|j: int| 0 <= j < i ==> #[trigger] m[j] == a[j].less(b[j]),
        decreases LANES - i,
    {
        m[i] = a[i].lt(b[i]);
        i += 1;
    }
    m
}

/// The lanes in which `a > b`.
pub fn gt(a: Reals, b: Reals) -> (m: Mask)
    ensures
        forall|i: int| 0 <= i < LANES ==> #[trigger] m[i] == b[i].less(a[i]),
{
    lt(b, a)
}

/// The lanes in which `a >= b`.
pub fn ge(a: Reals, b: Reals) -> (m: Mask)
    ensures
        forall|i: int| 0 <= i < LANES ==> #[trigger] m[i] == b[i].at_most(a[i]),
{
    let mut m: Mask = [false; LANES];
    let mut i: usize = 0;
    while i < LANES
        invariant
            i <= LANES,
            forall|j: int| 0 <= j < i ==> #[trigger] m[j] == b[j].at_most(a[j]),
        decreases LANES - i,
    {
        m[i] = a[i].ge(b[i]);
        i += 1;
    }
    m
}

/// The lanes in which `a == b` as numbers.
pub fn eq(a: Reals, b: Reals) -> (m: Mask)
    ensures
        forall|i: int| 0 <= i < LANES ==> #[trigger] m[i] == a[i].same(b[i]),
{
    let mut m: Mask = [false; LANES];
    let mut i: usize = 0;
    while i < LANES
        invariant
            i <= LANES,
            forall|j: int| 0 <= j < i ==> #[trigger] m[j] == a[j].same(b[j]),
        decreases LANES - i,
    {
        m[i] = a[i].eq(b[i]);
        i += 1;
    }
    m
}

/// The lanes that are set in both masks.
pub fn both(a: Mask, b: Mask) -> (m: Mask)
    ensures
        forall|i: int| 0 <= i < LANES ==> #[trigger] m[i] == (a[i] && b[i]),
{
    let mut m: Mask = [false; LANES];
    let mut i: usize = 0;
    while i < LANES
        invariant
            i <= LANES,
            forall|j: int| 0 <= j < i ==> #[trigger] m[j] == (a[j] && b[j]),
        decreases LANES - i,
    {
        m[i] = a[i] && b[i];
        i += 1;
    }
    m
}

/// Whether some lane is set.
pub fn any(mask: Mask) -> (r: bool)
    ensures
        r == some_lane(mask),
{
    let mut i: usize = 0;
    while i < LANES
        invariant
            i <= LANES,
            forall|j: int| 0 <= j < i ==> !mask[j],
        decreases LANES - i,
    {
        if mask[i] {
            return true;
        }
        i += 1;
    }
    false
}

/// Whether every lane is set.
pub fn all(mask: Mask) -> (r: bool)
    ensures
        r == every_lane(mask),
{
    let mut i: usize = 0;
    while i < LANES
        invariant
            i <= LANES,
            forall|j: int| 0 <= j < i ==> mask[j],
        decreases LANES - i,
    {
        if !mask[i] {
            return false;
        }
        i += 1;
    }
    true
}

} // verus!
