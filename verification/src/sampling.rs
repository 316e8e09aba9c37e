//! Where within a pixel its samples are taken.
//!
//! The pixel is a square.  It is halved along its longer side (along its
//! height where the sides are equal), and the samples are dealt to the two
//! halves as evenly as their number allows; each half is halved again in
//! the same way, until every sample has a cell of its own.  A sample lies
//! in the centre of its cell.
//!
//! Places are counted on a grid of `GRID` steps to the side, which is fine
//! enough for every centre to fall on a grid point however many samples
//! there are.  The origin is the bottom left corner; y grows upwards.

use vstd::arithmetic::power2::{lemma2_to64, lemma2_to64_rest, lemma_pow2_pos, lemma_pow2_unfold, pow2};
use vstd::prelude::*;

verus! {

/// The number of grid steps along a side of the pixel: two to the 33rd.
pub const GRID: u64 = 0x2_0000_0000;

/// A place on the grid.
#[derive(Clone, Copy, Debug, PartialEq, Eq, Structural)]
pub struct Sample {
    pub x: u64,
    pub y: u64,
}

/// A rectangle on the grid.
pub struct Cell {
    pub left: int,
    pub top: int,
    pub right: int,
    pub bottom: int,
}

impl Cell {
    /// How wide the cell is.
    pub open spec fn width(self) -> int {
        self.right - self.left
    }

    /// How high the cell is.
    pub open spec fn height(self) -> int {
        self.top - self.bottom
    }

    /// The half that the first samples go to: the left one of a cell that
    /// is wider than high, else the upper one.
    pub open spec fn first_half(self) -> Cell {
        if self.width() > self.height() {
            Cell { right: self.left + self.width() / 2, ..self }
        } else {
            Cell { bottom: self.top - self.height() / 2, ..self }
        }
    }

    /// The half that the other samples go to.
    pub open spec fn second_half(self) -> Cell {
        if self.width() > self.height() {
            Cell { left: self.left + self.width() / 2, ..self }
        } else {
            Cell { top: self.top - self.height() / 2, ..self }
        }
    }

    /// The grid point at `((left + right) / 2, (top + bottom) / 2)`.
    pub open spec fn middle(self) -> (int, int) {
        ((self.left + self.right) / 2, (self.top + self.bottom) / 2)
    }

    /// `self` lies within `other`.
    pub open spec fn within(self, other: Cell) -> bool {
        &&& other.left <= self.left
        &&& self.right <= other.right
        &&& other.bottom <= self.bottom
        &&& self.top <= other.top
    }

    /// The two cells share at most a stretch of their borders.
    pub open spec fn apart_from(self, other: Cell) -> bool {
        ||| self.right <= other.left
        ||| other.right <= self.left
        ||| self.top <= other.bottom
        ||| other.top <= self.bottom
    }

    /// `(x, y)` is the centre of the cell, and not on its border.
    pub open spec fn centred_at(self, x: int, y: int) -> bool {
        &&& self.left < x < self.right
        &&& self.bottom < y < self.top
        &&& x - self.left == self.right - x
        &&& y - self.bottom == self.top - y
    }

    /// The sides are two to the `a` and two to the `b` long, which leaves
    /// room for `n` samples.
    pub open spec fn has_room(self, n: nat, a: nat, b: nat) -> bool {
        &&& a >= 1
        &&& b >= 1
        &&& self.width() == pow2(a)
        &&& self.height() == pow2(b)
        &&& n <= pow2((a + b - 2) as nat)
    }
}

/// The whole pixel.
pub open spec fn pixel() -> Cell {
    Cell { left: 0, top: GRID as int, right: GRID as int, bottom: 0 }
}

/// The cells that `n` samples get in `cell`, in the order of the samples.
pub open spec fn cells(n: nat, cell: Cell) -> Seq<Cell>
    decreases n,
{
    if n <= 1 {
        seq![cell]
    } else {
        cells(n / 2, cell.first_half()) + cells((n - n / 2) as nat, cell.second_half())
    }
}

/// Where `n` samples are taken in `cell`.
pub open spec fn strata(n: nat, cell: Cell) -> Seq<(int, int)>
    decreases n,
{
    if n <= 1 {
        seq![cell.middle()]
    } else {
        strata(n / 2, cell.first_half()) + strata((n - n / 2) as nat, cell.second_half())
    }
}

/// Where `n` samples are taken in the pixel.
pub open spec fn stratified(n: nat) -> Seq<(int, int)> {
    strata(n, pixel())
}

/// The place of a sample as a pair of integers.
pub open spec fn place(sample: Sample) -> (int, int) {
    (sample.x as int, sample.y as int)
}

/// The places of the samples, in their order.
pub open spec fn places(samples: Seq<Sample>) -> Seq<(int, int)> {
    Seq::new(samples.len(), |j: int| place(samples[j]))
}

/// Deals `count` samples to the rectangle between `top_left` and
/// `bottom_right`, each given as `(x, y)`, and appends them to `samples`.
pub fn spread_samples(
    top_left: (u64, u64),
    bottom_right: (u64, u64),
    count: usize,
    samples: &mut Vec<Sample>,
)
    requires
        count >= 1,
        top_left.0 <= bottom_right.0 <= GRID,
        bottom_right.1 <= top_left.1 <= GRID,
    ensures
        places(final(samples)@) == places(old(samples)@) + strata(
            count as nat,
            Cell {
                left: top_left.0 as int,
                top: top_left.1 as int,
                right: bottom_right.0 as int,
                bottom: bottom_right.1 as int,
            },
        ),
    decreases count,
{
    let ghost cell = Cell {
        left: top_left.0 as int,
        top: top_left.1 as int,
        right: bottom_right.0 as int,
        bottom: bottom_right.1 as int,
    };
    if count == 1 {
        let sample = Sample {
            x: (top_left.0 + bottom_right.0) / 2,
            y: (top_left.1 + bottom_right.1) / 2,
        };
        samples.push(sample);
        assert(places(samples@) =~= places(old(samples)@) + strata(1, cell));
    } else {
        let first = count / 2;
        let width = bottom_right.0 - top_left.0;
        let height = top_left.1 - bottom_right.1;
        let ghost before = samples@;
        if width > height {
            let middle = top_left.0 + width / 2;
            spread_samples(top_left, (middle, bottom_right.1), first, samples);
            let ghost between = samples@;
            spread_samples((middle, top_left.1), bottom_right, count - first, samples);
            assert(places(samples@) =~= places(before) + strata(count as nat, cell));
        } else {
            let middle = top_left.1 - height / 2;
            spread_samples(top_left, (bottom_right.0, middle), first, samples);
            spread_samples((top_left.0, middle), bottom_right, count - first, samples);
            assert(places(samples@) =~= places(before) + strata(count as nat, cell));
        }
    }
}

/// The places of `count` samples in the pixel, as [`stratified`] gives
/// them.
pub fn stratified_samples(count: usize) -> (samples: Vec<Sample>)
    requires
        count >= 1,
    ensures
        places(samples@) == stratified(count as nat),
{
    let mut samples: Vec<Sample> = Vec::new();
    spread_samples((0, GRID), (GRID, 0), count, &mut samples);
    assert(places(samples@) =~= stratified(count as nat));
    samples
}

/// A cell with room for two samples or more can be halved, and each half
/// has room for its share.
proof fn lemma_halves_have_room(n: nat, cell: Cell, a: nat, b: nat)
    requires
        n >= 2,
        cell.has_room(n, a, b),
    ensures
        a > b ==> cell.first_half().has_room(n / 2, (a - 1) as nat, b)
            && cell.second_half().has_room((n - n / 2) as nat, (a - 1) as nat, b),
        a <= b ==> cell.first_half().has_room(n / 2, a, (b - 1) as nat)
            && cell.second_half().has_room((n - n / 2) as nat, a, (b - 1) as nat),
        a > b <==> cell.width() > cell.height(),
        a > b ==> a >= 2,
        a <= b ==> b >= 2,
        cell.first_half().within(cell),
        cell.second_half().within(cell),
        cell.first_half().apart_from(cell.second_half()),
{
    lemma_pow2_pos(a);
    lemma_pow2_pos(b);
    lemma_pow2_monotone(a, b);
    lemma_pow2_monotone(b, a);
    let room = (a + b - 2) as nat;
    if room == 0 {
        lemma2_to64();
        assert(pow2(0) == 1);
        assert(false);
    }
    lemma_pow2_unfold(room);
    if a > b {
        lemma_pow2_unfold(a);
        lemma_pow2_pos((a - 1) as nat);
    } else {
        lemma_pow2_unfold(b);
        lemma_pow2_pos((b - 1) as nat);
    }
}

/// A larger exponent gives a larger power of two, and an equal one an
/// equal power.
proof fn lemma_pow2_monotone(a: nat, b: nat)
    ensures
        a < b ==> pow2(a) < pow2(b),
        a == b ==> pow2(a) == pow2(b),
{
    if a < b {
        vstd::arithmetic::power2::lemma_pow2_strictly_increases(a, b);
    }
}

/// Every sample has a cell of its own, and lies in its centre.
///
/// Given that `cell` has room for `n` samples: there are `n` samples and
/// `n` cells; each cell lies within `cell`; sample `j` is the centre of
/// cell `j`, on a grid point and off the border; and no two cells overlap.
pub proof fn lemma_cells_of_samples(n: nat, cell: Cell, a: nat, b: nat)
    requires
        n >= 1,
        cell.has_room(n, a, b),
    ensures
        cells(n, cell).len() == n,
        strata(n, cell).len() == n,
        forall|j: int| 0 <= j < n ==> (#[trigger] cells(n, cell)[j]).within(cell),
        forall|j: int|
            0 <= j < n ==> (#[trigger] cells(n, cell)[j]).centred_at(
                strata(n, cell)[j].0,
                strata(n, cell)[j].1,
            ),
        forall|j: int, k: int|
            0 <= j < k < n ==> (#[trigger] cells(n, cell)[j]).apart_from(
                #[trigger] cells(n, cell)[k],
            ),
    decreases n,
{
    if n <= 1 {
        lemma_pow2_unfold(a);
        lemma_pow2_unfold(b);
        lemma_pow2_pos((a - 1) as nat);
        lemma_pow2_pos((b - 1) as nat);
    } else {
        let first = n / 2;
        let rest = (n - n / 2) as nat;
        let one = cell.first_half();
        let two = cell.second_half();
        lemma_halves_have_room(n, cell, a, b);
        if a > b {
            lemma_cells_of_samples(first, one, (a - 1) as nat, b);
            lemma_cells_of_samples(rest, two, (a - 1) as nat, b);
        } else {
            lemma_cells_of_samples(first, one, a, (b - 1) as nat);
            lemma_cells_of_samples(rest, two, a, (b - 1) as nat);
        }
        let all = cells(n, cell);
        let at = strata(n, cell);
        assert(all == cells(first, one) + cells(rest, two));
        assert(at == strata(first, one) + strata(rest, two));
        assert forall|j: int| 0 <= j < n implies (#[trigger] all[j]).within(cell) && all[j].centred_at(
            at[j].0,
            at[j].1,
        ) by {
            if j < first {
                assert(all[j] == cells(first, one)[j]);
                assert(at[j] == strata(first, one)[j]);
            } else {
                assert(all[j] == cells(rest, two)[j - first]);
                assert(at[j] == strata(rest, two)[j - first]);
            }
        }
        assert forall|j: int, k: int| 0 <= j < k < n implies (#[trigger] all[j]).apart_from(
            #[trigger] all[k],
        ) by {
            if k < first {
                assert(all[j] == cells(first, one)[j]);
                assert(all[k] == cells(first, one)[k]);
            } else if j >= first {
                assert(all[j] == cells(rest, two)[j - first]);
                assert(all[k] == cells(rest, two)[k - first]);
            } else {
                assert(all[j] == cells(first, one)[j]);
                assert(all[k] == cells(rest, two)[k - first]);
                assert(all[j].within(one));
                assert(all[k].within(two));
            }
        }
    }
}

/// The pixel has room for as many samples as a `usize` can count.
pub proof fn lemma_pixel_has_room(n: nat)
    requires
        n <= usize::MAX,
    ensures
        pixel().has_room(n, 33, 33),
{
    lemma2_to64();
    lemma2_to64_rest();
}

/// Stratified samples never gather in one place: there are as many as were
/// asked for, each lies inside the pixel and off its border, and no two
/// share a place.
pub proof fn lemma_samples_are_spread(n: nat)
    requires
        1 <= n <= usize::MAX,
    ensures
        stratified(n).len() == n,
        forall|j: int|
            0 <= j < n ==> 0 < (#[trigger] stratified(n)[j]).0 < GRID && 0 < stratified(n)[j].1
                < GRID,
        forall|j: int, k: int|
            0 <= j < k < n ==> #[trigger] stratified(n)[j] != #[trigger] stratified(n)[k],
{
    lemma_pixel_has_room(n);
    lemma_cells_of_samples(n, pixel(), 33, 33);
    let all = cells(n, pixel());
    let at = stratified(n);
    assert forall|j: int| 0 <= j < n implies 0 < (#[trigger] at[j]).0 < GRID && 0 < at[j].1
        < GRID by {
        assert(all[j].within(pixel()));
        assert(all[j].centred_at(at[j].0, at[j].1));
    }
    assert forall|j: int, k: int| 0 <= j < k < n implies #[trigger] at[j] != #[trigger] at[k] by {
        assert(all[j].apart_from(all[k]));
        assert(all[j].centred_at(at[j].0, at[j].1));
        assert(all[k].centred_at(at[k].0, at[k].1));
    }
}

} // verus!
