//! Grids: a field sampled on a lattice of pixels, and the samples brought
//! into the range from 0 to 1.

use vstd::prelude::*;
use crate::field::{fractal_model, Field, FieldModel};
use crate::fixed::{div_spec, sub_spec, Fixed, HALF, ONE};

verus! {

/// `v` is the value of one of the cells.
pub open spec fn holds(cells: Seq<Seq<int>>, v: int) -> bool {
    exists|y: int, x: int| 0 <= y < cells.len() && 0 <= x < cells[y].len() && cells[y][x] == v
}

/// There is a cell.
pub open spec fn populated(cells: Seq<Seq<int>>) -> bool {
    exists|y: int| 0 <= y < cells.len() && (#[trigger] cells[y]).len() > 0
}

/// Every cell lies between `lo` and `hi`.
pub open spec fn all_between(cells: Seq<Seq<int>>, lo: int, hi: int) -> bool {
    forall|y: int, x: int|
        0 <= y < cells.len() && 0 <= x < cells[y].len() ==> lo <= #[trigger] cells[y][x] <= hi
}

/// `v` is the value of a cell, and no cell has a smaller one.
pub open spec fn is_least(cells: Seq<Seq<int>>, v: int) -> bool {
    &&& holds(cells, v)
    &&& forall|y: int, x: int|
        0 <= y < cells.len() && 0 <= x < cells[y].len() ==> v <= #[trigger] cells[y][x]
}

/// `v` is the value of a cell, and no cell has a greater one.
pub open spec fn is_greatest(cells: Seq<Seq<int>>, v: int) -> bool {
    &&& holds(cells, v)
    &&& forall|y: int, x: int|
        0 <= y < cells.len() && 0 <= x < cells[y].len() ==> #[trigger] cells[y][x] <= v
}

/// The cells of the first `rows` rows, and the first `more` cells of the
/// row after them, all lie between `lo` and `hi`.
spec fn within(cells: Seq<Seq<int>>, rows: int, more: int, lo: int, hi: int) -> bool {
    forall|y: int, x: int|
        0 <= y <= rows && y < cells.len() && 0 <= x < cells[y].len() && (y < rows || x < more)
            ==> lo <= #[trigger] cells[y][x] <= hi
}

/// The cell at row `at.0` and column `at.1` holds `v` and is one of the cells
/// that `within` speaks of.
spec fn seen(cells: Seq<Seq<int>>, rows: int, more: int, at: (int, int), v: int) -> bool {
    &&& 0 <= at.0 <= rows && at.0 < cells.len()
    &&& 0 <= at.1 < cells[at.0].len()
    &&& at.0 < rows || at.1 < more
    &&& cells[at.0][at.1] == v
}

/// The smallest value among the cells, where there is a cell.
pub open spec fn least(cells: Seq<Seq<int>>) -> int {
    choose|v: int| is_least(cells, v)
}

/// The greatest value among the cells, where there is a cell.
pub open spec fn greatest(cells: Seq<Seq<int>>) -> int {
    choose|v: int| is_greatest(cells, v)
}

/// Where `v` lies on the way from `lo` to `hi`: 0 at `lo` and below, 1 at
/// `hi` and above, rounded down in between. Where `lo` is not below `hi`
/// there is no way to lie on, and the result is 0.
pub open spec fn rescale_spec(v: int, lo: int, hi: int) -> int {
    if lo < hi {
        let share = (v - lo) * ONE / (hi - lo);
        if share < 0 {
            0
        } else if share > ONE {
            ONE as int
        } else {
            share
        }
    } else {
        0
    }
}

/// The cells, each rescaled from the range that the cells span to the range
/// from 0 to 1. Cells that all hold one value become 0.
pub open spec fn normalized(cells: Seq<Seq<int>>) -> Seq<Seq<int>> {
    Seq::new(
        cells.len(),
        |y: int|
            Seq::new(
                cells[y].len(),
                |x: int| rescale_spec(cells[y][x], least(cells), greatest(cells)),
            ),
    )
}

/// The place of pixel `i` of `n` on an axis that runs from -1/2 to 1/2.
pub open spec fn coordinate(i: int, n: int) -> int {
    sub_spec(div_spec(i, n), HALF as int)
}

/// The values of `field` on a lattice of `width` by `height` pixels laid
/// over the square that is centered on the origin and has sides of length 1.
pub open spec fn sampled(field: FieldModel, width: nat, height: nat) -> Seq<Seq<int>> {
    Seq::new(
        height,
        |y: int|
            Seq::new(
                width,
                |x: int| field.eval(coordinate(x, width as int), coordinate(y, height as int)),
            ),
    )
}

/// A grid of numbers: `rows.len()` rows of `width` cells each.
#[derive(Debug)]
pub struct Grid {
    pub width: usize,
    pub rows: Vec<Vec<Fixed>>,
}

impl View for Grid {
    type V = Seq<Seq<int>>;

    /// The cells, row by row. `width` is not part of the view: it says how
    /// long the rows are meant to be, which `wf` holds them to.
    open spec fn view(&self) -> Seq<Seq<int>> {
        Seq::new(
            self.rows.len() as nat,
            |y: int| Seq::new(self.rows[y].len() as nat, |x: int| self.rows[y][x]@),
        )
    }
}

/// There is at most one least value and at most one greatest.
pub proof fn lemma_extremes_unique(cells: Seq<Seq<int>>, a: int, b: int)
    ensures
        is_least(cells, a) && is_least(cells, b) ==> a == b,
        is_greatest(cells, a) && is_greatest(cells, b) ==> a == b,
{
}

/// Where `lo` is a least value and `hi` a greatest, they are the least and
/// the greatest, and `lo` is not above `hi`.
pub proof fn lemma_extremes_found(cells: Seq<Seq<int>>, lo: int, hi: int)
    requires
        is_least(cells, lo),
        is_greatest(cells, hi),
    ensures
        least(cells) == lo,
        greatest(cells) == hi,
        lo <= hi,
{
    lemma_extremes_unique(cells, lo, least(cells));
    lemma_extremes_unique(cells, hi, greatest(cells));
}

/// Among the cells that `within` speaks of for `rows` and `more` there is one
/// that holds their least value and one that holds their greatest, at the
/// places returned, unless there is no such cell.
proof fn lemma_scan(cells: Seq<Seq<int>>, rows: int, more: int) -> (r: Option<
    ((int, int), (int, int)),
>)
    requires
        0 <= rows <= cells.len(),
        rows < cells.len() ==> 0 <= more <= cells[rows].len(),
        rows == cells.len() ==> more == 0,
    ensures
        match r {
            Some((lo_at, hi_at)) => {
                let lo = cells[lo_at.0][lo_at.1];
                let hi = cells[hi_at.0][hi_at.1];
                &&& seen(cells, rows, more, lo_at, lo)
                &&& seen(cells, rows, more, hi_at, hi)
                &&& within(cells, rows, more, lo, hi)
            },
            None => more == 0 && forall|y: int|
                0 <= y < rows ==> (#[trigger] cells[y]).len() == 0,
        },
    decreases rows, more,
{
    if more > 0 {
        let at = (rows, more - 1);
        let v = cells[rows][more - 1];
        match lemma_scan(cells, rows, more - 1) {
            None => Some((at, at)),
            Some((lo_at, hi_at)) => {
                let lo = cells[lo_at.0][lo_at.1];
                let hi = cells[hi_at.0][hi_at.1];
                if v < lo {
                    Some((at, hi_at))
                } else if v > hi {
                    Some((lo_at, at))
                } else {
                    Some((lo_at, hi_at))
                }
            },
        }
    } else if rows > 0 {
        lemma_scan(cells, rows - 1, cells[rows - 1].len() as int)
    } else {
        None
    }
}

/// Where there is a cell, the cells have a least and a greatest value.
pub proof fn lemma_extremes_exist(cells: Seq<Seq<int>>)
    requires
        populated(cells),
    ensures
        is_least(cells, least(cells)),
        is_greatest(cells, greatest(cells)),
        least(cells) <= greatest(cells),
{
    match lemma_scan(cells, cells.len() as int, 0) {
        None => {},
        Some((lo_at, hi_at)) => {
            let lo = cells[lo_at.0][lo_at.1];
            let hi = cells[hi_at.0][hi_at.1];
            assert(is_least(cells, lo));
            assert(is_greatest(cells, hi));
            lemma_extremes_found(cells, lo, hi);
        },
    }
}

/// Every cell of a normalized grid lies between 0 and 1.
pub proof fn lemma_normalized_in_unit_range(cells: Seq<Seq<int>>)
    ensures
        normalized(cells).len() == cells.len(),
        forall|y: int|
            0 <= y < cells.len() ==> (#[trigger] normalized(cells)[y]).len() == cells[y].len(),
        all_between(normalized(cells), 0, ONE as int),
{
}

/// Where the cells do not all hold one value, normalizing them takes some
/// cell to exactly 0 and some cell to exactly 1.
pub proof fn lemma_normalized_reaches_both_ends(cells: Seq<Seq<int>>)
    requires
        populated(cells),
        least(cells) != greatest(cells),
    ensures
        holds(normalized(cells), 0),
        holds(normalized(cells), ONE as int),
{
    lemma_extremes_exist(cells);
    let lo = least(cells);
    let hi = greatest(cells);
    let (ly, lx) = choose|y: int, x: int|
        0 <= y < cells.len() && 0 <= x < cells[y].len() && cells[y][x] == lo;
    let (hy, hx) = choose|y: int, x: int|
        0 <= y < cells.len() && 0 <= x < cells[y].len() && cells[y][x] == hi;
    assert((lo - lo) * ONE / (hi - lo) == 0) by (nonlinear_arith)
        requires
            lo < hi,
    ;
    assert((hi - lo) * ONE / (hi - lo) == ONE) by (nonlinear_arith)
        requires
            lo < hi,
    ;
    assert(normalized(cells)[ly][lx] == 0);
    assert(normalized(cells)[hy][hx] == ONE);
}

/// Cells that all hold one value become 0 when they are normalized.
pub proof fn lemma_flat_normalizes_to_zero(cells: Seq<Seq<int>>, v: int)
    requires
        all_between(cells, v, v),
    ensures
        all_between(normalized(cells), 0, 0),
{
    assert forall|y: int, x: int|
        0 <= y < cells.len() && 0 <= x < cells[y].len() implies #[trigger] normalized(
        cells,
    )[y][x] == 0 by {
        assert(cells[y][x] == v);
        assert(is_least(cells, v));
        assert(is_greatest(cells, v));
        lemma_extremes_found(cells, v, v);
    }
}

/// Where `v` lies on the way from `lo` to `hi`.
pub fn rescale(v: Fixed, lo: Fixed, hi: Fixed) -> (r: Fixed)
    ensures
        r@ == rescale_spec(v@, lo@, hi@),
        0 <= r@ <= ONE,
{
    if lo.bits >= hi.bits {
        return Fixed { bits: 0 };
    }
    let span: i128 = hi.bits as i128 - lo.bits as i128;
    let above: i128 = v.bits as i128 - lo.bits as i128;
    if above <= 0 {
        assert(above * ONE / (span as int) <= 0) by (nonlinear_arith)
            requires
                above <= 0,
                span > 0,
                ONE == 4294967296,
        ;
        Fixed { bits: 0 }
    } else if above >= span {
        assert(above * ONE / (span as int) >= ONE) by (nonlinear_arith)
            requires
                above >= span,
                span > 0,
                ONE == 4294967296,
        ;
        Fixed { bits: ONE }
    } else {
        assert(0 <= above * ONE / (span as int) < ONE && above * ONE < 0x1_0000_0000_0000_0000
            * ONE) by (nonlinear_arith)
            requires
                0 < above < span,
                span < 0x1_0000_0000_0000_0000,
                ONE == 4294967296,
        ;
        let top: u128 = above as u128 * ONE as u128;
        let share: u128 = top / span as u128;
        Fixed { bits: share as i64 }
    }
}

impl Grid {
    /// Every row has `width` cells.
    pub open spec fn wf(&self) -> bool {
        forall|y: int| 0 <= y < self.rows.len() ==> (#[trigger] self.rows[y]).len() == self.width
    }

    /// The number of rows.
    pub fn height(&self) -> (h: usize)
        ensures
            h == self.rows.len(),
    {
        self.rows.len()
    }

    /// The least and the greatest value among the cells, or `None` where
    /// the grid has no cell.
    pub fn extent(&self) -> (r: Option<(Fixed, Fixed)>)
        ensures
            match r {
                Some((lo, hi)) => is_least(self@, lo@) && is_greatest(self@, hi@),
                None => !populated(self@),
            },
    {
        let mut found: Option<(Fixed, Fixed)> = None;
        let ghost mut lo_at: (int, int) = (0, 0);
        let ghost mut hi_at: (int, int) = (0, 0);
        let mut y: usize = 0;
        while y < self.rows.len()
            invariant
                y <= self.rows.len(),
                match found {
                    Some((lo, hi)) => {
                        &&& seen(self@, y as int, 0, lo_at, lo@)
                        &&& seen(self@, y as int, 0, hi_at, hi@)
                        &&& within(self@, y as int, 0, lo@, hi@)
                    },
                    None => forall|j: int| 0 <= j < y ==> (#[trigger] self@[j]).len() == 0,
                },
            decreases self.rows.len() - y,
        {
            let row: &Vec<Fixed> = &self.rows[y];
            let mut x: usize = 0;
            while x < row.len()
                invariant
                    y < self.rows.len(),
                    x <= row.len(),
                    row == &self.rows[y as int],
                    match found {
                        Some((lo, hi)) => {
                            &&& seen(self@, y as int, x as int, lo_at, lo@)
                            &&& seen(self@, y as int, x as int, hi_at, hi@)
                            &&& within(self@, y as int, x as int, lo@, hi@)
                        },
                        None => {
                            &&& x == 0
                            &&& forall|j: int| 0 <= j < y ==> (#[trigger] self@[j]).len() == 0
                        },
                    },
                decreases row.len() - x,
            {
                let v: Fixed = row[x];
                assert(self@[y as int][x as int] == v@);
                match found {
                    None => {
                        found = Some((v, v));
                        proof {
                            lo_at = (y as int, x as int);
                            hi_at = (y as int, x as int);
                        }
                    },
                    Some((lo, hi)) => {
                        if v.bits < lo.bits {
                            found = Some((v, hi));
                            proof {
                                lo_at = (y as int, x as int);
                            }
                        } else if v.bits > hi.bits {
                            found = Some((lo, v));
                            proof {
                                hi_at = (y as int, x as int);
                            }
                        }
                    },
                }
                x = x + 1;
            }
            y = y + 1;
        }
        found
    }

    /// Rescales every cell from the range that the cells span to the range
    /// from 0 to 1. Cells that all hold one value become 0.
    pub fn normalize(&mut self)
        ensures
            final(self).width == old(self).width,
            final(self).rows.len() == old(self).rows.len(),
            final(self)@ == normalized(old(self)@),
            old(self).wf() ==> final(self).wf(),
    {
        match self.extent() {
            None => {
                assert(self@ =~~= normalized(self@));
            },
            Some((lo, hi)) => {
                proof {
                    lemma_extremes_found(self@, lo@, hi@);
                }
                let mut rows: Vec<Vec<Fixed>> = Vec::new();
                let mut y: usize = 0;
                while y < self.rows.len()
                    invariant
                        y <= self.rows.len(),
                        rows.len() == y,
                        forall|j: int|
                            0 <= j < y ==> (#[trigger] rows[j]).len() == self.rows[j].len(),
                        forall|j: int, i: int|
                            0 <= j < y && 0 <= i < rows[j].len() ==> (#[trigger] rows[j][i])@
                                == rescale_spec(self.rows[j][i]@, lo@, hi@),
                    decreases self.rows.len() - y,
                {
                    let old_row: &Vec<Fixed> = &self.rows[y];
                    let mut row: Vec<Fixed> = Vec::new();
                    let mut x: usize = 0;
                    while x < old_row.len()
                        invariant
                            x <= old_row.len(),
                            row.len() == x,
                            forall|i: int|
                                0 <= i < x ==> (#[trigger] row[i])@ == rescale_spec(
                                    old_row[i]@,
                                    lo@,
                                    hi@,
                                ),
                        decreases old_row.len() - x,
                    {
                        row.push(rescale(old_row[x], lo, hi));
                        x = x + 1;
                    }
                    rows.push(row);
                    y = y + 1;
                }
                let ghost before: Seq<Seq<int>> = self@;
                self.rows = rows;
                assert(self@ =~~= normalized(before));
            },
        }
    }
}

/// The values of `field` on a lattice of `width` by `height` pixels laid
/// over the square that is centered on the origin and has sides of length 1.
pub fn sample(field: &Field, width: u32, height: u32) -> (g: Grid)
    requires
        field@.wf(),
    ensures
        g.wf(),
        g.width == width,
        g.rows.len() == height,
        g@ == sampled(field@, width as nat, height as nat),
{
    let mut rows: Vec<Vec<Fixed>> = Vec::new();
    let mut y: u32 = 0;
    while y < height
        invariant
            y <= height,
            field@.wf(),
            rows.len() == y,
            forall|j: int| 0 <= j < y ==> (#[trigger] rows[j]).len() == width,
            forall|j: int, i: int|
                0 <= j < y && 0 <= i < width ==> (#[trigger] rows[j][i])@ == field@.eval(
                    coordinate(i, width as int),
                    coordinate(j, height as int),
                ),
        decreases height - y,
    {
        let fy: Fixed = Fixed::from_ratio(y as i64, height as i64).sub(Fixed { bits: HALF });
        let mut row: Vec<Fixed> = Vec::new();
        let mut x: u32 = 0;
        while x < width
            invariant
                x <= width,
                field@.wf(),
                row.len() == x,
                fy@ == coordinate(y as int, height as int),
                forall|i: int|
                    0 <= i < x ==> (#[trigger] row[i])@ == field@.eval(
                        coordinate(i, width as int),
                        fy@,
                    ),
            decreases width - x,
        {
            let fx: Fixed = Fixed::from_ratio(x as i64, width as i64).sub(Fixed { bits: HALF });
            row.push(field.eval(fx, fy));
            x = x + 1;
        }
        rows.push(row);
        y = y + 1;
    }
    let g: Grid = Grid { width: width as usize, rows };
    assert(g@ =~~= sampled(field@, width as nat, height as nat));
    g
}

/// The values of `field` on a lattice of `width` by `height` pixels,
/// rescaled to the range from 0 to 1.
pub fn sample_and_normalize(field: &Field, width: u32, height: u32) -> (g: Grid)
    requires
        field@.wf(),
    ensures
        g.wf(),
        g.width == width,
        g.rows.len() == height,
        g@ == normalized(sampled(field@, width as nat, height as nat)),
        all_between(g@, 0, ONE as int),
        ({
            let raw = sampled(field@, width as nat, height as nat);
            &&& least(raw) == greatest(raw) ==> all_between(g@, 0, 0)
            &&& width >= 1 && height >= 1 && least(raw) != greatest(raw) ==> holds(g@, 0) && holds(
                g@,
                ONE as int,
            )
        }),
{
    let mut g: Grid = sample(field, width, height);
    g.normalize();
    proof {
        let raw = sampled(field@, width as nat, height as nat);
        lemma_normalized_in_unit_range(raw);
        if least(raw) != greatest(raw) && width >= 1 && height >= 1 {
            assert(raw[0].len() > 0);
            lemma_normalized_reaches_both_ends(raw);
        }
    }
    g
}

/// Sampling the field that is zero everywhere, and normalizing, gives 0 in
/// every cell.
pub proof fn lemma_zero_field_grid(width: nat, height: nat)
    ensures
        all_between(normalized(sampled(FieldModel::Sum { terms: Seq::empty() }, width, height)), 0, 0),
{
    let zero = FieldModel::Sum { terms: Seq::empty() };
    let raw = sampled(zero, width, height);
    assert forall|y: int, x: int|
        0 <= y < raw.len() && 0 <= x < raw[y].len() implies #[trigger] raw[y][x] == 0 by {
        let at_x = coordinate(x, width as int);
        let at_y = coordinate(y, height as int);
        assert(FieldModel::partial_sum(Seq::empty(), 0, at_x, at_y) == 0);
    }
    lemma_flat_normalizes_to_zero(raw, 0);
}

/// Fractal fields built from the same draws with the same fall-off have one
/// octave for each pair of draws, and their normalized grids agree cell for
/// cell.
pub proof fn lemma_same_draws_same_grid(
    draws: Seq<(u64, u64)>,
    fall_off: int,
    a: Field,
    b: Field,
    width: nat,
    height: nat,
    grid_a: Grid,
    grid_b: Grid,
)
    requires
        a@ == fractal_model(draws, fall_off),
        b@ == fractal_model(draws, fall_off),
        grid_a@ == normalized(sampled(a@, width, height)),
        grid_b@ == normalized(sampled(b@, width, height)),
    ensures
        a@->terms.len() == draws.len(),
        b@->terms.len() == draws.len(),
        grid_a@ == grid_b@,
{
}

} // verus!
