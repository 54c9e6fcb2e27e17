use crate::qr::QR;
use vstd::prelude::*;

verus! {

/// Template cell: the matrix cell under it should be dark.
pub const WANT_DARK: u8 = 0;

/// Template cell: the matrix cell under it should be light.
pub const WANT_LIGHT: u8 = 1;

/// Template cell: any color will do.
pub const DONT_CARE: u8 = 2;

/// The hidden figure, 6 wide and 7 high, row by row.
pub open spec fn mog_cells() -> Seq<u8> {
    seq![
        2, 2, 0, 0, 0, 2,
        2, 0, 1, 1, 1, 0,
        0, 1, 1, 0, 0, 2,
        0, 1, 1, 1, 1, 0,
        2, 0, 1, 1, 1, 0,
        2, 0, 1, 0, 1, 0,
        2, 2, 0, 0, 0, 2,
    ]
}

/// Whether a template cell `t` disagrees with matrix module `m`. With `invert`
/// the template is read in negative.
pub open spec fn cell_mismatch(t: u8, m: u8, invert: bool) -> bool {
    t != DONT_CARE && ((m == t) == invert)
}

/// Number of rigid transforms of a template: four rotations, each with or
/// without a mirror flip.
pub const TRANSFORMS: u8 = 8;

/// One overlay of the template: a transform (`transform % 4` quarter turns
/// clockwise, after a left-right mirror when `transform >= 4`) and the
/// matrix cell under the top-left corner of the transformed template.
#[derive(Clone, Copy, Debug, PartialEq, Eq, Structural)]
pub struct Placement {
    pub transform: u8,
    pub x: usize,
    pub y: usize,
}

/// Width and height of a `w` x `h` template after transform `t`.
pub open spec fn footprint(t: u8, w: int, h: int) -> (int, int) {
    if t % 2 == 0 {
        (w, h)
    } else {
        (h, w)
    }
}

/// Where template cell (`tx`, `ty`) lands, relative to the top-left corner of
/// the footprint, under transform `t`.
pub open spec fn placed(t: u8, w: int, h: int, tx: int, ty: int) -> (int, int) {
    let fx = if t >= 4 { w - 1 - tx } else { tx };
    if t % 4 == 0 {
        (fx, ty)
    } else if t % 4 == 1 {
        (h - 1 - ty, fx)
    } else if t % 4 == 2 {
        (w - 1 - fx, h - 1 - ty)
    } else {
        (ty, w - 1 - fx)
    }
}

/// The matrix module under template cell `k` (row by row, `w` to a row) at
/// placement `pl`.
pub open spec fn module_under(data: Seq<u8>, side: int, w: int, h: int, pl: Placement, k: int) -> u8 {
    data[under_index(side, w, h, pl, k)]
}

/// Flat index of the matrix cell under template cell `k` at placement `pl`.
pub open spec fn under_index(side: int, w: int, h: int, pl: Placement, k: int) -> int {
    let (u, v) = placed(pl.transform, w, h, k % w, k / w);
    (pl.y + v) * side + pl.x + u
}

/// Number of mismatching cells among the first `n` cells of the template.
pub open spec fn mismatches(
    data: Seq<u8>,
    side: int,
    cells: Seq<u8>,
    w: int,
    h: int,
    pl: Placement,
    invert: bool,
    n: int,
) -> nat
    decreases n,
{
    if n <= 0 {
        0
    } else {
        mismatches(data, side, cells, w, h, pl, invert, n - 1) + if cell_mismatch(
            cells[n - 1],
            module_under(data, side, w, h, pl, n - 1),
            invert,
        ) {
            1nat
        } else {
            0nat
        }
    }
}

/// Number of cells other than don't-care among the first `n` of the template.
pub open spec fn care_count(cells: Seq<u8>, n: int) -> nat
    decreases n,
{
    if n <= 0 {
        0
    } else {
        care_count(cells, n - 1) + if cells[n - 1] != DONT_CARE {
            1nat
        } else {
            0nat
        }
    }
}

/// Cost of one placement: the better of the two polarities.
pub open spec fn mog_cost_of(data: Seq<u8>, side: int, cells: Seq<u8>, w: int, h: int, pl: Placement) -> nat {
    let a = mismatches(data, side, cells, w, h, pl, false, cells.len() as int);
    let b = mismatches(data, side, cells, w, h, pl, true, cells.len() as int);
    if a <= b {
        a
    } else {
        b
    }
}

/// A tri-state figure, row by row, `width` cells to a row.
pub struct Template {
    pub cells: Vec<u8>,
    pub width: usize,
    pub height: usize,
}

impl Template {
    pub open spec fn wf(&self) -> bool {
        &&& 1 <= self.width
        &&& 1 <= self.height
        &&& self.cells@.len() == self.width * self.height
        &&& forall|k: int| 0 <= k < self.cells@.len() ==> #[trigger] self.cells@[k] <= DONT_CARE
    }

    /// Whether placement `pl` keeps the transformed template inside a matrix
    /// of the given side.
    pub open spec fn fits(&self, side: int, pl: Placement) -> bool {
        let (fw, fh) = footprint(pl.transform, self.width as int, self.height as int);
        pl.transform < TRANSFORMS && pl.x + fw <= side && pl.y + fh <= side
    }

    /// The figure that is hidden by default.
    pub fn mog() -> (r: Template)
        ensures
            r.wf(),
            r.width == 6,
            r.height == 7,
            r.cells@ == mog_cells(),
    {
        let cells: Vec<u8> = vec![
            2, 2, 0, 0, 0, 2,
            2, 0, 1, 1, 1, 0,
            0, 1, 1, 0, 0, 2,
            0, 1, 1, 1, 1, 0,
            2, 0, 1, 1, 1, 0,
            2, 0, 1, 0, 1, 0,
            2, 2, 0, 0, 0, 2,
        ];
        assert(cells@ =~= mog_cells());
        Template { cells, width: 6, height: 7 }
    }

    /// Whether the template, tiled over the plane, wants the cell at (`x`, `y`)
    /// light.
    pub fn wants_light_at(&self, x: usize, y: usize) -> (r: bool)
        requires
            self.wf(),
        ensures
            r == (self.cells@[(x % self.width) + (y % self.height) * self.width] == WANT_LIGHT),
    {
        let len: usize = self.cells.len();
        let tx: usize = x % self.width;
        let ty: usize = y % self.height;
        assert(ty * self.width + tx < self.width * self.height) by (nonlinear_arith)
            requires
                tx < self.width,
                ty < self.height,
        ;
        self.cells[tx + ty * self.width] == WANT_LIGHT
    }
}

/// Whether the default figure, tiled over the plane, wants the cell at
/// (`x`, `y`) light.
pub fn get_mog_at(x: usize, y: usize) -> (r: bool)
    ensures
        r == (mog_cells()[(x % 6) + (y % 7) * 6] == WANT_LIGHT),
{
    Template::mog().wants_light_at(x, y)
}

/// A cell (`x`, `y`) of a `side` x `side` grid lies inside it.
proof fn lemma_cell_in_grid(side: int, x: int, y: int)
    requires
        0 <= x < side,
        0 <= y < side,
    ensures
        0 <= y * side + x < side * side,
{
    assert(y * side + x < side * side) by (nonlinear_arith)
        requires
            0 <= x < side,
            0 <= y < side,
    ;
    assert(0 <= y * side) by (nonlinear_arith)
        requires
            0 <= y,
            0 <= side,
    ;
}

/// A transformed template cell lands inside the footprint.
proof fn lemma_placed_in_footprint(t: u8, w: int, h: int, tx: int, ty: int)
    requires
        0 <= tx < w,
        0 <= ty < h,
    ensures
        0 <= placed(t, w, h, tx, ty).0 < footprint(t, w, h).0,
        0 <= placed(t, w, h, tx, ty).1 < footprint(t, w, h).1,
{
    assert(t % 4 == 0 || t % 4 == 1 || t % 4 == 2 || t % 4 == 3);
    assert((t % 4) % 2 == t % 2);
}

/// Template cell `k` sits at column `k % w`, row `k / w`, inside the template.
proof fn lemma_template_cell(k: int, w: int, h: int)
    requires
        0 <= k < w * h,
        w >= 1,
    ensures
        0 <= k % w < w,
        0 <= k / w < h,
{
    assert(0 <= k / w < h) by (nonlinear_arith)
        requires
            0 <= k < w * h,
            w >= 1,
    ;
}

/// Where template cell (`tx`, `ty`) lands under transform `t`.
fn place(t: u8, w: usize, h: usize, tx: usize, ty: usize) -> (r: (usize, usize))
    requires
        tx < w,
        ty < h,
    ensures
        r.0 as int == placed(t, w as int, h as int, tx as int, ty as int).0,
        r.1 as int == placed(t, w as int, h as int, tx as int, ty as int).1,
{
    let fx: usize = if t >= 4 { w - 1 - tx } else { tx };
    let q: u8 = t % 4;
    if q == 0 {
        (fx, ty)
    } else if q == 1 {
        (h - 1 - ty, fx)
    } else if q == 2 {
        (w - 1 - fx, h - 1 - ty)
    } else {
        (ty, w - 1 - fx)
    }
}

/// Number of template cells that mismatch the matrix at placement `pl`, in
/// the given polarity.
pub fn placement_cost(qr: &QR, tpl: &Template, pl: Placement, invert: bool) -> (r: usize)
    requires
        qr.wf(),
        tpl.wf(),
        tpl.fits(qr.side as int, pl),
    ensures
        r == mismatches(
            qr.data@,
            qr.side as int,
            tpl.cells@,
            tpl.width as int,
            tpl.height as int,
            pl,
            invert,
            tpl.cells@.len() as int,
        ),
{
    let n: usize = tpl.cells.len();
    let w: usize = tpl.width;
    let h: usize = tpl.height;
    let side: usize = qr.side as usize;
    let len: usize = qr.data.len();
    let mut count: usize = 0;
    let mut k: usize = 0;
    while k < n
        invariant
            qr.wf(),
            tpl.wf(),
            tpl.fits(side as int, pl),
            n == tpl.cells@.len(),
            w == tpl.width,
            h == tpl.height,
            side == qr.side,
            len == qr.data@.len(),
            k <= n,
            count <= k,
            count == mismatches(qr.data@, side as int, tpl.cells@, w as int, h as int, pl, invert, k as int),
        decreases n - k,
    {
        proof {
            lemma_template_cell(k as int, w as int, h as int);
        }
        let tx: usize = k % w;
        let ty: usize = k / w;
        let (u, v) = place(pl.transform, w, h, tx, ty);
        proof {
            lemma_placed_in_footprint(pl.transform, w as int, h as int, tx as int, ty as int);
            lemma_cell_in_grid(side as int, pl.x + u, pl.y + v);
        }
        let m: u8 = qr.data[(pl.y + v) * side + pl.x + u];
        let t: u8 = tpl.cells[k];
        if t != DONT_CARE && ((m == t) == invert) {
            count = count + 1;
        }
        k = k + 1;
    }
    count
}

/// Cost of placement `pl`: the template may match in either polarity, so the
/// smaller of the two mismatch counts.
pub fn mog_cost(qr: &QR, tpl: &Template, pl: Placement) -> (r: usize)
    requires
        qr.wf(),
        tpl.wf(),
        tpl.fits(qr.side as int, pl),
    ensures
        r == mog_cost_of(qr.data@, qr.side as int, tpl.cells@, tpl.width as int, tpl.height as int, pl),
{
    let a = placement_cost(qr, tpl, pl, false);
    let b = placement_cost(qr, tpl, pl, true);
    if a <= b {
        a
    } else {
        b
    }
}

/// The cost of every placement of the template under `transform`. Placement
/// `p` puts the corner of the footprint at column `p % cols`, row `p / cols`,
/// where `cols = side - fw + 1` for a footprint `fw` wide and `fh` high, and
/// there are `side - fh + 1` rows of placements.
pub fn placement_costs(qr: &QR, tpl: &Template, transform: u8) -> (r: Vec<usize>)
    requires
        qr.wf(),
        tpl.wf(),
        transform < TRANSFORMS,
        tpl.width <= qr.side,
        tpl.height <= qr.side,
    ensures
        ({
            let (fw, fh) = footprint(transform, tpl.width as int, tpl.height as int);
            let cols = qr.side - fw + 1;
            &&& r@.len() == cols * (qr.side - fh + 1)
            &&& forall|p: int|
                0 <= p < r@.len() ==> #[trigger] r@[p] == mog_cost_of(
                    qr.data@,
                    qr.side as int,
                    tpl.cells@,
                    tpl.width as int,
                    tpl.height as int,
                    (Placement { transform, x: (p % cols) as usize, y: (p / cols) as usize }),
                )
        }),
{
    let side: usize = qr.side as usize;
    let (fw, fh) = if transform % 2 == 0 {
        (tpl.width, tpl.height)
    } else {
        (tpl.height, tpl.width)
    };
    let cols: usize = side - fw + 1;
    let rows: usize = side - fh + 1;
    assert(cols * rows <= 177 * 177) by (nonlinear_arith)
        requires
            cols <= 177,
            rows <= 177,
    ;
    let n: usize = cols * rows;
    let mut costs: Vec<usize> = Vec::new();
    let mut p: usize = 0;
    while p < n
        invariant
            qr.wf(),
            tpl.wf(),
            transform < TRANSFORMS,
            side == qr.side,
            (fw as int, fh as int) == footprint(transform, tpl.width as int, tpl.height as int),
            cols == side - fw + 1,
            rows == side - fh + 1,
            n == cols * rows,
            p <= n,
            costs@.len() == p,
            forall|k: int|
                0 <= k < p ==> #[trigger] costs@[k] == mog_cost_of(
                    qr.data@,
                    side as int,
                    tpl.cells@,
                    tpl.width as int,
                    tpl.height as int,
                    (Placement { transform, x: (k % cols as int) as usize, y: (k / cols as int) as usize }),
                ),
        decreases n - p,
    {
        let x: usize = p % cols;
        let y: usize = p / cols;
        assert(y < rows) by (nonlinear_arith)
            requires
                y == p / cols,
                p < cols * rows,
                cols >= 1,
        ;
        costs.push(mog_cost(qr, tpl, Placement { transform, x, y }));
        p = p + 1;
    }
    costs
}

/// The matrix with every module's color swapped.
pub open spec fn negated_modules(data: Seq<u8>) -> Seq<u8> {
    data.map_values(|m: u8| (1 - m) as u8)
}

/// The template with dark and light swapped; don't-care stays.
pub open spec fn negated_cells(cells: Seq<u8>) -> Seq<u8> {
    cells.map_values(|t: u8| if t == DONT_CARE { DONT_CARE } else { (1 - t) as u8 })
}

proof fn lemma_partition_prefix(
    data: Seq<u8>,
    side: int,
    cells: Seq<u8>,
    w: int,
    h: int,
    pl: Placement,
    n: int,
)
    ensures
        mismatches(data, side, cells, w, h, pl, false, n) + mismatches(data, side, cells, w, h, pl, true, n)
            == care_count(cells, n),
    decreases n,
{
    if n > 0 {
        lemma_partition_prefix(data, side, cells, w, h, pl, n - 1);
    }
}

/// At any placement, the cells that mismatch in normal polarity and those that
/// mismatch in negative are complementary: together they count every cell of
/// the template that is not don't-care, once.
pub proof fn lemma_polarities_partition(qr: &QR, tpl: &Template, pl: Placement)
    requires
        qr.wf(),
        tpl.wf(),
        tpl.fits(qr.side as int, pl),
    ensures
        mismatches(qr.data@, qr.side as int, tpl.cells@, tpl.width as int, tpl.height as int, pl, false, tpl.cells@.len() as int)
            + mismatches(qr.data@, qr.side as int, tpl.cells@, tpl.width as int, tpl.height as int, pl, true, tpl.cells@.len() as int)
            == care_count(tpl.cells@, tpl.cells@.len() as int),
{
    lemma_partition_prefix(qr.data@, qr.side as int, tpl.cells@, tpl.width as int, tpl.height as int, pl, tpl.cells@.len() as int);
}

proof fn lemma_negation_prefix(
    data: Seq<u8>,
    side: int,
    cells: Seq<u8>,
    w: int,
    h: int,
    pl: Placement,
    invert: bool,
    n: int,
)
    requires
        n <= cells.len(),
        forall|i: int| 0 <= i < data.len() ==> #[trigger] data[i] <= 1,
        forall|k: int| 0 <= k < cells.len() ==> #[trigger] cells[k] <= DONT_CARE,
        forall|k: int|
            0 <= k < n ==> 0 <= #[trigger] under_index(side, w, h, pl, k) < data.len(),
    ensures
        mismatches(negated_modules(data), side, negated_cells(cells), w, h, pl, invert, n)
            == mismatches(data, side, cells, w, h, pl, invert, n),
    decreases n,
{
    if n > 0 {
        lemma_negation_prefix(data, side, cells, w, h, pl, invert, n - 1);
        let k = n - 1;
        let idx = under_index(side, w, h, pl, k);
        assert(0 <= idx < data.len());
        assert(data[idx] <= 1);
        assert(cells[k] <= DONT_CARE);
    }
}

/// Swapping dark and light in both the matrix and the template leaves the cost
/// of every placement unchanged.
pub proof fn lemma_mog_cost_polarity_invariant(qr: &QR, tpl: &Template, pl: Placement)
    requires
        qr.wf(),
        tpl.wf(),
        tpl.fits(qr.side as int, pl),
    ensures
        mog_cost_of(negated_modules(qr.data@), qr.side as int, negated_cells(tpl.cells@), tpl.width as int, tpl.height as int, pl)
            == mog_cost_of(qr.data@, qr.side as int, tpl.cells@, tpl.width as int, tpl.height as int, pl),
{
    let side = qr.side as int;
    let w = tpl.width as int;
    let h = tpl.height as int;
    let n = tpl.cells@.len() as int;
    assert forall|k: int| 0 <= k < n implies 0 <= #[trigger] under_index(side, w, h, pl, k) < qr.data@.len() by {
        lemma_template_cell(k, w, h);
        lemma_placed_in_footprint(pl.transform, w, h, k % w, k / w);
        let (u, v) = placed(pl.transform, w, h, k % w, k / w);
        lemma_cell_in_grid(side, pl.x + u, pl.y + v);
    }
    assert(negated_cells(tpl.cells@).len() == n);
    lemma_negation_prefix(qr.data@, side, tpl.cells@, w, h, pl, false, n);
    lemma_negation_prefix(qr.data@, side, tpl.cells@, w, h, pl, true, n);
}

} // verus!
