use crate::codec::{code_light, code_version, encode_high, functional_of, high_symbol, module_is_functional};
use std::rc::Rc;
use vstd::prelude::*;

verus! {

/// Number of modules on one edge of a normal symbol of the given version.
pub open spec fn side_of(version: int) -> int {
    4 * version + 17
}

/// Modules (0 = dark, 1 = light) from light flags.
pub open spec fn modules_of(light: Seq<bool>) -> Seq<u8> {
    light.map_values(|l: bool| if l { 1u8 } else { 0u8 })
}

/// The cells that hold the version information blocks: a 6x3 block left of the
/// top-right finder pattern and its mirror image below the top-left one. Each
/// is kept four columns wide on the inner edge, as a guard band.
pub open spec fn is_version_marker(x: int, y: int, side: int) -> bool {
    (side - 11 <= x < side - 7 && 0 <= y < 7) || (0 <= x < 7 && side - 11 <= y < side - 7)
}

/// A symbol as a flat grid of modules (0 = dark, 1 = light), row by row.
///
/// The flags of the functional cells are shared by every clone of a matrix
/// behind an `Rc`; nothing writes them after construction.
#[derive(Clone)]
pub struct QR {
    pub data: Vec<u8>,
    pub side: u32,
    pub version: u32,
    pub functional: Rc<Vec<bool>>,
}

impl QR {
    /// The functional flag of each cell, row by row.
    pub open spec fn functional_cells(&self) -> Seq<bool> {
        (*self.functional)@
    }

    /// Whether flat index `i` is a functional cell.
    pub open spec fn is_functional_index(&self, i: int) -> bool {
        0 <= i < self.functional_cells().len() && self.functional_cells()[i]
    }

    pub open spec fn wf(&self) -> bool {
        &&& 1 <= self.version <= 40
        &&& self.side == side_of(self.version as int)
        &&& self.data@.len() == self.side * self.side
        &&& self.functional_cells().len() == self.side * self.side
        &&& forall|i: int| 0 <= i < self.data@.len() ==> #[trigger] self.data@[i] <= 1
    }

    /// Builds a matrix from the light flag and the functional flag of each cell,
    /// row by row. The version information blocks are marked functional too.
    pub fn from_modules(version: u32, light: &Vec<bool>, functional: &Vec<bool>) -> (r: QR)
        requires
            1 <= version <= 40,
            light@.len() == side_of(version as int) * side_of(version as int),
            functional@.len() == light@.len(),
        ensures
            r.wf(),
            r.version == version,
            r.side == side_of(version as int),
            forall|i: int|
                0 <= i < light@.len() ==> #[trigger] r.data@[i] == (if light@[i] { 1u8 } else { 0u8 }),
            forall|i: int|
                0 <= i < light@.len() ==> #[trigger] r.is_functional_index(i) == (functional@[i]
                    || is_version_marker(i % r.side as int, i / r.side as int, r.side as int)),
    {
        let side: u32 = 4 * version + 17;
        assert(side * side <= 177 * 177) by (nonlinear_arith)
            requires
                side <= 177,
        ;
        let n: usize = (side * side) as usize;
        let mut data: Vec<u8> = Vec::new();
        let mut func: Vec<bool> = Vec::new();
        let mut i: usize = 0;
        while i < n
            invariant
                n == light@.len(),
                n == functional@.len(),
                side == side_of(version as int),
                i <= n,
                data@.len() == i,
                func@.len() == i,
                forall|k: int| 0 <= k < i ==> #[trigger] data@[k] == (if light@[k] { 1u8 } else { 0u8 }),
                forall|k: int|
                    0 <= k < i ==> #[trigger] func@[k] == (functional@[k] || is_version_marker(
                        k % side as int,
                        k / side as int,
                        side as int,
                    )),
            decreases n - i,
        {
            let w: usize = side as usize;
            let x: usize = i % w;
            let y: usize = i / w;
            let marker = (w - 11 <= x && x < w - 7 && y < 7) || (x < 7 && w - 11 <= y && y < w - 7);
            assert(marker == is_version_marker(i as int % side as int, i as int / side as int, side as int));
            data.push(if light[i] { 1u8 } else { 0u8 });
            func.push(functional[i] || marker);
            i = i + 1;
        }
        QR { data, side, version, functional: Rc::new(func) }
    }

    /// Builds a matrix from the light flag of each cell of a normal symbol of
    /// `version`, row by row; the encoder says which cells are functional.
    pub fn from_colors(version: u32, light: &Vec<bool>) -> (r: QR)
        requires
            1 <= version <= 40,
            light@.len() == side_of(version as int) * side_of(version as int),
        ensures
            r.wf(),
            r.version == version,
            forall|i: int|
                0 <= i < light@.len() ==> #[trigger] r.data@[i] == (if light@[i] { 1u8 } else { 0u8 }),
            forall|i: int|
                0 <= i < light@.len() ==> #[trigger] r.is_functional_index(i) == (functional_of(
                    version as i16,
                    i % r.side as int,
                    i / r.side as int,
                ) || is_version_marker(i % r.side as int, i / r.side as int, r.side as int)),
    {
        let side: usize = (4 * version + 17) as usize;
        let n: usize = light.len();
        let mut func: Vec<bool> = Vec::new();
        let mut i: usize = 0;
        while i < n
            invariant
                n == light@.len(),
                n == side * side,
                side == side_of(version as int),
                1 <= version <= 40,
                i <= n,
                func@.len() == i,
                forall|k: int|
                    0 <= k < i ==> #[trigger] func@[k] == functional_of(
                        version as i16,
                        k % side as int,
                        k / side as int,
                    ),
            decreases n - i,
        {
            let x: usize = i % side;
            let y: usize = i / side;
            assert(y < side) by (nonlinear_arith)
                requires
                    y == i / side,
                    i < side * side,
                    side >= 1,
            ;
            func.push(module_is_functional(version as i16, x, y));
            i = i + 1;
        }
        QR::from_modules(version, light, &func)
    }

    /// Wraps a symbol made by the encoder; `None` for a Micro symbol, or one
    /// whose version or size is not that of a normal symbol.
    pub fn from_code(code: qrcode::QrCode) -> (r: Option<QR>)
        ensures
            r matches Some(q) ==> q.wf(),
    {
        match code_version(&code) {
            None => None,
            Some(v) => {
                if v < 1 || v > 40 {
                    return None;
                }
                let version: u32 = v as u32;
                let light = code_light(&code);
                let side: usize = (4 * version + 17) as usize;
                assert(side * side <= 177 * 177) by (nonlinear_arith)
                    requires
                        side <= 177,
                ;
                if light.len() != side * side {
                    return None;
                }
                Some(QR::from_colors(version, &light))
            },
        }
    }

    /// Encodes `data` in a normal symbol of `version` at the highest error
    /// correction level; `None` exactly when it does not fit.
    pub fn make(data: &[u8], version: u32) -> (r: Option<QR>)
        requires
            1 <= version <= 40,
        ensures
            r is Some <==> high_symbol(data@, version as i16) is Some,
            r matches Some(q) ==> {
                &&& q.wf()
                &&& q.version == version
                &&& q.data@ == modules_of(high_symbol(data@, version as i16).unwrap())
                &&& forall|i: int|
                    0 <= i < q.data@.len() ==> #[trigger] q.is_functional_index(i) == (functional_of(
                        version as i16,
                        i % q.side as int,
                        i / q.side as int,
                    ) || is_version_marker(i % q.side as int, i / q.side as int, q.side as int))
            },
    {
        match encode_high(data, version as i16) {
            None => None,
            Some(light) => {
                let q = QR::from_colors(version, &light);
                assert(q.data@ =~= modules_of(light@));
                Some(q)
            },
        }
    }

    /// Whether the cell at column `x`, row `y` is functional.
    pub fn is_functional(&self, x: usize, y: usize) -> (r: bool)
        ensures
            r == self.is_functional_index((y as int) * (self.side as int) + (x as int)),
    {
        let f: &Vec<bool> = &*self.functional;
        let n: usize = f.len();
        match y.checked_mul(self.side as usize) {
            None => false,
            Some(row) => match row.checked_add(x) {
                None => false,
                Some(i) => i < n && f[i],
            },
        }
    }

    /// The module at column `x`, row `y`.
    pub fn get_at(&self, x: usize, y: usize) -> (r: u8)
        requires
            (y as int) * (self.side as int) + (x as int) < self.data@.len(),
        ensures
            r == self.data@[(y as int) * (self.side as int) + (x as int)],
    {
        let n: usize = self.data.len();
        assert((y as int) * (self.side as int) <= n);
        self.data[y * self.side as usize + x]
    }
}

} // verus!
