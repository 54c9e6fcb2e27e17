use crate::qr::QR;
use vstd::prelude::*;
use vstd::string::StringExecFns;

verus! {

/// The text for one module: two full blocks for light, two spaces for dark,
/// in green when highlighted.
pub open spec fn module_text(light: bool, highlight: bool) -> Seq<char> {
    if light {
        if highlight {
            "\x1b[38;5;154m██"@
        } else {
            "\x1b[0m██"@
        }
    } else {
        if highlight {
            "\x1b[38;5;22m██"@
        } else {
            "\x1b[0m  "@
        }
    }
}

/// A solid bar of `n` blocks.
pub open spec fn bar_text(n: int) -> Seq<char>
    decreases n,
{
    if n <= 0 {
        Seq::empty()
    } else {
        bar_text(n - 1) + "██"@
    }
}

/// The first `x` modules of row `y`.
pub open spec fn cells_text(data: Seq<u8>, hl: Seq<bool>, side: int, y: int, x: int) -> Seq<char>
    decreases x,
{
    if x <= 0 {
        Seq::empty()
    } else {
        cells_text(data, hl, side, y, x - 1) + module_text(
            data[y * side + x - 1] != 0,
            hl[y * side + x - 1],
        )
    }
}

/// Row `y`, framed by a light border cell on each side.
pub open spec fn row_text(data: Seq<u8>, hl: Seq<bool>, side: int, y: int) -> Seq<char> {
    "\x1b[0m██"@ + cells_text(data, hl, side, y, side) + "\x1b[0m██"@ + "\x1b[0m\n"@
}

/// The first `y` rows.
pub open spec fn rows_text(data: Seq<u8>, hl: Seq<bool>, side: int, y: int) -> Seq<char>
    decreases y,
{
    if y <= 0 {
        Seq::empty()
    } else {
        rows_text(data, hl, side, y - 1) + row_text(data, hl, side, y - 1)
    }
}

/// The whole picture: a border bar, the rows, and a closing bar.
pub open spec fn picture_text(data: Seq<u8>, hl: Seq<bool>, side: int) -> Seq<char> {
    bar_text(side + 2) + "\n"@ + rows_text(data, hl, side, side) + bar_text(side + 2)
}

fn push_bar(buf: &mut String, n: usize)
    ensures
        final(buf)@ == old(buf)@ + bar_text(n as int),
{
    let mut i: usize = 0;
    while i < n
        invariant
            i <= n,
            buf@ == old(buf)@ + bar_text(i as int),
        decreases n - i,
    {
        buf.append("██");
        proof {
            assert(old(buf)@ + bar_text(i as int) + "██"@ =~= old(buf)@ + bar_text(i + 1));
        }
        i = i + 1;
    }
}

impl QR {
    /// The matrix drawn for a terminal, with the cells flagged in `highlight`
    /// (row by row) in green.
    pub fn dump_hl(&self, highlight: &Vec<bool>) -> (r: String)
        requires
            self.wf(),
            highlight@.len() == self.data@.len(),
        ensures
            r@ == picture_text(self.data@, highlight@, self.side as int),
    {
        let side: usize = self.side as usize;
        let mut buf = String::new();
        push_bar(&mut buf, side + 2);
        buf.append("\n");
        let ghost head = bar_text(side + 2) + "\n"@;
        let mut y: usize = 0;
        while y < side
            invariant
                self.wf(),
                side == self.side,
                highlight@.len() == self.data@.len(),
                y <= side,
                buf@ == head + rows_text(self.data@, highlight@, side as int, y as int),
            decreases side - y,
        {
            let ghost before = buf@;
            buf.append("\x1b[0m██");
            let mut x: usize = 0;
            while x < side
                invariant
                    self.wf(),
                    side == self.side,
                    highlight@.len() == self.data@.len(),
                    y < side,
                    x <= side,
                    buf@ == before + "\x1b[0m██"@ + cells_text(self.data@, highlight@, side as int, y as int, x as int),
                decreases side - x,
            {
                assert(y * side + x < side * side <= 177 * 177) by (nonlinear_arith)
                    requires
                        x < side,
                        y < side,
                        side <= 177,
                ;
                let i: usize = y * side + x;
                let light = self.data[i] != 0;
                let hl = highlight[i];
                let ghost mid = buf@;
                if light {
                    if hl {
                        buf.append("\x1b[38;5;154m██");
                    } else {
                        buf.append("\x1b[0m██");
                    }
                } else {
                    if hl {
                        buf.append("\x1b[38;5;22m██");
                    } else {
                        buf.append("\x1b[0m  ");
                    }
                }
                proof {
                    assert(buf@ == mid + module_text(light, hl));
                    assert(buf@ =~= before + "\x1b[0m██"@ + cells_text(self.data@, highlight@, side as int, y as int, x + 1));
                }
                x = x + 1;
            }
            buf.append("\x1b[0m██");
            buf.append("\x1b[0m\n");
            proof {
                assert(buf@ =~= head + rows_text(self.data@, highlight@, side as int, y + 1));
            }
            y = y + 1;
        }
        push_bar(&mut buf, side + 2);
        buf
    }

    /// The matrix drawn for a terminal, nothing highlighted.
    pub fn dump(&self) -> (r: String)
        requires
            self.wf(),
        ensures
            r@ == picture_text(self.data@, Seq::new(self.data@.len(), |i: int| false), self.side as int),
    {
        let mut none: Vec<bool> = Vec::new();
        while none.len() < self.data.len()
            invariant
                none@.len() <= self.data@.len(),
                forall|k: int| 0 <= k < none@.len() ==> !#[trigger] none@[k],
            decreases self.data@.len() - none@.len(),
        {
            none.push(false);
        }
        assert(none@ =~= Seq::new(self.data@.len(), |i: int| false));
        self.dump_hl(&none)
    }
}

/// `qa` drawn with the cells where it differs from `qb` highlighted.
pub fn hl_diff(qa: &QR, qb: &QR) -> (r: String)
    requires
        qa.wf(),
        qb.data@.len() == qa.data@.len(),
    ensures
        r@ == picture_text(
            qa.data@,
            Seq::new(qa.data@.len(), |i: int| qa.data@[i] != qb.data@[i]),
            qa.side as int,
        ),
{
    let mut mask: Vec<bool> = Vec::new();
    let mut i: usize = 0;
    while i < qa.data.len()
        invariant
            qb.data@.len() == qa.data@.len(),
            i <= qa.data@.len(),
            mask@.len() == i,
            forall|k: int| 0 <= k < i ==> #[trigger] mask@[k] == (qa.data@[k] != qb.data@[k]),
        decreases qa.data@.len() - i,
    {
        mask.push(qa.data[i] != qb.data[i]);
        i = i + 1;
    }
    assert(mask@ =~= Seq::new(qa.data@.len(), |i: int| qa.data@[i] != qb.data@[i]));
    qa.dump_hl(&mask)
}

} // verus!
