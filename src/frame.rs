use vstd::prelude::*;

use crate::model::{Cell, CellView};
use crate::raster::{FrameBuffer, lemma_cell_index};

verus! {

/// The style-reset sequence written before every cell: ESC `[0m`.
pub open spec fn reset_code() -> Seq<char> {
    seq!['\x1b', '[', '0', 'm']
}

/// The text of one cell: the reset sequence, the cell's color sequence if it
/// has one, then its glyph.
pub open spec fn cell_text(cell: CellView) -> Seq<char> {
    reset_code() + match cell.1 {
        Some(color) => color,
        None => Seq::empty(),
    } + seq![cell.0]
}

/// The text of the first `n` cells of row `r`.
pub open spec fn row_text(cells: Seq<CellView>, width: int, r: int, n: int) -> Seq<char>
    decreases n,
{
    if n <= 0 {
        Seq::empty()
    } else {
        row_text(cells, width, r, n - 1) + cell_text(cells[r * width + n - 1])
    }
}

/// The text of the first `m` rows, each `width` cells long, joined by `\n`.
pub open spec fn rows_text(cells: Seq<CellView>, width: int, m: int) -> Seq<char>
    decreases m,
{
    if m <= 0 {
        Seq::empty()
    } else if m == 1 {
        row_text(cells, width, 0, width)
    } else {
        rows_text(cells, width, m - 1) + seq!['\n'] + row_text(cells, width, m - 1, width)
    }
}

/// The text of a whole frame: its `height` rows joined by `\n`, with no
/// trailing newline.
pub open spec fn frame_text(cells: Seq<CellView>, width: int, height: int) -> Seq<char> {
    rows_text(cells, width, height)
}

/// Relies on `String::push`: appends the one character `c`.
#[verifier::external_body]
fn push_char(s: &mut String, c: char)
    ensures
        final(s)@ == old(s)@.push(c),
{
    s.push(c)
}

/// Appends the text of one cell to `out`.
fn write_cell(out: &mut String, cell: &Cell)
    ensures
        final(out)@ == old(out)@ + cell_text(cell.view()),
{
    let ghost start = out@;
    out.append("\x1b[0m");
    proof {
        reveal_strlit("\x1b[0m");
    }
    match &cell.color {
        Some(color) => out.append(color.as_str()),
        None => {},
    }
    push_char(out, cell.glyph);
    assert(out@ =~= start + cell_text(cell.view()));
}

impl FrameBuffer {
    /// The frame as text: rows joined by `\n`, each cell written as the reset
    /// sequence, its color sequence if any, and its glyph.
    pub fn to_text(&self) -> (text: String)
        requires
            self.wf(),
        ensures
            text@ == frame_text(self.view(), self.width as int, self.height as int),
    {
        let ghost cells = self.view();
        let ghost width = self.width as int;
        let ghost height = self.height as int;
        let mut text: String = String::new();
        let mut r: u32 = 0;
        while r < self.height
            invariant
                self.wf(),
                cells == self.view(),
                width == self.width,
                height == self.height,
                r <= height,
                text@ == rows_text(cells, width, r as int),
            decreases height - r,
        {
            if r > 0 {
                push_char(&mut text, '\n');
            }
            let ghost head = text@;
            let mut c: u32 = 0;
            while c < self.width
                invariant
                    self.wf(),
                    cells == self.view(),
                    width == self.width,
                    height == self.height,
                    r < height,
                    c <= width,
                    head == if r == 0 {
                        Seq::<char>::empty()
                    } else {
                        rows_text(cells, width, r as int) + seq!['\n']
                    },
                    text@ == head + row_text(cells, width, r as int, c as int),
                decreases width - c,
            {
                let n_cells: usize = self.cells.len();
                proof {
                    lemma_cell_index(width, height, r as int, c as int);
                    assert(r * width <= r * width + c);
                    assert(r * width + c < n_cells);
                }
                let idx: usize = (r as usize) * (self.width as usize) + (c as usize);
                write_cell(&mut text, &self.cells[idx]);
                proof {
                    assert(text@ =~= head + row_text(cells, width, r as int, c + 1));
                }
                c = c + 1;
            }
            proof {
                if r == 0 {
                    assert(text@ =~= rows_text(cells, width, 1));
                } else {
                    assert(text@ =~= rows_text(cells, width, r + 1));
                }
            }
            r = r + 1;
        }
        text
    }
}

} // verus!
