use vstd::prelude::*;

use crate::model::{Cell, CellView, Node, cells_view, copy_color};

verus! {

/// A `height` x `width` grid of cells stored row by row: the cell in row `r`,
/// column `c` sits at `r * width + c`.
pub struct FrameBuffer {
    pub width: u32,
    pub height: u32,
    pub cells: Vec<Cell>,
}

/// The row of the cell at index `k` of a grid `width` cells wide.
pub open spec fn row_of(k: int, width: int) -> int {
    k / width
}

/// The column of the cell at index `k` of a grid `width` cells wide.
pub open spec fn col_of(k: int, width: int) -> int {
    k % width
}

/// Whether texture position `(h, w)` comes before `(hh, ww)` in row-major order.
pub open spec fn precedes(h: int, w: int, hh: int, ww: int) -> bool {
    h < hh || (h == hh && w < ww)
}

/// The cells after `node`, anchored at cell `(ax, ay)`, has drawn those of its
/// glyphs that precede texture position `(hh, ww)`.
pub open spec fn paint_upto(
    cells: Seq<CellView>,
    width: int,
    node: Node,
    ax: int,
    ay: int,
    hh: int,
    ww: int,
) -> Seq<CellView> {
    Seq::new(
        cells.len(),
        |k: int|
            {
                let h = row_of(k, width) - ay;
                let w = col_of(k, width) - ax;
                if node.draws(h, w) && precedes(h, w, hh, ww) {
                    node.cell_from(h, w)
                } else {
                    cells[k]
                }
            },
    )
}

/// The cells after `node`, anchored at cell `(ax, ay)`, has been drawn: each
/// cell that one of its drawn glyphs lands on takes that glyph and the node's
/// color; every other cell keeps what it held.
pub open spec fn paint(cells: Seq<CellView>, width: int, node: Node, ax: int, ay: int) -> Seq<
    CellView,
> {
    Seq::new(
        cells.len(),
        |k: int|
            {
                let h = row_of(k, width) - ay;
                let w = col_of(k, width) - ax;
                if node.draws(h, w) {
                    node.cell_from(h, w)
                } else {
                    cells[k]
                }
            },
    )
}

/// A grid of the given size where every cell shows `fill` with no color.
pub open spec fn blank(width: int, height: int, fill: char) -> Seq<CellView> {
    Seq::new((width * height) as nat, |k: int| (fill, None::<Seq<char>>))
}

pub proof fn lemma_cell_index(width: int, height: int, r: int, c: int)
    requires
        0 <= r < height,
        0 <= c < width,
    ensures
        0 <= r * width + c < width * height,
        (r * width + c) / width == r,
        (r * width + c) % width == c,
{
    assert(0 <= r * width + c < width * height) by (nonlinear_arith)
        requires
            0 <= r < height,
            0 <= c < width,
    ;
    vstd::arithmetic::div_mod::lemma_fundamental_div_mod_converse(r * width + c, width, r, c);
}

pub proof fn lemma_row_of_index(width: int, height: int, k: int)
    requires
        0 <= k < width * height,
        0 <= width,
        0 <= height,
    ensures
        width > 0,
        0 <= k / width < height,
        0 <= k % width < width,
        k == (k / width) * width + k % width,
{
    if width == 0 {
        assert(width * height == 0) by (nonlinear_arith)
            requires
                width == 0,
        ;
    }
    vstd::arithmetic::div_mod::lemma_fundamental_div_mod(k, width);
    vstd::arithmetic::div_mod::lemma_mod_bound(k, width);
    vstd::arithmetic::div_mod::lemma_div_pos_is_pos(k, width);
    assert(k == (k / width) * width + k % width) by (nonlinear_arith)
        requires
            k == width * (k / width) + k % width,
    ;
    if k / width >= height {
        assert((k / width) * width >= width * height) by (nonlinear_arith)
            requires
                k / width >= height,
                width > 0,
        ;
    }
}

impl FrameBuffer {
    pub open spec fn wf(&self) -> bool {
        self.cells@.len() == self.width as int * self.height as int
    }

    pub open spec fn view(&self) -> Seq<CellView> {
        cells_view(self.cells@)
    }

    /// A `height` x `width` buffer with every cell set to `fill` and no color.
    pub fn new(width: u32, height: u32, fill: char) -> (r: FrameBuffer)
        requires
            width as int * height as int <= usize::MAX,
        ensures
            r.wf(),
            r.width == width,
            r.height == height,
            r.view() == blank(width as int, height as int, fill),
    {
        let n: usize = (width as usize) * (height as usize);
        let mut cells: Vec<Cell> = Vec::new();
        let mut i: usize = 0;
        while i < n
            invariant
                i <= n,
                n == width as int * height as int,
                cells@.len() == i,
                forall|k: int| 0 <= k < i ==> #[trigger] cells@[k].view() == (fill, None::<Seq<char>>),
            decreases n - i,
        {
            cells.push(Cell { glyph: fill, color: None });
            i = i + 1;
        }
        let r = FrameBuffer { width, height, cells };
        assert(r.view() =~= blank(width as int, height as int, fill));
        r
    }

    /// Stores `cell` in row `r`, column `c`.
    fn set_cell(&mut self, r: usize, c: usize, cell: Cell)
        requires
            old(self).wf(),
            r < old(self).height,
            c < old(self).width,
        ensures
            final(self).wf(),
            final(self).width == old(self).width,
            final(self).height == old(self).height,
            final(self).view() == old(self).view().update(r * old(self).width + c, cell.view()),
    {
        let ghost before = self.cells@;
        let n_cells: usize = self.cells.len();
        proof {
            lemma_cell_index(self.width as int, self.height as int, r as int, c as int);
            assert(r * self.width <= r * self.width + c);
            assert(r * self.width + c < n_cells);
        }
        let idx: usize = r * (self.width as usize) + c;
        self.cells.set(idx, cell);
        proof {
            assert(self.cells@ == before.update(idx as int, cell));
            assert(self.view() =~= cells_view(before).update(idx as int, cell.view()));
        }
    }

    /// Draws `node` with its top-left glyph on cell `(ax, ay)` (column, row).
    /// Glyphs that land outside the grid, transparent glyphs and the whole of
    /// an invisible node leave their cells alone.
    pub fn paint_node(&mut self, node: &Node, ax: i64, ay: i64)
        requires
            old(self).wf(),
        ensures
            final(self).wf(),
            final(self).width == old(self).width,
            final(self).height == old(self).height,
            final(self).view() == paint(old(self).view(), old(self).width as int, *node, ax as int, ay as int),
    {
        let ghost start = self.view();
        let ghost width = self.width as int;
        let ghost height = self.height as int;
        assert(start.len() == width * height);
        if !node.is_globally_visible() {
            assert(self.view() =~= paint(start, width, *node, ax as int, ay as int));
            return;
        }
        let n_rows: usize = node.texture.len();
        let mut h: usize = 0;
        while h < n_rows
            invariant
                self.wf(),
                self.width == width,
                self.height == height,
                start.len() == width * height,
                h <= n_rows,
                n_rows == node.texture@.len(),
                node.visible,
                self.view() == paint_upto(start, width, *node, ax as int, ay as int, h as int, 0),
            decreases n_rows - h,
        {
            let r: i128 = ay as i128 + h as i128;
            if r < 0 || r >= self.height as i128 {
                proof {
                    assert forall|k: int| 0 <= k < start.len() implies #[trigger] row_of(k, width) - ay != h by {
                        lemma_row_of_index(width, height, k);
                    }
                    assert(paint_upto(start, width, *node, ax as int, ay as int, h as int, 0)
                        =~= paint_upto(start, width, *node, ax as int, ay as int, h + 1, 0));
                }
                h = h + 1;
                continue;
            }
            let row: &Vec<char> = &node.texture[h];
            let n_cols: usize = row.len();
            let mut w: usize = 0;
            while w < n_cols
                invariant
                    self.wf(),
                    self.width == width,
                    self.height == height,
                    start.len() == width * height,
                    h < n_rows,
                    n_rows == node.texture@.len(),
                    *row == node.texture@[h as int],
                    n_cols == row@.len(),
                    w <= n_cols,
                    node.visible,
                    0 <= r < height,
                    r == ay + h,
                    self.view() == paint_upto(start, width, *node, ax as int, ay as int, h as int, w as int),
                decreases n_cols - w,
            {
                let c: i128 = ax as i128 + w as i128;
                let glyph: char = row[w];
                let transparent: bool = match node.transparency {
                    Some(t) => glyph == t,
                    None => false,
                };
                if c < 0 || c >= self.width as i128 || transparent {
                    proof {
                        assert forall|k: int| 0 <= k < start.len() && #[trigger] row_of(k, width) - ay == h implies
                            !(col_of(k, width) - ax == w && node.draws(h as int, w as int)) by {
                            lemma_row_of_index(width, height, k);
                        }
                        assert(paint_upto(start, width, *node, ax as int, ay as int, h as int, w as int)
                            =~= paint_upto(start, width, *node, ax as int, ay as int, h as int, w + 1));
                    }
                } else {
                    proof {
                        lemma_cell_index(width, height, r as int, c as int);
                    }
                    let cell = Cell { glyph, color: copy_color(&node.color) };
                    let ghost before = self.view();
                    let ghost idx = r * width + c;
                    self.set_cell(r as usize, c as usize, cell);
                    proof {
                        let upto = paint_upto(start, width, *node, ax as int, ay as int, h as int, w + 1);
                        assert(row_of(idx, width) - ay == h && col_of(idx, width) - ax == w);
                        assert(node.glyph_at(h as int, w as int) == Some(glyph));
                        assert(node.draws(h as int, w as int));
                        assert forall|k: int| 0 <= k < start.len() implies #[trigger] self.view()[k] == upto[k] by {
                            lemma_row_of_index(width, height, k);
                            if k != idx {
                                assert(!(row_of(k, width) - ay == h && col_of(k, width) - ax == w));
                            }
                        }
                        assert(self.view() =~= upto);
                    }
                }
                w = w + 1;
            }
            proof {
                assert(paint_upto(start, width, *node, ax as int, ay as int, h as int, n_cols as int)
                    =~= paint_upto(start, width, *node, ax as int, ay as int, h + 1, 0));
            }
            h = h + 1;
        }
        assert(self.view() =~= paint(start, width, *node, ax as int, ay as int));
    }
}

} // verus!
