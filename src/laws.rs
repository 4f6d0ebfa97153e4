use vstd::prelude::*;

use crate::compose::{composed, covers, glyph_cell, lemma_top_is_last_drawn, top};
use crate::frame::{cell_text, frame_text, reset_code, row_text, rows_text};
use crate::model::{Camera, CellView, Node, Screen};
use crate::pipeline::rendered_text;
use crate::raster::{col_of, lemma_cell_index, lemma_row_of_index, paint, row_of};

verus! {

/// Rendering is a function of its inputs: the same screen, nodes, camera and
/// offsets always give the same text.
pub proof fn lemma_render_deterministic(
    screen: Screen,
    nodes: Seq<Node>,
    camera: Camera,
    centering_x: i64,
    centering_y: i64,
    other_screen: Screen,
    other_nodes: Seq<Node>,
    other_camera: Camera,
)
    requires
        screen == other_screen,
        nodes == other_nodes,
        camera == other_camera,
    ensures
        rendered_text(screen, nodes, camera, centering_x, centering_y) == rendered_text(
            other_screen,
            other_nodes,
            other_camera,
            centering_x,
            centering_y,
        ),
{
}

/// Of two nodes with the same `z_index` that both draw on a cell, the one
/// earlier in the list never shows there.
pub proof fn lemma_equal_z_later_wins(nodes: Seq<Node>, ox: int, oy: int, r: int, c: int, i: int, j: int)
    requires
        0 <= i < j < nodes.len(),
        nodes[i].z_index == nodes[j].z_index,
        covers(nodes[i], ox, oy, r, c),
        covers(nodes[j], ox, oy, r, c),
    ensures
        top(nodes, nodes.len() as int, ox, oy, r, c) != Some(i),
{
    lemma_top_is_last_drawn(nodes, nodes.len() as int, ox, oy, r, c);
}

/// Where exactly two nodes draw on an on-screen cell, the cell ends up with
/// the glyph and color of the one with the greater `z_index`, or, for equal
/// `z_index`, of the one later in the list.
pub proof fn lemma_overdraw(
    nodes: Seq<Node>,
    width: int,
    height: int,
    fill: char,
    ox: int,
    oy: int,
    r: int,
    c: int,
    i: int,
    j: int,
)
    requires
        0 <= i < nodes.len(),
        0 <= j < nodes.len(),
        0 <= r < height,
        0 <= c < width,
        nodes[i].z_index < nodes[j].z_index || (nodes[i].z_index == nodes[j].z_index && i < j),
        covers(nodes[i], ox, oy, r, c),
        covers(nodes[j], ox, oy, r, c),
        forall|k: int| 0 <= k < nodes.len() && #[trigger] covers(nodes[k], ox, oy, r, c) ==> k == i || k == j,
    ensures
        composed(nodes, width, height, fill, ox, oy)[r * width + c] == glyph_cell(nodes[j], ox, oy, r, c),
{
    lemma_cell_index(width, height, r, c);
    lemma_top_is_last_drawn(nodes, nodes.len() as int, ox, oy, r, c);
}

/// A glyph equal to the node's transparency character leaves the cell it
/// lands on exactly as it was before the node was drawn.
pub proof fn lemma_transparent_glyph_keeps_cell(
    cells: Seq<CellView>,
    width: int,
    height: int,
    node: Node,
    ax: int,
    ay: int,
    r: int,
    c: int,
)
    requires
        cells.len() == width * height,
        0 <= r < height,
        0 <= c < width,
        node.transparency is Some,
        node.glyph_at(r - ay, c - ax) == node.transparency,
    ensures
        paint(cells, width, node, ax, ay)[r * width + c] == cells[r * width + c],
{
    lemma_cell_index(width, height, r, c);
}

/// A glyph whose target row or column lies off the grid writes nothing: the
/// grid keeps its size and no cell of it is that glyph's target, so every
/// cell that drawing changes is the target of an on-grid glyph.
pub proof fn lemma_off_grid_glyph_writes_nothing(
    cells: Seq<CellView>,
    width: int,
    height: int,
    node: Node,
    ax: int,
    ay: int,
    h: int,
    w: int,
)
    requires
        0 <= width,
        0 <= height,
        cells.len() == width * height,
        !(0 <= ay + h < height && 0 <= ax + w < width),
    ensures
        paint(cells, width, node, ax, ay).len() == cells.len(),
        forall|k: int|
            0 <= k < cells.len() ==> !(#[trigger] row_of(k, width) - ay == h && col_of(k, width) - ax == w),
        forall|k: int|
            0 <= k < cells.len() && #[trigger] paint(cells, width, node, ax, ay)[k] != cells[k] ==> {
                &&& node.draws(row_of(k, width) - ay, col_of(k, width) - ax)
                &&& 0 <= row_of(k, width) < height
                &&& 0 <= col_of(k, width) < width
            },
{
    assert forall|k: int| 0 <= k < cells.len() implies 0 <= #[trigger] row_of(k, width) < height && 0
        <= col_of(k, width) < width by {
        lemma_row_of_index(width, height, k);
    }
}

/// How many times `ch` occurs in `s`.
pub open spec fn count_char(s: Seq<char>, ch: char) -> nat
    decreases s.len(),
{
    if s.len() == 0 {
        0
    } else {
        count_char(s.drop_last(), ch) + if s.last() == ch {
            1nat
        } else {
            0nat
        }
    }
}

pub proof fn lemma_count_char_add(a: Seq<char>, b: Seq<char>, ch: char)
    ensures
        count_char(a + b, ch) == count_char(a, ch) + count_char(b, ch),
    decreases b.len(),
{
    if b.len() == 0 {
        assert(a + b =~= a);
    } else {
        assert((a + b).drop_last() =~= a + b.drop_last());
        lemma_count_char_add(a, b.drop_last(), ch);
    }
}

/// No cell writes a line break: its glyph is not `\n` and neither is any
/// character of its color sequence.
pub open spec fn no_line_breaks(cells: Seq<CellView>) -> bool {
    forall|k: int|
        0 <= k < cells.len() ==> {
            &&& (#[trigger] cells[k]).0 != '\n'
            &&& match cells[k].1 {
                Some(color) => count_char(color, '\n') == 0,
                None => true,
            }
        }
}

proof fn lemma_row_text_one_line(cells: Seq<CellView>, width: int, height: int, r: int, n: int)
    requires
        cells.len() == width * height,
        no_line_breaks(cells),
        0 <= r < height,
        0 <= n <= width,
    ensures
        count_char(row_text(cells, width, r, n), '\n') == 0,
    decreases n,
{
    if n > 0 {
        lemma_row_text_one_line(cells, width, height, r, n - 1);
        let cell = cells[r * width + n - 1];
        lemma_cell_index(width, height, r, n - 1);
        let color = match cell.1 {
            Some(col) => col,
            None => Seq::empty(),
        };
        assert(count_char(reset_code(), '\n') == 0) by {
            reveal_with_fuel(count_char, 5);
        }
        assert(count_char(seq![cell.0], '\n') == 0) by {
            reveal_with_fuel(count_char, 2);
        }
        assert(count_char(Seq::<char>::empty(), '\n') == 0);
        lemma_count_char_add(reset_code(), color, '\n');
        lemma_count_char_add(reset_code() + color, seq![cell.0], '\n');
        assert(cell_text(cell) == reset_code() + color + seq![cell.0]);
        lemma_count_char_add(row_text(cells, width, r, n - 1), cell_text(cell), '\n');
    }
}

proof fn lemma_rows_text_lines(cells: Seq<CellView>, width: int, height: int, m: int)
    requires
        cells.len() == width * height,
        0 <= width,
        no_line_breaks(cells),
        1 <= m <= height,
    ensures
        count_char(rows_text(cells, width, m), '\n') == m - 1,
    decreases m,
{
    lemma_row_text_one_line(cells, width, height, m - 1, width);
    if m > 1 {
        lemma_rows_text_lines(cells, width, height, m - 1);
        assert(count_char(seq!['\n'], '\n') == 1) by {
            reveal_with_fuel(count_char, 2);
        }
        lemma_count_char_add(rows_text(cells, width, m - 1), seq!['\n'], '\n');
        lemma_count_char_add(rows_text(cells, width, m - 1) + seq!['\n'], row_text(cells, width, m - 1, width), '\n');
    }
}

/// A frame of `height` rows, none of whose cells writes a line break, has
/// exactly `height` lines: `height - 1` line breaks, one between each pair of
/// rows, and each row is the text of its `width` cells in order.
pub proof fn lemma_frame_shape(cells: Seq<CellView>, width: int, height: int)
    requires
        cells.len() == width * height,
        0 <= width,
        1 <= height,
        no_line_breaks(cells),
    ensures
        count_char(frame_text(cells, width, height), '\n') == height - 1,
        forall|r: int, n: int|
            0 <= r < height && 0 < n <= width ==> #[trigger] row_text(cells, width, r, n) == row_text(
                cells,
                width,
                r,
                n - 1,
            ) + cell_text(cells[r * width + n - 1]),
{
    lemma_rows_text_lines(cells, width, height, height);
}

} // verus!
