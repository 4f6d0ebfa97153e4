use vstd::prelude::*;

verus! {

/// The target grid: its size in cells and the character an undrawn cell shows.
pub struct Screen {
    pub width: u32,
    pub height: u32,
    pub transparency_fill: char,
}

/// The camera's world position, in fixed-point units (see `geometry::SUBCELLS`).
pub struct Camera {
    pub x: i64,
    pub y: i64,
}

/// One drawable node, as the scene hands it over.
///
/// Positions are fixed-point world coordinates. `texture` holds the glyph rows
/// from top to bottom; rows may differ in length. `rotation` is carried along
/// and plays no part in the projection.
pub struct Node {
    pub x: i64,
    pub y: i64,
    pub rotation: i64,
    pub z_index: i32,
    pub texture: Vec<Vec<char>>,
    pub transparency: Option<char>,
    pub color: Option<String>,
    pub visible: bool,
}

/// One cell of the frame: a glyph and the style sequence written before it.
pub struct Cell {
    pub glyph: char,
    pub color: Option<String>,
}

/// What a cell holds, as a mathematical value.
pub type CellView = (char, Option<Seq<char>>);

pub open spec fn color_view(c: Option<String>) -> Option<Seq<char>> {
    match c {
        Some(s) => Some(s@),
        None => None,
    }
}

impl Cell {
    pub open spec fn view(&self) -> CellView {
        (self.glyph, color_view(self.color))
    }
}

pub open spec fn cells_view(cells: Seq<Cell>) -> Seq<CellView> {
    cells.map_values(|c: Cell| c.view())
}

impl Node {
    /// Whether the node takes part in the frame at all.
    pub fn is_globally_visible(&self) -> (r: bool)
        ensures
            r == self.visible,
    {
        self.visible
    }

    /// The glyph at texture row `h`, column `w`, if the texture has one there.
    pub open spec fn glyph_at(&self, h: int, w: int) -> Option<char> {
        if 0 <= h < self.texture@.len() && 0 <= w < self.texture@[h]@.len() {
            Some(self.texture@[h]@[w])
        } else {
            None
        }
    }

    /// Whether the glyph at texture position `(h, w)` is drawn: the node is
    /// visible, the glyph exists, and it is not the node's transparency glyph.
    pub open spec fn draws(&self, h: int, w: int) -> bool {
        self.visible && match self.glyph_at(h, w) {
            Some(g) => self.transparency != Some(g),
            None => false,
        }
    }

    /// What a drawn glyph at `(h, w)` puts into its cell.
    pub open spec fn cell_from(&self, h: int, w: int) -> CellView {
        (self.texture@[h]@[w], color_view(self.color))
    }
}

/// A copy of a style sequence, equal to it.
pub fn copy_color(c: &Option<String>) -> (r: Option<String>)
    ensures
        color_view(r) == color_view(*c),
{
    match c {
        Some(s) => Some(s.clone()),
        None => None,
    }
}

} // verus!
