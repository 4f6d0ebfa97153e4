use vstd::prelude::*;

use crate::compose::{
    anchor_x, anchor_y, composed, lemma_draw_order_shows_top, lemma_paint_seq, paint_seq,
};
use crate::frame::frame_text;
use crate::geometry::{cell_of, floor_to_cell};
use crate::model::{Camera, Node, Screen};
use crate::raster::{FrameBuffer, blank, col_of, paint, row_of};
use crate::zorder::z_order;

verus! {

/// The world point that the camera maps to screen cell `(0, 0)`: its position
/// minus the centering offsets.
pub fn camera_origin(camera: &Camera, centering_x: i64, centering_y: i64) -> (o: (i128, i128))
    ensures
        o.0 == camera.x - centering_x,
        o.1 == camera.y - centering_y,
{
    (camera.x as i128 - centering_x as i128, camera.y as i128 - centering_y as i128)
}

proof fn lemma_cell_of_bounds(v: int)
    requires
        -36893488147419103232 <= v <= 36893488147419103232,
    ensures
        -562949953421312 <= cell_of(v) <= 562949953421312,
{
    vstd::arithmetic::div_mod::lemma_div_is_ordered(v, 36893488147419103232, 65536);
    vstd::arithmetic::div_mod::lemma_div_is_ordered(-36893488147419103232, v, 65536);
}

/// The screen cell `(column, row)` where the top-left glyph of `node` lands,
/// seen through `camera` with the given centering offsets.
pub fn screen_anchor(node: &Node, camera: &Camera, centering_x: i64, centering_y: i64) -> (a: (i64, i64))
    ensures
        a.0 == anchor_x(*node, camera.x - centering_x),
        a.1 == anchor_y(*node, camera.y - centering_y),
{
    let (ox, oy) = camera_origin(camera, centering_x, centering_y);
    let ax: i128 = floor_to_cell(node.x as i128 - ox);
    let ay: i128 = floor_to_cell(node.y as i128 - oy);
    proof {
        lemma_cell_of_bounds(node.x - ox);
        lemma_cell_of_bounds(node.y - oy);
    }
    (ax as i64, ay as i64)
}

/// The text of the frame that `screen` shows of `nodes` through `camera`.
pub open spec fn rendered_text(
    screen: Screen,
    nodes: Seq<Node>,
    camera: Camera,
    centering_x: i64,
    centering_y: i64,
) -> Seq<char> {
    frame_text(
        composed(
            nodes,
            screen.width as int,
            screen.height as int,
            screen.transparency_fill,
            camera.x - centering_x,
            camera.y - centering_y,
        ),
        screen.width as int,
        screen.height as int,
    )
}

/// Renders one frame of `screen` as seen through `camera`.
///
/// Every cell starts as the screen's fill character with no color. The
/// nodes are drawn in order of `z_index`, lowest first and, for equal
/// `z_index`, in list order; each visible node writes its non-transparent
/// glyphs over whatever lies beneath, and glyphs that fall off the screen
/// are dropped. The result is the frame's rows joined by `\n`, each cell
/// written as the reset sequence, the cell's color sequence if any, and its
/// glyph.
pub fn render_all(
    screen: &Screen,
    nodes: &Vec<Node>,
    camera: &Camera,
    camera_centering_x: i64,
    camera_centering_y: i64,
) -> (text: String)
    requires
        screen.width as int * screen.height as int <= usize::MAX,
    ensures
        text@ == rendered_text(*screen, nodes@, *camera, camera_centering_x, camera_centering_y),
{
    let ghost width: int = screen.width as int;
    let ghost height = screen.height as int;
    let ghost ox: int = camera.x - camera_centering_x;
    let ghost oy: int = camera.y - camera_centering_y;
    let ghost start = blank(width, height, screen.transparency_fill);
    let order: Vec<usize> = z_order(nodes);
    let mut buf = FrameBuffer::new(screen.width, screen.height, screen.transparency_fill);
    let mut i: usize = 0;
    while i < order.len()
        invariant
            ox == camera.x - camera_centering_x,
            oy == camera.y - camera_centering_y,
            width == screen.width,
            height == screen.height,
            start == blank(width, height, screen.transparency_fill),
            buf.wf(),
            buf.width == width,
            buf.height == height,
            i <= order@.len(),
            order@.len() == nodes@.len(),
            forall|j: int| 0 <= j < order@.len() ==> #[trigger] order@[j] < nodes@.len(),
            buf.view() == paint_seq(start, width, nodes@, order@.subrange(0, i as int), ox, oy),
        decreases order@.len() - i,
    {
        let ghost before = buf.view();
        let k: usize = order[i];
        let node: &Node = &nodes[k];
        let anchor: (i64, i64) = screen_anchor(node, camera, camera_centering_x, camera_centering_y);
        let ax: i64 = anchor.0;
        let ay: i64 = anchor.1;
        buf.paint_node(node, ax, ay);
        proof {
            let upto = order@.subrange(0, i + 1);
            assert(upto.drop_last() =~= order@.subrange(0, i as int));
            assert(upto.last() == k);
            assert(*node == nodes@[k as int]);
            assert(paint_seq(start, width, nodes@, upto, ox, oy) == paint(
                before,
                width,
                nodes@[k as int],
                anchor_x(nodes@[k as int], ox),
                anchor_y(nodes@[k as int], oy),
            ));
        }
        i = i + 1;
    }
    proof {
        assert(order@.subrange(0, i as int) =~= order@);
        let target = composed(nodes@, width, height, screen.transparency_fill, ox, oy);
        assert forall|k: int| 0 <= k < target.len() implies #[trigger] buf.view()[k] == target[k] by {
            lemma_paint_seq(start, width, nodes@, order@, ox, oy, k);
            lemma_draw_order_shows_top(nodes@, order@, ox, oy, row_of(k, width), col_of(k, width));
        }
        assert(buf.view() =~= target);
    }
    buf.to_text()
}

} // verus!
