use vstd::prelude::*;

use crate::geometry::cell_of;
use crate::model::{CellView, Node};
use crate::raster::{col_of, paint, row_of};
use crate::zorder::{draws_before, is_draw_order};

verus! {

/// The screen column of a node's left-most glyph, for a camera origin at
/// fixed-point x coordinate `ox`.
pub open spec fn anchor_x(node: Node, ox: int) -> int {
    cell_of(node.x - ox)
}

/// The screen row of a node's top glyph row, for a camera origin at
/// fixed-point y coordinate `oy`.
pub open spec fn anchor_y(node: Node, oy: int) -> int {
    cell_of(node.y - oy)
}

/// Whether `node` draws a glyph on screen cell `(r, c)` (row, column).
pub open spec fn covers(node: Node, ox: int, oy: int, r: int, c: int) -> bool {
    node.draws(r - anchor_y(node, oy), c - anchor_x(node, ox))
}

/// What `node` puts on screen cell `(r, c)` when it covers it.
pub open spec fn glyph_cell(node: Node, ox: int, oy: int, r: int, c: int) -> CellView {
    node.cell_from(r - anchor_y(node, oy), c - anchor_x(node, ox))
}

/// Among the first `n` nodes, the one that shows on cell `(r, c)`: of those
/// that cover the cell, the one with the highest `z_index`, and of several
/// such, the last in the list.
pub open spec fn top(nodes: Seq<Node>, n: int, ox: int, oy: int, r: int, c: int) -> Option<int>
    decreases n,
{
    if n <= 0 {
        None
    } else {
        let below = top(nodes, n - 1, ox, oy, r, c);
        if covers(nodes[n - 1], ox, oy, r, c) {
            match below {
                Some(t) => if nodes[t].z_index > nodes[n - 1].z_index {
                    Some(t)
                } else {
                    Some(n - 1)
                },
                None => Some(n - 1),
            }
        } else {
            below
        }
    }
}

/// The content of cell `(r, c)` once every node has been drawn.
pub open spec fn composed_cell(nodes: Seq<Node>, fill: char, ox: int, oy: int, r: int, c: int) -> CellView {
    match top(nodes, nodes.len() as int, ox, oy, r, c) {
        Some(i) => glyph_cell(nodes[i], ox, oy, r, c),
        None => (fill, None),
    }
}

/// The whole frame, row by row, once every node has been drawn.
pub open spec fn composed(
    nodes: Seq<Node>,
    width: int,
    height: int,
    fill: char,
    ox: int,
    oy: int,
) -> Seq<CellView> {
    Seq::new(
        (width * height) as nat,
        |k: int| composed_cell(nodes, fill, ox, oy, row_of(k, width), col_of(k, width)),
    )
}

/// `cells` after the nodes listed in `order` have been drawn one after the
/// other, each over what the ones before it left.
pub open spec fn paint_seq(
    cells: Seq<CellView>,
    width: int,
    nodes: Seq<Node>,
    order: Seq<usize>,
    ox: int,
    oy: int,
) -> Seq<CellView>
    decreases order.len(),
{
    if order.len() == 0 {
        cells
    } else {
        let i = order.last() as int;
        paint(
            paint_seq(cells, width, nodes, order.drop_last(), ox, oy),
            width,
            nodes[i],
            anchor_x(nodes[i], ox),
            anchor_y(nodes[i], oy),
        )
    }
}

/// The last node of `order` that covers cell `(r, c)`.
pub open spec fn last_cover(nodes: Seq<Node>, order: Seq<usize>, ox: int, oy: int, r: int, c: int) -> Option<int>
    decreases order.len(),
{
    if order.len() == 0 {
        None
    } else if covers(nodes[order.last() as int], ox, oy, r, c) {
        Some(order.last() as int)
    } else {
        last_cover(nodes, order.drop_last(), ox, oy, r, c)
    }
}

/// Drawing a sequence of nodes leaves each cell to the last of them that
/// covers it, and untouched where none does.
pub proof fn lemma_paint_seq(
    cells: Seq<CellView>,
    width: int,
    nodes: Seq<Node>,
    order: Seq<usize>,
    ox: int,
    oy: int,
    k: int,
)
    requires
        0 <= k < cells.len(),
    ensures
        paint_seq(cells, width, nodes, order, ox, oy).len() == cells.len(),
        paint_seq(cells, width, nodes, order, ox, oy)[k] == match last_cover(
            nodes,
            order,
            ox,
            oy,
            row_of(k, width),
            col_of(k, width),
        ) {
            Some(i) => glyph_cell(nodes[i], ox, oy, row_of(k, width), col_of(k, width)),
            None => cells[k],
        },
    decreases order.len(),
{
    if order.len() > 0 {
        lemma_paint_seq(cells, width, nodes, order.drop_last(), ox, oy, k);
    }
}

/// `top` picks a covering node that is drawn after every other covering node.
pub proof fn lemma_top_is_last_drawn(nodes: Seq<Node>, n: int, ox: int, oy: int, r: int, c: int)
    requires
        0 <= n <= nodes.len(),
    ensures
        match top(nodes, n, ox, oy, r, c) {
            Some(t) => {
                &&& 0 <= t < n
                &&& covers(nodes[t], ox, oy, r, c)
                &&& forall|j: int|
                    0 <= j < n && j != t && #[trigger] covers(nodes[j], ox, oy, r, c) ==> draws_before(nodes, j, t)
            },
            None => forall|j: int| 0 <= j < n ==> !#[trigger] covers(nodes[j], ox, oy, r, c),
        },
    decreases n,
{
    if n > 0 {
        lemma_top_is_last_drawn(nodes, n - 1, ox, oy, r, c);
    }
}

/// In an order sorted by `draws_before`, the last covering node is drawn
/// after every other covering node of the order.
pub proof fn lemma_last_cover_sorted(nodes: Seq<Node>, order: Seq<usize>, ox: int, oy: int, r: int, c: int)
    requires
        forall|a: int, b: int|
            0 <= a < b < order.len() ==> draws_before(nodes, #[trigger] order[a] as int, #[trigger] order[b] as int),
    ensures
        match last_cover(nodes, order, ox, oy, r, c) {
            Some(t) => {
                &&& order.contains(t as usize)
                &&& t == t as usize
                &&& covers(nodes[t], ox, oy, r, c)
                &&& forall|q: int|
                    0 <= q < order.len() && order[q] != t && #[trigger] covers(nodes[order[q] as int], ox, oy, r, c)
                        ==> draws_before(nodes, order[q] as int, t)
            },
            None => forall|q: int| 0 <= q < order.len() ==> !#[trigger] covers(nodes[order[q] as int], ox, oy, r, c),
        },
    decreases order.len(),
{
    if order.len() > 0 {
        let rest = order.drop_last();
        assert forall|a: int, b: int| 0 <= a < b < rest.len() implies draws_before(
            nodes,
            #[trigger] rest[a] as int,
            #[trigger] rest[b] as int,
        ) by {
            assert(rest[a] == order[a] && rest[b] == order[b]);
        }
        lemma_last_cover_sorted(nodes, rest, ox, oy, r, c);
        let last = order.len() - 1;
        if covers(nodes[order.last() as int], ox, oy, r, c) {
            assert(order[last] == order.last());
            assert forall|q: int|
                0 <= q < order.len() && order[q] != order.last() && #[trigger] covers(
                    nodes[order[q] as int],
                    ox,
                    oy,
                    r,
                    c,
                ) implies draws_before(nodes, order[q] as int, order.last() as int) by {
                assert(q != last);
            }
        } else {
            match last_cover(nodes, rest, ox, oy, r, c) {
                Some(t) => {
                    let j = choose|j: int| 0 <= j < rest.len() && rest[j] == t as usize;
                    assert(order[j] == t as usize);
                    assert forall|q: int|
                        0 <= q < order.len() && order[q] != t && #[trigger] covers(
                            nodes[order[q] as int],
                            ox,
                            oy,
                            r,
                            c,
                        ) implies draws_before(nodes, order[q] as int, t) by {
                        assert(q != last);
                        assert(rest[q] == order[q]);
                    }
                },
                None => {
                    assert forall|q: int| 0 <= q < order.len() implies !#[trigger] covers(
                        nodes[order[q] as int],
                        ox,
                        oy,
                        r,
                        c,
                    ) by {
                        if q != last {
                            assert(rest[q] == order[q]);
                        }
                    }
                },
            }
        }
    }
}

/// Drawing the nodes in drawing order leaves on each cell what `top` names.
pub proof fn lemma_draw_order_shows_top(nodes: Seq<Node>, order: Seq<usize>, ox: int, oy: int, r: int, c: int)
    requires
        is_draw_order(nodes, order),
        nodes.len() <= usize::MAX,
    ensures
        last_cover(nodes, order, ox, oy, r, c) == top(nodes, nodes.len() as int, ox, oy, r, c),
{
    let n = nodes.len() as int;
    lemma_top_is_last_drawn(nodes, n, ox, oy, r, c);
    lemma_last_cover_sorted(nodes, order, ox, oy, r, c);
    match top(nodes, n, ox, oy, r, c) {
        Some(t) => {
            assert(order.contains(t as usize));
            let q = choose|q: int| 0 <= q < order.len() && order[q] == t as usize;
            assert(covers(nodes[order[q] as int], ox, oy, r, c));
            match last_cover(nodes, order, ox, oy, r, c) {
                Some(u) => {
                    let p = choose|p: int| 0 <= p < order.len() && order[p] == u as usize;
                    assert(order[p] < n);
                    if u != t {
                        assert(draws_before(nodes, u, t));
                        assert(draws_before(nodes, t, u));
                    }
                },
                None => {},
            }
        },
        None => {
            match last_cover(nodes, order, ox, oy, r, c) {
                Some(u) => {
                    let p = choose|p: int| 0 <= p < order.len() && order[p] == u as usize;
                    assert(order[p] < n);
                },
                None => {},
            }
        },
    }
}

} // verus!
