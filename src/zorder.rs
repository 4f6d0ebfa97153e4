use vstd::prelude::*;

use crate::model::Node;

verus! {

/// Whether node `a` is drawn before node `b`: it has the lower `z_index`, or
/// the same `z_index` and an earlier place in the list.
pub open spec fn draws_before(nodes: Seq<Node>, a: int, b: int) -> bool {
    nodes[a].z_index < nodes[b].z_index || (nodes[a].z_index == nodes[b].z_index && a < b)
}

/// `order` lists every index of `nodes` once, in drawing order.
pub open spec fn is_draw_order(nodes: Seq<Node>, order: Seq<usize>) -> bool {
    &&& order.len() == nodes.len()
    &&& forall|j: int| 0 <= j < order.len() ==> #[trigger] order[j] < nodes.len()
    &&& forall|x: usize| x < nodes.len() ==> #[trigger] order.contains(x)
    &&& forall|i: int, j: int|
        0 <= i < j < order.len() ==> draws_before(nodes, #[trigger] order[i] as int, #[trigger] order[j] as int)
}

/// The indices of `nodes` sorted by `z_index`, lowest first; nodes with equal
/// `z_index` keep their order in the list.
pub fn z_order(nodes: &Vec<Node>) -> (order: Vec<usize>)
    ensures
        is_draw_order(nodes@, order@),
{
    let n: usize = nodes.len();
    let mut order: Vec<usize> = Vec::new();
    let mut i: usize = 0;
    while i < n
        invariant
            n == nodes@.len(),
            i <= n,
            order@.len() == i,
            forall|j: int| 0 <= j < order@.len() ==> #[trigger] order@[j] < i,
            forall|x: usize| x < i ==> #[trigger] order@.contains(x),
            forall|a: int, b: int|
                0 <= a < b < order@.len() ==> draws_before(nodes@, #[trigger] order@[a] as int, #[trigger] order@[b] as int),
        decreases n - i,
    {
        let z: i32 = nodes[i].z_index;
        let mut p: usize = order.len();
        while p > 0 && nodes[order[p - 1]].z_index > z
            invariant
                n == nodes@.len(),
                i < n,
                z == nodes@[i as int].z_index,
                order@.len() == i,
                p <= order@.len(),
                forall|j: int| 0 <= j < order@.len() ==> #[trigger] order@[j] < i,
                forall|q: int| p <= q < order@.len() ==> nodes@[#[trigger] order@[q] as int].z_index > z,
            decreases p,
        {
            p = p - 1;
        }
        let ghost prev = order@;
        proof {
            // Everything left of `p` has a z_index of at most `z`: the entries
            // are sorted and the one just left of `p` does.
            assert forall|q: int| 0 <= q < p implies nodes@[#[trigger] prev[q] as int].z_index <= z by {
                if q < p - 1 {
                    assert(draws_before(nodes@, prev[q] as int, prev[p - 1] as int));
                }
            }
        }
        order.insert(p, i);
        proof {
            let cur = order@;
            assert(cur == prev.insert(p as int, i));
            assert forall|j: int| 0 <= j < cur.len() implies #[trigger] cur[j] < i + 1 by {
                if j > p {
                    assert(cur[j] == prev[j - 1]);
                }
            }
            assert forall|x: usize| x < i + 1 implies #[trigger] cur.contains(x) by {
                if x == i {
                    assert(cur[p as int] == x);
                } else {
                    assert(prev.contains(x));
                    let j0 = choose|j: int| 0 <= j < prev.len() && #[trigger] prev[j] == x;
                    if j0 < p {
                        assert(cur[j0] == x);
                    } else {
                        assert(cur[j0 + 1] == x);
                    }
                }
            }
            assert forall|a: int, b: int| 0 <= a < b < cur.len() implies draws_before(
                nodes@,
                #[trigger] cur[a] as int,
                #[trigger] cur[b] as int,
            ) by {
                if b < p {
                    assert(cur[a] == prev[a] && cur[b] == prev[b]);
                } else if b == p {
                    assert(cur[a] == prev[a]);
                } else if a < p {
                    assert(cur[a] == prev[a] && cur[b] == prev[b - 1]);
                } else if a == p {
                    assert(cur[b] == prev[b - 1]);
                } else {
                    assert(cur[a] == prev[a - 1] && cur[b] == prev[b - 1]);
                }
            }
        }
        i = i + 1;
    }
    order
}

} // verus!
