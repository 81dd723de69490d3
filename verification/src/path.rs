//! Shortest-path search for the editor's mouse routing: a breadth-first
//! search over the grid that avoids non-playable cells and cells already
//! carrying the layer being routed, except at the two endpoints.

use vstd::prelude::*;

use crate::circuit::{cell_index, in_grid, Circuit, Layer, Silicon, GRID_HEIGHT, GRID_WIDTH};
use crate::edit::{is_neighbour, is_playable, spec_playable};
use crate::sim::{count_true, lemma_count_bounds, lemma_count_update, subsumed};

verus! {

/// The search state invariant: every parent pointer names an adjacent,
/// visited in-grid cell one step shallower, every visited cell but the
/// start has one, and depths stay below the number of visited cells.
pub open spec fn search_wf(
    visited: Seq<bool>,
    parent: Seq<Option<(usize, usize)>>,
    depth: Seq<usize>,
    start: (usize, usize),
) -> bool {
    &&& in_grid(start.0 as int, start.1 as int)
    &&& visited.len() == GRID_WIDTH * GRID_HEIGHT
    &&& parent.len() == GRID_WIDTH * GRID_HEIGHT
    &&& depth.len() == GRID_WIDTH * GRID_HEIGHT
    &&& forall|x: int, y: int|
        in_grid(x, y) && visited[cell_index(x, y)] && !(x == start.0 && y == start.1) ==> (
        #[trigger] parent[cell_index(x, y)]) is Some
    &&& parent[cell_index(start.0 as int, start.1 as int)] is None
    &&& visited[cell_index(start.0 as int, start.1 as int)]
    &&& forall|x: int, y: int|
        (in_grid(x, y) && (#[trigger] parent[cell_index(x, y)]) is Some) ==> {
            let p = parent[cell_index(x, y)]->Some_0;
            &&& in_grid(p.0 as int, p.1 as int)
            &&& is_neighbour(p.0 as int, p.1 as int, x, y)
            &&& visited[cell_index(x, y)]
            &&& visited[cell_index(p.0 as int, p.1 as int)]
            &&& depth[cell_index(p.0 as int, p.1 as int)] + 1 == depth[cell_index(x, y)]
        }
    &&& forall|x: int, y: int|
        in_grid(x, y) && visited[#[trigger] cell_index(x, y)] ==> depth[cell_index(x, y)]
            < count_true(visited)
}

/// Whether a cell already carries the routed layer's material: such cells
/// block the route (the endpoints excepted).
pub open spec fn spec_blocked(c: Circuit, layer: Layer, x: int, y: int) -> bool {
    match layer {
        Layer::Metal => c.node_at(x, y).metal,
        Layer::NSilicon => !(c.node_at(x, y).silicon is Empty),
        Layer::PSilicon => !(c.node_at(x, y).silicon is Empty),
    }
}

/// What the search demands of every cell it steps through, other than the
/// start: the cell is playable and free of the routed layer's material,
/// except that the end cell is always allowed.
pub open spec fn route_cell_allowed(
    c: Circuit,
    layer: Layer,
    cell: (usize, usize),
    end: (usize, usize),
) -> bool {
    &&& (spec_playable(cell.0 as int, cell.1 as int) || cell == end)
    &&& (!spec_blocked(c, layer, cell.0 as int, cell.1 as int) || cell == end)
}

/// Whether every visited cell but the start met the search's admission
/// test.
pub open spec fn visited_allowed(
    c: Circuit,
    layer: Layer,
    visited: Seq<bool>,
    start: (usize, usize),
    end: (usize, usize),
) -> bool {
    forall|x: int, y: int|
        in_grid(x, y) && visited[#[trigger] cell_index(x, y)] && !(x == start.0 && y == start.1)
            ==> route_cell_allowed(c, layer, ((x as usize), (y as usize)), end)
}

/// Find a path between two grid points by breadth-first search, stepping
/// only through playable cells not yet carrying the routed layer (the two
/// endpoints themselves are always allowed).  The result runs from `start`
/// to `end` through adjacent in-grid cells, or is empty when no route
/// exists.
#[verifier::rlimit(100)]
pub fn find_path(
    start: (usize, usize),
    end: (usize, usize),
    circuit: &Circuit,
    layer: Layer,
) -> (path: Vec<(usize, usize)>)
    requires
        circuit.wf(),
        in_grid(start.0 as int, start.1 as int),
        in_grid(end.0 as int, end.1 as int),
    ensures
        forall|i: int|
            0 <= i < path@.len() ==> in_grid(
                (#[trigger] path@[i]).0 as int,
                path@[i].1 as int,
            ),
        forall|i: int|
            0 < i < path@.len() ==> is_neighbour(
                (#[trigger] path@[i]).0 as int,
                path@[i].1 as int,
                path@[i - 1].0 as int,
                path@[i - 1].1 as int,
            ),
        path@.len() > 0 ==> path@[0] == start && path@.last() == end,
        // every cell the route steps through is playable and free of the
        // routed layer's material, the end cell excepted
        forall|i: int|
            0 < i < path@.len() ==> route_cell_allowed(
                *circuit,
                layer,
                #[trigger] path@[i],
                end,
            ),
        start == end ==> path@.len() == 1,
{
    if start.0 == end.0 && start.1 == end.1 {
        let mut path: Vec<(usize, usize)> = Vec::new();
        path.push(start);
        return path;
    }
    let n = GRID_WIDTH * GRID_HEIGHT;
    let mut visited: Vec<bool> = Vec::new();
    let mut parent: Vec<Option<(usize, usize)>> = Vec::new();
    let mut depth: Vec<usize> = Vec::new();
    let mut i: usize = 0;
    while i < n
        invariant
            n == GRID_WIDTH * GRID_HEIGHT,
            i <= n,
            visited@.len() == i,
            parent@.len() == i,
            depth@.len() == i,
            forall|j: int| 0 <= j < i ==> !(#[trigger] visited@[j]),
            forall|j: int| 0 <= j < i ==> (#[trigger] parent@[j]) is None,
            forall|j: int| 0 <= j < i ==> (#[trigger] depth@[j]) == 0,
        decreases n - i,
    {
        visited.push(false);
        parent.push(None);
        depth.push(0);
        i = i + 1;
    }
    let mut queue: Vec<(usize, usize)> = Vec::new();
    queue.push(start);
    let ghost vpre = visited@;
    visited[start.1 * GRID_WIDTH + start.0] = true;
    proof {
        lemma_count_update(vpre, cell_index(start.0 as int, start.1 as int));
        lemma_count_bounds(vpre);
        assert forall|x: int, y: int|
            in_grid(x, y) && visited@[#[trigger] cell_index(x, y)] implies depth@[cell_index(
            x,
            y,
        )] < count_true(visited@) by {
            assert(count_true(visited@) >= 1);
        }
        assert forall|x: int, y: int|
            in_grid(x, y) && visited@[#[trigger] cell_index(x, y)] && !(x == start.0 && y
                == start.1) implies route_cell_allowed(
            *circuit,
            layer,
            ((x as usize), (y as usize)),
            end,
        ) by {
            assert(!vpre[cell_index(x, y)]);
        }
    }
    let mut head: usize = 0;
    while head < queue.len()
        invariant
            circuit.wf(),
            n == GRID_WIDTH * GRID_HEIGHT,
            in_grid(start.0 as int, start.1 as int),
            in_grid(end.0 as int, end.1 as int),
            !(start.0 == end.0 && start.1 == end.1),
            head <= queue@.len(),
            search_wf(visited@, parent@, depth@, start),
            visited_allowed(*circuit, layer, visited@, start, end),
            forall|k: int|
                0 <= k < queue@.len() ==> in_grid(
                    (#[trigger] queue@[k]).0 as int,
                    queue@[k].1 as int,
                ),
            forall|k: int|
                0 <= k < queue@.len() ==> visited@[cell_index(
                    (#[trigger] queue@[k]).0 as int,
                    queue@[k].1 as int,
                )],
        decreases n - count_true(visited@), queue@.len() - head,
    {
        let (x, y) = queue[head];
        if x == end.0 && y == end.1 {
            // walk the parent chain back to the start
            let mut rev: Vec<(usize, usize)> = Vec::new();
            let mut cur = (x, y);
            rev.push(cur);
            while parent[cur.1 * GRID_WIDTH + cur.0].is_some()
                invariant
                    n == GRID_WIDTH * GRID_HEIGHT,
                    search_wf(visited@, parent@, depth@, start),
                    in_grid(cur.0 as int, cur.1 as int),
                    visited@[cell_index(cur.0 as int, cur.1 as int)],
                    rev@.len() > 0,
                    rev@[0] == (x, y),
                    rev@.last() == cur,
                    forall|k: int|
                        0 <= k < rev@.len() ==> in_grid(
                            (#[trigger] rev@[k]).0 as int,
                            rev@[k].1 as int,
                        ),
                    forall|k: int|
                        0 <= k < rev@.len() ==> visited@[cell_index(
                            (#[trigger] rev@[k]).0 as int,
                            rev@[k].1 as int,
                        )],
                    forall|k: int| 0 <= k < rev@.len() - 1 ==> #[trigger] rev@[k] != start,
                    forall|k: int|
                        0 < k < rev@.len() ==> is_neighbour(
                            (#[trigger] rev@[k]).0 as int,
                            rev@[k].1 as int,
                            rev@[k - 1].0 as int,
                            rev@[k - 1].1 as int,
                        ),
                decreases depth@[cell_index(cur.0 as int, cur.1 as int)],
            {
                let p = parent[cur.1 * GRID_WIDTH + cur.0].unwrap();
                cur = p;
                rev.push(cur);
            }
            proof {
                assert(cur == start);
            }
            let mut path: Vec<(usize, usize)> = Vec::new();
            let mut k = rev.len();
            while k > 0
                invariant
                    circuit.wf(),
                    visited_allowed(*circuit, layer, visited@, start, end),
                    search_wf(visited@, parent@, depth@, start),
                    rev@.len() > 0,
                    k <= rev@.len(),
                    path@.len() == rev@.len() - k,
                    rev@[0] == (x, y),
                    rev@.last() == start,
                    forall|j: int|
                        0 <= j < rev@.len() ==> in_grid(
                            (#[trigger] rev@[j]).0 as int,
                            rev@[j].1 as int,
                        ),
                    forall|j: int|
                        0 <= j < rev@.len() ==> visited@[cell_index(
                            (#[trigger] rev@[j]).0 as int,
                            rev@[j].1 as int,
                        )],
                    forall|j: int| 0 <= j < rev@.len() - 1 ==> #[trigger] rev@[j] != start,
                    forall|j: int|
                        0 < j < rev@.len() ==> is_neighbour(
                            (#[trigger] rev@[j]).0 as int,
                            rev@[j].1 as int,
                            rev@[j - 1].0 as int,
                            rev@[j - 1].1 as int,
                        ),
                    forall|j: int|
                        0 <= j < path@.len() ==> #[trigger] path@[j] == rev@[rev@.len() - 1 - j],
                decreases k,
            {
                k = k - 1;
                let cell = rev[k];
                path.push(cell);
            }
            proof {
                assert(path@[0] == rev@[rev@.len() - 1]);
                assert(path@.last() == rev@[0]);
                assert((x, y) == end);
                assert forall|i: int| 0 < i < path@.len() implies route_cell_allowed(
                    *circuit,
                    layer,
                    #[trigger] path@[i],
                    end,
                ) by {
                    let j = rev@.len() - 1 - i;
                    assert(path@[i] == rev@[j]);
                    assert(rev@[j] != start);
                    assert(visited@[cell_index(rev@[j].0 as int, rev@[j].1 as int)]);
                }
            }
            return path;
        }
        let ghost v0 = visited@;
        let ghost q0 = queue@;
        let cur_depth = depth[y * GRID_WIDTH + x];
        if x > 0 {
            try_visit(
                circuit,
                layer,
                &mut visited,
                &mut parent,
                &mut depth,
                &mut queue,
                x,
                y,
                x - 1,
                y,
                start,
                end,
                cur_depth,
            );
        }
        if x + 1 < GRID_WIDTH {
            try_visit(
                circuit,
                layer,
                &mut visited,
                &mut parent,
                &mut depth,
                &mut queue,
                x,
                y,
                x + 1,
                y,
                start,
                end,
                cur_depth,
            );
        }
        if y > 0 {
            try_visit(
                circuit,
                layer,
                &mut visited,
                &mut parent,
                &mut depth,
                &mut queue,
                x,
                y,
                x,
                y - 1,
                start,
                end,
                cur_depth,
            );
        }
        if y + 1 < GRID_HEIGHT {
            try_visit(
                circuit,
                layer,
                &mut visited,
                &mut parent,
                &mut depth,
                &mut queue,
                x,
                y,
                x,
                y + 1,
                start,
                end,
                cur_depth,
            );
        }
        proof {
            lemma_count_bounds(visited@);
            crate::sim::lemma_subsumed_trans(v0, v0, visited@);
            if count_true(visited@) == count_true(v0) {
                assert(queue@ == q0);
            }
        }
        head = head + 1;
    }
    Vec::new()
}

/// Try to extend the search across one grid step: mark the neighbour,
/// record its parent and depth, and enqueue it, when the step is allowed;
/// otherwise change nothing.
#[verifier::rlimit(100)]
fn try_visit(
    circuit: &Circuit,
    layer: Layer,
    visited: &mut Vec<bool>,
    parent: &mut Vec<Option<(usize, usize)>>,
    depth: &mut Vec<usize>,
    queue: &mut Vec<(usize, usize)>,
    x: usize,
    y: usize,
    nx: usize,
    ny: usize,
    start: (usize, usize),
    end: (usize, usize),
    cur_depth: usize,
)
    requires
        circuit.wf(),
        in_grid(x as int, y as int),
        in_grid(nx as int, ny as int),
        is_neighbour(nx as int, ny as int, x as int, y as int),
        search_wf(old(visited)@, old(parent)@, old(depth)@, start),
        old(visited)@[cell_index(x as int, y as int)],
        cur_depth == old(depth)@[cell_index(x as int, y as int)],
        forall|k: int|
            0 <= k < old(queue)@.len() ==> in_grid(
                (#[trigger] old(queue)@[k]).0 as int,
                old(queue)@[k].1 as int,
            ),
        forall|k: int|
            0 <= k < old(queue)@.len() ==> old(visited)@[cell_index(
                (#[trigger] old(queue)@[k]).0 as int,
                old(queue)@[k].1 as int,
            )],
        visited_allowed(*circuit, layer, old(visited)@, start, end),
    ensures
        search_wf(final(visited)@, final(parent)@, final(depth)@, start),
        visited_allowed(*circuit, layer, final(visited)@, start, end),
        subsumed(old(visited)@, final(visited)@),
        final(visited)@.len() == old(visited)@.len(),
        count_true(old(visited)@) <= count_true(final(visited)@),
        (final(visited)@ == old(visited)@ && final(parent)@ == old(parent)@ && final(depth)@
            == old(depth)@ && final(queue)@ == old(queue)@) || count_true(final(visited)@)
            > count_true(old(visited)@),
        final(queue)@.len() >= old(queue)@.len(),
        forall|k: int|
            0 <= k < final(queue)@.len() ==> in_grid(
                (#[trigger] final(queue)@[k]).0 as int,
                final(queue)@[k].1 as int,
            ),
        forall|k: int|
            0 <= k < final(queue)@.len() ==> final(visited)@[cell_index(
                (#[trigger] final(queue)@[k]).0 as int,
                final(queue)@[k].1 as int,
            )],
        final(visited)@[cell_index(x as int, y as int)],
        final(depth)@[cell_index(x as int, y as int)] == cur_depth,
{
    let ni = ny * GRID_WIDTH + nx;
    if visited[ni] {
        return;
    }
    let in_nonplayable = !is_playable(nx, ny) && !(nx == start.0 && ny == start.1) && !(nx == end.0
        && ny == end.1);
    let blocked = match circuit.get_node(nx, ny) {
        Some(node) => match layer {
            Layer::NSilicon => !matches!(node.silicon, Silicon::Empty),
            Layer::PSilicon => !matches!(node.silicon, Silicon::Empty),
            Layer::Metal => node.metal,
        },
        None => true,
    };
    if !in_nonplayable && (!blocked || (nx == end.0 && ny == end.1)) {
        let ghost vp = visited@;
        let ghost pp = parent@;
        let ghost dp = depth@;
        proof {
            lemma_count_bounds(vp);
        }
        visited[ni] = true;
        parent[ni] = Some((x, y));
        depth[ni] = cur_depth + 1;
        queue.push((nx, ny));
        proof {
            lemma_mark_keeps_search_wf(vp, pp, dp, start, x as int, y as int, nx as int, ny as int);
            assert(visited@ == vp.update(cell_index(nx as int, ny as int), true));
            assert(parent@ == pp.update(cell_index(nx as int, ny as int), Some((x, y))));
            assert(depth@ == dp.update(cell_index(nx as int, ny as int), (cur_depth + 1) as usize));
            assert forall|cx: int, cy: int|
                in_grid(cx, cy) && visited@[#[trigger] cell_index(cx, cy)] && !(cx == start.0 && cy
                    == start.1) implies route_cell_allowed(
                *circuit,
                layer,
                ((cx as usize), (cy as usize)),
                end,
            ) by {
                if cell_index(cx, cy) != cell_index(nx as int, ny as int) {
                    assert(vp[cell_index(cx, cy)]);
                } else {
                    assert(cx == nx && cy == ny);
                    assert(((cx as usize), (cy as usize)) == (nx, ny));
                }
            }
        }
    }
}

/// Marking one unvisited neighbour, with its parent pointer and depth,
/// keeps the search state well-formed and raises the visited count by one.
#[verifier::rlimit(100)]
proof fn lemma_mark_keeps_search_wf(
    visited: Seq<bool>,
    parent: Seq<Option<(usize, usize)>>,
    depth: Seq<usize>,
    start: (usize, usize),
    x: int,
    y: int,
    nx: int,
    ny: int,
)
    requires
        search_wf(visited, parent, depth, start),
        in_grid(x, y),
        in_grid(nx, ny),
        is_neighbour(nx, ny, x, y),
        visited[cell_index(x, y)],
        !visited[cell_index(nx, ny)],
        depth[cell_index(x, y)] + 1 <= usize::MAX,
    ensures
        search_wf(
            visited.update(cell_index(nx, ny), true),
            parent.update(cell_index(nx, ny), Some(((x as usize), (y as usize)))),
            depth.update(cell_index(nx, ny), (depth[cell_index(x, y)] + 1) as usize),
            start,
        ),
        count_true(visited.update(cell_index(nx, ny), true)) == count_true(visited) + 1,
{
    let ni = cell_index(nx, ny);
    let v2 = visited.update(ni, true);
    let p2 = parent.update(ni, Some(((x as usize), (y as usize))));
    let d2 = depth.update(ni, (depth[cell_index(x, y)] + 1) as usize);
    lemma_count_update(visited, ni);
    lemma_count_bounds(visited);
    assert(cell_index(start.0 as int, start.1 as int) != ni);
    assert(p2[cell_index(start.0 as int, start.1 as int)] == parent[cell_index(
        start.0 as int,
        start.1 as int,
    )]);
    assert(v2[cell_index(start.0 as int, start.1 as int)] == visited[cell_index(
        start.0 as int,
        start.1 as int,
    )]);
    assert forall|cx: int, cy: int|
        in_grid(cx, cy) && v2[#[trigger] cell_index(cx, cy)] implies d2[cell_index(cx, cy)]
        < count_true(v2) by {
        if cell_index(cx, cy) != ni {
            assert(visited[cell_index(cx, cy)]);
        }
    }
    assert forall|cx: int, cy: int|
        in_grid(cx, cy) && v2[cell_index(cx, cy)] && !(cx == start.0 && cy == start.1) implies (
        #[trigger] p2[cell_index(cx, cy)]) is Some by {
        if cell_index(cx, cy) != ni {
            assert(visited[cell_index(cx, cy)]);
            assert(parent[cell_index(cx, cy)] is Some);
        }
    }
    assert forall|cx: int, cy: int|
        (in_grid(cx, cy) && (#[trigger] p2[cell_index(cx, cy)]) is Some) implies ({
        let p = p2[cell_index(cx, cy)]->Some_0;
        &&& in_grid(p.0 as int, p.1 as int)
        &&& is_neighbour(p.0 as int, p.1 as int, cx, cy)
        &&& v2[cell_index(cx, cy)]
        &&& v2[cell_index(p.0 as int, p.1 as int)]
        &&& d2[cell_index(p.0 as int, p.1 as int)] + 1 == d2[cell_index(cx, cy)]
    }) by {
        if cell_index(cx, cy) != ni {
            assert(parent[cell_index(cx, cy)] == p2[cell_index(cx, cy)]);
            let p = p2[cell_index(cx, cy)]->Some_0;
            assert(visited[cell_index(p.0 as int, p.1 as int)]);
            assert(cell_index(p.0 as int, p.1 as int) != ni);
        } else {
            assert(cell_index(x, y) != ni);
        }
    }
}

} // verus!