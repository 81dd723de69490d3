//! Rectangular circuit snippets: copying a region out of the grid,
//! rotating it, pasting it back, and loading a whole saved design.

use vstd::prelude::*;

use crate::circuit::{edge_slot, in_grid, Circuit, Edge, Layer, Node, GRID_HEIGHT, GRID_WIDTH};
use crate::edit::spec_playable;
use crate::pins::{all_pins_wf, setup_pins, slot_in_pins, spec_pin_cell, Pin};

verus! {

/// A saved design snippet: a named rectangular region of nodes and edges,
/// stored in rows relative to its top-left corner.
pub struct Snippet {
    pub name: String,
    pub width: usize,
    pub height: usize,
    pub nodes: Vec<Vec<Node>>,
    pub h_edges: Vec<Vec<Edge>>,
    pub v_edges: Vec<Vec<Edge>>,
}

impl Snippet {
    /// The representation invariant: a non-empty rectangle whose rows have
    /// their full sizes.
    pub open spec fn wf(self) -> bool {
        &&& 1 <= self.width
        &&& 1 <= self.height
        &&& self.nodes@.len() == self.height
        &&& forall|r: int| 0 <= r < self.height ==> (#[trigger] self.nodes@[r])@.len() == self.width
        &&& self.h_edges@.len() == self.height
        &&& forall|r: int|
            0 <= r < self.height ==> (#[trigger] self.h_edges@[r])@.len() == self.width - 1
        &&& self.v_edges@.len() == self.height - 1
        &&& forall|r: int|
            0 <= r < self.height - 1 ==> (#[trigger] self.v_edges@[r])@.len() == self.width
    }

    /// The node at `(sx, sy)` of the snippet.
    pub open spec fn node_at(self, sx: int, sy: int) -> Node {
        self.nodes@[sy]@[sx]
    }

    /// The edge between `(sx, sy)` and `(sx + 1, sy)` of the snippet.
    pub open spec fn h_edge_at(self, sx: int, sy: int) -> Edge {
        self.h_edges@[sy]@[sx]
    }

    /// The edge between `(sx, sy)` and `(sx, sy + 1)` of the snippet.
    pub open spec fn v_edge_at(self, sx: int, sy: int) -> Edge {
        self.v_edges@[sy]@[sx]
    }
}

/// Copy the rectangular region with corners `(x1, y1)` and `(x2, y2)`,
/// inclusive, into a named snippet.
pub fn yank_region(
    circuit: &Circuit,
    x1: usize,
    y1: usize,
    x2: usize,
    y2: usize,
    name: String,
) -> (r: Snippet)
    requires
        circuit.wf(),
        x1 <= x2 < GRID_WIDTH,
        y1 <= y2 < GRID_HEIGHT,
    ensures
        r.wf(),
        r.name@ == name@,
        r.width == x2 - x1 + 1,
        r.height == y2 - y1 + 1,
        forall|sx: int, sy: int|
            0 <= sx < r.width && 0 <= sy < r.height ==> #[trigger] r.node_at(sx, sy)
                == circuit.node_at(x1 + sx, y1 + sy),
        forall|sx: int, sy: int|
            0 <= sx < r.width - 1 && 0 <= sy < r.height ==> #[trigger] r.h_edge_at(sx, sy)
                == circuit.h_edge_at(x1 + sx, y1 + sy),
        forall|sx: int, sy: int|
            0 <= sx < r.width && 0 <= sy < r.height - 1 ==> #[trigger] r.v_edge_at(sx, sy)
                == circuit.v_edge_at(x1 + sx, y1 + sy),
{
    let width = x2 - x1 + 1;
    let height = y2 - y1 + 1;
    let mut nodes: Vec<Vec<Node>> = Vec::new();
    let mut sy: usize = 0;
    while sy < height
        invariant
            circuit.wf(),
            x1 <= x2 < GRID_WIDTH,
            y1 <= y2 < GRID_HEIGHT,
            width == x2 - x1 + 1,
            height == y2 - y1 + 1,
            sy <= height,
            nodes@.len() == sy,
            forall|ay: int| 0 <= ay < sy ==> (#[trigger] nodes@[ay])@.len() == width,
            forall|ax: int, ay: int|
                0 <= ax < width && 0 <= ay < sy ==> #[trigger] nodes@[ay]@[ax]
                    == circuit.node_at(x1 + ax, y1 + ay),
        decreases height - sy,
    {
        let mut row: Vec<Node> = Vec::new();
        let mut sx: usize = 0;
        while sx < width
            invariant
                circuit.wf(),
                x1 <= x2 < GRID_WIDTH,
                y1 <= y2 < GRID_HEIGHT,
                width == x2 - x1 + 1,
                height == y2 - y1 + 1,
                sy < height,
                sx <= width,
                row@.len() == sx,
                forall|ax: int|
                    0 <= ax < sx ==> row@[ax] == circuit.node_at(x1 + ax, y1 + sy),
            decreases width - sx,
        {
            let node = match circuit.get_node(x1 + sx, y1 + sy) {
                Some(node) => node,
                None => Node::empty(),
            };
            row.push(node);
            sx = sx + 1;
        }
        nodes.push(row);
        sy = sy + 1;
    }
    let mut h_edges: Vec<Vec<Edge>> = Vec::new();
    let mut sy: usize = 0;
    while sy < height
        invariant
            circuit.wf(),
            x1 <= x2 < GRID_WIDTH,
            y1 <= y2 < GRID_HEIGHT,
            width == x2 - x1 + 1,
            height == y2 - y1 + 1,
            sy <= height,
            h_edges@.len() == sy,
            forall|ay: int| 0 <= ay < sy ==> (#[trigger] h_edges@[ay])@.len() == width - 1,
            forall|ax: int, ay: int|
                0 <= ax < width - 1 && 0 <= ay < sy ==> #[trigger] h_edges@[ay]@[ax]
                    == circuit.h_edge_at(x1 + ax, y1 + ay),
        decreases height - sy,
    {
        let mut row: Vec<Edge> = Vec::new();
        let mut sx: usize = 0;
        while sx < width - 1
            invariant
                circuit.wf(),
                x1 <= x2 < GRID_WIDTH,
                y1 <= y2 < GRID_HEIGHT,
                width == x2 - x1 + 1,
                height == y2 - y1 + 1,
                sy < height,
                sx <= width - 1,
                row@.len() == sx,
                forall|ax: int|
                    0 <= ax < sx ==> row@[ax] == circuit.h_edge_at(x1 + ax, y1 + sy),
            decreases width - 1 - sx,
        {
            let edge = match circuit.get_edge(x1 + sx, y1 + sy, x1 + sx + 1, y1 + sy) {
                Some(edge) => edge,
                None => Edge::empty(),
            };
            row.push(edge);
            sx = sx + 1;
        }
        h_edges.push(row);
        sy = sy + 1;
    }
    let mut v_edges: Vec<Vec<Edge>> = Vec::new();
    let mut sy: usize = 0;
    while sy < height - 1
        invariant
            circuit.wf(),
            x1 <= x2 < GRID_WIDTH,
            y1 <= y2 < GRID_HEIGHT,
            width == x2 - x1 + 1,
            height == y2 - y1 + 1,
            sy <= height - 1,
            v_edges@.len() == sy,
            forall|ay: int| 0 <= ay < sy ==> (#[trigger] v_edges@[ay])@.len() == width,
            forall|ax: int, ay: int|
                0 <= ax < width && 0 <= ay < sy ==> #[trigger] v_edges@[ay]@[ax]
                    == circuit.v_edge_at(x1 + ax, y1 + ay),
        decreases height - 1 - sy,
    {
        let mut row: Vec<Edge> = Vec::new();
        let mut sx: usize = 0;
        while sx < width
            invariant
                circuit.wf(),
                x1 <= x2 < GRID_WIDTH,
                y1 <= y2 < GRID_HEIGHT,
                width == x2 - x1 + 1,
                height == y2 - y1 + 1,
                sy < height - 1,
                sx <= width,
                row@.len() == sx,
                forall|ax: int|
                    0 <= ax < sx ==> row@[ax] == circuit.v_edge_at(x1 + ax, y1 + sy),
            decreases width - sx,
        {
            let edge = match circuit.get_edge(x1 + sx, y1 + sy, x1 + sx, y1 + sy + 1) {
                Some(edge) => edge,
                None => Edge::empty(),
            };
            row.push(edge);
            sx = sx + 1;
        }
        v_edges.push(row);
        sy = sy + 1;
    }
    Snippet { name, width, height, nodes, h_edges, v_edges }
}

/// Copy the entire grid as a design.
pub fn yank_entire_circuit(circuit: &Circuit, name: String) -> (r: Snippet)
    requires
        circuit.wf(),
    ensures
        r.wf(),
        r.name@ == name@,
        r.width == GRID_WIDTH,
        r.height == GRID_HEIGHT,
        forall|sx: int, sy: int|
            0 <= sx < GRID_WIDTH && 0 <= sy < GRID_HEIGHT ==> #[trigger] r.node_at(sx, sy)
                == circuit.node_at(sx, sy),
        forall|sx: int, sy: int|
            0 <= sx < GRID_WIDTH - 1 && 0 <= sy < GRID_HEIGHT ==> #[trigger] r.h_edge_at(sx, sy)
                == circuit.h_edge_at(sx, sy),
        forall|sx: int, sy: int|
            0 <= sx < GRID_WIDTH && 0 <= sy < GRID_HEIGHT - 1 ==> #[trigger] r.v_edge_at(sx, sy)
                == circuit.v_edge_at(sx, sy),
{
    yank_region(circuit, 0, 0, GRID_WIDTH - 1, GRID_HEIGHT - 1, name)
}

/// Rotate a snippet a quarter turn clockwise: the cell at `(x, y)` moves
/// to `(height - 1 - y, x)`, horizontal edges become vertical ones and
/// vertical edges horizontal ones.
pub fn rotate_snippet(snippet: &Snippet) -> (r: Snippet)
    requires
        snippet.wf(),
    ensures
        r.wf(),
        r.name@ == snippet.name@,
        r.width == snippet.height,
        r.height == snippet.width,
        forall|nx: int, ny: int|
            0 <= nx < r.width && 0 <= ny < r.height ==> #[trigger] r.node_at(nx, ny)
                == snippet.node_at(ny, snippet.height - 1 - nx),
        forall|nx: int, ny: int|
            0 <= nx < r.width && 0 <= ny < r.height - 1 ==> #[trigger] r.v_edge_at(nx, ny)
                == snippet.h_edge_at(ny, snippet.height - 1 - nx),
        forall|nx: int, ny: int|
            0 <= nx < r.width - 1 && 0 <= ny < r.height ==> #[trigger] r.h_edge_at(nx, ny)
                == snippet.v_edge_at(ny, snippet.height - 2 - nx),
{
    let old_h = snippet.height;
    let new_w = snippet.height;
    let new_h = snippet.width;
    let mut nodes: Vec<Vec<Node>> = Vec::new();
    let mut ny: usize = 0;
    while ny < new_h
        invariant
            snippet.wf(),
            old_h == snippet.height,
            new_w == snippet.height,
            new_h == snippet.width,
            ny <= new_h,
            nodes@.len() == ny,
            forall|ay: int| 0 <= ay < ny ==> (#[trigger] nodes@[ay])@.len() == new_w,
            forall|ax: int, ay: int|
                0 <= ax < new_w && 0 <= ay < ny ==> #[trigger] nodes@[ay]@[ax]
                    == snippet.node_at(ay, old_h - 1 - ax),
        decreases new_h - ny,
    {
        let mut row: Vec<Node> = Vec::new();
        let mut nx: usize = 0;
        while nx < new_w
            invariant
                snippet.wf(),
                old_h == snippet.height,
                new_w == snippet.height,
                new_h == snippet.width,
                ny < new_h,
                nx <= new_w,
                row@.len() == nx,
                forall|ax: int|
                    0 <= ax < nx ==> row@[ax] == snippet.node_at(ny as int, old_h - 1 - ax),
            decreases new_w - nx,
        {
            let node = snippet.nodes[old_h - 1 - nx][ny];
            row.push(node);
            nx = nx + 1;
        }
        nodes.push(row);
        ny = ny + 1;
    }
    let mut v_edges: Vec<Vec<Edge>> = Vec::new();
    let mut ny: usize = 0;
    while ny < new_h - 1
        invariant
            snippet.wf(),
            old_h == snippet.height,
            new_w == snippet.height,
            new_h == snippet.width,
            ny <= new_h - 1,
            v_edges@.len() == ny,
            forall|ay: int| 0 <= ay < ny ==> (#[trigger] v_edges@[ay])@.len() == new_w,
            forall|ax: int, ay: int|
                0 <= ax < new_w && 0 <= ay < ny ==> #[trigger] v_edges@[ay]@[ax]
                    == snippet.h_edge_at(ay, old_h - 1 - ax),
        decreases new_h - 1 - ny,
    {
        let mut row: Vec<Edge> = Vec::new();
        let mut nx: usize = 0;
        while nx < new_w
            invariant
                snippet.wf(),
                old_h == snippet.height,
                new_w == snippet.height,
                new_h == snippet.width,
                ny < new_h - 1,
                nx <= new_w,
                row@.len() == nx,
                forall|ax: int|
                    0 <= ax < nx ==> row@[ax] == snippet.h_edge_at(ny as int, old_h - 1 - ax),
            decreases new_w - nx,
        {
            let edge = snippet.h_edges[old_h - 1 - nx][ny];
            row.push(edge);
            nx = nx + 1;
        }
        v_edges.push(row);
        ny = ny + 1;
    }
    let mut h_edges: Vec<Vec<Edge>> = Vec::new();
    let mut ny: usize = 0;
    while ny < new_h
        invariant
            snippet.wf(),
            old_h == snippet.height,
            new_w == snippet.height,
            new_h == snippet.width,
            ny <= new_h,
            h_edges@.len() == ny,
            forall|ay: int| 0 <= ay < ny ==> (#[trigger] h_edges@[ay])@.len() == new_w - 1,
            forall|ax: int, ay: int|
                0 <= ax < new_w - 1 && 0 <= ay < ny ==> #[trigger] h_edges@[ay]@[ax]
                    == snippet.v_edge_at(ay, old_h - 2 - ax),
        decreases new_h - ny,
    {
        let mut row: Vec<Edge> = Vec::new();
        let mut nx: usize = 0;
        while nx < new_w - 1
            invariant
                snippet.wf(),
                old_h == snippet.height,
                new_w == snippet.height,
                new_h == snippet.width,
                ny < new_h,
                nx <= new_w - 1,
                row@.len() == nx,
                forall|ax: int|
                    0 <= ax < nx ==> row@[ax] == snippet.v_edge_at(ny as int, old_h - 2 - ax),
            decreases new_w - 1 - nx,
        {
            let edge = snippet.v_edges[old_h - 2 - nx][ny];
            row.push(edge);
            nx = nx + 1;
        }
        h_edges.push(row);
        ny = ny + 1;
    }
    Snippet {
        name: snippet.name.clone(),
        width: new_w,
        height: new_h,
        nodes,
        h_edges,
        v_edges,
    }
}

/// Whether `(cx, cy)` lies in the pasted rectangle of a snippet placed at
/// `(dest_x, dest_y)`.
pub open spec fn in_paste(s: Snippet, dest_x: int, dest_y: int, cx: int, cy: int) -> bool {
    dest_x <= cx < dest_x + s.width && dest_y <= cy < dest_y + s.height
}

/// Paste a snippet with its top-left corner at `(dest_x, dest_y)`: nodes
/// overwrite playable in-grid cells, edges overwrite every in-grid edge of
/// the pasted rectangle.
pub fn paste_snippet(circuit: &mut Circuit, snippet: &Snippet, dest_x: usize, dest_y: usize)
    requires
        old(circuit).wf(),
        snippet.wf(),
        dest_x < GRID_WIDTH,
        dest_y < GRID_HEIGHT,
    ensures
        final(circuit).wf(),
        forall|cx: int, cy: int|
            in_grid(cx, cy) ==> #[trigger] final(circuit).node_at(cx, cy) == (if spec_playable(
                cx,
                cy,
            ) && in_paste(*snippet, dest_x as int, dest_y as int, cx, cy) {
                snippet.node_at(cx - dest_x, cy - dest_y)
            } else {
                old(circuit).node_at(cx, cy)
            }),
        forall|ax: int, ay: int, bx: int, by: int|
            #[trigger] final(circuit).edge_between(ax, ay, bx, by) == (match edge_slot(
                ax,
                ay,
                bx,
                by,
            ) {
                Some(slot) => if slot.2 && dest_x <= slot.0 < dest_x + snippet.width - 1 && dest_y
                    <= slot.1 < dest_y + snippet.height {
                    Some(snippet.h_edge_at(slot.0 - dest_x, slot.1 - dest_y))
                } else if !slot.2 && dest_x <= slot.0 < dest_x + snippet.width && dest_y <= slot.1
                    < dest_y + snippet.height - 1 {
                    Some(snippet.v_edge_at(slot.0 - dest_x, slot.1 - dest_y))
                } else {
                    old(circuit).edge_between(ax, ay, bx, by)
                },
                None => None,
            }),
{
    // nodes
    let mut sy: usize = 0;
    while sy < snippet.height && dest_y + sy < GRID_HEIGHT
        invariant
            circuit.wf(),
            snippet.wf(),
            dest_x < GRID_WIDTH,
            dest_y < GRID_HEIGHT,
            sy <= GRID_HEIGHT,
            circuit.h_edges@ == old(circuit).h_edges@,
            circuit.v_edges@ == old(circuit).v_edges@,
            forall|cx: int, cy: int|
                in_grid(cx, cy) ==> #[trigger] circuit.node_at(cx, cy) == (if spec_playable(
                    cx,
                    cy,
                ) && in_paste(*snippet, dest_x as int, dest_y as int, cx, cy) && cy < dest_y + sy {
                    snippet.node_at(cx - dest_x, cy - dest_y)
                } else {
                    old(circuit).node_at(cx, cy)
                }),
        decreases snippet.height - sy,
    {
        let mut sx: usize = 0;
        while sx < snippet.width && dest_x + sx < GRID_WIDTH
            invariant
                circuit.wf(),
                snippet.wf(),
                dest_x < GRID_WIDTH,
                dest_y < GRID_HEIGHT,
                sx <= GRID_WIDTH,
                sy < snippet.height,
                dest_y + sy < GRID_HEIGHT,
                circuit.h_edges@ == old(circuit).h_edges@,
                circuit.v_edges@ == old(circuit).v_edges@,
                forall|cx: int, cy: int|
                    in_grid(cx, cy) ==> #[trigger] circuit.node_at(cx, cy) == (if spec_playable(
                        cx,
                        cy,
                    ) && in_paste(*snippet, dest_x as int, dest_y as int, cx, cy) && (cy < dest_y
                        + sy || (cy == dest_y + sy && cx < dest_x + sx)) {
                        snippet.node_at(cx - dest_x, cy - dest_y)
                    } else {
                        old(circuit).node_at(cx, cy)
                    }),
            decreases snippet.width - sx,
        {
            let x = dest_x + sx;
            let y = dest_y + sy;
            let ghost cpre = *circuit;
            if crate::edit::is_playable(x, y) {
                let node = snippet.nodes[sy][sx];
                circuit.set_node(x, y, node);
            }
            proof {
                assert forall|cx: int, cy: int| in_grid(cx, cy) implies #[trigger] circuit.node_at(
                    cx,
                    cy,
                ) == (if spec_playable(cx, cy) && in_paste(
                    *snippet,
                    dest_x as int,
                    dest_y as int,
                    cx,
                    cy,
                ) && (cy < dest_y + sy || (cy == dest_y + sy && cx < dest_x + sx + 1)) {
                    snippet.node_at(cx - dest_x, cy - dest_y)
                } else {
                    old(circuit).node_at(cx, cy)
                }) by {
                    assert(cpre.node_at(cx, cy) == (if spec_playable(cx, cy) && in_paste(
                        *snippet,
                        dest_x as int,
                        dest_y as int,
                        cx,
                        cy,
                    ) && (cy < dest_y + sy || (cy == dest_y + sy && cx < dest_x + sx)) {
                        snippet.node_at(cx - dest_x, cy - dest_y)
                    } else {
                        old(circuit).node_at(cx, cy)
                    }));
                }
            }
            sx = sx + 1;
        }
        sy = sy + 1;
    }
    let ghost cnodes = *circuit;
    // horizontal edges
    let mut sy: usize = 0;
    while sy < snippet.height && dest_y + sy < GRID_HEIGHT
        invariant
            circuit.wf(),
            snippet.wf(),
            dest_x < GRID_WIDTH,
            dest_y < GRID_HEIGHT,
            sy <= GRID_HEIGHT,
            sy <= snippet.height,
            circuit.nodes@ == cnodes.nodes@,
            forall|ax: int, ay: int, bx: int, by: int|
                #[trigger] circuit.edge_between(ax, ay, bx, by) == (match edge_slot(
                    ax,
                    ay,
                    bx,
                    by,
                ) {
                    Some(slot) => if slot.2 && dest_x <= slot.0 < dest_x + snippet.width - 1
                        && dest_y <= slot.1 < dest_y + sy {
                        Some(snippet.h_edge_at(slot.0 - dest_x, slot.1 - dest_y))
                    } else {
                        cnodes.edge_between(ax, ay, bx, by)
                    },
                    None => None,
                }),
        decreases snippet.height - sy,
    {
        let mut sx: usize = 0;
        while sx < snippet.width - 1 && dest_x + sx + 1 < GRID_WIDTH
            invariant
                circuit.wf(),
                snippet.wf(),
                dest_x < GRID_WIDTH,
                dest_y < GRID_HEIGHT,
                sx <= GRID_WIDTH,
                sy < snippet.height,
                dest_y + sy < GRID_HEIGHT,
                circuit.nodes@ == cnodes.nodes@,
                forall|ax: int, ay: int, bx: int, by: int|
                    #[trigger] circuit.edge_between(ax, ay, bx, by) == (match edge_slot(
                        ax,
                        ay,
                        bx,
                        by,
                    ) {
                        Some(slot) => if slot.2 && dest_x <= slot.0 < dest_x + snippet.width - 1
                            && (slot.1 < dest_y + sy && dest_y <= slot.1 || (slot.1 == dest_y + sy
                            && slot.0 < dest_x + sx)) {
                            Some(snippet.h_edge_at(slot.0 - dest_x, slot.1 - dest_y))
                        } else {
                            cnodes.edge_between(ax, ay, bx, by)
                        },
                        None => None,
                    }),
            decreases snippet.width - 1 - sx,
        {
            let x = dest_x + sx;
            let y = dest_y + sy;
            let edge = snippet.h_edges[sy][sx];
            circuit.set_edge(x, y, x + 1, y, Layer::NSilicon, edge.n_silicon);
            circuit.set_edge(x, y, x + 1, y, Layer::PSilicon, edge.p_silicon);
            circuit.set_edge(x, y, x + 1, y, Layer::Metal, edge.metal);
            sx = sx + 1;
        }
        sy = sy + 1;
    }
    let ghost choriz = *circuit;
    // vertical edges
    let mut sy: usize = 0;
    while sy < snippet.height - 1 && dest_y + sy + 1 < GRID_HEIGHT
        invariant
            circuit.wf(),
            snippet.wf(),
            dest_x < GRID_WIDTH,
            dest_y < GRID_HEIGHT,
            sy <= GRID_HEIGHT,
            sy <= snippet.height - 1,
            circuit.nodes@ == cnodes.nodes@,
            forall|ax: int, ay: int, bx: int, by: int|
                #[trigger] circuit.edge_between(ax, ay, bx, by) == (match edge_slot(
                    ax,
                    ay,
                    bx,
                    by,
                ) {
                    Some(slot) => if !slot.2 && dest_x <= slot.0 < dest_x + snippet.width && dest_y
                        <= slot.1 < dest_y + sy {
                        Some(snippet.v_edge_at(slot.0 - dest_x, slot.1 - dest_y))
                    } else {
                        choriz.edge_between(ax, ay, bx, by)
                    },
                    None => None,
                }),
        decreases snippet.height - 1 - sy,
    {
        let mut sx: usize = 0;
        while sx < snippet.width && dest_x + sx < GRID_WIDTH
            invariant
                circuit.wf(),
                snippet.wf(),
                dest_x < GRID_WIDTH,
                dest_y < GRID_HEIGHT,
                sx <= GRID_WIDTH,
                sy < snippet.height - 1,
                dest_y + sy + 1 < GRID_HEIGHT,
                circuit.nodes@ == cnodes.nodes@,
                forall|ax: int, ay: int, bx: int, by: int|
                    #[trigger] circuit.edge_between(ax, ay, bx, by) == (match edge_slot(
                        ax,
                        ay,
                        bx,
                        by,
                    ) {
                        Some(slot) => if !slot.2 && dest_x <= slot.0 < dest_x + snippet.width && (
                        slot.1 < dest_y + sy && dest_y <= slot.1 || (slot.1 == dest_y + sy && slot.0
                            < dest_x + sx)) {
                            Some(snippet.v_edge_at(slot.0 - dest_x, slot.1 - dest_y))
                        } else {
                            choriz.edge_between(ax, ay, bx, by)
                        },
                        None => None,
                    }),
            decreases snippet.width - sx,
        {
            let x = dest_x + sx;
            let y = dest_y + sy;
            let edge = snippet.v_edges[sy][sx];
            circuit.set_edge(x, y, x, y + 1, Layer::NSilicon, edge.n_silicon);
            circuit.set_edge(x, y, x, y + 1, Layer::PSilicon, edge.p_silicon);
            circuit.set_edge(x, y, x, y + 1, Layer::Metal, edge.metal);
            sx = sx + 1;
        }
        sy = sy + 1;
    }
    proof {
        crate::edit::lemma_edge_between_same_edges(cnodes, *old(circuit));
        assert forall|cx: int, cy: int| in_grid(cx, cy) implies #[trigger] circuit.node_at(cx, cy)
            == cnodes.node_at(cx, cy) by {}
        assert forall|ax: int, ay: int, bx: int, by: int|
            #[trigger] circuit.edge_between(ax, ay, bx, by) == (match edge_slot(ax, ay, bx, by) {
                Some(slot) => if slot.2 && dest_x <= slot.0 < dest_x + snippet.width - 1 && dest_y
                    <= slot.1 < dest_y + snippet.height {
                    Some(snippet.h_edge_at(slot.0 - dest_x, slot.1 - dest_y))
                } else if !slot.2 && dest_x <= slot.0 < dest_x + snippet.width && dest_y <= slot.1
                    < dest_y + snippet.height - 1 {
                    Some(snippet.v_edge_at(slot.0 - dest_x, slot.1 - dest_y))
                } else {
                    old(circuit).edge_between(ax, ay, bx, by)
                },
                None => None,
            }) by {
            assert(cnodes.edge_between(ax, ay, bx, by) == old(circuit).edge_between(
                ax,
                ay,
                bx,
                by,
            ));
            let slot_opt = edge_slot(ax, ay, bx, by);
            if slot_opt is Some {
                let slot = slot_opt->Some_0;
                assert(in_grid(slot.0, slot.1));
                if slot.2 {
                    assert(in_grid(slot.0 + 1, slot.1));
                } else {
                    assert(in_grid(slot.0, slot.1 + 1));
                }
            }
            assert(choriz.edge_between(ax, ay, bx, by) == (match slot_opt {
                Some(slot) => if slot.2 && dest_x <= slot.0 < dest_x + snippet.width - 1 && dest_y
                    <= slot.1 < dest_y + snippet.height {
                    Some(snippet.h_edge_at(slot.0 - dest_x, slot.1 - dest_y))
                } else {
                    cnodes.edge_between(ax, ay, bx, by)
                },
                None => None,
            }));
            assert(circuit.edge_between(ax, ay, bx, by) == (match slot_opt {
                Some(slot) => if !slot.2 && dest_x <= slot.0 < dest_x + snippet.width && dest_y
                    <= slot.1 < dest_y + snippet.height - 1 {
                    Some(snippet.v_edge_at(slot.0 - dest_x, slot.1 - dest_y))
                } else {
                    choriz.edge_between(ax, ay, bx, by)
                },
                None => None,
            }));
        }
    }
}

/// The node a loaded design leaves at a cell, before the pins get their
/// metal back: the design's node on playable cells it covers, an empty
/// cell everywhere else.
pub open spec fn loaded_node(design: Snippet, cx: int, cy: int) -> Node {
    if spec_playable(cx, cy) && in_paste(design, 0, 0, cx, cy) {
        design.node_at(cx, cy)
    } else {
        Node::spec_empty()
    }
}

/// The edge a loaded design leaves at a slot, before the pins get their
/// metal back.
pub open spec fn loaded_edge(design: Snippet, slot: (int, int, bool)) -> Edge {
    if slot.2 && 0 <= slot.0 < design.width - 1 && 0 <= slot.1 < design.height {
        design.h_edge_at(slot.0, slot.1)
    } else if !slot.2 && 0 <= slot.0 < design.width && 0 <= slot.1 < design.height - 1 {
        design.v_edge_at(slot.0, slot.1)
    } else {
        Edge::spec_empty()
    }
}

/// Load a design into the circuit: clear everything, paste the design at
/// the top-left corner, and restore the pins' metal.
pub fn load_design_to_circuit(circuit: &mut Circuit, design: &Snippet, pins: &[Pin])
    requires
        old(circuit).wf(),
        design.wf(),
        all_pins_wf(pins@),
    ensures
        final(circuit).wf(),
        forall|cx: int, cy: int|
            in_grid(cx, cy) ==> #[trigger] final(circuit).node_at(cx, cy) == (if spec_pin_cell(
                pins@,
                cx,
                cy,
            ) {
                Node { metal: true, ..loaded_node(*design, cx, cy) }
            } else {
                loaded_node(*design, cx, cy)
            }),
        forall|ax: int, ay: int, bx: int, by: int|
            #[trigger] final(circuit).edge_between(ax, ay, bx, by) == (match edge_slot(
                ax,
                ay,
                bx,
                by,
            ) {
                Some(slot) => Some(
                    if slot_in_pins(pins@, slot) {
                        loaded_edge(*design, slot).spec_set_layer(Layer::Metal, true)
                    } else {
                        loaded_edge(*design, slot)
                    },
                ),
                None => None,
            }),
{
    *circuit = Circuit::new();
    let ghost c0 = *circuit;
    paste_snippet(circuit, design, 0, 0);
    let ghost cmid = *circuit;
    setup_pins(circuit, pins);
    proof {
        assert forall|cx: int, cy: int| in_grid(cx, cy) implies #[trigger] circuit.node_at(cx, cy)
            == (if spec_pin_cell(pins@, cx, cy) {
            Node { metal: true, ..loaded_node(*design, cx, cy) }
        } else {
            loaded_node(*design, cx, cy)
        }) by {
            assert(c0.node_at(cx, cy) == Node::spec_empty());
            assert(cmid.node_at(cx, cy) == loaded_node(*design, cx, cy));
        }
        assert forall|ax: int, ay: int, bx: int, by: int|
            #[trigger] circuit.edge_between(ax, ay, bx, by) == (match edge_slot(ax, ay, bx, by) {
                Some(slot) => Some(
                    if slot_in_pins(pins@, slot) {
                        loaded_edge(*design, slot).spec_set_layer(Layer::Metal, true)
                    } else {
                        loaded_edge(*design, slot)
                    },
                ),
                None => None,
            }) by {
            let slot_opt = edge_slot(ax, ay, bx, by);
            if slot_opt is Some {
                let slot = slot_opt->Some_0;
                assert(in_grid(slot.0, slot.1));
                if slot.2 {
                    assert(in_grid(slot.0 + 1, slot.1));
                } else {
                    assert(in_grid(slot.0, slot.1 + 1));
                }
                assert(c0.edge_between(ax, ay, bx, by) == Some(Edge::spec_empty()));
                assert(cmid.edge_between(ax, ay, bx, by) == Some(loaded_edge(*design, slot)));
            }
        }
    }
}

} // verus!
