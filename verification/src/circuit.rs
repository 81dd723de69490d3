//! The grid topology store: one node per cell, one edge per adjacent cell
//! pair, with bounds-checked, total accessors.

use vstd::prelude::*;

verus! {

/// Grid width in cells: border, pin column, playable area, pin column, border.
pub const GRID_WIDTH: usize = 44;

/// Grid height in cells.
pub const GRID_HEIGHT: usize = 27;

/// The two conductive silicon materials.
#[derive(Clone, Copy, Debug, PartialEq, Eq, Structural)]
pub enum SiliconKind {
    N,
    P,
}

impl SiliconKind {
    /// The opposite material: the one that forms a gate's control arm over
    /// a channel of `self`.
    pub open spec fn spec_opposite(self) -> SiliconKind {
        match self {
            SiliconKind::N => SiliconKind::P,
            SiliconKind::P => SiliconKind::N,
        }
    }
}

/// What occupies a cell's silicon layer.  A `Gate` cell is where opposite
/// silicon types cross perpendicularly: the straight wire that was there
/// first is the conduction channel, the crossing material the control arm.
#[derive(Clone, Copy, Debug, PartialEq, Eq, Structural)]
pub enum Silicon {
    Empty,
    N,
    P,
    Gate { channel: SiliconKind },
}

/// One grid cell: its silicon layer, its metal layer, and whether a via
/// bridges the two.
#[derive(Clone, Copy, Debug, PartialEq, Eq, Structural)]
pub struct Node {
    pub silicon: Silicon,
    pub metal: bool,
    pub via: bool,
}

impl Node {
    /// A cell with nothing placed on it.
    pub open spec fn spec_empty() -> Node {
        Node { silicon: Silicon::Empty, metal: false, via: false }
    }

    #[verifier::when_used_as_spec(spec_empty)]
    pub fn empty() -> (r: Node)
        ensures
            r == Node::spec_empty(),
    {
        Node { silicon: Silicon::Empty, metal: false, via: false }
    }
}

/// The conductive material bridging one adjacent cell pair, one flag per
/// layer, independent of what occupies the cells themselves.
#[derive(Clone, Copy, Debug, PartialEq, Eq, Structural)]
pub struct Edge {
    pub n_silicon: bool,
    pub p_silicon: bool,
    pub metal: bool,
}

impl Edge {
    /// An edge carrying no material.
    pub open spec fn spec_empty() -> Edge {
        Edge { n_silicon: false, p_silicon: false, metal: false }
    }

    #[verifier::when_used_as_spec(spec_empty)]
    pub fn empty() -> (r: Edge)
        ensures
            r == Edge::spec_empty(),
    {
        Edge { n_silicon: false, p_silicon: false, metal: false }
    }

    /// The flag this edge carries for one layer.
    pub open spec fn spec_on_layer(self, layer: Layer) -> bool {
        match layer {
            Layer::NSilicon => self.n_silicon,
            Layer::PSilicon => self.p_silicon,
            Layer::Metal => self.metal,
        }
    }

    #[verifier::when_used_as_spec(spec_on_layer)]
    pub fn on_layer(self, layer: Layer) -> (r: bool)
        ensures
            r == self.spec_on_layer(layer),
    {
        match layer {
            Layer::NSilicon => self.n_silicon,
            Layer::PSilicon => self.p_silicon,
            Layer::Metal => self.metal,
        }
    }
}

/// The three conductive layers an edge can carry.
#[derive(Clone, Copy, Debug, PartialEq, Eq, Structural)]
pub enum Layer {
    NSilicon,
    PSilicon,
    Metal,
}

/// A 4-neighbour direction on the grid.
#[derive(Clone, Copy, Debug, PartialEq, Eq, Structural)]
pub enum Direction {
    Up,
    Down,
    Left,
    Right,
}

/// Whether `(x, y)` lies on the grid.
pub open spec fn in_grid(x: int, y: int) -> bool {
    0 <= x < GRID_WIDTH && 0 <= y < GRID_HEIGHT
}

/// The storage slot of the edge between two cells: the lesser endpoint and
/// whether the edge is horizontal; `None` when the cells are not two
/// adjacent in-grid cells.  Symmetric in its two endpoints by construction.
pub open spec fn edge_slot(x1: int, y1: int, x2: int, y2: int) -> Option<(int, int, bool)> {
    if in_grid(x1, y1) && in_grid(x2, y2) {
        if y1 == y2 && x2 == x1 + 1 {
            Some((x1, y1, true))
        } else if y1 == y2 && x1 == x2 + 1 {
            Some((x2, y2, true))
        } else if x1 == x2 && y2 == y1 + 1 {
            Some((x1, y1, false))
        } else if x1 == x2 && y1 == y2 + 1 {
            Some((x2, y2, false))
        } else {
            None
        }
    } else {
        None
    }
}

/// Flat index of cell `(x, y)` in a row-major grid vector.
pub open spec fn cell_index(x: int, y: int) -> int {
    y * GRID_WIDTH + x
}

/// The circuit: a grid of nodes, with horizontal edges between `(x, y)` and
/// `(x + 1, y)` and vertical edges between `(x, y)` and `(x, y + 1)`, all
/// stored row-major in flat vectors.
pub struct Circuit {
    pub nodes: Vec<Node>,
    pub h_edges: Vec<Edge>,
    pub v_edges: Vec<Edge>,
}

impl Circuit {
    /// The representation invariant: every grid vector has its full size.
    pub open spec fn wf(self) -> bool {
        &&& self.nodes@.len() == GRID_WIDTH * GRID_HEIGHT
        &&& self.h_edges@.len() == (GRID_WIDTH - 1) * GRID_HEIGHT
        &&& self.v_edges@.len() == GRID_WIDTH * (GRID_HEIGHT - 1)
    }

    /// The node at in-grid cell `(x, y)`.
    pub open spec fn node_at(self, x: int, y: int) -> Node {
        self.nodes@[cell_index(x, y)]
    }

    /// The edge between `(x, y)` and `(x + 1, y)`; meaningful for
    /// `0 <= x < GRID_WIDTH - 1` and `0 <= y < GRID_HEIGHT`.
    pub open spec fn h_edge_at(self, x: int, y: int) -> Edge {
        self.h_edges@[y * (GRID_WIDTH - 1) + x]
    }

    /// The edge between `(x, y)` and `(x, y + 1)`; meaningful for
    /// `0 <= x < GRID_WIDTH` and `0 <= y < GRID_HEIGHT - 1`.
    pub open spec fn v_edge_at(self, x: int, y: int) -> Edge {
        self.v_edges@[y * GRID_WIDTH + x]
    }

    /// The node at `(x, y)`, or `None` off the grid.
    pub open spec fn spec_node(self, x: int, y: int) -> Option<Node> {
        if in_grid(x, y) {
            Some(self.node_at(x, y))
        } else {
            None
        }
    }

    /// The edge between two cells, or `None` when they are not two adjacent
    /// in-grid cells.  Symmetric in its two endpoints by construction.
    pub open spec fn edge_between(self, x1: int, y1: int, x2: int, y2: int) -> Option<Edge> {
        match edge_slot(x1, y1, x2, y2) {
            Some((ex, ey, horizontal)) => if horizontal {
                Some(self.h_edge_at(ex, ey))
            } else {
                Some(self.v_edge_at(ex, ey))
            },
            None => None,
        }
    }

    /// The neighbouring cell one step in `dir` from `(x, y)`; may lie off
    /// the grid.
    pub open spec fn neighbour(x: int, y: int, dir: Direction) -> (int, int) {
        match dir {
            Direction::Up => (x, y - 1),
            Direction::Down => (x, y + 1),
            Direction::Left => (x - 1, y),
            Direction::Right => (x + 1, y),
        }
    }

    /// Whether `layer` material bridges the step from `(x, y)` in `dir`;
    /// `false` at the grid boundary.
    pub open spec fn spec_connected(self, x: int, y: int, dir: Direction, layer: Layer) -> bool {
        match self.edge_between(x, y, Self::neighbour(x, y, dir).0, Self::neighbour(x, y, dir).1) {
            Some(e) => e.spec_on_layer(layer),
            None => false,
        }
    }

    /// A circuit with every cell empty and every edge carrying nothing.
    pub fn new() -> (c: Circuit)
        ensures
            c.wf(),
            forall|x: int, y: int| in_grid(x, y) ==> c.node_at(x, y) == Node::spec_empty(),
            forall|i: int| 0 <= i < c.h_edges@.len() ==> c.h_edges@[i] == Edge::spec_empty(),
            forall|i: int| 0 <= i < c.v_edges@.len() ==> c.v_edges@[i] == Edge::spec_empty(),
    {
        let mut nodes: Vec<Node> = Vec::new();
        let mut i: usize = 0;
        while i < GRID_WIDTH * GRID_HEIGHT
            invariant
                nodes@.len() == i,
                i <= GRID_WIDTH * GRID_HEIGHT,
                forall|j: int| 0 <= j < i ==> nodes@[j] == Node::spec_empty(),
            decreases GRID_WIDTH * GRID_HEIGHT - i,
        {
            nodes.push(Node::empty());
            i = i + 1;
        }
        let mut h_edges: Vec<Edge> = Vec::new();
        let mut i: usize = 0;
        while i < (GRID_WIDTH - 1) * GRID_HEIGHT
            invariant
                h_edges@.len() == i,
                i <= (GRID_WIDTH - 1) * GRID_HEIGHT,
                forall|j: int| 0 <= j < i ==> h_edges@[j] == Edge::spec_empty(),
            decreases (GRID_WIDTH - 1) * GRID_HEIGHT - i,
        {
            h_edges.push(Edge::empty());
            i = i + 1;
        }
        let mut v_edges: Vec<Edge> = Vec::new();
        let mut i: usize = 0;
        while i < GRID_WIDTH * (GRID_HEIGHT - 1)
            invariant
                v_edges@.len() == i,
                i <= GRID_WIDTH * (GRID_HEIGHT - 1),
                forall|j: int| 0 <= j < i ==> v_edges@[j] == Edge::spec_empty(),
            decreases GRID_WIDTH * (GRID_HEIGHT - 1) - i,
        {
            v_edges.push(Edge::empty());
            i = i + 1;
        }
        Circuit { nodes, h_edges, v_edges }
    }

    /// The node at `(x, y)`, or `None` off the grid.
    pub fn get_node(&self, x: usize, y: usize) -> (r: Option<Node>)
        requires
            self.wf(),
        ensures
            r == self.spec_node(x as int, y as int),
    {
        if x < GRID_WIDTH && y < GRID_HEIGHT {
            Some(self.nodes[y * GRID_WIDTH + x])
        } else {
            None
        }
    }

    /// Overwrite the node at `(x, y)`; a no-op off the grid.
    pub fn set_node(&mut self, x: usize, y: usize, node: Node)
        requires
            old(self).wf(),
        ensures
            final(self).wf(),
            final(self).h_edges@ == old(self).h_edges@,
            final(self).v_edges@ == old(self).v_edges@,
            in_grid(x as int, y as int) ==> final(self).nodes@ == old(self).nodes@.update(
                cell_index(x as int, y as int),
                node,
            ),
            !in_grid(x as int, y as int) ==> final(self).nodes@ == old(self).nodes@,
    {
        if x < GRID_WIDTH && y < GRID_HEIGHT {
            self.nodes[y * GRID_WIDTH + x] = node;
        }
    }

    /// The edge between two cells, independent of the order the endpoints
    /// are given in; `None` when they are not adjacent or lie off the grid.
    pub fn get_edge(&self, x1: usize, y1: usize, x2: usize, y2: usize) -> (r: Option<Edge>)
        requires
            self.wf(),
        ensures
            r == self.edge_between(x1 as int, y1 as int, x2 as int, y2 as int),
    {
        if x1 >= GRID_WIDTH || y1 >= GRID_HEIGHT || x2 >= GRID_WIDTH || y2 >= GRID_HEIGHT {
            return None;
        }
        if y1 == y2 && x2 == x1 + 1 {
            Some(self.h_edges[y1 * (GRID_WIDTH - 1) + x1])
        } else if y1 == y2 && x1 == x2 + 1 {
            Some(self.h_edges[y2 * (GRID_WIDTH - 1) + x2])
        } else if x1 == x2 && y2 == y1 + 1 {
            Some(self.v_edges[y1 * GRID_WIDTH + x1])
        } else if x1 == x2 && y1 == y2 + 1 {
            Some(self.v_edges[y2 * GRID_WIDTH + x2])
        } else {
            None
        }
    }

    /// Set one layer's flag on the edge between two adjacent cells; a no-op
    /// when they are not adjacent or lie off the grid.
    pub fn set_edge(&mut self, x1: usize, y1: usize, x2: usize, y2: usize, layer: Layer, connected: bool)
        requires
            old(self).wf(),
        ensures
            final(self).wf(),
            final(self).nodes@ == old(self).nodes@,
            final(self).edge_between(x1 as int, y1 as int, x2 as int, y2 as int) matches Some(e)
                ==> e.spec_on_layer(layer) == connected,
            old(self).edge_between(x1 as int, y1 as int, x2 as int, y2 as int) is None
                ==> *final(self) == *old(self),
            // Every edge other than the addressed one, and every layer other
            // than the addressed layer, is unchanged.
            forall|ax: int, ay: int, bx: int, by: int|
                #[trigger] final(self).edge_between(ax, ay, bx, by)
                    == if edge_slot(ax, ay, bx, by) == edge_slot(
                        x1 as int,
                        y1 as int,
                        x2 as int,
                        y2 as int,
                    ) && edge_slot(ax, ay, bx, by) is Some {
                        Some(
                            old(self).edge_between(ax, ay, bx, by)->Some_0.spec_set_layer(
                                layer,
                                connected,
                            ),
                        )
                    } else {
                        old(self).edge_between(ax, ay, bx, by)
                    },
    {
        if x1 >= GRID_WIDTH || y1 >= GRID_HEIGHT || x2 >= GRID_WIDTH || y2 >= GRID_HEIGHT {
            return;
        }
        if y1 == y2 && (x2 == x1 + 1 || x1 == x2 + 1) {
            let ex = if x2 == x1 + 1 { x1 } else { x2 };
            let i = y1 * (GRID_WIDTH - 1) + ex;
            let updated = self.h_edges[i].with_layer(layer, connected);
            self.h_edges[i] = updated;
        } else if x1 == x2 && (y2 == y1 + 1 || y1 == y2 + 1) {
            let ey = if y2 == y1 + 1 { y1 } else { y2 };
            let i = ey * GRID_WIDTH + x1;
            let updated = self.v_edges[i].with_layer(layer, connected);
            self.v_edges[i] = updated;
        }
    }

    /// Whether `layer` material bridges the step from `(x, y)` in `dir`;
    /// `false` at the grid boundary.
    pub fn is_connected(&self, x: usize, y: usize, dir: Direction, layer: Layer) -> (r: bool)
        requires
            self.wf(),
        ensures
            r == self.spec_connected(x as int, y as int, dir, layer),
    {
        let e = match dir {
            Direction::Up => {
                if y == 0 {
                    return false;
                }
                self.get_edge(x, y, x, y - 1)
            },
            Direction::Down => {
                if y >= GRID_HEIGHT - 1 {
                    return false;
                }
                self.get_edge(x, y, x, y + 1)
            },
            Direction::Left => {
                if x == 0 {
                    return false;
                }
                self.get_edge(x, y, x - 1, y)
            },
            Direction::Right => {
                if x >= GRID_WIDTH - 1 {
                    return false;
                }
                self.get_edge(x, y, x + 1, y)
            },
        };
        match e {
            Some(edge) => edge.on_layer(layer),
            None => false,
        }
    }
}

impl Edge {
    /// This edge with one layer's flag replaced.
    pub open spec fn spec_set_layer(self, layer: Layer, connected: bool) -> Edge {
        match layer {
            Layer::NSilicon => Edge { n_silicon: connected, ..self },
            Layer::PSilicon => Edge { p_silicon: connected, ..self },
            Layer::Metal => Edge { metal: connected, ..self },
        }
    }

    #[verifier::when_used_as_spec(spec_set_layer)]
    pub fn with_layer(self, layer: Layer, connected: bool) -> (r: Edge)
        ensures
            r == self.spec_set_layer(layer, connected),
    {
        match layer {
            Layer::NSilicon => Edge { n_silicon: connected, ..self },
            Layer::PSilicon => Edge { p_silicon: connected, ..self },
            Layer::Metal => Edge { metal: connected, ..self },
        }
    }
}

/// Looking an edge up is independent of the order its two endpoints are
/// given in.
pub proof fn lemma_edge_symmetric(c: Circuit, x1: int, y1: int, x2: int, y2: int)
    ensures
        c.edge_between(x1, y1, x2, y2) == c.edge_between(x2, y2, x1, y1),
{
}

} // verus!
