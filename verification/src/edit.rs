//! Placement-time and deletion-time logic: how drawing silicon over a
//! straight wire of the opposite type turns a cell into a transistor gate,
//! and how deletions re-validate neighbouring gates so that gate identity
//! stays consistent with geometry.

use vstd::prelude::*;

use crate::circuit::{
    cell_index, edge_slot, in_grid, Circuit, Direction, Edge, Layer, Node, Silicon, SiliconKind,
    GRID_HEIGHT, GRID_WIDTH,
};

verus! {

/// The first editable column.
pub const PLAYABLE_LEFT: usize = 4;

/// The last editable column.
pub const PLAYABLE_RIGHT: usize = 39;

/// Whether a cell lies in the editable area: pin and border columns are
/// never edited, any row is.
pub open spec fn spec_playable(x: int, y: int) -> bool {
    PLAYABLE_LEFT <= x <= PLAYABLE_RIGHT
}

/// Whether a grid position is in the playable area (not pins or edges).
pub fn is_playable(x: usize, _y: usize) -> (r: bool)
    ensures
        r == spec_playable(x as int, _y as int),
{
    x >= PLAYABLE_LEFT && x <= PLAYABLE_RIGHT
}

/// The edge layer that carries a silicon kind.
pub open spec fn spec_layer_of(kind: SiliconKind) -> Layer {
    match kind {
        SiliconKind::N => Layer::NSilicon,
        SiliconKind::P => Layer::PSilicon,
    }
}

/// The silicon layer matching a silicon kind.
#[verifier::when_used_as_spec(spec_layer_of)]
pub fn layer_of(kind: SiliconKind) -> (r: Layer)
    ensures
        r == spec_layer_of(kind),
{
    match kind {
        SiliconKind::N => Layer::NSilicon,
        SiliconKind::P => Layer::PSilicon,
    }
}

/// Plain (non-gate) silicon of a kind.
pub open spec fn plain_silicon(kind: SiliconKind) -> Silicon {
    match kind {
        SiliconKind::N => Silicon::N,
        SiliconKind::P => Silicon::P,
    }
}

/// Whether the channel material of a gate at `(x, y)` still runs straight
/// through the cell: bridged on both ends of exactly one axis and on
/// neither end of the other.
pub open spec fn gate_valid(c: Circuit, x: int, y: int, channel: SiliconKind) -> bool {
    let layer = spec_layer_of(channel);
    let l = c.spec_connected(x, y, Direction::Left, layer);
    let r = c.spec_connected(x, y, Direction::Right, layer);
    let u = c.spec_connected(x, y, Direction::Up, layer);
    let d = c.spec_connected(x, y, Direction::Down, layer);
    (l && r && !u && !d) || (u && d && !l && !r)
}

/// The straight plain-silicon wire through `(x, y)`, if any: the wire's
/// orientation (`true` for horizontal) and its kind.  A cell qualifies when
/// it holds plain silicon bridged on both ends of exactly one axis and on
/// neither end of the other.
pub open spec fn spec_straight_silicon(c: Circuit, x: int, y: int) -> Option<(bool, SiliconKind)> {
    match c.spec_node(x, y) {
        Some(node) => match node.silicon {
            Silicon::N => straight_of_kind(c, x, y, SiliconKind::N),
            Silicon::P => straight_of_kind(c, x, y, SiliconKind::P),
            _ => None,
        },
        None => None,
    }
}

/// Helper for `spec_straight_silicon`: the through-wire test for one kind.
pub open spec fn straight_of_kind(c: Circuit, x: int, y: int, kind: SiliconKind) -> Option<
    (bool, SiliconKind),
> {
    let layer = spec_layer_of(kind);
    let l = c.spec_connected(x, y, Direction::Left, layer);
    let r = c.spec_connected(x, y, Direction::Right, layer);
    let u = c.spec_connected(x, y, Direction::Up, layer);
    let d = c.spec_connected(x, y, Direction::Down, layer);
    if l && r && !u && !d {
        Some((true, kind))
    } else if u && d && !l && !r {
        Some((false, kind))
    } else {
        None
    }
}

/// Check if a cell has a straight silicon wire (connected only horizontally
/// or only vertically).
pub fn get_straight_silicon(circuit: &Circuit, x: usize, y: usize) -> (r: Option<
    (bool, SiliconKind),
>)
    requires
        circuit.wf(),
    ensures
        r == spec_straight_silicon(*circuit, x as int, y as int),
{
    let node = match circuit.get_node(x, y) {
        Some(node) => node,
        None => {
            return None;
        },
    };
    let kind = match node.silicon {
        Silicon::N => SiliconKind::N,
        Silicon::P => SiliconKind::P,
        _ => {
            return None;
        },
    };
    let layer = layer_of(kind);
    let conn_left = circuit.is_connected(x, y, Direction::Left, layer);
    let conn_right = circuit.is_connected(x, y, Direction::Right, layer);
    let conn_up = circuit.is_connected(x, y, Direction::Up, layer);
    let conn_down = circuit.is_connected(x, y, Direction::Down, layer);

    if conn_left && conn_right && !conn_up && !conn_down {
        Some((true, kind))
    } else if conn_up && conn_down && !conn_left && !conn_right {
        Some((false, kind))
    } else {
        None
    }
}

/// The silicon a placement leaves at the edited cell.  An existing gate is
/// always preserved; a straight wire of the opposite kind crossed
/// perpendicularly becomes a gate whose channel is the existing wire; any
/// other cell is overwritten with the plain new kind.
pub open spec fn silicon_after_place(
    c: Circuit,
    x: int,
    y: int,
    silicon_type: SiliconKind,
    is_vertical_movement: bool,
) -> Silicon {
    if c.node_at(x, y).silicon is Gate {
        c.node_at(x, y).silicon
    } else {
        match spec_straight_silicon(c, x, y) {
            Some(wire) => if wire.1 != silicon_type && wire.0 == is_vertical_movement {
                Silicon::Gate { channel: wire.1 }
            } else {
                plain_silicon(silicon_type)
            },
            None => plain_silicon(silicon_type),
        }
    }
}

/// Try to place silicon at a cell, creating a gate if crossing a straight
/// wire of the opposite type perpendicularly.  A no-op outside the playable
/// area; never changes edges, metal or vias.
pub fn place_silicon_at(
    circuit: &mut Circuit,
    x: usize,
    y: usize,
    silicon_type: SiliconKind,
    is_vertical_movement: bool,
)
    requires
        old(circuit).wf(),
    ensures
        final(circuit).wf(),
        final(circuit).h_edges@ == old(circuit).h_edges@,
        final(circuit).v_edges@ == old(circuit).v_edges@,
        final(circuit).nodes@.len() == old(circuit).nodes@.len(),
        in_grid(x as int, y as int) ==> final(circuit).node_at(x as int, y as int) == (
        if spec_playable(x as int, y as int) {
            Node {
                silicon: silicon_after_place(
                    *old(circuit),
                    x as int,
                    y as int,
                    silicon_type,
                    is_vertical_movement,
                ),
                ..old(circuit).node_at(x as int, y as int)
            }
        } else {
            old(circuit).node_at(x as int, y as int)
        }),
        forall|cx: int, cy: int|
            in_grid(cx, cy) && !(cx == x as int && cy == y as int)
                ==> #[trigger] final(circuit).node_at(cx, cy) == old(circuit).node_at(cx, cy),
{
    if !is_playable(x, y) {
        return;
    }
    let node = match circuit.get_node(x, y) {
        Some(node) => node,
        None => {
            return;
        },
    };
    if let Silicon::Gate { channel: _ } = node.silicon {
        // Re-drawing either material over an existing transistor must not
        // destroy it: both the channel kind and the crossing kind are kept.
        return;
    }
    if let Some((is_horizontal_wire, existing_kind)) = get_straight_silicon(circuit, x, y) {
        if existing_kind != silicon_type {
            // Opposite-type silicon forms a gate when the movement runs
            // perpendicular to the existing wire.
            let perpendicular = is_horizontal_wire == is_vertical_movement;
            if perpendicular {
                circuit.set_node(
                    x,
                    y,
                    Node { silicon: Silicon::Gate { channel: existing_kind }, ..node },
                );
                return;
            }
        }
    }
    let placed = match silicon_type {
        SiliconKind::N => Silicon::N,
        SiliconKind::P => Silicon::P,
    };
    circuit.set_node(x, y, Node { silicon: placed, ..node });
}

/// Place a via at a position; only allowed on a silicon-bearing playable
/// cell, where it also raises the metal flag.  Returns whether a via was
/// placed.
pub fn place_via(circuit: &mut Circuit, x: usize, y: usize) -> (r: bool)
    requires
        old(circuit).wf(),
    ensures
        final(circuit).wf(),
        final(circuit).h_edges@ == old(circuit).h_edges@,
        final(circuit).v_edges@ == old(circuit).v_edges@,
        r == (spec_playable(x as int, y as int) && in_grid(x as int, y as int) && !(old(
            circuit,
        ).node_at(x as int, y as int).silicon is Empty)),
        r ==> final(circuit).nodes@ == old(circuit).nodes@.update(
            cell_index(x as int, y as int),
            Node { via: true, metal: true, ..old(circuit).node_at(x as int, y as int) },
        ),
        !r ==> final(circuit).nodes@ == old(circuit).nodes@,
{
    if !is_playable(x, y) {
        return false;
    }
    if let Some(node) = circuit.get_node(x, y) {
        if !matches!(node.silicon, Silicon::Empty) {
            circuit.set_node(x, y, Node { via: true, metal: true, ..node });
            return true;
        }
    }
    false
}

/// Delete the via at a position; the cell's silicon and metal stay.
pub fn delete_via(circuit: &mut Circuit, x: usize, y: usize)
    requires
        old(circuit).wf(),
    ensures
        final(circuit).wf(),
        final(circuit).h_edges@ == old(circuit).h_edges@,
        final(circuit).v_edges@ == old(circuit).v_edges@,
        in_grid(x as int, y as int) ==> final(circuit).nodes@ == old(circuit).nodes@.update(
            cell_index(x as int, y as int),
            Node { via: false, ..old(circuit).node_at(x as int, y as int) },
        ),
        !in_grid(x as int, y as int) ==> final(circuit).nodes@ == old(circuit).nodes@,
{
    if let Some(node) = circuit.get_node(x, y) {
        circuit.set_node(x, y, Node { via: false, ..node });
    }
}

/// Whether an edge storage slot is incident to the cell `(x, y)`.
pub open spec fn slot_touches(slot: (int, int, bool), x: int, y: int) -> bool {
    if slot.2 {
        slot.1 == y && (slot.0 == x || slot.0 == x - 1)
    } else {
        slot.0 == x && (slot.1 == y || slot.1 == y - 1)
    }
}

/// Delete the metal at a position together with its four incident metal
/// edge flags; metal under a via stays (the via holds it).
pub fn delete_metal(circuit: &mut Circuit, x: usize, y: usize)
    requires
        old(circuit).wf(),
    ensures
        final(circuit).wf(),
        in_grid(x as int, y as int) ==> final(circuit).nodes@ == old(circuit).nodes@.update(
            cell_index(x as int, y as int),
            Node {
                metal: old(circuit).node_at(x as int, y as int).via && old(circuit).node_at(
                    x as int,
                    y as int,
                ).metal,
                ..old(circuit).node_at(x as int, y as int)
            },
        ),
        !in_grid(x as int, y as int) ==> final(circuit).nodes@ == old(circuit).nodes@,
        forall|ax: int, ay: int, bx: int, by: int|
            #[trigger] final(circuit).edge_between(ax, ay, bx, by) == (match edge_slot(
                ax,
                ay,
                bx,
                by,
            ) {
                Some(slot) => if slot_touches(slot, x as int, y as int) {
                    Some(
                        old(circuit).edge_between(ax, ay, bx, by)->Some_0.spec_set_layer(
                            Layer::Metal,
                            false,
                        ),
                    )
                } else {
                    old(circuit).edge_between(ax, ay, bx, by)
                },
                None => None,
            }),
{
    if let Some(node) = circuit.get_node(x, y) {
        if !node.via {
            circuit.set_node(x, y, Node { metal: false, ..node });
        }
    }
    if x > 0 {
        circuit.set_edge(x - 1, y, x, y, Layer::Metal, false);
    }
    if x < GRID_WIDTH - 1 {
        circuit.set_edge(x, y, x + 1, y, Layer::Metal, false);
    }
    if y > 0 {
        circuit.set_edge(x, y - 1, x, y, Layer::Metal, false);
    }
    if y < GRID_HEIGHT - 1 {
        circuit.set_edge(x, y, x, y + 1, Layer::Metal, false);
    }
}

/// Whether `(cx, cy)` is one of the four neighbours of `(x, y)`.
pub open spec fn is_neighbour(cx: int, cy: int, x: int, y: int) -> bool {
    (cy == y && (cx == x - 1 || cx == x + 1)) || (cx == x && (cy == y - 1 || cy == y + 1))
}

/// A node after gate re-validation: a gate whose channel no longer runs
/// straight through the cell (judged against the edges of `edges_of`)
/// reverts to plain channel silicon; everything else stays.
pub open spec fn revalidated_node(node: Node, edges_of: Circuit, nx: int, ny: int) -> Node {
    match node.silicon {
        Silicon::Gate { channel } => if gate_valid(edges_of, nx, ny, channel) {
            node
        } else {
            Node { silicon: plain_silicon(channel), ..node }
        },
        _ => node,
    }
}

/// `gate_valid` and `revalidated_node` read only the edges of the circuit
/// they are given, never its nodes.
pub proof fn lemma_revalidate_same_edges(n: Node, c1: Circuit, c2: Circuit, x: int, y: int)
    requires
        c1.h_edges@ == c2.h_edges@,
        c1.v_edges@ == c2.v_edges@,
    ensures
        revalidated_node(n, c1, x, y) == revalidated_node(n, c2, x, y),
        forall|ch: SiliconKind| gate_valid(c1, x, y, ch) == gate_valid(c2, x, y, ch),
{
}

/// `edge_between` reads only the edges of the circuit it is given.
pub proof fn lemma_edge_between_same_edges(c1: Circuit, c2: Circuit)
    requires
        c1.h_edges@ == c2.h_edges@,
        c1.v_edges@ == c2.v_edges@,
    ensures
        forall|ax: int, ay: int, bx: int, by: int|
            #[trigger] c1.edge_between(ax, ay, bx, by) == c2.edge_between(ax, ay, bx, by),
{
}

/// Re-validate one cell: a transistor whose channel no longer runs
/// straight through the cell reverts to its plain channel silicon.
pub fn validate_gate(circuit: &mut Circuit, x: usize, y: usize)
    requires
        old(circuit).wf(),
    ensures
        final(circuit).wf(),
        final(circuit).h_edges@ == old(circuit).h_edges@,
        final(circuit).v_edges@ == old(circuit).v_edges@,
        final(circuit).nodes@.len() == old(circuit).nodes@.len(),
        in_grid(x as int, y as int) ==> final(circuit).node_at(x as int, y as int)
            == revalidated_node(
            old(circuit).node_at(x as int, y as int),
            *old(circuit),
            x as int,
            y as int,
        ),
        forall|cx: int, cy: int|
            in_grid(cx, cy) && !(cx == x && cy == y) ==> #[trigger] final(circuit).node_at(cx, cy)
                == old(circuit).node_at(cx, cy),
{
    let node = match circuit.get_node(x, y) {
        Some(node) => node,
        None => {
            return;
        },
    };
    let channel = match node.silicon {
        Silicon::Gate { channel } => channel,
        _ => {
            return;
        },
    };
    let layer = layer_of(channel);
    let conn_left = circuit.is_connected(x, y, Direction::Left, layer);
    let conn_right = circuit.is_connected(x, y, Direction::Right, layer);
    let conn_up = circuit.is_connected(x, y, Direction::Up, layer);
    let conn_down = circuit.is_connected(x, y, Direction::Down, layer);

    let horizontal_through = conn_left && conn_right && !conn_up && !conn_down;
    let vertical_through = conn_up && conn_down && !conn_left && !conn_right;

    if !(horizontal_through || vertical_through) {
        circuit.set_node(x, y, Node { silicon: plain_silicon_exec(channel), ..node });
    }
}

/// Plain (non-gate) silicon of a kind.
pub fn plain_silicon_exec(kind: SiliconKind) -> (r: Silicon)
    ensures
        r == plain_silicon(kind),
{
    match kind {
        SiliconKind::N => Silicon::N,
        SiliconKind::P => Silicon::P,
    }
}

/// Re-validate the gates on all four neighbours of `(x, y)`.
pub fn validate_neighboring_gates(circuit: &mut Circuit, x: usize, y: usize)
    requires
        old(circuit).wf(),
    ensures
        final(circuit).wf(),
        final(circuit).h_edges@ == old(circuit).h_edges@,
        final(circuit).v_edges@ == old(circuit).v_edges@,
        forall|cx: int, cy: int|
            in_grid(cx, cy) ==> #[trigger] final(circuit).node_at(cx, cy) == (if is_neighbour(
                cx,
                cy,
                x as int,
                y as int,
            ) {
                revalidated_node(old(circuit).node_at(cx, cy), *old(circuit), cx, cy)
            } else {
                old(circuit).node_at(cx, cy)
            }),
        final(circuit).nodes@.len() == old(circuit).nodes@.len(),
{
    let ghost c0 = *circuit;
    if x > 0 {
        validate_gate(circuit, x - 1, y);
    }
    let ghost c1 = *circuit;
    if x < GRID_WIDTH - 1 {
        validate_gate(circuit, x + 1, y);
    }
    let ghost c2 = *circuit;
    if y > 0 {
        validate_gate(circuit, x, y - 1);
    }
    let ghost c3 = *circuit;
    if y < GRID_HEIGHT - 1 {
        validate_gate(circuit, x, y + 1);
    }
    proof {
        assert forall|cx: int, cy: int| in_grid(cx, cy) implies #[trigger] circuit.node_at(cx, cy)
            == (if is_neighbour(cx, cy, x as int, y as int) {
            revalidated_node(c0.node_at(cx, cy), c0, cx, cy)
        } else {
            c0.node_at(cx, cy)
        }) by {
            lemma_revalidate_same_edges(c0.node_at(cx, cy), c1, c0, cx, cy);
            lemma_revalidate_same_edges(c0.node_at(cx, cy), c2, c0, cx, cy);
            lemma_revalidate_same_edges(c0.node_at(cx, cy), c3, c0, cx, cy);
        }
    }
}

/// The effect of `delete_silicon` at `(x, y)`, as a relation between the
/// circuit before and the circuit after the call.
pub open spec fn delete_silicon_rel(pre: Circuit, post: Circuit, x: int, y: int) -> bool {
    &&& post.wf()
    &&& in_grid(x, y) ==> post.node_at(x, y) == Node {
        silicon: Silicon::Empty,
        via: false,
        metal: pre.node_at(x, y).metal,
    }
    &&& forall|cx: int, cy: int|
        in_grid(cx, cy) && !(cx == x && cy == y) ==> #[trigger] post.node_at(cx, cy) == (
        if is_neighbour(cx, cy, x, y) {
            revalidated_node(pre.node_at(cx, cy), post, cx, cy)
        } else {
            pre.node_at(cx, cy)
        })
    &&& forall|ax: int, ay: int, bx: int, by: int|
        #[trigger] post.edge_between(ax, ay, bx, by) == (match edge_slot(ax, ay, bx, by) {
            Some(slot) => if slot_touches(slot, x, y) {
                Some(
                    pre.edge_between(ax, ay, bx, by)->Some_0.spec_set_layer(
                        Layer::NSilicon,
                        false,
                    ).spec_set_layer(Layer::PSilicon, false),
                )
            } else {
                pre.edge_between(ax, ay, bx, by)
            },
            None => None,
        })
}

/// Clear the N- and P-silicon flags on the four edges incident to
/// `(x, y)`; nodes and metal flags stay.
#[verifier::rlimit(50)]
fn clear_silicon_edges(circuit: &mut Circuit, x: usize, y: usize)
    requires
        old(circuit).wf(),
    ensures
        final(circuit).wf(),
        final(circuit).nodes@ == old(circuit).nodes@,
        forall|ax: int, ay: int, bx: int, by: int|
            #[trigger] final(circuit).edge_between(ax, ay, bx, by) == (match edge_slot(
                ax,
                ay,
                bx,
                by,
            ) {
                Some(slot) => if slot_touches(slot, x as int, y as int) {
                    Some(
                        old(circuit).edge_between(ax, ay, bx, by)->Some_0.spec_set_layer(
                            Layer::NSilicon,
                            false,
                        ).spec_set_layer(Layer::PSilicon, false),
                    )
                } else {
                    old(circuit).edge_between(ax, ay, bx, by)
                },
                None => None,
            }),
{
    if x > 0 {
        circuit.set_edge(x - 1, y, x, y, Layer::NSilicon, false);
        circuit.set_edge(x - 1, y, x, y, Layer::PSilicon, false);
    }
    if x < GRID_WIDTH - 1 {
        circuit.set_edge(x, y, x + 1, y, Layer::NSilicon, false);
        circuit.set_edge(x, y, x + 1, y, Layer::PSilicon, false);
    }
    if y > 0 {
        circuit.set_edge(x, y - 1, x, y, Layer::NSilicon, false);
        circuit.set_edge(x, y - 1, x, y, Layer::PSilicon, false);
    }
    if y < GRID_HEIGHT - 1 {
        circuit.set_edge(x, y, x, y + 1, Layer::NSilicon, false);
        circuit.set_edge(x, y, x, y + 1, Layer::PSilicon, false);
    }
}

/// Delete the silicon and via at a position, clear the four incident
/// silicon edges, and re-validate the gates on the four neighbours against
/// the new geometry.
#[verifier::rlimit(50)]
pub fn delete_silicon(circuit: &mut Circuit, x: usize, y: usize)
    requires
        old(circuit).wf(),
    ensures
        final(circuit).wf(),
        delete_silicon_rel(*old(circuit), *final(circuit), x as int, y as int),
{
    if let Some(node) = circuit.get_node(x, y) {
        circuit.set_node(x, y, Node { silicon: Silicon::Empty, via: false, ..node });
    }
    clear_silicon_edges(circuit, x, y);
    let ghost mid = *circuit;
    validate_neighboring_gates(circuit, x, y);
    proof {
        lemma_edge_between_same_edges(*circuit, mid);
        assert forall|cx: int, cy: int|
            in_grid(cx, cy) && !(cx == x as int && cy == y as int) implies #[trigger] circuit
            .node_at(cx, cy) == (if is_neighbour(cx, cy, x as int, y as int) {
            revalidated_node(old(circuit).node_at(cx, cy), *circuit, cx, cy)
        } else {
            old(circuit).node_at(cx, cy)
        }) by {
            lemma_revalidate_same_edges(old(circuit).node_at(cx, cy), mid, *circuit, cx, cy);
        }
    }
}

/// The effect of `delete_all` at `(x, y)`: the cell is wholly cleared, the
/// four incident edges lose every layer, and the four neighbours are
/// re-validated against the new geometry.
pub open spec fn delete_all_rel(pre: Circuit, post: Circuit, x: int, y: int) -> bool {
    &&& post.wf()
    &&& in_grid(x, y) ==> post.node_at(x, y) == Node {
        silicon: Silicon::Empty,
        metal: false,
        via: false,
    }
    &&& forall|cx: int, cy: int|
        in_grid(cx, cy) && !(cx == x && cy == y) ==> #[trigger] post.node_at(cx, cy) == (
        if is_neighbour(cx, cy, x, y) {
            revalidated_node(pre.node_at(cx, cy), post, cx, cy)
        } else {
            pre.node_at(cx, cy)
        })
    &&& forall|ax: int, ay: int, bx: int, by: int|
        #[trigger] post.edge_between(ax, ay, bx, by) == (match edge_slot(ax, ay, bx, by) {
            Some(slot) => if slot_touches(slot, x, y) {
                Some(
                    pre.edge_between(ax, ay, bx, by)->Some_0.spec_set_layer(
                        Layer::Metal,
                        false,
                    ).spec_set_layer(Layer::NSilicon, false).spec_set_layer(Layer::PSilicon, false),
                )
            } else {
                pre.edge_between(ax, ay, bx, by)
            },
            None => None,
        })
}

/// Delete everything at a position: the metal, the silicon, the via, and
/// every incident edge flag, re-validating the neighbouring gates.
#[verifier::rlimit(50)]
pub fn delete_all(circuit: &mut Circuit, x: usize, y: usize)
    requires
        old(circuit).wf(),
    ensures
        final(circuit).wf(),
        delete_all_rel(*old(circuit), *final(circuit), x as int, y as int),
{
    delete_metal(circuit, x, y);
    let ghost c1 = *circuit;
    delete_silicon(circuit, x, y);
    let ghost c2 = *circuit;
    if let Some(node) = circuit.get_node(x, y) {
        circuit.set_node(x, y, Node { metal: false, ..node });
    }
    proof {
        lemma_edge_between_same_edges(*circuit, c2);
        assert forall|cx: int, cy: int|
            in_grid(cx, cy) && !(cx == x as int && cy == y as int) implies #[trigger] circuit
            .node_at(cx, cy) == (if is_neighbour(cx, cy, x as int, y as int) {
            revalidated_node(old(circuit).node_at(cx, cy), *circuit, cx, cy)
        } else {
            old(circuit).node_at(cx, cy)
        }) by {
            assert(c1.node_at(cx, cy) == old(circuit).node_at(cx, cy));
            assert(circuit.node_at(cx, cy) == c2.node_at(cx, cy));
            lemma_revalidate_same_edges(old(circuit).node_at(cx, cy), c2, *circuit, cx, cy);
        }
    }
}

/// Whether a cell lies in the playable part of the rectangle with corners
/// `(x1, y1)` and `(x2, y2)`.
pub open spec fn region_cell(x1: int, y1: int, x2: int, y2: int, cx: int, cy: int) -> bool {
    in_grid(cx, cy) && x1 <= cx <= x2 && y1 <= cy <= y2 && spec_playable(cx, cy)
}

/// Whether an edge slot is incident to a playable region cell the scan has
/// already visited: rows above `py`, and row `py` left of `px`.
pub open spec fn region_slot_before(
    slot: (int, int, bool),
    x1: int,
    y1: int,
    x2: int,
    y2: int,
    px: int,
    py: int,
) -> bool {
    exists|cx: int, cy: int|
        region_cell(x1, y1, x2, y2, cx, cy) && (cy < py || (cy == py && cx < px))
            && #[trigger] slot_touches(slot, cx, cy)
}

/// Whether an edge slot is incident to any playable cell of the region.
pub open spec fn region_slot(slot: (int, int, bool), x1: int, y1: int, x2: int, y2: int) -> bool {
    exists|cx: int, cy: int|
        region_cell(x1, y1, x2, y2, cx, cy) && #[trigger] slot_touches(slot, cx, cy)
}

/// Scanning past one playable region cell adds exactly its incident slots.
proof fn lemma_region_slot_extend(x1: int, y1: int, x2: int, y2: int, px: int, py: int)
    requires
        region_cell(x1, y1, x2, y2, px, py),
    ensures
        forall|slot: (int, int, bool)|
            #[trigger] region_slot_before(slot, x1, y1, x2, y2, px + 1, py) <==> (
            region_slot_before(slot, x1, y1, x2, y2, px, py) || slot_touches(slot, px, py)),
{
    assert forall|slot: (int, int, bool)|
        #[trigger] region_slot_before(slot, x1, y1, x2, y2, px + 1, py) <==> (region_slot_before(
            slot,
            x1,
            y1,
            x2,
            y2,
            px,
            py,
        ) || slot_touches(slot, px, py)) by {
        if region_slot_before(slot, x1, y1, x2, y2, px + 1, py) {
            let (cx, cy) = choose|cx: int, cy: int|
                region_cell(x1, y1, x2, y2, cx, cy) && (cy < py || (cy == py && cx < px + 1))
                    && #[trigger] slot_touches(slot, cx, cy);
            if !(cx == px && cy == py) {
                assert(region_slot_before(slot, x1, y1, x2, y2, px, py));
            }
        }
        if region_slot_before(slot, x1, y1, x2, y2, px, py) {
            let (cx, cy) = choose|cx: int, cy: int|
                region_cell(x1, y1, x2, y2, cx, cy) && (cy < py || (cy == py && cx < px))
                    && #[trigger] slot_touches(slot, cx, cy);
            assert(slot_touches(slot, cx, cy) && (cy < py || (cy == py && cx < px + 1)));
            assert(region_slot_before(slot, x1, y1, x2, y2, px + 1, py));
        }
        if slot_touches(slot, px, py) {
            assert(region_slot_before(slot, x1, y1, x2, y2, px + 1, py));
        }
    }
}

/// Two scan positions that agree on which region cells they cover mark the
/// same slots.
proof fn lemma_region_slot_same(
    x1: int,
    y1: int,
    x2: int,
    y2: int,
    pxa: int,
    pya: int,
    pxb: int,
    pyb: int,
)
    requires
        forall|cx: int, cy: int|
            #[trigger] region_cell(x1, y1, x2, y2, cx, cy) ==> ((cy < pya || (cy == pya && cx
                < pxa)) <==> (cy < pyb || (cy == pyb && cx < pxb))),
    ensures
        forall|slot: (int, int, bool)|
            #[trigger] region_slot_before(slot, x1, y1, x2, y2, pxa, pya) <==> region_slot_before(
                slot,
                x1,
                y1,
                x2,
                y2,
                pxb,
                pyb,
            ),
{
    assert forall|slot: (int, int, bool)|
        #[trigger] region_slot_before(slot, x1, y1, x2, y2, pxa, pya) <==> region_slot_before(
            slot,
            x1,
            y1,
            x2,
            y2,
            pxb,
            pyb,
        ) by {
        if region_slot_before(slot, x1, y1, x2, y2, pxa, pya) {
            let (cx, cy) = choose|cx: int, cy: int|
                region_cell(x1, y1, x2, y2, cx, cy) && (cy < pya || (cy == pya && cx < pxa))
                    && #[trigger] slot_touches(slot, cx, cy);
            assert(region_cell(x1, y1, x2, y2, cx, cy));
            assert(region_slot_before(slot, x1, y1, x2, y2, pxb, pyb));
        }
        if region_slot_before(slot, x1, y1, x2, y2, pxb, pyb) {
            let (cx, cy) = choose|cx: int, cy: int|
                region_cell(x1, y1, x2, y2, cx, cy) && (cy < pyb || (cy == pyb && cx < pxb))
                    && #[trigger] slot_touches(slot, cx, cy);
            assert(region_cell(x1, y1, x2, y2, cx, cy));
            assert(region_slot_before(slot, x1, y1, x2, y2, pxa, pya));
        }
    }
}

/// A node whose silicon is either unchanged or a gate reverted to its
/// plain channel kind, with metal and via untouched: all a region delete
/// can do to a cell it does not visit.
pub open spec fn at_most_revalidated(old_node: Node, new_node: Node) -> bool {
    &&& new_node.metal == old_node.metal
    &&& new_node.via == old_node.via
    &&& (new_node.silicon == old_node.silicon || (old_node.silicon matches Silicon::Gate {
        channel,
    } && new_node.silicon == plain_silicon(channel)))
}

/// Delete everything in a rectangular region, cell by cell, visiting only
/// playable cells: visited cells and their incident edges are wholly
/// cleared; every other cell is at most re-validated (a bordering gate may
/// revert to its channel), and cells not bordering the region keep their
/// node.
#[verifier::rlimit(100)]
pub fn delete_region(circuit: &mut Circuit, x1: usize, y1: usize, x2: usize, y2: usize)
    requires
        old(circuit).wf(),
    ensures
        final(circuit).wf(),
        // every playable cell of the region ends wholly cleared
        forall|cx: int, cy: int|
            region_cell(x1 as int, y1 as int, x2 as int, y2 as int, cx, cy)
                ==> #[trigger] final(circuit).node_at(cx, cy) == (Node {
                silicon: Silicon::Empty,
                metal: false,
                via: false,
            }),
        // every edge incident to a cleared cell loses all three layers
        forall|ax: int, ay: int, bx: int, by: int|
            #[trigger] final(circuit).edge_between(ax, ay, bx, by) == (match edge_slot(
                ax,
                ay,
                bx,
                by,
            ) {
                Some(slot) => if region_slot(slot, x1 as int, y1 as int, x2 as int, y2 as int) {
                    Some(Edge::spec_empty())
                } else {
                    old(circuit).edge_between(ax, ay, bx, by)
                },
                None => None,
            }),
        // any other cell keeps metal and via, and its silicon at most
        // reverts from a gate to its plain channel
        forall|cx: int, cy: int|
            in_grid(cx, cy) && !region_cell(x1 as int, y1 as int, x2 as int, y2 as int, cx, cy)
                ==> at_most_revalidated(
                old(circuit).node_at(cx, cy),
                #[trigger] final(circuit).node_at(cx, cy),
            ),
        // cells not in the region and not bordering it keep their node
        forall|cx: int, cy: int|
            in_grid(cx, cy) && !(x1 - 1 <= cx <= x2 + 1 && y1 - 1 <= cy <= y2 + 1)
                ==> #[trigger] final(circuit).node_at(cx, cy) == old(circuit).node_at(cx, cy),
{
    let ghost gx1 = x1 as int;
    let ghost gy1 = y1 as int;
    let ghost gx2 = x2 as int;
    let ghost gy2 = y2 as int;
    let mut y = y1;
    while y <= y2 && y < GRID_HEIGHT
        invariant
            circuit.wf(),
            y1 <= y,
            gx1 == x1 as int,
            gy1 == y1 as int,
            gx2 == x2 as int,
            gy2 == y2 as int,
            forall|cx: int, cy: int|
                region_cell(gx1, gy1, gx2, gy2, cx, cy) && cy < y ==> #[trigger] circuit.node_at(
                    cx,
                    cy,
                ) == (Node { silicon: Silicon::Empty, metal: false, via: false }),
            forall|ax: int, ay: int, bx: int, by: int|
                #[trigger] circuit.edge_between(ax, ay, bx, by) == (match edge_slot(
                    ax,
                    ay,
                    bx,
                    by,
                ) {
                    Some(slot) => if region_slot_before(slot, gx1, gy1, gx2, gy2, gx1, y as int) {
                        Some(Edge::spec_empty())
                    } else {
                        old(circuit).edge_between(ax, ay, bx, by)
                    },
                    None => None,
                }),
            forall|cx: int, cy: int|
                in_grid(cx, cy) && !region_cell(gx1, gy1, gx2, gy2, cx, cy)
                    ==> at_most_revalidated(
                    old(circuit).node_at(cx, cy),
                    #[trigger] circuit.node_at(cx, cy),
                ),
            forall|cx: int, cy: int|
                in_grid(cx, cy) && !(x1 - 1 <= cx <= x2 + 1 && y1 - 1 <= cy <= y2 + 1)
                    ==> #[trigger] circuit.node_at(cx, cy) == old(circuit).node_at(cx, cy),
        decreases GRID_HEIGHT - y,
    {
        let mut x = x1;
        while x <= x2 && x < GRID_WIDTH
            invariant
                circuit.wf(),
                x1 <= x,
                y <= y2,
                y < GRID_HEIGHT,
                y1 <= y,
                gx1 == x1 as int,
                gy1 == y1 as int,
                gx2 == x2 as int,
                gy2 == y2 as int,
                forall|cx: int, cy: int|
                    region_cell(gx1, gy1, gx2, gy2, cx, cy) && (cy < y || (cy == y && cx < x))
                        ==> #[trigger] circuit.node_at(cx, cy) == (Node {
                        silicon: Silicon::Empty,
                        metal: false,
                        via: false,
                    }),
                forall|ax: int, ay: int, bx: int, by: int|
                    #[trigger] circuit.edge_between(ax, ay, bx, by) == (match edge_slot(
                        ax,
                        ay,
                        bx,
                        by,
                    ) {
                        Some(slot) => if region_slot_before(
                            slot,
                            gx1,
                            gy1,
                            gx2,
                            gy2,
                            x as int,
                            y as int,
                        ) {
                            Some(Edge::spec_empty())
                        } else {
                            old(circuit).edge_between(ax, ay, bx, by)
                        },
                        None => None,
                    }),
                forall|cx: int, cy: int|
                    in_grid(cx, cy) && !region_cell(gx1, gy1, gx2, gy2, cx, cy)
                        ==> at_most_revalidated(
                        old(circuit).node_at(cx, cy),
                        #[trigger] circuit.node_at(cx, cy),
                    ),
                forall|cx: int, cy: int|
                    in_grid(cx, cy) && !(x1 - 1 <= cx <= x2 + 1 && y1 - 1 <= cy <= y2 + 1)
                        ==> #[trigger] circuit.node_at(cx, cy) == old(circuit).node_at(cx, cy),
            decreases GRID_WIDTH - x,
        {
            let ghost cpre = *circuit;
            if is_playable(x, y) {
                delete_all(circuit, x, y);
                proof {
                    lemma_region_slot_extend(gx1, gy1, gx2, gy2, x as int, y as int);
                    assert forall|cx: int, cy: int|
                        in_grid(cx, cy) && !region_cell(gx1, gy1, gx2, gy2, cx, cy) implies
                        at_most_revalidated(
                        old(circuit).node_at(cx, cy),
                        #[trigger] circuit.node_at(cx, cy),
                    ) by {
                        assert(at_most_revalidated(
                            old(circuit).node_at(cx, cy),
                            cpre.node_at(cx, cy),
                        ));
                    }
                }
            } else {
                proof {
                    lemma_region_slot_same(
                        gx1,
                        gy1,
                        gx2,
                        gy2,
                        x as int,
                        y as int,
                        x as int + 1,
                        y as int,
                    );
                }
            }
            x = x + 1;
        }
        proof {
            lemma_region_slot_same(gx1, gy1, gx2, gy2, x as int, y as int, gx1, y as int + 1);
        }
        y = y + 1;
    }
    proof {
        lemma_region_slot_same(
            gx1,
            gy1,
            gx2,
            gy2,
            gx1,
            y as int,
            gx1,
            GRID_HEIGHT as int,
        );
        assert forall|slot: (int, int, bool)|
            #[trigger] region_slot_before(slot, gx1, gy1, gx2, gy2, gx1, GRID_HEIGHT as int)
                <==> region_slot(slot, gx1, gy1, gx2, gy2) by {
            if region_slot(slot, gx1, gy1, gx2, gy2) {
                let (cx, cy) = choose|cx: int, cy: int|
                    region_cell(gx1, gy1, gx2, gy2, cx, cy) && #[trigger] slot_touches(
                        slot,
                        cx,
                        cy,
                    );
                assert(cy < GRID_HEIGHT);
                assert(region_slot_before(slot, gx1, gy1, gx2, gy2, gx1, GRID_HEIGHT as int));
            }
            if region_slot_before(slot, gx1, gy1, gx2, gy2, gx1, GRID_HEIGHT as int) {
                let (cx, cy) = choose|cx: int, cy: int|
                    region_cell(gx1, gy1, gx2, gy2, cx, cy) && (cy < GRID_HEIGHT || (cy
                        == GRID_HEIGHT && cx < gx1)) && #[trigger] slot_touches(slot, cx, cy);
                assert(region_slot(slot, gx1, gy1, gx2, gy2));
            }
        }
    }
}

/// Whether some entry among the first `n` of `path` is the cell `(cx, cy)`.
pub open spec fn path_contains_prefix(path: Seq<(usize, usize)>, n: int, cx: int, cy: int) -> bool {
    exists|j: int| 0 <= j < n && path[j].0 == cx && path[j].1 == cy
}

/// Whether some entry of `path` is the cell `(cx, cy)`.
pub open spec fn path_contains(path: Seq<(usize, usize)>, cx: int, cy: int) -> bool {
    path_contains_prefix(path, path.len() as int, cx, cy)
}

/// Whether `slot` is the edge between two consecutive entries among the
/// first `n` of `path`.
pub open spec fn path_step_slot_prefix(
    path: Seq<(usize, usize)>,
    n: int,
    slot: (int, int, bool),
) -> bool {
    exists|i: int|
        0 < i < n && #[trigger] edge_slot(
            path[i - 1].0 as int,
            path[i - 1].1 as int,
            path[i].0 as int,
            path[i].1 as int,
        ) == Some(slot)
}

/// Whether `slot` is the edge between two consecutive entries of `path`.
pub open spec fn path_step_slot(path: Seq<(usize, usize)>, slot: (int, int, bool)) -> bool {
    path_step_slot_prefix(path, path.len() as int, slot)
}

/// Place metal along a path: every playable path cell gets its metal flag
/// raised, and every step between consecutive path cells gets its metal
/// edge flag raised (pins keep their metal, so their cells are skipped but
/// the connecting edges are still made).
#[verifier::rlimit(100)]
pub fn place_metal_path(circuit: &mut Circuit, path: &[(usize, usize)])
    requires
        old(circuit).wf(),
    ensures
        final(circuit).wf(),
        forall|cx: int, cy: int|
            in_grid(cx, cy) ==> #[trigger] final(circuit).node_at(cx, cy) == (if spec_playable(
                cx,
                cy,
            ) && path_contains(path@, cx, cy) {
                Node { metal: true, ..old(circuit).node_at(cx, cy) }
            } else {
                old(circuit).node_at(cx, cy)
            }),
        forall|ax: int, ay: int, bx: int, by: int|
            #[trigger] final(circuit).edge_between(ax, ay, bx, by) == (match edge_slot(
                ax,
                ay,
                bx,
                by,
            ) {
                Some(slot) => if path_step_slot(path@, slot) {
                    Some(
                        old(circuit).edge_between(ax, ay, bx, by)->Some_0.spec_set_layer(
                            Layer::Metal,
                            true,
                        ),
                    )
                } else {
                    old(circuit).edge_between(ax, ay, bx, by)
                },
                None => None,
            }),
{
    let mut i: usize = 0;
    while i < path.len()
        invariant
            circuit.wf(),
            i <= path@.len(),
            forall|cx: int, cy: int|
                in_grid(cx, cy) ==> #[trigger] circuit.node_at(cx, cy) == (if spec_playable(
                    cx,
                    cy,
                ) && path_contains_prefix(path@, i as int, cx, cy) {
                    Node { metal: true, ..old(circuit).node_at(cx, cy) }
                } else {
                    old(circuit).node_at(cx, cy)
                }),
            forall|ax: int, ay: int, bx: int, by: int|
                #[trigger] circuit.edge_between(ax, ay, bx, by) == (match edge_slot(
                    ax,
                    ay,
                    bx,
                    by,
                ) {
                    Some(slot) => if path_step_slot_prefix(path@, i as int, slot) {
                        Some(
                            old(circuit).edge_between(ax, ay, bx, by)->Some_0.spec_set_layer(
                                Layer::Metal,
                                true,
                            ),
                        )
                    } else {
                        old(circuit).edge_between(ax, ay, bx, by)
                    },
                    None => None,
                }),
        decreases path@.len() - i,
    {
        let ghost cpre = *circuit;
        proof {
            lemma_path_prefix_extend(path@, i as int);
        }
        let (x, y) = path[i];
        if is_playable(x, y) {
            if let Some(node) = circuit.get_node(x, y) {
                circuit.set_node(x, y, Node { metal: true, ..node });
            }
        }
        if i > 0 {
            let (px, py) = path[i - 1];
            circuit.set_edge(px, py, x, y, Layer::Metal, true);
        }
        proof {
            assert forall|cx: int, cy: int| in_grid(cx, cy) implies #[trigger] circuit.node_at(
                cx,
                cy,
            ) == (if spec_playable(cx, cy) && path_contains_prefix(path@, i as int + 1, cx, cy) {
                Node { metal: true, ..old(circuit).node_at(cx, cy) }
            } else {
                old(circuit).node_at(cx, cy)
            }) by {
                assert(cpre.node_at(cx, cy) == (if spec_playable(cx, cy) && path_contains_prefix(
                    path@,
                    i as int,
                    cx,
                    cy,
                ) {
                    Node { metal: true, ..old(circuit).node_at(cx, cy) }
                } else {
                    old(circuit).node_at(cx, cy)
                }));
            }
        }
        i = i + 1;
    }
}

/// Whether path entry `i` is reached by vertical movement: judged against
/// the previous entry, or against the following entry for the first cell
/// of a longer path.
pub open spec fn is_vertical_step(path: Seq<(usize, usize)>, i: int) -> bool {
    if i > 0 {
        path[i - 1].1 != path[i].1
    } else if path.len() > 1 {
        path[1].1 != path[0].1
    } else {
        false
    }
}

/// The silicon one path placement of kind `t` leaves on a cell that
/// currently holds `cur`: a gate is preserved, a straight wire of the
/// opposite kind crossed perpendicularly becomes a gate, anything else is
/// overwritten with plain `t`.  The straight-wire test reads only the
/// opposite kind's edges, which a path of kind `t` never changes, so it is
/// judged against the circuit `c0` from before the whole path.
pub open spec fn path_cell_silicon(
    c0: Circuit,
    cur: Silicon,
    x: int,
    y: int,
    t: SiliconKind,
    vert: bool,
) -> Silicon {
    match cur {
        Silicon::Gate { .. } => cur,
        Silicon::Empty => plain_silicon(t),
        Silicon::N => if t == SiliconKind::N {
            plain_silicon(t)
        } else {
            match straight_of_kind(c0, x, y, SiliconKind::N) {
                Some(w) => if w.0 == vert {
                    Silicon::Gate { channel: SiliconKind::N }
                } else {
                    plain_silicon(t)
                },
                None => plain_silicon(t),
            }
        },
        Silicon::P => if t == SiliconKind::P {
            plain_silicon(t)
        } else {
            match straight_of_kind(c0, x, y, SiliconKind::P) {
                Some(w) => if w.0 == vert {
                    Silicon::Gate { channel: SiliconKind::P }
                } else {
                    plain_silicon(t)
                },
                None => plain_silicon(t),
            }
        },
    }
}

/// The node grid after the first `k` entries of a silicon path of kind `t`
/// have been placed, one placement folded after the other: each playable
/// in-grid entry has its silicon replaced by `path_cell_silicon` of what
/// the previous placements left there, keeping its metal and via.
pub open spec fn path_nodes(
    c0: Circuit,
    path: Seq<(usize, usize)>,
    t: SiliconKind,
    k: int,
) -> Seq<Node>
    decreases k,
{
    if k <= 0 {
        c0.nodes@
    } else {
        let prev = path_nodes(c0, path, t, k - 1);
        let x = path[k - 1].0 as int;
        let y = path[k - 1].1 as int;
        if spec_playable(x, y) && in_grid(x, y) {
            let cur = prev[cell_index(x, y)];
            prev.update(
                cell_index(x, y),
                Node {
                    silicon: path_cell_silicon(c0, cur.silicon, x, y, t, is_vertical_step(
                        path,
                        k - 1,
                    )),
                    ..cur
                },
            )
        } else {
            prev
        }
    }
}

/// Folding a path changes no cell's metal or via.
pub proof fn lemma_path_nodes_keep_metal_via(
    c0: Circuit,
    path: Seq<(usize, usize)>,
    t: SiliconKind,
    k: int,
)
    requires
        c0.wf(),
    ensures
        path_nodes(c0, path, t, k).len() == c0.nodes@.len(),
        forall|j: int|
            0 <= j < c0.nodes@.len() ==> (#[trigger] path_nodes(c0, path, t, k)[j]).metal
                == c0.nodes@[j].metal && path_nodes(c0, path, t, k)[j].via == c0.nodes@[j].via,
    decreases k,
{
    if k > 0 {
        lemma_path_nodes_keep_metal_via(c0, path, t, k - 1);
    }
}

/// A placement during a silicon path of kind `t` can be judged against the
/// original circuit: the straight-wire test reads only the opposite kind's
/// connectivity, which the path has not touched.
proof fn lemma_place_matches_fold(c0: Circuit, ci: Circuit, x: int, y: int, t: SiliconKind, vert: bool)
    requires
        ci.spec_connected(x, y, Direction::Left, spec_layer_of(t.spec_opposite()))
            == c0.spec_connected(x, y, Direction::Left, spec_layer_of(t.spec_opposite())),
        ci.spec_connected(x, y, Direction::Right, spec_layer_of(t.spec_opposite()))
            == c0.spec_connected(x, y, Direction::Right, spec_layer_of(t.spec_opposite())),
        ci.spec_connected(x, y, Direction::Up, spec_layer_of(t.spec_opposite()))
            == c0.spec_connected(x, y, Direction::Up, spec_layer_of(t.spec_opposite())),
        ci.spec_connected(x, y, Direction::Down, spec_layer_of(t.spec_opposite()))
            == c0.spec_connected(x, y, Direction::Down, spec_layer_of(t.spec_opposite())),
        in_grid(x, y),
    ensures
        silicon_after_place(ci, x, y, t, vert) == path_cell_silicon(
            c0,
            ci.node_at(x, y).silicon,
            x,
            y,
            t,
            vert,
        ),
{
}

/// Place silicon along a path: each playable path cell gets silicon placed
/// with gate inference (perpendicular crossings of the opposite type form
/// gates), and every step between consecutive path cells gets its silicon
/// edge flag raised.  The resulting node grid is exactly the fold of the
/// per-cell placement along the path; metal and vias are untouched.
#[verifier::rlimit(100)]
pub fn place_silicon_path(circuit: &mut Circuit, path: &[(usize, usize)], silicon_type: SiliconKind)
    requires
        old(circuit).wf(),
    ensures
        final(circuit).wf(),
        final(circuit).nodes@ == path_nodes(
            *old(circuit),
            path@,
            silicon_type,
            path@.len() as int,
        ),
        forall|cx: int, cy: int|
            in_grid(cx, cy) ==> (#[trigger] final(circuit).node_at(cx, cy)).metal == old(
                circuit,
            ).node_at(cx, cy).metal && final(circuit).node_at(cx, cy).via == old(circuit).node_at(
                cx,
                cy,
            ).via,
        forall|ax: int, ay: int, bx: int, by: int|
            #[trigger] final(circuit).edge_between(ax, ay, bx, by) == (match edge_slot(
                ax,
                ay,
                bx,
                by,
            ) {
                Some(slot) => if path_step_slot(path@, slot) {
                    Some(
                        old(circuit).edge_between(ax, ay, bx, by)->Some_0.spec_set_layer(
                            spec_layer_of(silicon_type),
                            true,
                        ),
                    )
                } else {
                    old(circuit).edge_between(ax, ay, bx, by)
                },
                None => None,
            }),
{
    let layer = layer_of(silicon_type);
    let ghost c0 = *old(circuit);
    let mut i: usize = 0;
    while i < path.len()
        invariant
            circuit.wf(),
            c0 == *old(circuit),
            c0.wf(),
            i <= path@.len(),
            layer == spec_layer_of(silicon_type),
            circuit.nodes@ == path_nodes(c0, path@, silicon_type, i as int),
            forall|ax: int, ay: int, bx: int, by: int|
                #[trigger] circuit.edge_between(ax, ay, bx, by) == (match edge_slot(
                    ax,
                    ay,
                    bx,
                    by,
                ) {
                    Some(slot) => if path_step_slot_prefix(path@, i as int, slot) {
                        Some(
                            old(circuit).edge_between(ax, ay, bx, by)->Some_0.spec_set_layer(
                                spec_layer_of(silicon_type),
                                true,
                            ),
                        )
                    } else {
                        old(circuit).edge_between(ax, ay, bx, by)
                    },
                    None => None,
                }),
        decreases path@.len() - i,
    {
        let ghost cpre = *circuit;
        proof {
            lemma_path_prefix_extend(path@, i as int);
        }
        let (x, y) = path[i];
        let mut placed = false;
        if is_playable(x, y) {
            let is_vertical = if i > 0 {
                let (_, py) = path[i - 1];
                py != y
            } else if path.len() > 1 {
                let (_, ny) = path[1];
                ny != y
            } else {
                false
            };
            proof {
                assert(is_vertical == is_vertical_step(path@, i as int));
            }
            place_silicon_at(circuit, x, y, silicon_type, is_vertical);
            placed = true;
        }
        let ghost cmid = *circuit;
        if i > 0 {
            let (px, py) = path[i - 1];
            circuit.set_edge(px, py, x, y, layer, true);
        }
        proof {
            lemma_edge_between_same_edges(cmid, cpre);
            let target = path_nodes(c0, path@, silicon_type, i as int + 1);
            let xi = x as int;
            let yi = y as int;
            let vert = is_vertical_step(path@, i as int);
            let opp = spec_layer_of(silicon_type.spec_opposite());
            if spec_playable(xi, yi) && in_grid(xi, yi) {
                // the path so far has only raised this kind's own edge
                // flags, so the opposite kind's connectivity at the cell is
                // still the original circuit's
                assert(cpre.spec_connected(xi, yi, Direction::Left, opp) == c0.spec_connected(
                    xi,
                    yi,
                    Direction::Left,
                    opp,
                )) by {
                    assert(cpre.edge_between(xi, yi, xi - 1, yi) == (match edge_slot(
                        xi,
                        yi,
                        xi - 1,
                        yi,
                    ) {
                        Some(slot) => if path_step_slot_prefix(path@, i as int, slot) {
                            Some(
                                c0.edge_between(xi, yi, xi - 1, yi)->Some_0.spec_set_layer(
                                    spec_layer_of(silicon_type),
                                    true,
                                ),
                            )
                        } else {
                            c0.edge_between(xi, yi, xi - 1, yi)
                        },
                        None => None,
                    }));
                }
                assert(cpre.spec_connected(xi, yi, Direction::Right, opp) == c0.spec_connected(
                    xi,
                    yi,
                    Direction::Right,
                    opp,
                )) by {
                    assert(cpre.edge_between(xi, yi, xi + 1, yi) == (match edge_slot(
                        xi,
                        yi,
                        xi + 1,
                        yi,
                    ) {
                        Some(slot) => if path_step_slot_prefix(path@, i as int, slot) {
                            Some(
                                c0.edge_between(xi, yi, xi + 1, yi)->Some_0.spec_set_layer(
                                    spec_layer_of(silicon_type),
                                    true,
                                ),
                            )
                        } else {
                            c0.edge_between(xi, yi, xi + 1, yi)
                        },
                        None => None,
                    }));
                }
                assert(cpre.spec_connected(xi, yi, Direction::Up, opp) == c0.spec_connected(
                    xi,
                    yi,
                    Direction::Up,
                    opp,
                )) by {
                    assert(cpre.edge_between(xi, yi, xi, yi - 1) == (match edge_slot(
                        xi,
                        yi,
                        xi,
                        yi - 1,
                    ) {
                        Some(slot) => if path_step_slot_prefix(path@, i as int, slot) {
                            Some(
                                c0.edge_between(xi, yi, xi, yi - 1)->Some_0.spec_set_layer(
                                    spec_layer_of(silicon_type),
                                    true,
                                ),
                            )
                        } else {
                            c0.edge_between(xi, yi, xi, yi - 1)
                        },
                        None => None,
                    }));
                }
                assert(cpre.spec_connected(xi, yi, Direction::Down, opp) == c0.spec_connected(
                    xi,
                    yi,
                    Direction::Down,
                    opp,
                )) by {
                    assert(cpre.edge_between(xi, yi, xi, yi + 1) == (match edge_slot(
                        xi,
                        yi,
                        xi,
                        yi + 1,
                    ) {
                        Some(slot) => if path_step_slot_prefix(path@, i as int, slot) {
                            Some(
                                c0.edge_between(xi, yi, xi, yi + 1)->Some_0.spec_set_layer(
                                    spec_layer_of(silicon_type),
                                    true,
                                ),
                            )
                        } else {
                            c0.edge_between(xi, yi, xi, yi + 1)
                        },
                        None => None,
                    }));
                }
                lemma_place_matches_fold(c0, cpre, xi, yi, silicon_type, vert);
                assert forall|j: int| 0 <= j < circuit.nodes@.len() implies circuit.nodes@[j]
                    == target[j] by {
                    let cx = j % (GRID_WIDTH as int);
                    let cy = j / (GRID_WIDTH as int);
                    assert(0 <= cx < GRID_WIDTH && 0 <= cy < GRID_HEIGHT && cy * GRID_WIDTH + cx
                        == j) by (nonlinear_arith)
                        requires
                            0 <= j < GRID_WIDTH * GRID_HEIGHT,
                            cx == j % (GRID_WIDTH as int),
                            cy == j / (GRID_WIDTH as int),
                    ;
                    assert(in_grid(cx, cy) && cell_index(cx, cy) == j);
                    assert(circuit.node_at(cx, cy) == cmid.node_at(cx, cy));
                }
                assert(circuit.nodes@ =~= target);
            } else {
                assert(target == path_nodes(c0, path@, silicon_type, i as int));
                assert forall|j: int| 0 <= j < circuit.nodes@.len() implies circuit.nodes@[j]
                    == target[j] by {
                    let cx = j % (GRID_WIDTH as int);
                    let cy = j / (GRID_WIDTH as int);
                    assert(0 <= cx < GRID_WIDTH && 0 <= cy < GRID_HEIGHT && cy * GRID_WIDTH + cx
                        == j) by (nonlinear_arith)
                        requires
                            0 <= j < GRID_WIDTH * GRID_HEIGHT,
                            cx == j % (GRID_WIDTH as int),
                            cy == j / (GRID_WIDTH as int),
                    ;
                    assert(in_grid(cx, cy) && cell_index(cx, cy) == j);
                    assert(circuit.node_at(cx, cy) == cmid.node_at(cx, cy));
                    if placed {
                        assert(cmid.node_at(cx, cy) == cpre.node_at(cx, cy));
                    }
                }
                assert(circuit.nodes@ =~= target);
            }
        }
        i = i + 1;
    }
    proof {
        lemma_path_nodes_keep_metal_via(c0, path@, silicon_type, path@.len() as int);
        assert forall|cx: int, cy: int| in_grid(cx, cy) implies (#[trigger] circuit.node_at(
            cx,
            cy,
        )).metal == old(circuit).node_at(cx, cy).metal && circuit.node_at(cx, cy).via == old(
            circuit,
        ).node_at(cx, cy).via by {
            assert(circuit.nodes@[cell_index(cx, cy)] == path_nodes(
                c0,
                path@,
                silicon_type,
                path@.len() as int,
            )[cell_index(cx, cy)]);
        }
    }
}

/// Extending a path prefix by one entry adds that entry's cell, and (past
/// the first entry) the one step from its predecessor.
pub proof fn lemma_path_prefix_extend(path: Seq<(usize, usize)>, n: int)
    requires
        0 <= n < path.len(),
    ensures
        forall|cx: int, cy: int|
            #[trigger] path_contains_prefix(path, n + 1, cx, cy) <==> (path_contains_prefix(
                path,
                n,
                cx,
                cy,
            ) || (path[n].0 == cx && path[n].1 == cy)),
        forall|slot: (int, int, bool)|
            #[trigger] path_step_slot_prefix(path, n + 1, slot) <==> (path_step_slot_prefix(
                path,
                n,
                slot,
            ) || (n > 0 && edge_slot(
                path[n - 1].0 as int,
                path[n - 1].1 as int,
                path[n].0 as int,
                path[n].1 as int,
            ) == Some(slot))),
{
    assert forall|cx: int, cy: int|
        #[trigger] path_contains_prefix(path, n + 1, cx, cy) <==> (path_contains_prefix(
            path,
            n,
            cx,
            cy,
        ) || (path[n].0 == cx && path[n].1 == cy)) by {
        if path_contains_prefix(path, n + 1, cx, cy) {
            let j = choose|j: int| 0 <= j < n + 1 && path[j].0 == cx && path[j].1 == cy;
            if j < n {
                assert(path_contains_prefix(path, n, cx, cy));
            }
        }
        if path_contains_prefix(path, n, cx, cy) {
            let j = choose|j: int| 0 <= j < n && path[j].0 == cx && path[j].1 == cy;
            assert(0 <= j < n + 1 && path[j].0 == cx && path[j].1 == cy);
            assert(path_contains_prefix(path, n + 1, cx, cy));
        }
        if path[n].0 == cx && path[n].1 == cy {
            assert(0 <= n < n + 1 && path[n].0 == cx && path[n].1 == cy);
            assert(path_contains_prefix(path, n + 1, cx, cy));
        }
    }
    assert forall|slot: (int, int, bool)|
        #[trigger] path_step_slot_prefix(path, n + 1, slot) <==> (path_step_slot_prefix(
            path,
            n,
            slot,
        ) || (n > 0 && edge_slot(
            path[n - 1].0 as int,
            path[n - 1].1 as int,
            path[n].0 as int,
            path[n].1 as int,
        ) == Some(slot))) by {
        if path_step_slot_prefix(path, n + 1, slot) {
            let j = choose|j: int|
                0 < j < n + 1 && #[trigger] edge_slot(
                    path[j - 1].0 as int,
                    path[j - 1].1 as int,
                    path[j].0 as int,
                    path[j].1 as int,
                ) == Some(slot);
            if j < n {
                assert(path_step_slot_prefix(path, n, slot));
            }
        }
        if path_step_slot_prefix(path, n, slot) {
            let j = choose|j: int|
                0 < j < n && #[trigger] edge_slot(
                    path[j - 1].0 as int,
                    path[j - 1].1 as int,
                    path[j].0 as int,
                    path[j].1 as int,
                ) == Some(slot);
            assert(0 < j < n + 1 && edge_slot(
                path[j - 1].0 as int,
                path[j - 1].1 as int,
                path[j].0 as int,
                path[j].1 as int,
            ) == Some(slot));
            assert(path_step_slot_prefix(path, n + 1, slot));
        }
        if n > 0 && edge_slot(
            path[n - 1].0 as int,
            path[n - 1].1 as int,
            path[n].0 as int,
            path[n].1 as int,
        ) == Some(slot) {
            assert(path_step_slot_prefix(path, n + 1, slot));
        }
    }
}

/// Deleting one end cell of a valid gate's straight channel reverts the
/// gate cell to plain channel silicon (it loses its gate identity without
/// losing its other material), while the crossing arm's silicon cells and
/// edges at the transistor's cell are untouched, phrased here for a
/// horizontal channel whose left end is deleted.
pub proof fn lemma_gate_reversion(pre: Circuit, post: Circuit, gx: int, gy: int, ch: SiliconKind)
    requires
        pre.wf(),
        delete_silicon_rel(pre, post, gx - 1, gy),
        in_grid(gx, gy),
        pre.node_at(gx, gy).silicon == (Silicon::Gate { channel: ch }),
        pre.spec_connected(gx, gy, Direction::Left, spec_layer_of(ch)),
        pre.spec_connected(gx, gy, Direction::Right, spec_layer_of(ch)),
        !pre.spec_connected(gx, gy, Direction::Up, spec_layer_of(ch)),
        !pre.spec_connected(gx, gy, Direction::Down, spec_layer_of(ch)),
    ensures
        post.node_at(gx, gy).silicon == plain_silicon(ch),
        post.node_at(gx, gy).metal == pre.node_at(gx, gy).metal,
        post.node_at(gx, gy).via == pre.node_at(gx, gy).via,
        post.spec_connected(gx, gy, Direction::Up, spec_layer_of(ch.spec_opposite()))
            == pre.spec_connected(gx, gy, Direction::Up, spec_layer_of(ch.spec_opposite())),
        post.spec_connected(gx, gy, Direction::Down, spec_layer_of(ch.spec_opposite()))
            == pre.spec_connected(gx, gy, Direction::Down, spec_layer_of(ch.spec_opposite())),
        in_grid(gx, gy - 1) ==> post.node_at(gx, gy - 1) == pre.node_at(gx, gy - 1),
        in_grid(gx, gy + 1) ==> post.node_at(gx, gy + 1) == pre.node_at(gx, gy + 1),
{
    assert(!gate_valid(post, gx, gy, ch));
}

} // verus!
