//! A demonstration layout placed into a fresh grid: isolated dots, wires
//! of each material, a crossing that forms a transistor, a via linking the
//! layers, and metal runs joining the two middle pins.

use vstd::prelude::*;

use crate::circuit::{
    cell_index, edge_slot, in_grid, Circuit, Edge, Layer, Node, Silicon, SiliconKind,
};

verus! {

/// The silicon the demo writes at a cell, or `None` for a cell it leaves
/// alone: two isolated dots, a horizontal N-type wire, a vertical P-type
/// wire, an N-type cross, a P-channel transistor with N-type arms, an
/// N-type wire under a via, and a P-type run under metal.
pub open spec fn demo_silicon(cx: int, cy: int) -> Option<Silicon> {
    if cx == 6 && cy == 5 {
        Some(Silicon::N)
    } else if cx == 8 && cy == 5 {
        Some(Silicon::P)
    } else if cy == 8 && 6 <= cx <= 10 {
        Some(Silicon::N)
    } else if cx == 14 && 5 <= cy <= 9 {
        Some(Silicon::P)
    } else if cy == 7 && 17 <= cx <= 19 {
        Some(Silicon::N)
    } else if cx == 18 && (cy == 6 || cy == 8) {
        Some(Silicon::N)
    } else if cx == 24 && cy == 7 {
        Some(Silicon::Gate { channel: SiliconKind::P })
    } else if cy == 7 && (cx == 23 || cx == 25) {
        Some(Silicon::P)
    } else if cx == 24 && (cy == 6 || cy == 8) {
        Some(Silicon::N)
    } else if cy == 16 && 6 <= cx <= 10 {
        Some(Silicon::N)
    } else if cy == 16 && 20 <= cx <= 24 {
        Some(Silicon::P)
    } else {
        None
    }
}

/// Whether the demo raises a cell's metal flag: one isolated dot, the via
/// cell and its vertical metal run, the metal-over-silicon run, and the
/// leads joining the second pin on each side.
pub open spec fn demo_metal(cx: int, cy: int) -> bool {
    ||| (cx == 10 && cy == 5)
    ||| (cx == 8 && 14 <= cy <= 18)
    ||| (cy == 16 && 20 <= cx <= 24)
    ||| (cy == 7 && 4 <= cx <= 7)
    ||| (cy == 7 && 36 <= cx <= 39)
}

/// Whether the demo places a via at a cell: one, on the N-type wire under
/// the vertical metal run.
pub open spec fn demo_via(cx: int, cy: int) -> bool {
    cx == 8 && cy == 16
}

/// The node the demo leaves at a cell: its silicon overwritten where the
/// pattern places some, its metal and via flags raised where the pattern
/// adds them, everything else kept.
pub open spec fn demo_node(c0: Circuit, cx: int, cy: int) -> Node {
    let base = c0.node_at(cx, cy);
    Node {
        silicon: match demo_silicon(cx, cy) {
            Some(s) => s,
            None => base.silicon,
        },
        metal: base.metal || demo_metal(cx, cy),
        via: base.via || demo_via(cx, cy),
    }
}

/// The silicon edges of the demo's plain wires: the horizontal N-type
/// wire, the vertical P-type wire, and the N-type cross.
pub open spec fn demo_edge_wires(e: Edge, slot: (int, int, bool)) -> Edge {
    if slot.2 {
        if slot.1 == 8 && 6 <= slot.0 <= 9 {
            e.spec_set_layer(Layer::NSilicon, true)
        } else if slot.1 == 7 && (slot.0 == 17 || slot.0 == 18) {
            e.spec_set_layer(Layer::NSilicon, true)
        } else {
            e
        }
    } else {
        if slot.0 == 14 && 5 <= slot.1 <= 8 {
            e.spec_set_layer(Layer::PSilicon, true)
        } else if slot.0 == 18 && (slot.1 == 6 || slot.1 == 7) {
            e.spec_set_layer(Layer::NSilicon, true)
        } else {
            e
        }
    }
}

/// The silicon edges of the demo's devices: the transistor's channel and
/// arms, the tapped N-type wire, and the P-type run under metal.
pub open spec fn demo_edge_devices(e: Edge, slot: (int, int, bool)) -> Edge {
    if slot.2 {
        if slot.1 == 7 && (slot.0 == 23 || slot.0 == 24) {
            e.spec_set_layer(Layer::PSilicon, true)
        } else if slot.1 == 16 && 6 <= slot.0 <= 9 {
            e.spec_set_layer(Layer::NSilicon, true)
        } else if slot.1 == 16 && 20 <= slot.0 <= 23 {
            e.spec_set_layer(Layer::PSilicon, true)
        } else {
            e
        }
    } else {
        if slot.0 == 24 && (slot.1 == 6 || slot.1 == 7) {
            e.spec_set_layer(Layer::NSilicon, true)
        } else {
            e
        }
    }
}

/// All silicon-layer edges the demo raises.
pub open spec fn demo_edge_silicon(e: Edge, slot: (int, int, bool)) -> Edge {
    demo_edge_devices(demo_edge_wires(e, slot), slot)
}

/// The metal-layer edges the demo raises: the vertical run through the
/// via, the run over the P-type silicon, and the two pin leads.
pub open spec fn demo_edge_metal(e: Edge, slot: (int, int, bool)) -> Edge {
    if slot.2 {
        if slot.1 == 16 && 20 <= slot.0 <= 23 {
            e.spec_set_layer(Layer::Metal, true)
        } else if slot.1 == 7 && (3 <= slot.0 <= 6 || 36 <= slot.0 <= 39) {
            e.spec_set_layer(Layer::Metal, true)
        } else {
            e
        }
    } else {
        if slot.0 == 8 && 14 <= slot.1 <= 17 {
            e.spec_set_layer(Layer::Metal, true)
        } else {
            e
        }
    }
}

/// The edge the demo leaves at a slot.
pub open spec fn demo_edge(e: Edge, slot: (int, int, bool)) -> Edge {
    demo_edge_metal(demo_edge_silicon(e, slot), slot)
}

/// Overwrite a cell's silicon, keeping its metal and via.
fn put_silicon(circuit: &mut Circuit, x: usize, y: usize, silicon: Silicon)
    requires
        old(circuit).wf(),
    ensures
        final(circuit).wf(),
        final(circuit).h_edges@ == old(circuit).h_edges@,
        final(circuit).v_edges@ == old(circuit).v_edges@,
        in_grid(x as int, y as int) ==> final(circuit).nodes@ == old(circuit).nodes@.update(
            cell_index(x as int, y as int),
            Node { silicon, ..old(circuit).node_at(x as int, y as int) },
        ),
        !in_grid(x as int, y as int) ==> final(circuit).nodes@ == old(circuit).nodes@,
{
    if let Some(node) = circuit.get_node(x, y) {
        circuit.set_node(x, y, Node { silicon, ..node });
    }
}

/// Raise a cell's metal flag, keeping the rest.
fn put_metal(circuit: &mut Circuit, x: usize, y: usize)
    requires
        old(circuit).wf(),
    ensures
        final(circuit).wf(),
        final(circuit).h_edges@ == old(circuit).h_edges@,
        final(circuit).v_edges@ == old(circuit).v_edges@,
        in_grid(x as int, y as int) ==> final(circuit).nodes@ == old(circuit).nodes@.update(
            cell_index(x as int, y as int),
            Node { metal: true, ..old(circuit).node_at(x as int, y as int) },
        ),
        !in_grid(x as int, y as int) ==> final(circuit).nodes@ == old(circuit).nodes@,
{
    if let Some(node) = circuit.get_node(x, y) {
        circuit.set_node(x, y, Node { metal: true, ..node });
    }
}

/// Overwrite a cell's silicon and raise its metal, keeping its via.
fn put_silicon_metal(circuit: &mut Circuit, x: usize, y: usize, silicon: Silicon)
    requires
        old(circuit).wf(),
    ensures
        final(circuit).wf(),
        final(circuit).h_edges@ == old(circuit).h_edges@,
        final(circuit).v_edges@ == old(circuit).v_edges@,
        in_grid(x as int, y as int) ==> final(circuit).nodes@ == old(circuit).nodes@.update(
            cell_index(x as int, y as int),
            Node { silicon, metal: true, ..old(circuit).node_at(x as int, y as int) },
        ),
        !in_grid(x as int, y as int) ==> final(circuit).nodes@ == old(circuit).nodes@,
{
    if let Some(node) = circuit.get_node(x, y) {
        circuit.set_node(x, y, Node { silicon, metal: true, ..node });
    }
}

/// Write every node of the demo pattern.
#[verifier::rlimit(100)]
fn place_demo_nodes(circuit: &mut Circuit)
    requires
        old(circuit).wf(),
    ensures
        final(circuit).wf(),
        final(circuit).h_edges@ == old(circuit).h_edges@,
        final(circuit).v_edges@ == old(circuit).v_edges@,
        forall|cx: int, cy: int|
            in_grid(cx, cy) ==> #[trigger] final(circuit).node_at(cx, cy) == demo_node(
                *old(circuit),
                cx,
                cy,
            ),
{
    // isolated dots of each material
    put_silicon(circuit, 6, 5, Silicon::N);
    put_silicon(circuit, 8, 5, Silicon::P);
    put_metal(circuit, 10, 5);
    // horizontal N-type wire
    put_silicon(circuit, 6, 8, Silicon::N);
    put_silicon(circuit, 7, 8, Silicon::N);
    put_silicon(circuit, 8, 8, Silicon::N);
    put_silicon(circuit, 9, 8, Silicon::N);
    put_silicon(circuit, 10, 8, Silicon::N);
    // vertical P-type wire
    put_silicon(circuit, 14, 5, Silicon::P);
    put_silicon(circuit, 14, 6, Silicon::P);
    put_silicon(circuit, 14, 7, Silicon::P);
    put_silicon(circuit, 14, 8, Silicon::P);
    put_silicon(circuit, 14, 9, Silicon::P);
    // N-type cross centred at (18, 7)
    put_silicon(circuit, 18, 7, Silicon::N);
    put_silicon(circuit, 17, 7, Silicon::N);
    put_silicon(circuit, 19, 7, Silicon::N);
    put_silicon(circuit, 18, 6, Silicon::N);
    put_silicon(circuit, 18, 8, Silicon::N);
    // P-channel transistor with N-type arms
    put_silicon(circuit, 24, 7, Silicon::Gate { channel: SiliconKind::P });
    put_silicon(circuit, 23, 7, Silicon::P);
    put_silicon(circuit, 25, 7, Silicon::P);
    put_silicon(circuit, 24, 6, Silicon::N);
    put_silicon(circuit, 24, 8, Silicon::N);
    // N-type wire tapped by a via
    put_silicon(circuit, 6, 16, Silicon::N);
    put_silicon(circuit, 7, 16, Silicon::N);
    circuit.set_node(8, 16, Node { silicon: Silicon::N, via: true, metal: true });
    put_silicon(circuit, 9, 16, Silicon::N);
    put_silicon(circuit, 10, 16, Silicon::N);
    // vertical metal through the via
    put_metal(circuit, 8, 14);
    put_metal(circuit, 8, 15);
    put_metal(circuit, 8, 16);
    put_metal(circuit, 8, 17);
    put_metal(circuit, 8, 18);
    // metal over silicon
    put_silicon_metal(circuit, 20, 16, Silicon::P);
    put_silicon_metal(circuit, 21, 16, Silicon::P);
    put_silicon_metal(circuit, 22, 16, Silicon::P);
    put_silicon_metal(circuit, 23, 16, Silicon::P);
    put_silicon_metal(circuit, 24, 16, Silicon::P);
    // metal from the second left pin into the playable area
    put_metal(circuit, 4, 7);
    put_metal(circuit, 5, 7);
    put_metal(circuit, 6, 7);
    put_metal(circuit, 7, 7);
    // metal to the second right pin
    put_metal(circuit, 36, 7);
    put_metal(circuit, 37, 7);
    put_metal(circuit, 38, 7);
    put_metal(circuit, 39, 7);
    proof {
        assert forall|cx: int, cy: int| in_grid(cx, cy) implies #[trigger] circuit.node_at(cx, cy)
            == demo_node(*old(circuit), cx, cy) by {
            assert(circuit.node_at(cx, cy) == circuit.nodes@[cell_index(cx, cy)]);
        }
    }
}

/// Raise the silicon edges of the demo's plain wires.
#[verifier::rlimit(100)]
fn place_demo_wire_edges(circuit: &mut Circuit)
    requires
        old(circuit).wf(),
    ensures
        final(circuit).wf(),
        final(circuit).nodes@ == old(circuit).nodes@,
        forall|ax: int, ay: int, bx: int, by: int|
            #[trigger] final(circuit).edge_between(ax, ay, bx, by) == (match edge_slot(
                ax,
                ay,
                bx,
                by,
            ) {
                Some(slot) => Some(
                    demo_edge_wires(old(circuit).edge_between(ax, ay, bx, by)->Some_0, slot),
                ),
                None => None,
            }),
{
    // horizontal N-type wire
    circuit.set_edge(6, 8, 7, 8, Layer::NSilicon, true);
    circuit.set_edge(7, 8, 8, 8, Layer::NSilicon, true);
    circuit.set_edge(8, 8, 9, 8, Layer::NSilicon, true);
    circuit.set_edge(9, 8, 10, 8, Layer::NSilicon, true);
    let ghost g1 = *circuit;
    proof {
        assert forall|ax: int, ay: int, bx: int, by: int|
            #[trigger] g1.edge_between(ax, ay, bx, by) == (match edge_slot(ax, ay, bx, by) {
                Some(slot) => if slot.2 && slot.1 == 8 && 6 <= slot.0 <= 9 {
                    Some(
                        old(circuit).edge_between(ax, ay, bx, by)->Some_0.spec_set_layer(
                            Layer::NSilicon,
                            true,
                        ),
                    )
                } else {
                    old(circuit).edge_between(ax, ay, bx, by)
                },
                None => None,
            }) by {}
    }
    // vertical P-type wire
    circuit.set_edge(14, 5, 14, 6, Layer::PSilicon, true);
    circuit.set_edge(14, 6, 14, 7, Layer::PSilicon, true);
    circuit.set_edge(14, 7, 14, 8, Layer::PSilicon, true);
    circuit.set_edge(14, 8, 14, 9, Layer::PSilicon, true);
    let ghost g2 = *circuit;
    proof {
        assert forall|ax: int, ay: int, bx: int, by: int|
            #[trigger] g2.edge_between(ax, ay, bx, by) == (match edge_slot(ax, ay, bx, by) {
                Some(slot) => if !slot.2 && slot.0 == 14 && 5 <= slot.1 <= 8 {
                    Some(
                        g1.edge_between(ax, ay, bx, by)->Some_0.spec_set_layer(
                            Layer::PSilicon,
                            true,
                        ),
                    )
                } else {
                    g1.edge_between(ax, ay, bx, by)
                },
                None => None,
            }) by {}
    }
    // N-type cross
    circuit.set_edge(18, 7, 17, 7, Layer::NSilicon, true);
    circuit.set_edge(18, 7, 19, 7, Layer::NSilicon, true);
    circuit.set_edge(18, 7, 18, 6, Layer::NSilicon, true);
    circuit.set_edge(18, 7, 18, 8, Layer::NSilicon, true);
    proof {
        assert forall|ax: int, ay: int, bx: int, by: int|
            #[trigger] circuit.edge_between(ax, ay, bx, by) == (match edge_slot(ax, ay, bx, by) {
                Some(slot) => Some(
                    demo_edge_wires(old(circuit).edge_between(ax, ay, bx, by)->Some_0, slot),
                ),
                None => None,
            }) by {
            assert(g1.edge_between(ax, ay, bx, by) == g1.edge_between(ax, ay, bx, by));
            assert(g2.edge_between(ax, ay, bx, by) == g2.edge_between(ax, ay, bx, by));
        }
    }
}

/// Raise the silicon edges of the demo's devices.
#[verifier::rlimit(100)]
fn place_demo_device_edges(circuit: &mut Circuit)
    requires
        old(circuit).wf(),
    ensures
        final(circuit).wf(),
        final(circuit).nodes@ == old(circuit).nodes@,
        forall|ax: int, ay: int, bx: int, by: int|
            #[trigger] final(circuit).edge_between(ax, ay, bx, by) == (match edge_slot(
                ax,
                ay,
                bx,
                by,
            ) {
                Some(slot) => Some(
                    demo_edge_devices(
                        old(circuit).edge_between(ax, ay, bx, by)->Some_0,
                        slot,
                    ),
                ),
                None => None,
            }),
{
    // the transistor's channel and arms
    circuit.set_edge(24, 7, 23, 7, Layer::PSilicon, true);
    circuit.set_edge(24, 7, 25, 7, Layer::PSilicon, true);
    circuit.set_edge(24, 7, 24, 6, Layer::NSilicon, true);
    circuit.set_edge(24, 7, 24, 8, Layer::NSilicon, true);
    // the tapped N-type wire
    circuit.set_edge(6, 16, 7, 16, Layer::NSilicon, true);
    circuit.set_edge(7, 16, 8, 16, Layer::NSilicon, true);
    circuit.set_edge(8, 16, 9, 16, Layer::NSilicon, true);
    circuit.set_edge(9, 16, 10, 16, Layer::NSilicon, true);
    // the P-type run under metal
    circuit.set_edge(20, 16, 21, 16, Layer::PSilicon, true);
    circuit.set_edge(21, 16, 22, 16, Layer::PSilicon, true);
    circuit.set_edge(22, 16, 23, 16, Layer::PSilicon, true);
    circuit.set_edge(23, 16, 24, 16, Layer::PSilicon, true);
}

/// Raise every metal-layer edge of the demo pattern.
#[verifier::rlimit(100)]
fn place_demo_metal_edges(circuit: &mut Circuit)
    requires
        old(circuit).wf(),
    ensures
        final(circuit).wf(),
        final(circuit).nodes@ == old(circuit).nodes@,
        forall|ax: int, ay: int, bx: int, by: int|
            #[trigger] final(circuit).edge_between(ax, ay, bx, by) == (match edge_slot(
                ax,
                ay,
                bx,
                by,
            ) {
                Some(slot) => Some(
                    demo_edge_metal(old(circuit).edge_between(ax, ay, bx, by)->Some_0, slot),
                ),
                None => None,
            }),
{
    // vertical metal through the via
    circuit.set_edge(8, 14, 8, 15, Layer::Metal, true);
    circuit.set_edge(8, 15, 8, 16, Layer::Metal, true);
    circuit.set_edge(8, 16, 8, 17, Layer::Metal, true);
    circuit.set_edge(8, 17, 8, 18, Layer::Metal, true);
    // metal over the P-type run
    circuit.set_edge(20, 16, 21, 16, Layer::Metal, true);
    circuit.set_edge(21, 16, 22, 16, Layer::Metal, true);
    circuit.set_edge(22, 16, 23, 16, Layer::Metal, true);
    circuit.set_edge(23, 16, 24, 16, Layer::Metal, true);
    // the lead from the second left pin
    circuit.set_edge(3, 7, 4, 7, Layer::Metal, true);
    circuit.set_edge(4, 7, 5, 7, Layer::Metal, true);
    circuit.set_edge(5, 7, 6, 7, Layer::Metal, true);
    circuit.set_edge(6, 7, 7, 7, Layer::Metal, true);
    // the lead to the second right pin
    circuit.set_edge(36, 7, 37, 7, Layer::Metal, true);
    circuit.set_edge(37, 7, 38, 7, Layer::Metal, true);
    circuit.set_edge(38, 7, 39, 7, Layer::Metal, true);
    circuit.set_edge(39, 7, 40, 7, Layer::Metal, true);
}

/// Place a small showcase of every construct on the board: single cells of
/// each material, a horizontal N-type wire, a vertical P-type wire, an
/// N-type cross, a P-channel transistor crossed by N-type arms, an N-type
/// wire tapped by a via into a vertical metal run, metal over silicon, and
/// metal leads joining the second pin on each side into the playable area.
/// Every resulting node and edge is pinned down by `demo_node` and
/// `demo_edge`.
pub fn setup_test_pattern(circuit: &mut Circuit)
    requires
        old(circuit).wf(),
    ensures
        final(circuit).wf(),
        forall|cx: int, cy: int|
            in_grid(cx, cy) ==> #[trigger] final(circuit).node_at(cx, cy) == demo_node(
                *old(circuit),
                cx,
                cy,
            ),
        forall|ax: int, ay: int, bx: int, by: int|
            #[trigger] final(circuit).edge_between(ax, ay, bx, by) == (match edge_slot(
                ax,
                ay,
                bx,
                by,
            ) {
                Some(slot) => Some(
                    demo_edge(old(circuit).edge_between(ax, ay, bx, by)->Some_0, slot),
                ),
                None => None,
            }),
{
    place_demo_nodes(circuit);
    let ghost c1 = *circuit;
    place_demo_wire_edges(circuit);
    let ghost c2 = *circuit;
    place_demo_device_edges(circuit);
    let ghost c3 = *circuit;
    place_demo_metal_edges(circuit);
    proof {
        crate::edit::lemma_edge_between_same_edges(c1, *old(circuit));
        assert forall|cx: int, cy: int| in_grid(cx, cy) implies #[trigger] circuit.node_at(cx, cy)
            == demo_node(*old(circuit), cx, cy) by {
            assert(circuit.node_at(cx, cy) == c3.node_at(cx, cy));
            assert(c3.node_at(cx, cy) == c2.node_at(cx, cy));
            assert(c2.node_at(cx, cy) == c1.node_at(cx, cy));
        }
        assert forall|ax: int, ay: int, bx: int, by: int|
            #[trigger] circuit.edge_between(ax, ay, bx, by) == (match edge_slot(ax, ay, bx, by) {
                Some(slot) => Some(
                    demo_edge(old(circuit).edge_between(ax, ay, bx, by)->Some_0, slot),
                ),
                None => None,
            }) by {
            assert(c1.edge_between(ax, ay, bx, by) == old(circuit).edge_between(ax, ay, bx, by));
        }
    }
}

} // verus!
