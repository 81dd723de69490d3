//! The twelve fixed pins: 3x3 metal regions, six on each side of the grid,
//! addressed by a stable index (left column top to bottom, then right
//! column top to bottom).

use vstd::prelude::*;

use crate::circuit::{edge_slot, in_grid, Circuit, Layer, Node, GRID_HEIGHT, GRID_WIDTH};

verus! {

/// Side length of a square pin region.
pub const PIN_SIZE: usize = 3;

/// Column of the left-side pins.
pub const PIN_LEFT_X: usize = 1;

/// Column of the right-side pins.
pub const PIN_RIGHT_X: usize = 40;

/// One pin: a labelled 3x3 region with its top-left corner at `(x, y)`.
pub struct Pin {
    pub label: String,
    pub x: usize,
    pub y: usize,
}

impl Pin {
    /// The pin's region lies wholly on the grid.
    pub open spec fn wf(self) -> bool {
        self.x + PIN_SIZE <= GRID_WIDTH && self.y + PIN_SIZE <= GRID_HEIGHT
    }

    /// Whether `(x, y)` lies in this pin's 3x3 region.
    pub open spec fn spec_contains(self, x: int, y: int) -> bool {
        self.x <= x < self.x + PIN_SIZE && self.y <= y < self.y + PIN_SIZE
    }

    pub fn new(label: &str, x: usize, y: usize) -> (r: Pin)
        ensures
            r.label@ == label@,
            r.x == x,
            r.y == y,
    {
        Pin { label: label.to_owned(), x, y }
    }

    /// Check if a grid coordinate is within this pin's 3x3 area.
    pub fn contains(&self, x: usize, y: usize) -> (r: bool)
        requires
            self.wf(),
        ensures
            r == self.spec_contains(x as int, y as int),
    {
        x >= self.x && x < self.x + PIN_SIZE && y >= self.y && y < self.y + PIN_SIZE
    }
}

/// Whether every pin of a list lies wholly on the grid.
pub open spec fn all_pins_wf(pins: Seq<Pin>) -> bool {
    forall|i: int| 0 <= i < pins.len() ==> (#[trigger] pins[i]).wf()
}

/// Whether `(x, y)` lies in the region of one of the first `n` pins.
pub open spec fn spec_pin_cell_prefix(pins: Seq<Pin>, n: int, x: int, y: int) -> bool {
    exists|i: int| 0 <= i < n && (#[trigger] pins[i]).spec_contains(x, y)
}

/// Whether `(x, y)` lies in some pin's region.
pub open spec fn spec_pin_cell(pins: Seq<Pin>, x: int, y: int) -> bool {
    spec_pin_cell_prefix(pins, pins.len() as int, x, y)
}

/// Check if a grid coordinate is within any pin's 3x3 area.
pub fn is_pin_cell(x: usize, y: usize, pins: &[Pin]) -> (r: bool)
    requires
        all_pins_wf(pins@),
    ensures
        r == spec_pin_cell(pins@, x as int, y as int),
{
    let mut i: usize = 0;
    while i < pins.len()
        invariant
            i <= pins@.len(),
            all_pins_wf(pins@),
            !spec_pin_cell_prefix(pins@, i as int, x as int, y as int),
        decreases pins@.len() - i,
    {
        if pins[i].contains(x, y) {
            proof {
                assert(0 <= i < pins@.len() && pins@[i as int].spec_contains(x as int, y as int));
            }
            return true;
        }
        i = i + 1;
    }
    false
}

/// Corner fill flags for a pin cell, from its diagonal neighbours:
/// `[top_left, top_right, bottom_left, bottom_right]`, each raised when the
/// matching diagonal neighbour is also a pin cell.
pub fn get_pin_corner_fills(x: usize, y: usize, pins: &[Pin]) -> (r: [bool; 4])
    requires
        all_pins_wf(pins@),
        x < GRID_WIDTH,
        y < GRID_HEIGHT,
    ensures
        r@[0] == (x > 0 && y > 0 && spec_pin_cell(pins@, x - 1, y - 1)),
        r@[1] == (y > 0 && spec_pin_cell(pins@, x + 1, y - 1)),
        r@[2] == (x > 0 && spec_pin_cell(pins@, x - 1, y + 1)),
        r@[3] == spec_pin_cell(pins@, x + 1, y + 1),
{
    let top_left = x > 0 && y > 0 && is_pin_cell(x - 1, y - 1, pins);
    let top_right = y > 0 && is_pin_cell(x + 1, y - 1, pins);
    let bottom_left = x > 0 && is_pin_cell(x - 1, y + 1, pins);
    let bottom_right = is_pin_cell(x + 1, y + 1, pins);
    [top_left, top_right, bottom_left, bottom_right]
}

/// The y offsets of the six pin rows: top pin at row 2, stride 4.
pub open spec fn pin_row_y(row: int) -> int {
    2 + 4 * row
}

/// The twelve pins: indices 0 to 5 run down the left side, 6 to 11 down
/// the right side, with supply pins first and last on each side.
pub fn create_pins() -> (pins: Vec<Pin>)
    ensures
        pins@.len() == 12,
        all_pins_wf(pins@),
        forall|i: int|
            0 <= i < 12 ==> (#[trigger] pins@[i]).x == (if i < 6 {
                PIN_LEFT_X as int
            } else {
                PIN_RIGHT_X as int
            }),
        forall|i: int|
            0 <= i < 12 ==> (#[trigger] pins@[i]).y == pin_row_y(
                if i < 6 {
                    i
                } else {
                    i - 6
                },
            ),
        pins@[1].label@ == "A0"@,
        pins@[2].label@ == "A1"@,
        pins@[3].label@ == "A2"@,
        pins@[4].label@ == "A3"@,
        pins@[7].label@ == "Y0"@,
        pins@[8].label@ == "Y1"@,
        pins@[9].label@ == "Y2"@,
        pins@[10].label@ == "Y3"@,
        pins@[0].label@ == "+"@,
        pins@[5].label@ == "+"@,
        pins@[6].label@ == "+"@,
        pins@[11].label@ == "+"@,
{
    let mut pins: Vec<Pin> = Vec::new();
    pins.push(Pin::new("+", PIN_LEFT_X, 2));
    pins.push(Pin::new("A0", PIN_LEFT_X, 6));
    pins.push(Pin::new("A1", PIN_LEFT_X, 10));
    pins.push(Pin::new("A2", PIN_LEFT_X, 14));
    pins.push(Pin::new("A3", PIN_LEFT_X, 18));
    pins.push(Pin::new("+", PIN_LEFT_X, 22));
    pins.push(Pin::new("+", PIN_RIGHT_X, 2));
    pins.push(Pin::new("Y0", PIN_RIGHT_X, 6));
    pins.push(Pin::new("Y1", PIN_RIGHT_X, 10));
    pins.push(Pin::new("Y2", PIN_RIGHT_X, 14));
    pins.push(Pin::new("Y3", PIN_RIGHT_X, 18));
    pins.push(Pin::new("+", PIN_RIGHT_X, 22));
    pins
}

/// Whether an edge storage slot lies inside a pin's 3x3 region.
pub open spec fn slot_in_pin(p: Pin, slot: (int, int, bool)) -> bool {
    if slot.2 {
        p.x <= slot.0 < p.x + 2 && p.y <= slot.1 < p.y + 3
    } else {
        p.x <= slot.0 < p.x + 3 && p.y <= slot.1 < p.y + 2
    }
}

/// Whether an edge storage slot lies inside one of the first `n` pins.
pub open spec fn slot_in_pins_prefix(pins: Seq<Pin>, n: int, slot: (int, int, bool)) -> bool {
    exists|i: int| 0 <= i < n && slot_in_pin(#[trigger] pins[i], slot)
}

/// Whether an edge storage slot lies inside some pin's region.
pub open spec fn slot_in_pins(pins: Seq<Pin>, slot: (int, int, bool)) -> bool {
    slot_in_pins_prefix(pins, pins.len() as int, slot)
}

/// Fill one pin's 3x3 region with metal and join its cells with metal
/// edges; everything else is untouched.
fn fill_pin(circuit: &mut Circuit, p: &Pin)
    requires
        old(circuit).wf(),
        p.wf(),
    ensures
        final(circuit).wf(),
        forall|cx: int, cy: int|
            in_grid(cx, cy) ==> #[trigger] final(circuit).node_at(cx, cy) == (
            if p.spec_contains(cx, cy) {
                Node { metal: true, ..old(circuit).node_at(cx, cy) }
            } else {
                old(circuit).node_at(cx, cy)
            }),
        forall|ax: int, ay: int, bx: int, by: int|
            #[trigger] final(circuit).edge_between(ax, ay, bx, by) == (match edge_slot(
                ax,
                ay,
                bx,
                by,
            ) {
                Some(slot) => if slot_in_pin(*p, slot) {
                    Some(
                        old(circuit).edge_between(ax, ay, bx, by)->Some_0.spec_set_layer(
                            Layer::Metal,
                            true,
                        ),
                    )
                } else {
                    old(circuit).edge_between(ax, ay, bx, by)
                },
                None => None,
            }),
{
    // metal on all nine cells
    let mut dy: usize = 0;
    while dy < PIN_SIZE
        invariant
            circuit.wf(),
            p.wf(),
            dy <= PIN_SIZE,
            circuit.h_edges@ == old(circuit).h_edges@,
            circuit.v_edges@ == old(circuit).v_edges@,
            forall|cx: int, cy: int|
                in_grid(cx, cy) ==> #[trigger] circuit.node_at(cx, cy) == (
                if p.spec_contains(cx, cy) && cy < p.y + dy {
                    Node { metal: true, ..old(circuit).node_at(cx, cy) }
                } else {
                    old(circuit).node_at(cx, cy)
                }),
        decreases PIN_SIZE - dy,
    {
        let mut dx: usize = 0;
        while dx < PIN_SIZE
            invariant
                circuit.wf(),
                p.wf(),
                dy < PIN_SIZE,
                dx <= PIN_SIZE,
                circuit.h_edges@ == old(circuit).h_edges@,
                circuit.v_edges@ == old(circuit).v_edges@,
                forall|cx: int, cy: int|
                    in_grid(cx, cy) ==> #[trigger] circuit.node_at(cx, cy) == (
                    if p.spec_contains(cx, cy) && (cy < p.y + dy || (cy == p.y + dy && cx < p.x
                        + dx)) {
                        Node { metal: true, ..old(circuit).node_at(cx, cy) }
                    } else {
                        old(circuit).node_at(cx, cy)
                    }),
            decreases PIN_SIZE - dx,
        {
            let x = p.x + dx;
            let y = p.y + dy;
            let ghost cpre = *circuit;
            if let Some(node) = circuit.get_node(x, y) {
                circuit.set_node(x, y, Node { metal: true, ..node });
            }
            proof {
                assert forall|cx: int, cy: int| in_grid(cx, cy) implies #[trigger] circuit.node_at(
                    cx,
                    cy,
                ) == (if p.spec_contains(cx, cy) && (cy < p.y + dy || (cy == p.y + dy && cx < p.x
                    + dx + 1)) {
                    Node { metal: true, ..old(circuit).node_at(cx, cy) }
                } else {
                    old(circuit).node_at(cx, cy)
                }) by {
                    assert(cpre.node_at(cx, cy) == (if p.spec_contains(cx, cy) && (cy < p.y + dy
                        || (cy == p.y + dy && cx < p.x + dx)) {
                        Node { metal: true, ..old(circuit).node_at(cx, cy) }
                    } else {
                        old(circuit).node_at(cx, cy)
                    }));
                }
            }
            dx = dx + 1;
        }
        dy = dy + 1;
    }
    let ghost cnodes = *circuit;
    // horizontal edges within the pin
    let mut dy: usize = 0;
    while dy < PIN_SIZE
        invariant
            circuit.wf(),
            p.wf(),
            dy <= PIN_SIZE,
            circuit.nodes@ == cnodes.nodes@,
            forall|ax: int, ay: int, bx: int, by: int|
                #[trigger] circuit.edge_between(ax, ay, bx, by) == (match edge_slot(
                    ax,
                    ay,
                    bx,
                    by,
                ) {
                    Some(slot) => if slot.2 && p.x <= slot.0 < p.x + 2 && p.y <= slot.1 < p.y
                        + dy {
                        Some(
                            cnodes.edge_between(ax, ay, bx, by)->Some_0.spec_set_layer(
                                Layer::Metal,
                                true,
                            ),
                        )
                    } else {
                        cnodes.edge_between(ax, ay, bx, by)
                    },
                    None => None,
                }),
        decreases PIN_SIZE - dy,
    {
        let mut dx: usize = 0;
        while dx < PIN_SIZE - 1
            invariant
                circuit.wf(),
                p.wf(),
                dy < PIN_SIZE,
                dx <= PIN_SIZE - 1,
                circuit.nodes@ == cnodes.nodes@,
                forall|ax: int, ay: int, bx: int, by: int|
                    #[trigger] circuit.edge_between(ax, ay, bx, by) == (match edge_slot(
                        ax,
                        ay,
                        bx,
                        by,
                    ) {
                        Some(slot) => if slot.2 && p.x <= slot.0 < p.x + 2 && (slot.1 < p.y + dy
                            && p.y <= slot.1 || (slot.1 == p.y + dy && slot.0 < p.x + dx)) {
                            Some(
                                cnodes.edge_between(ax, ay, bx, by)->Some_0.spec_set_layer(
                                    Layer::Metal,
                                    true,
                                ),
                            )
                        } else {
                            cnodes.edge_between(ax, ay, bx, by)
                        },
                        None => None,
                    }),
            decreases PIN_SIZE - 1 - dx,
        {
            let x = p.x + dx;
            let y = p.y + dy;
            circuit.set_edge(x, y, x + 1, y, Layer::Metal, true);
            dx = dx + 1;
        }
        dy = dy + 1;
    }
    let ghost choriz = *circuit;
    // vertical edges within the pin
    let mut dy: usize = 0;
    while dy < PIN_SIZE - 1
        invariant
            circuit.wf(),
            p.wf(),
            dy <= PIN_SIZE - 1,
            circuit.nodes@ == cnodes.nodes@,
            forall|ax: int, ay: int, bx: int, by: int|
                #[trigger] circuit.edge_between(ax, ay, bx, by) == (match edge_slot(
                    ax,
                    ay,
                    bx,
                    by,
                ) {
                    Some(slot) => if !slot.2 && p.x <= slot.0 < p.x + 3 && p.y <= slot.1 < p.y
                        + dy {
                        Some(
                            choriz.edge_between(ax, ay, bx, by)->Some_0.spec_set_layer(
                                Layer::Metal,
                                true,
                            ),
                        )
                    } else {
                        choriz.edge_between(ax, ay, bx, by)
                    },
                    None => None,
                }),
        decreases PIN_SIZE - 1 - dy,
    {
        let mut dx: usize = 0;
        while dx < PIN_SIZE
            invariant
                circuit.wf(),
                p.wf(),
                dy < PIN_SIZE - 1,
                dx <= PIN_SIZE,
                circuit.nodes@ == cnodes.nodes@,
                forall|ax: int, ay: int, bx: int, by: int|
                    #[trigger] circuit.edge_between(ax, ay, bx, by) == (match edge_slot(
                        ax,
                        ay,
                        bx,
                        by,
                    ) {
                        Some(slot) => if !slot.2 && p.x <= slot.0 < p.x + 3 && (slot.1 < p.y + dy
                            && p.y <= slot.1 || (slot.1 == p.y + dy && slot.0 < p.x + dx)) {
                            Some(
                                choriz.edge_between(ax, ay, bx, by)->Some_0.spec_set_layer(
                                    Layer::Metal,
                                    true,
                                ),
                            )
                        } else {
                            choriz.edge_between(ax, ay, bx, by)
                        },
                        None => None,
                    }),
            decreases PIN_SIZE - dx,
        {
            let x = p.x + dx;
            let y = p.y + dy;
            circuit.set_edge(x, y, x, y + 1, Layer::Metal, true);
            dx = dx + 1;
        }
        dy = dy + 1;
    }
    proof {
        assert forall|cx: int, cy: int| in_grid(cx, cy) implies #[trigger] circuit.node_at(
            cx,
            cy,
        ) == (if p.spec_contains(cx, cy) {
            Node { metal: true, ..old(circuit).node_at(cx, cy) }
        } else {
            old(circuit).node_at(cx, cy)
        }) by {
            assert(circuit.node_at(cx, cy) == cnodes.node_at(cx, cy));
        }
    }
}

/// Place metal at every pin location and join each pin's cells with metal
/// edges; everything else is untouched.
pub fn setup_pins(circuit: &mut Circuit, pins: &[Pin])
    requires
        old(circuit).wf(),
        all_pins_wf(pins@),
    ensures
        final(circuit).wf(),
        forall|cx: int, cy: int|
            in_grid(cx, cy) ==> #[trigger] final(circuit).node_at(cx, cy) == (if spec_pin_cell(
                pins@,
                cx,
                cy,
            ) {
                Node { metal: true, ..old(circuit).node_at(cx, cy) }
            } else {
                old(circuit).node_at(cx, cy)
            }),
        forall|ax: int, ay: int, bx: int, by: int|
            #[trigger] final(circuit).edge_between(ax, ay, bx, by) == (match edge_slot(
                ax,
                ay,
                bx,
                by,
            ) {
                Some(slot) => if slot_in_pins(pins@, slot) {
                    Some(
                        old(circuit).edge_between(ax, ay, bx, by)->Some_0.spec_set_layer(
                            Layer::Metal,
                            true,
                        ),
                    )
                } else {
                    old(circuit).edge_between(ax, ay, bx, by)
                },
                None => None,
            }),
{
    let mut i: usize = 0;
    while i < pins.len()
        invariant
            circuit.wf(),
            all_pins_wf(pins@),
            i <= pins@.len(),
            forall|cx: int, cy: int|
                in_grid(cx, cy) ==> #[trigger] circuit.node_at(cx, cy) == (
                if spec_pin_cell_prefix(pins@, i as int, cx, cy) {
                    Node { metal: true, ..old(circuit).node_at(cx, cy) }
                } else {
                    old(circuit).node_at(cx, cy)
                }),
            forall|ax: int, ay: int, bx: int, by: int|
                #[trigger] circuit.edge_between(ax, ay, bx, by) == (match edge_slot(
                    ax,
                    ay,
                    bx,
                    by,
                ) {
                    Some(slot) => if slot_in_pins_prefix(pins@, i as int, slot) {
                        Some(
                            old(circuit).edge_between(ax, ay, bx, by)->Some_0.spec_set_layer(
                                Layer::Metal,
                                true,
                            ),
                        )
                    } else {
                        old(circuit).edge_between(ax, ay, bx, by)
                    },
                    None => None,
                }),
        decreases pins@.len() - i,
    {
        let ghost cpre = *circuit;
        fill_pin(circuit, &pins[i]);
        proof {
            lemma_pins_prefix_extend(pins@, i as int);
            assert forall|cx: int, cy: int| in_grid(cx, cy) implies #[trigger] circuit.node_at(
                cx,
                cy,
            ) == (if spec_pin_cell_prefix(pins@, i as int + 1, cx, cy) {
                Node { metal: true, ..old(circuit).node_at(cx, cy) }
            } else {
                old(circuit).node_at(cx, cy)
            }) by {
                assert(cpre.node_at(cx, cy) == (if spec_pin_cell_prefix(pins@, i as int, cx, cy) {
                    Node { metal: true, ..old(circuit).node_at(cx, cy) }
                } else {
                    old(circuit).node_at(cx, cy)
                }));
            }
        }
        i = i + 1;
    }
}

/// Extending a pin-list prefix by one pin adds exactly that pin's cells
/// and that pin's internal edge slots.
pub proof fn lemma_pins_prefix_extend(pins: Seq<Pin>, n: int)
    requires
        0 <= n < pins.len(),
    ensures
        forall|cx: int, cy: int|
            #[trigger] spec_pin_cell_prefix(pins, n + 1, cx, cy) <==> (spec_pin_cell_prefix(
                pins,
                n,
                cx,
                cy,
            ) || pins[n].spec_contains(cx, cy)),
        forall|slot: (int, int, bool)|
            #[trigger] slot_in_pins_prefix(pins, n + 1, slot) <==> (slot_in_pins_prefix(
                pins,
                n,
                slot,
            ) || slot_in_pin(pins[n], slot)),
{
    assert forall|cx: int, cy: int|
        #[trigger] spec_pin_cell_prefix(pins, n + 1, cx, cy) <==> (spec_pin_cell_prefix(
            pins,
            n,
            cx,
            cy,
        ) || pins[n].spec_contains(cx, cy)) by {
        if spec_pin_cell_prefix(pins, n + 1, cx, cy) {
            let j = choose|j: int| 0 <= j < n + 1 && (#[trigger] pins[j]).spec_contains(cx, cy);
            if j < n {
                assert(spec_pin_cell_prefix(pins, n, cx, cy));
            }
        }
        if spec_pin_cell_prefix(pins, n, cx, cy) {
            let j = choose|j: int| 0 <= j < n && (#[trigger] pins[j]).spec_contains(cx, cy);
            assert(0 <= j < n + 1 && pins[j].spec_contains(cx, cy));
            assert(spec_pin_cell_prefix(pins, n + 1, cx, cy));
        }
        if pins[n].spec_contains(cx, cy) {
            assert(spec_pin_cell_prefix(pins, n + 1, cx, cy));
        }
    }
    assert forall|slot: (int, int, bool)|
        #[trigger] slot_in_pins_prefix(pins, n + 1, slot) <==> (slot_in_pins_prefix(pins, n, slot)
            || slot_in_pin(pins[n], slot)) by {
        if slot_in_pins_prefix(pins, n + 1, slot) {
            let j = choose|j: int| 0 <= j < n + 1 && slot_in_pin(#[trigger] pins[j], slot);
            if j < n {
                assert(slot_in_pins_prefix(pins, n, slot));
            }
        }
        if slot_in_pins_prefix(pins, n, slot) {
            let j = choose|j: int| 0 <= j < n && slot_in_pin(#[trigger] pins[j], slot);
            assert(0 <= j < n + 1 && slot_in_pin(pins[j], slot));
            assert(slot_in_pins_prefix(pins, n + 1, slot));
        }
        if slot_in_pin(pins[n], slot) {
            assert(slot_in_pins_prefix(pins, n + 1, slot));
        }
    }
}

} // verus!
