//! The propagation engine: a fixed-point, tick-based simulator.  Each tick
//! recomputes the three per-layer signal grids from scratch as the least
//! fixed point of the local conduction rules, seeded by the driven pins,
//! then latches the next tick's gate states from the signals just computed.

use vstd::prelude::*;

use crate::circuit::{cell_index, in_grid, Circuit, Silicon, SiliconKind, GRID_HEIGHT, GRID_WIDTH};
use crate::pins::{all_pins_wf, Pin, PIN_SIZE};

verus! {

/// A per-cell boolean grid, stored row-major.
pub open spec fn grid_wf(g: Seq<bool>) -> bool {
    g.len() == GRID_WIDTH * GRID_HEIGHT
}

/// Pointwise implication between two boolean grids: every cell high in `a`
/// is high in `b`.
pub open spec fn subsumed(a: Seq<bool>, b: Seq<bool>) -> bool {
    forall|i: int| 0 <= i < a.len() && #[trigger] a[i] ==> b[i]
}

/// The number of high cells in a grid.
pub open spec fn count_true(s: Seq<bool>) -> int
    decreases s.len(),
{
    if s.len() == 0 {
        0
    } else {
        count_true(s.drop_last()) + if s.last() {
            1int
        } else {
            0
        }
    }
}

/// A grid holds between zero and `len` high cells.
pub proof fn lemma_count_bounds(s: Seq<bool>)
    ensures
        0 <= count_true(s) <= s.len(),
    decreases s.len(),
{
    if s.len() > 0 {
        lemma_count_bounds(s.drop_last());
    }
}

/// Raising one cell raises the count by one; raising an already-high cell
/// leaves it alone.
pub proof fn lemma_count_update(s: Seq<bool>, i: int)
    requires
        0 <= i < s.len(),
    ensures
        count_true(s.update(i, true)) == count_true(s) + if s[i] {
            0int
        } else {
            1
        },
    decreases s.len(),
{
    let t = s.update(i, true);
    if i == s.len() - 1 {
        assert(t.drop_last() =~= s.drop_last());
    } else {
        assert(t.drop_last() =~= s.drop_last().update(i, true));
        lemma_count_update(s.drop_last(), i);
    }
}

/// Whether `(x, y)` lies in the region of a pin that is driven high.
pub open spec fn seed_cell(pins: Seq<Pin>, pv: Seq<bool>, x: int, y: int) -> bool {
    exists|i: int| 0 <= i < pins.len() && pv[i] && (#[trigger] pins[i]).spec_contains(x, y)
}

/// Every in-grid cell of every driven pin is metal-high.
pub open spec fn seeded(pins: Seq<Pin>, pv: Seq<bool>, m: Seq<bool>) -> bool {
    forall|x: int, y: int|
        in_grid(x, y) && #[trigger] seed_cell(pins, pv, x, y) ==> m[cell_index(x, y)]
}

/// The signal grid of a silicon kind, read at one cell.
pub open spec fn sil_high(kind: SiliconKind, n: Seq<bool>, p: Seq<bool>, i: int) -> bool {
    match kind {
        SiliconKind::N => n[i],
        SiliconKind::P => p[i],
    }
}

/// Whether a closed gate of `kind` sits at `(x, y)`: such a cell blocks
/// `kind`-silicon propagation into and out of itself.
pub open spec fn gate_blocks(
    c: Circuit,
    gates: Seq<bool>,
    kind: SiliconKind,
    x: int,
    y: int,
) -> bool {
    c.node_at(x, y).silicon == (Silicon::Gate { channel: kind }) && !gates[cell_index(x, y)]
}

/// The conduction rules across one adjacent cell pair: a metal edge ties
/// the metal signals together; a silicon edge of a kind ties that kind's
/// signals together unless a closed gate of the kind sits at either end.
pub open spec fn pair_ok(
    c: Circuit,
    gates: Seq<bool>,
    m: Seq<bool>,
    n: Seq<bool>,
    p: Seq<bool>,
    x1: int,
    y1: int,
    x2: int,
    y2: int,
) -> bool {
    in_grid(x1, y1) && in_grid(x2, y2) ==> {
        let e = c.edge_between(x1, y1, x2, y2)->Some_0;
        let i1 = cell_index(x1, y1);
        let i2 = cell_index(x2, y2);
        &&& (e.metal ==> m[i1] == m[i2])
        &&& (e.n_silicon && !gate_blocks(c, gates, SiliconKind::N, x1, y1) && !gate_blocks(
            c,
            gates,
            SiliconKind::N,
            x2,
            y2,
        ) ==> n[i1] == n[i2])
        &&& (e.p_silicon && !gate_blocks(c, gates, SiliconKind::P, x1, y1) && !gate_blocks(
            c,
            gates,
            SiliconKind::P,
            x2,
            y2,
        ) ==> p[i1] == p[i2])
    }
}

/// The via rules at one cell: metal high at a via drives the cell's own
/// silicon kind (a gate's channel kind), and either silicon kind high at a
/// via drives the metal.
pub open spec fn via_ok(
    c: Circuit,
    m: Seq<bool>,
    n: Seq<bool>,
    p: Seq<bool>,
    x: int,
    y: int,
) -> bool {
    let node = c.node_at(x, y);
    let i = cell_index(x, y);
    &&& (m[i] && node.via ==> match node.silicon {
        Silicon::N => n[i],
        Silicon::P => p[i],
        Silicon::Gate { channel } => sil_high(channel, n, p, i),
        Silicon::Empty => true,
    })
    &&& ((n[i] || p[i]) && node.via ==> m[i])
}

/// All rules local to one cell: its via rules and the conduction rules
/// towards its right and down neighbours.
pub open spec fn cell_ok(
    c: Circuit,
    gates: Seq<bool>,
    m: Seq<bool>,
    n: Seq<bool>,
    p: Seq<bool>,
    x: int,
    y: int,
) -> bool {
    &&& via_ok(c, m, n, p, x, y)
    &&& pair_ok(c, gates, m, n, p, x, y, x + 1, y)
    &&& pair_ok(c, gates, m, n, p, x, y, x, y + 1)
}

/// A state is closed when no rule can raise any further signal.
pub open spec fn closed(
    c: Circuit,
    gates: Seq<bool>,
    m: Seq<bool>,
    n: Seq<bool>,
    p: Seq<bool>,
) -> bool {
    forall|x: int, y: int| in_grid(x, y) ==> #[trigger] cell_ok(c, gates, m, n, p, x, y)
}

/// A state lies below every closed state that holds the seeds: every high
/// signal is forced, none is spurious.
pub open spec fn dominated(
    c: Circuit,
    gates: Seq<bool>,
    pins: Seq<Pin>,
    pv: Seq<bool>,
    m: Seq<bool>,
    n: Seq<bool>,
    p: Seq<bool>,
) -> bool {
    forall|m2: Seq<bool>, n2: Seq<bool>, p2: Seq<bool>|
        grid_wf(m2) && grid_wf(n2) && grid_wf(p2) && seeded(pins, pv, m2) && #[trigger] closed(
            c,
            gates,
            m2,
            n2,
            p2,
        ) ==> subsumed(m, m2) && subsumed(n, n2) && subsumed(p, p2)
}

/// The characterisation of one tick's signal state: it holds the seeds, no
/// rule can extend it, and it lies below every other such state — the least
/// fixed point of the conduction rules over the driven pins.
pub open spec fn is_propagation(
    c: Circuit,
    gates: Seq<bool>,
    pins: Seq<Pin>,
    pv: Seq<bool>,
    m: Seq<bool>,
    n: Seq<bool>,
    p: Seq<bool>,
) -> bool {
    &&& grid_wf(m)
    &&& grid_wf(n)
    &&& grid_wf(p)
    &&& seeded(pins, pv, m)
    &&& closed(c, gates, m, n, p)
    &&& dominated(c, gates, pins, pv, m, n, p)
}

/// The least fixed point is unique: any two states satisfying the
/// propagation characterisation for the same inputs are equal.
pub proof fn lemma_propagation_unique(
    c: Circuit,
    gates: Seq<bool>,
    pins: Seq<Pin>,
    pv: Seq<bool>,
    m1: Seq<bool>,
    n1: Seq<bool>,
    p1: Seq<bool>,
    m2: Seq<bool>,
    n2: Seq<bool>,
    p2: Seq<bool>,
)
    requires
        is_propagation(c, gates, pins, pv, m1, n1, p1),
        is_propagation(c, gates, pins, pv, m2, n2, p2),
    ensures
        m1 == m2,
        n1 == n2,
        p1 == p2,
{
    assert(subsumed(m1, m2) && subsumed(n1, n2) && subsumed(p1, p2));
    assert(subsumed(m2, m1) && subsumed(n2, n1) && subsumed(p2, p1));
    assert(m1 =~= m2);
    assert(n1 =~= n2);
    assert(p1 =~= p2);
}

/// The signals of one tick, as a function of the circuit, the transistor
/// flags and the driven pins: the unique least fixed point.
pub open spec fn propagation(c: Circuit, gates: Seq<bool>, pins: Seq<Pin>, pv: Seq<bool>) -> (
    Seq<bool>,
    Seq<bool>,
    Seq<bool>,
) {
    choose|t: (Seq<bool>, Seq<bool>, Seq<bool>)| is_propagation(c, gates, pins, pv, t.0, t.1, t.2)
}

/// Simulation state for the circuit: the three per-tick signal grids, the
/// gate states carried across ticks, the tick counter, the append-only
/// history of pin snapshots, and the result of the last completed run (an
/// accuracy as a fraction of checked bits, and the verdict).
pub struct SimState {
    pub metal_high: Vec<bool>,
    pub n_silicon_high: Vec<bool>,
    pub p_silicon_high: Vec<bool>,
    pub gate_open: Vec<bool>,
    pub tick: usize,
    pub output_history: Vec<Vec<bool>>,
    pub last_accuracy: Option<(usize, usize)>,
    pub last_passed: Option<bool>,
}

impl SimState {
    /// The representation invariant: every grid has its full size and every
    /// history entry has one bit per pin.
    pub open spec fn wf(self) -> bool {
        &&& grid_wf(self.metal_high@)
        &&& grid_wf(self.n_silicon_high@)
        &&& grid_wf(self.p_silicon_high@)
        &&& grid_wf(self.gate_open@)
        &&& forall|i: int|
            0 <= i < self.output_history@.len() ==> (#[trigger] self.output_history@[i])@.len()
                == 12
    }

    /// A fresh state: all signals low, all gates closed, no history and no
    /// verdict.
    pub fn new() -> (s: SimState)
        ensures
            s.wf(),
            forall|i: int| 0 <= i < s.metal_high@.len() ==> !(#[trigger] s.metal_high@[i]),
            forall|i: int| 0 <= i < s.n_silicon_high@.len() ==> !(#[trigger] s.n_silicon_high@[i]),
            forall|i: int| 0 <= i < s.p_silicon_high@.len() ==> !(#[trigger] s.p_silicon_high@[i]),
            forall|i: int| 0 <= i < s.gate_open@.len() ==> !(#[trigger] s.gate_open@[i]),
            s.tick == 0,
            s.output_history@.len() == 0,
            s.last_accuracy is None,
            s.last_passed is None,
    {
        SimState {
            metal_high: new_grid(),
            n_silicon_high: new_grid(),
            p_silicon_high: new_grid(),
            gate_open: new_grid(),
            tick: 0,
            output_history: Vec::new(),
            last_accuracy: None,
            last_passed: None,
        }
    }

    /// How every transistor begins a run: a P-channel one conducts while
    /// its control is low, so it begins open; an N-channel one begins
    /// closed.  Other cells keep their flag.
    pub fn init_gates(&mut self, circuit: &Circuit)
        requires
            old(self).wf(),
            circuit.wf(),
        ensures
            final(self).wf(),
            final(self).metal_high@ == old(self).metal_high@,
            final(self).n_silicon_high@ == old(self).n_silicon_high@,
            final(self).p_silicon_high@ == old(self).p_silicon_high@,
            final(self).tick == old(self).tick,
            final(self).output_history@ == old(self).output_history@,
            final(self).last_accuracy == old(self).last_accuracy,
            final(self).last_passed == old(self).last_passed,
            forall|x: int, y: int|
                in_grid(x, y) ==> final(self).gate_open@[cell_index(x, y)] == (
                match old(self).spec_gate_initial(*circuit, x, y) {
                    Some(b) => b,
                    None => old(self).gate_open@[cell_index(x, y)],
                }),
    {
        let mut y: usize = 0;
        while y < GRID_HEIGHT
            invariant
                self.wf(),
                circuit.wf(),
                y <= GRID_HEIGHT,
                self.metal_high@ == old(self).metal_high@,
                self.n_silicon_high@ == old(self).n_silicon_high@,
                self.p_silicon_high@ == old(self).p_silicon_high@,
                self.tick == old(self).tick,
                self.output_history@ == old(self).output_history@,
                self.last_accuracy == old(self).last_accuracy,
                self.last_passed == old(self).last_passed,
                forall|cx: int, cy: int|
                    in_grid(cx, cy) && cy < y ==> self.gate_open@[#[trigger] cell_index(cx, cy)]
                        == (match old(self).spec_gate_initial(*circuit, cx, cy) {
                        Some(b) => b,
                        None => old(self).gate_open@[cell_index(cx, cy)],
                    }),
                forall|cx: int, cy: int|
                    in_grid(cx, cy) && cy >= y ==> self.gate_open@[#[trigger] cell_index(cx, cy)]
                        == old(self).gate_open@[cell_index(cx, cy)],
            decreases GRID_HEIGHT - y,
        {
            let mut x: usize = 0;
            while x < GRID_WIDTH
                invariant
                    self.wf(),
                    circuit.wf(),
                    y < GRID_HEIGHT,
                    x <= GRID_WIDTH,
                    self.metal_high@ == old(self).metal_high@,
                    self.n_silicon_high@ == old(self).n_silicon_high@,
                    self.p_silicon_high@ == old(self).p_silicon_high@,
                    self.tick == old(self).tick,
                    self.output_history@ == old(self).output_history@,
                    self.last_accuracy == old(self).last_accuracy,
                    self.last_passed == old(self).last_passed,
                    forall|cx: int, cy: int|
                        in_grid(cx, cy) && (cy < y || (cy == y && cx < x)) ==> self.gate_open@[#[trigger] cell_index(
                            cx,
                            cy,
                        )] == (match old(self).spec_gate_initial(*circuit, cx, cy) {
                            Some(b) => b,
                            None => old(self).gate_open@[cell_index(cx, cy)],
                        }),
                    forall|cx: int, cy: int|
                        in_grid(cx, cy) && !(cy < y || (cy == y && cx < x)) ==> self.gate_open@[#[trigger] cell_index(
                            cx,
                            cy,
                        )] == old(self).gate_open@[cell_index(cx, cy)],
                decreases GRID_WIDTH - x,
            {
                if let Some(node) = circuit.get_node(x, y) {
                    if let Silicon::Gate { channel } = node.silicon {
                        let open = matches!(channel, SiliconKind::P);
                        self.gate_open[y * GRID_WIDTH + x] = open;
                    }
                }
                x = x + 1;
            }
            y = y + 1;
        }
    }

    /// The initial gate flag for a cell, or `None` for a non-gate cell.
    pub open spec fn spec_gate_initial(self, c: Circuit, x: int, y: int) -> Option<bool> {
        match c.node_at(x, y).silicon {
            Silicon::Gate { channel } => Some(channel == SiliconKind::P),
            _ => None,
        }
    }

    /// Whether any in-grid cell of the pin's 3x3 region is metal-high.
    pub open spec fn spec_pin_signal(m: Seq<bool>, pin: Pin) -> bool {
        exists|x: int, y: int|
            pin.spec_contains(x, y) && in_grid(x, y) && m[#[trigger] cell_index(x, y)]
    }

    /// Get the signal state at a pin location (reads the metal signal
    /// anywhere in the pin's 3x3 area).
    pub fn get_pin_signal(&self, pin: &Pin) -> (r: bool)
        requires
            self.wf(),
            pin.wf(),
        ensures
            r == Self::spec_pin_signal(self.metal_high@, *pin),
    {
        let mut dy: usize = 0;
        while dy < PIN_SIZE
            invariant
                self.wf(),
                pin.wf(),
                dy <= PIN_SIZE,
                forall|x: int, y: int|
                    pin.spec_contains(x, y) && in_grid(x, y) && y < pin.y + dy
                        ==> !self.metal_high@[#[trigger] cell_index(x, y)],
            decreases PIN_SIZE - dy,
        {
            let mut dx: usize = 0;
            while dx < PIN_SIZE
                invariant
                    self.wf(),
                    pin.wf(),
                    dy < PIN_SIZE,
                    dx <= PIN_SIZE,
                    forall|x: int, y: int|
                        pin.spec_contains(x, y) && in_grid(x, y) && (y < pin.y + dy || (y == pin.y
                            + dy && x < pin.x + dx)) ==> !self.metal_high@[#[trigger] cell_index(
                            x,
                            y,
                        )],
                decreases PIN_SIZE - dx,
            {
                let x = pin.x + dx;
                let y = pin.y + dy;
                if x < GRID_WIDTH && y < GRID_HEIGHT {
                    if self.metal_high[y * GRID_WIDTH + x] {
                        proof {
                            assert(pin.spec_contains(x as int, y as int) && in_grid(
                                x as int,
                                y as int,
                            ) && self.metal_high@[cell_index(x as int, y as int)]);
                        }
                        return true;
                    }
                }
                dx = dx + 1;
            }
            dy = dy + 1;
        }
        false
    }
}

/// Pointwise implication between grids is transitive.
pub proof fn lemma_subsumed_trans(a: Seq<bool>, b: Seq<bool>, c: Seq<bool>)
    requires
        a.len() == b.len(),
        subsumed(a, b),
        subsumed(b, c),
    ensures
        subsumed(a, c),
{
    assert forall|i: int| 0 <= i < a.len() && #[trigger] a[i] implies c[i] by {
        assert(b[i]);
    }
}

/// The fields of the simulation state that one propagation step never
/// touches.
pub open spec fn sig_fields_kept(pre: SimState, post: SimState) -> bool {
    &&& post.gate_open@ == pre.gate_open@
    &&& post.tick == pre.tick
    &&& post.output_history@ == pre.output_history@
    &&& post.last_accuracy == pre.last_accuracy
    &&& post.last_passed == pre.last_passed
}

/// The total number of high signals over the three layers.
pub open spec fn count3(s: SimState) -> int {
    count_true(s.metal_high@) + count_true(s.n_silicon_high@) + count_true(s.p_silicon_high@)
}

/// The three signal grids of a state.
pub open spec fn sim_dominated(c: Circuit, pins: Seq<Pin>, pv: Seq<bool>, s: SimState) -> bool {
    dominated(c, s.gate_open@, pins, pv, s.metal_high@, s.n_silicon_high@, s.p_silicon_high@)
}

impl SimState {
    /// Whether a closed gate of `kind` sits at `(x, y)`.
    fn gate_blocks_at(&self, circuit: &Circuit, kind: SiliconKind, x: usize, y: usize) -> (r: bool)
        requires
            self.wf(),
            circuit.wf(),
            in_grid(x as int, y as int),
        ensures
            r == gate_blocks(*circuit, self.gate_open@, kind, x as int, y as int),
    {
        if let Some(node) = circuit.get_node(x, y) {
            if let Silicon::Gate { channel } = node.silicon {
                if channel == kind {
                    return !self.gate_open[y * GRID_WIDTH + x];
                }
            }
        }
        false
    }

    /// Apply the conduction rules across one adjacent pair, raising at most
    /// the two signals the rules force.  Signals only ever go low to high.
    fn apply_pair(
        &mut self,
        circuit: &Circuit,
        x: usize,
        y: usize,
        horizontal: bool,
        Ghost(pins): Ghost<Seq<Pin>>,
        Ghost(pv): Ghost<Seq<bool>>,
    ) -> (changed: bool)
        requires
            old(self).wf(),
            circuit.wf(),
            in_grid(x as int, y as int),
            horizontal ==> x + 1 < GRID_WIDTH,
            !horizontal ==> y + 1 < GRID_HEIGHT,
            sim_dominated(*circuit, pins, pv, *old(self)),
        ensures
            final(self).wf(),
            sig_fields_kept(*old(self), *final(self)),
            subsumed(old(self).metal_high@, final(self).metal_high@),
            subsumed(old(self).n_silicon_high@, final(self).n_silicon_high@),
            subsumed(old(self).p_silicon_high@, final(self).p_silicon_high@),
            sim_dominated(*circuit, pins, pv, *final(self)),
            !changed ==> *final(self) == *old(self) && pair_ok(
                *circuit,
                old(self).gate_open@,
                old(self).metal_high@,
                old(self).n_silicon_high@,
                old(self).p_silicon_high@,
                x as int,
                y as int,
                if horizontal {
                    x + 1
                } else {
                    x as int
                },
                if horizontal {
                    y as int
                } else {
                    y + 1
                },
            ),
            changed ==> count3(*final(self)) > count3(*old(self)),
    {
        let i1 = y * GRID_WIDTH + x;
        let (x2, y2) = if horizontal {
            (x + 1, y)
        } else {
            (x, y + 1)
        };
        let i2 = y2 * GRID_WIDTH + x2;
        let e = circuit.get_edge(x, y, x2, y2).unwrap();
        let ghost c = *circuit;
        let ghost gates = self.gate_open@;
        let mut changed = false;
        if e.metal {
            if self.metal_high[i1] && !self.metal_high[i2] {
                let ghost pre = *self;
                self.metal_high[i2] = true;
                changed = true;
                proof {
                    lemma_count_update(pre.metal_high@, i2 as int);
                    assert forall|m2: Seq<bool>, n2: Seq<bool>, p2: Seq<bool>|
                        grid_wf(m2) && grid_wf(n2) && grid_wf(p2) && seeded(pins, pv, m2)
                            && #[trigger] closed(c, gates, m2, n2, p2) implies subsumed(
                        self.metal_high@,
                        m2,
                    ) && subsumed(self.n_silicon_high@, n2) && subsumed(
                        self.p_silicon_high@,
                        p2,
                    ) by {
                        assert(cell_ok(c, gates, m2, n2, p2, x as int, y as int));
                        assert(subsumed(pre.metal_high@, m2));
                        assert(m2[i1 as int]);
                        assert(m2[i2 as int]);
                        assert forall|j: int|
                            0 <= j < self.metal_high@.len() && #[trigger] self.metal_high@[j]
                        implies m2[j] by {
                            if j != i2 {
                                assert(pre.metal_high@[j]);
                            }
                        }
                    }
                }
            }
            if self.metal_high[i2] && !self.metal_high[i1] {
                let ghost pre = *self;
                self.metal_high[i1] = true;
                changed = true;
                proof {
                    lemma_count_update(pre.metal_high@, i1 as int);
                    assert forall|m2: Seq<bool>, n2: Seq<bool>, p2: Seq<bool>|
                        grid_wf(m2) && grid_wf(n2) && grid_wf(p2) && seeded(pins, pv, m2)
                            && #[trigger] closed(c, gates, m2, n2, p2) implies subsumed(
                        self.metal_high@,
                        m2,
                    ) && subsumed(self.n_silicon_high@, n2) && subsumed(
                        self.p_silicon_high@,
                        p2,
                    ) by {
                        assert(cell_ok(c, gates, m2, n2, p2, x as int, y as int));
                        assert(subsumed(pre.metal_high@, m2));
                        assert(m2[i2 as int]);
                        assert(m2[i1 as int]);
                        assert forall|j: int|
                            0 <= j < self.metal_high@.len() && #[trigger] self.metal_high@[j]
                        implies m2[j] by {
                            if j != i1 {
                                assert(pre.metal_high@[j]);
                            }
                        }
                    }
                }
            }
        }
        let n_blocked = self.gate_blocks_at(circuit, SiliconKind::N, x, y)
            || self.gate_blocks_at(circuit, SiliconKind::N, x2, y2);
        if e.n_silicon && !n_blocked {
            if self.n_silicon_high[i1] && !self.n_silicon_high[i2] {
                let ghost pre = *self;
                self.n_silicon_high[i2] = true;
                changed = true;
                proof {
                    lemma_count_update(pre.n_silicon_high@, i2 as int);
                    assert forall|m2: Seq<bool>, n2: Seq<bool>, p2: Seq<bool>|
                        grid_wf(m2) && grid_wf(n2) && grid_wf(p2) && seeded(pins, pv, m2)
                            && #[trigger] closed(c, gates, m2, n2, p2) implies subsumed(
                        self.metal_high@,
                        m2,
                    ) && subsumed(self.n_silicon_high@, n2) && subsumed(
                        self.p_silicon_high@,
                        p2,
                    ) by {
                        assert(cell_ok(c, gates, m2, n2, p2, x as int, y as int));
                        assert(subsumed(pre.n_silicon_high@, n2));
                        assert(n2[i1 as int]);
                        assert(n2[i2 as int]);
                        assert forall|j: int|
                            0 <= j < self.n_silicon_high@.len() && #[trigger] self.n_silicon_high@[j]
                        implies n2[j] by {
                            if j != i2 {
                                assert(pre.n_silicon_high@[j]);
                            }
                        }
                    }
                }
            }
            if self.n_silicon_high[i2] && !self.n_silicon_high[i1] {
                let ghost pre = *self;
                self.n_silicon_high[i1] = true;
                changed = true;
                proof {
                    lemma_count_update(pre.n_silicon_high@, i1 as int);
                    assert forall|m2: Seq<bool>, n2: Seq<bool>, p2: Seq<bool>|
                        grid_wf(m2) && grid_wf(n2) && grid_wf(p2) && seeded(pins, pv, m2)
                            && #[trigger] closed(c, gates, m2, n2, p2) implies subsumed(
                        self.metal_high@,
                        m2,
                    ) && subsumed(self.n_silicon_high@, n2) && subsumed(
                        self.p_silicon_high@,
                        p2,
                    ) by {
                        assert(cell_ok(c, gates, m2, n2, p2, x as int, y as int));
                        assert(subsumed(pre.n_silicon_high@, n2));
                        assert(n2[i2 as int]);
                        assert(n2[i1 as int]);
                        assert forall|j: int|
                            0 <= j < self.n_silicon_high@.len() && #[trigger] self.n_silicon_high@[j]
                        implies n2[j] by {
                            if j != i1 {
                                assert(pre.n_silicon_high@[j]);
                            }
                        }
                    }
                }
            }
        }
        let p_blocked = self.gate_blocks_at(circuit, SiliconKind::P, x, y)
            || self.gate_blocks_at(circuit, SiliconKind::P, x2, y2);
        if e.p_silicon && !p_blocked {
            if self.p_silicon_high[i1] && !self.p_silicon_high[i2] {
                let ghost pre = *self;
                self.p_silicon_high[i2] = true;
                changed = true;
                proof {
                    lemma_count_update(pre.p_silicon_high@, i2 as int);
                    assert forall|m2: Seq<bool>, n2: Seq<bool>, p2: Seq<bool>|
                        grid_wf(m2) && grid_wf(n2) && grid_wf(p2) && seeded(pins, pv, m2)
                            && #[trigger] closed(c, gates, m2, n2, p2) implies subsumed(
                        self.metal_high@,
                        m2,
                    ) && subsumed(self.n_silicon_high@, n2) && subsumed(
                        self.p_silicon_high@,
                        p2,
                    ) by {
                        assert(cell_ok(c, gates, m2, n2, p2, x as int, y as int));
                        assert(subsumed(pre.p_silicon_high@, p2));
                        assert(p2[i1 as int]);
                        assert(p2[i2 as int]);
                        assert forall|j: int|
                            0 <= j < self.p_silicon_high@.len() && #[trigger] self.p_silicon_high@[j]
                        implies p2[j] by {
                            if j != i2 {
                                assert(pre.p_silicon_high@[j]);
                            }
                        }
                    }
                }
            }
            if self.p_silicon_high[i2] && !self.p_silicon_high[i1] {
                let ghost pre = *self;
                self.p_silicon_high[i1] = true;
                changed = true;
                proof {
                    lemma_count_update(pre.p_silicon_high@, i1 as int);
                    assert forall|m2: Seq<bool>, n2: Seq<bool>, p2: Seq<bool>|
                        grid_wf(m2) && grid_wf(n2) && grid_wf(p2) && seeded(pins, pv, m2)
                            && #[trigger] closed(c, gates, m2, n2, p2) implies subsumed(
                        self.metal_high@,
                        m2,
                    ) && subsumed(self.n_silicon_high@, n2) && subsumed(
                        self.p_silicon_high@,
                        p2,
                    ) by {
                        assert(cell_ok(c, gates, m2, n2, p2, x as int, y as int));
                        assert(subsumed(pre.p_silicon_high@, p2));
                        assert(p2[i2 as int]);
                        assert(p2[i1 as int]);
                        assert forall|j: int|
                            0 <= j < self.p_silicon_high@.len() && #[trigger] self.p_silicon_high@[j]
                        implies p2[j] by {
                            if j != i1 {
                                assert(pre.p_silicon_high@[j]);
                            }
                        }
                    }
                }
            }
        }
        changed
    }

    /// Apply the via rules at one cell, raising at most the signals the
    /// rules force.  Signals only ever go low to high.
    fn apply_via(
        &mut self,
        circuit: &Circuit,
        x: usize,
        y: usize,
        Ghost(pins): Ghost<Seq<Pin>>,
        Ghost(pv): Ghost<Seq<bool>>,
    ) -> (changed: bool)
        requires
            old(self).wf(),
            circuit.wf(),
            in_grid(x as int, y as int),
            sim_dominated(*circuit, pins, pv, *old(self)),
        ensures
            final(self).wf(),
            sig_fields_kept(*old(self), *final(self)),
            subsumed(old(self).metal_high@, final(self).metal_high@),
            subsumed(old(self).n_silicon_high@, final(self).n_silicon_high@),
            subsumed(old(self).p_silicon_high@, final(self).p_silicon_high@),
            sim_dominated(*circuit, pins, pv, *final(self)),
            !changed ==> *final(self) == *old(self) && via_ok(
                *circuit,
                old(self).metal_high@,
                old(self).n_silicon_high@,
                old(self).p_silicon_high@,
                x as int,
                y as int,
            ),
            changed ==> count3(*final(self)) > count3(*old(self)),
    {
        let i = y * GRID_WIDTH + x;
        let node = circuit.get_node(x, y).unwrap();
        let ghost c = *circuit;
        let ghost gates = self.gate_open@;
        let mut changed = false;
        if node.via {
            if self.metal_high[i] {
                let sil_kind = match node.silicon {
                    Silicon::N => Some(SiliconKind::N),
                    Silicon::P => Some(SiliconKind::P),
                    Silicon::Gate { channel } => Some(channel),
                    Silicon::Empty => None,
                };
                if let Some(kind) = sil_kind {
                    let target_high = match kind {
                        SiliconKind::N => self.n_silicon_high[i],
                        SiliconKind::P => self.p_silicon_high[i],
                    };
                    if !target_high {
                        let ghost pre = *self;
                        match kind {
                            SiliconKind::N => {
                                self.n_silicon_high[i] = true;
                            },
                            SiliconKind::P => {
                                self.p_silicon_high[i] = true;
                            },
                        }
                        changed = true;
                        proof {
                            if kind is N {
                                lemma_count_update(pre.n_silicon_high@, i as int);
                            } else {
                                lemma_count_update(pre.p_silicon_high@, i as int);
                            }
                            assert forall|m2: Seq<bool>, n2: Seq<bool>, p2: Seq<bool>|
                                grid_wf(m2) && grid_wf(n2) && grid_wf(p2) && seeded(pins, pv, m2)
                                    && #[trigger] closed(c, gates, m2, n2, p2) implies subsumed(
                                self.metal_high@,
                                m2,
                            ) && subsumed(self.n_silicon_high@, n2) && subsumed(
                                self.p_silicon_high@,
                                p2,
                            ) by {
                                assert(cell_ok(c, gates, m2, n2, p2, x as int, y as int));
                                assert(subsumed(pre.metal_high@, m2));
                                assert(subsumed(pre.n_silicon_high@, n2));
                                assert(subsumed(pre.p_silicon_high@, p2));
                                assert(m2[i as int]);
                                assert(sil_high(kind, n2, p2, i as int));
                                assert forall|j: int|
                                    0 <= j < self.n_silicon_high@.len()
                                        && #[trigger] self.n_silicon_high@[j] implies n2[j] by {
                                    if j != i {
                                        assert(pre.n_silicon_high@[j]);
                                    } else {
                                        if !pre.n_silicon_high@[j] {
                                            assert(kind is N);
                                        }
                                    }
                                }
                                assert forall|j: int|
                                    0 <= j < self.p_silicon_high@.len()
                                        && #[trigger] self.p_silicon_high@[j] implies p2[j] by {
                                    if j != i {
                                        assert(pre.p_silicon_high@[j]);
                                    } else {
                                        if !pre.p_silicon_high@[j] {
                                            assert(kind is P);
                                        }
                                    }
                                }
                            }
                        }
                    }
                }
            }
            if (self.n_silicon_high[i] || self.p_silicon_high[i]) && !self.metal_high[i] {
                let ghost pre = *self;
                self.metal_high[i] = true;
                changed = true;
                proof {
                    lemma_count_update(pre.metal_high@, i as int);
                    assert forall|m2: Seq<bool>, n2: Seq<bool>, p2: Seq<bool>|
                        grid_wf(m2) && grid_wf(n2) && grid_wf(p2) && seeded(pins, pv, m2)
                            && #[trigger] closed(c, gates, m2, n2, p2) implies subsumed(
                        self.metal_high@,
                        m2,
                    ) && subsumed(self.n_silicon_high@, n2) && subsumed(
                        self.p_silicon_high@,
                        p2,
                    ) by {
                        assert(cell_ok(c, gates, m2, n2, p2, x as int, y as int));
                        assert(subsumed(pre.metal_high@, m2));
                        assert(subsumed(pre.n_silicon_high@, n2));
                        assert(subsumed(pre.p_silicon_high@, p2));
                        assert(n2[i as int] || p2[i as int]);
                        assert(m2[i as int]);
                        assert forall|j: int|
                            0 <= j < self.metal_high@.len() && #[trigger] self.metal_high@[j]
                        implies m2[j] by {
                            if j != i {
                                assert(pre.metal_high@[j]);
                            }
                        }
                    }
                }
            }
        }
        changed
    }

    /// One full sweep of the rules over every cell.  Within a sweep every
    /// signal transition is low to high, never the reverse; when a sweep
    /// changes nothing the state is closed under all rules.
    pub fn propagate_pass(
        &mut self,
        circuit: &Circuit,
        Ghost(pins): Ghost<Seq<Pin>>,
        Ghost(pv): Ghost<Seq<bool>>,
    ) -> (changed: bool)
        requires
            old(self).wf(),
            circuit.wf(),
            sim_dominated(*circuit, pins, pv, *old(self)),
        ensures
            final(self).wf(),
            sig_fields_kept(*old(self), *final(self)),
            subsumed(old(self).metal_high@, final(self).metal_high@),
            subsumed(old(self).n_silicon_high@, final(self).n_silicon_high@),
            subsumed(old(self).p_silicon_high@, final(self).p_silicon_high@),
            sim_dominated(*circuit, pins, pv, *final(self)),
            !changed ==> *final(self) == *old(self) && closed(
                *circuit,
                old(self).gate_open@,
                old(self).metal_high@,
                old(self).n_silicon_high@,
                old(self).p_silicon_high@,
            ),
            changed ==> count3(*final(self)) > count3(*old(self)),
    {
        let mut changed = false;
        let mut y: usize = 0;
        while y < GRID_HEIGHT
            invariant
                self.wf(),
                old(self).wf(),
                circuit.wf(),
                y <= GRID_HEIGHT,
                sig_fields_kept(*old(self), *self),
                subsumed(old(self).metal_high@, self.metal_high@),
                subsumed(old(self).n_silicon_high@, self.n_silicon_high@),
                subsumed(old(self).p_silicon_high@, self.p_silicon_high@),
                sim_dominated(*circuit, pins, pv, *self),
                !changed ==> *self == *old(self) && (forall|cx: int, cy: int|
                    in_grid(cx, cy) && cy < y ==> #[trigger] cell_ok(
                        *circuit,
                        self.gate_open@,
                        self.metal_high@,
                        self.n_silicon_high@,
                        self.p_silicon_high@,
                        cx,
                        cy,
                    )),
                changed ==> count3(*self) > count3(*old(self)),
            decreases GRID_HEIGHT - y,
        {
            let mut x: usize = 0;
            while x < GRID_WIDTH
                invariant
                    self.wf(),
                    old(self).wf(),
                    circuit.wf(),
                    y < GRID_HEIGHT,
                    x <= GRID_WIDTH,
                    sig_fields_kept(*old(self), *self),
                    subsumed(old(self).metal_high@, self.metal_high@),
                    subsumed(old(self).n_silicon_high@, self.n_silicon_high@),
                    subsumed(old(self).p_silicon_high@, self.p_silicon_high@),
                    sim_dominated(*circuit, pins, pv, *self),
                    !changed ==> *self == *old(self) && (forall|cx: int, cy: int|
                        in_grid(cx, cy) && (cy < y || (cy == y && cx < x)) ==> #[trigger] cell_ok(
                            *circuit,
                            self.gate_open@,
                            self.metal_high@,
                            self.n_silicon_high@,
                            self.p_silicon_high@,
                            cx,
                            cy,
                        )),
                    changed ==> count3(*self) > count3(*old(self)),
                decreases GRID_WIDTH - x,
            {
                let ghost s0 = *self;
                let c1 = self.apply_via(circuit, x, y, Ghost(pins), Ghost(pv));
                let ghost s1 = *self;
                let c2 = if x + 1 < GRID_WIDTH {
                    self.apply_pair(circuit, x, y, true, Ghost(pins), Ghost(pv))
                } else {
                    false
                };
                let ghost s2 = *self;
                let c3 = if y + 1 < GRID_HEIGHT {
                    self.apply_pair(circuit, x, y, false, Ghost(pins), Ghost(pv))
                } else {
                    false
                };
                proof {
                    lemma_subsumed_trans(s0.metal_high@, s1.metal_high@, s2.metal_high@);
                    lemma_subsumed_trans(s0.metal_high@, s2.metal_high@, self.metal_high@);
                    lemma_subsumed_trans(
                        old(self).metal_high@,
                        s0.metal_high@,
                        self.metal_high@,
                    );
                    lemma_subsumed_trans(
                        s0.n_silicon_high@,
                        s1.n_silicon_high@,
                        s2.n_silicon_high@,
                    );
                    lemma_subsumed_trans(
                        s0.n_silicon_high@,
                        s2.n_silicon_high@,
                        self.n_silicon_high@,
                    );
                    lemma_subsumed_trans(
                        old(self).n_silicon_high@,
                        s0.n_silicon_high@,
                        self.n_silicon_high@,
                    );
                    lemma_subsumed_trans(
                        s0.p_silicon_high@,
                        s1.p_silicon_high@,
                        s2.p_silicon_high@,
                    );
                    lemma_subsumed_trans(
                        s0.p_silicon_high@,
                        s2.p_silicon_high@,
                        self.p_silicon_high@,
                    );
                    lemma_subsumed_trans(
                        old(self).p_silicon_high@,
                        s0.p_silicon_high@,
                        self.p_silicon_high@,
                    );
                }
                changed = changed || c1 || c2 || c3;
                x = x + 1;
            }
            y = y + 1;
        }
        changed
    }
}

/// Whether `(x, y)` lies in the region of one of the first `k` pins that
/// is driven high.
pub open spec fn seed_cell_prefix(pins: Seq<Pin>, pv: Seq<bool>, k: int, x: int, y: int) -> bool {
    exists|i: int| 0 <= i < k && pv[i] && (#[trigger] pins[i]).spec_contains(x, y)
}

/// The flag a transistor carries into the next tick: an N-channel one
/// opens while its P-type control arm is high, a P-channel one opens
/// while its N-type control arm is low, and any other cell keeps its flag.
pub open spec fn spec_gate_next(
    c: Circuit,
    n: Seq<bool>,
    p: Seq<bool>,
    gates: Seq<bool>,
    x: int,
    y: int,
) -> bool {
    match c.node_at(x, y).silicon {
        Silicon::Gate { channel } => match channel {
            SiliconKind::N => p[cell_index(x, y)],
            SiliconKind::P => !n[cell_index(x, y)],
        },
        _ => gates[cell_index(x, y)],
    }
}

/// The whole gate grid carried into the next tick.
pub open spec fn gates_after(c: Circuit, n: Seq<bool>, p: Seq<bool>, gates: Seq<bool>) -> Seq<
    bool,
> {
    Seq::new(
        gates.len(),
        |i: int| spec_gate_next(c, n, p, gates, i % (GRID_WIDTH as int), i / (GRID_WIDTH as int)),
    )
}

/// The 12-bit pin snapshot of a metal grid: one bit per pin, high iff any
/// cell of the pin's region is metal-high.
pub open spec fn spec_snapshot(m: Seq<bool>, pins: Seq<Pin>) -> Seq<bool> {
    Seq::new(pins.len(), |i: int| SimState::spec_pin_signal(m, pins[i]))
}

/// The effect of one `step` call: the signal grids become the propagation
/// fixed point for the previous tick's transistor flags, those flags latch
/// from the new signals, one snapshot is appended, and the tick advances.
pub open spec fn step_rel(
    c: Circuit,
    pins: Seq<Pin>,
    pv: Seq<bool>,
    pre: SimState,
    post: SimState,
) -> bool {
    let prop = propagation(c, pre.gate_open@, pins, pv);
    &&& post.metal_high@ == prop.0
    &&& post.n_silicon_high@ == prop.1
    &&& post.p_silicon_high@ == prop.2
    &&& post.gate_open@ == gates_after(c, prop.1, prop.2, pre.gate_open@)
    &&& post.output_history@.len() == pre.output_history@.len() + 1
    &&& forall|i: int|
        0 <= i < pre.output_history@.len() ==> #[trigger] post.output_history@[i]
            == pre.output_history@[i]
    &&& post.output_history@.last()@ == spec_snapshot(prop.0, pins)
    &&& post.tick == pre.tick + 1
    &&& post.last_accuracy == pre.last_accuracy
    &&& post.last_passed == pre.last_passed
}

/// Determinism: identical circuit, pins, input vector and previous
/// transistor flags give identical signal grids, identical next flags and
/// an identical appended history entry — and, from equal prior histories,
/// identical whole histories.
pub proof fn lemma_step_deterministic(
    c: Circuit,
    pins: Seq<Pin>,
    pv: Seq<bool>,
    pre1: SimState,
    post1: SimState,
    pre2: SimState,
    post2: SimState,
)
    requires
        step_rel(c, pins, pv, pre1, post1),
        step_rel(c, pins, pv, pre2, post2),
        pre1.gate_open@ == pre2.gate_open@,
    ensures
        post1.metal_high@ == post2.metal_high@,
        post1.n_silicon_high@ == post2.n_silicon_high@,
        post1.p_silicon_high@ == post2.p_silicon_high@,
        post1.gate_open@ == post2.gate_open@,
        post1.output_history@.last()@ == post2.output_history@.last()@,
        pre1.tick == pre2.tick ==> post1.tick == post2.tick,
        pre1.output_history@ == pre2.output_history@ ==> {
            &&& post1.output_history@.len() == post2.output_history@.len()
            &&& forall|i: int|
                0 <= i < post1.output_history@.len() ==> (#[trigger] post1.output_history@[i])@
                    == post2.output_history@[i]@
        },
{
    if pre1.output_history@ == pre2.output_history@ {
        assert forall|i: int|
            0 <= i < post1.output_history@.len() implies (#[trigger] post1.output_history@[i])@
            == post2.output_history@[i]@ by {
            if i < pre1.output_history@.len() {
                assert(post1.output_history@[i] == pre1.output_history@[i]);
                assert(post2.output_history@[i] == pre2.output_history@[i]);
            } else {
                assert(post1.output_history@[i] == post1.output_history@.last());
                assert(post2.output_history@[i] == post2.output_history@.last());
            }
        }
    }
}

impl SimState {
    /// Raise the metal signal on every cell of one driven pin's region.
    fn seed_pin(
        &mut self,
        pin: &Pin,
        Ghost(c): Ghost<Circuit>,
        Ghost(pins): Ghost<Seq<Pin>>,
        Ghost(pv): Ghost<Seq<bool>>,
        Ghost(k): Ghost<int>,
    )
        requires
            old(self).wf(),
            pin.wf(),
            0 <= k < pins.len(),
            pins[k] == *pin,
            pv[k],
            sim_dominated(c, pins, pv, *old(self)),
        ensures
            final(self).wf(),
            sig_fields_kept(*old(self), *final(self)),
            final(self).n_silicon_high@ == old(self).n_silicon_high@,
            final(self).p_silicon_high@ == old(self).p_silicon_high@,
            subsumed(old(self).metal_high@, final(self).metal_high@),
            sim_dominated(c, pins, pv, *final(self)),
            forall|x: int, y: int|
                pin.spec_contains(x, y) && in_grid(x, y) ==> final(self).metal_high@[#[trigger] cell_index(
                    x,
                    y,
                )],
    {
        let mut dy: usize = 0;
        while dy < PIN_SIZE
            invariant
                self.wf(),
                old(self).wf(),
                pin.wf(),
                dy <= PIN_SIZE,
                0 <= k < pins.len(),
                pins[k] == *pin,
                pv[k],
                sig_fields_kept(*old(self), *self),
                self.n_silicon_high@ == old(self).n_silicon_high@,
                self.p_silicon_high@ == old(self).p_silicon_high@,
                subsumed(old(self).metal_high@, self.metal_high@),
                sim_dominated(c, pins, pv, *self),
                forall|x: int, y: int|
                    pin.spec_contains(x, y) && in_grid(x, y) && y < pin.y + dy
                        ==> self.metal_high@[#[trigger] cell_index(x, y)],
            decreases PIN_SIZE - dy,
        {
            let mut dx: usize = 0;
            while dx < PIN_SIZE
                invariant
                    self.wf(),
                    old(self).wf(),
                    pin.wf(),
                    dy < PIN_SIZE,
                    dx <= PIN_SIZE,
                    0 <= k < pins.len(),
                    pins[k] == *pin,
                    pv[k],
                    sig_fields_kept(*old(self), *self),
                    self.n_silicon_high@ == old(self).n_silicon_high@,
                    self.p_silicon_high@ == old(self).p_silicon_high@,
                    subsumed(old(self).metal_high@, self.metal_high@),
                    sim_dominated(c, pins, pv, *self),
                    forall|x: int, y: int|
                        pin.spec_contains(x, y) && in_grid(x, y) && (y < pin.y + dy || (y == pin.y
                            + dy && x < pin.x + dx)) ==> self.metal_high@[#[trigger] cell_index(
                            x,
                            y,
                        )],
                decreases PIN_SIZE - dx,
            {
                let x = pin.x + dx;
                let y = pin.y + dy;
                if x < GRID_WIDTH && y < GRID_HEIGHT {
                    if !self.metal_high[y * GRID_WIDTH + x] {
                        let ghost pre = *self;
                        self.metal_high[y * GRID_WIDTH + x] = true;
                        proof {
                            let i = cell_index(x as int, y as int);
                            assert forall|j: int|
                                0 <= j < pre.metal_high@.len() && #[trigger] pre.metal_high@[j]
                            implies self.metal_high@[j] by {}
                            lemma_subsumed_trans(
                                old(self).metal_high@,
                                pre.metal_high@,
                                self.metal_high@,
                            );
                            assert forall|m2: Seq<bool>, n2: Seq<bool>, p2: Seq<bool>|
                                grid_wf(m2) && grid_wf(n2) && grid_wf(p2) && seeded(pins, pv, m2)
                                    && #[trigger] closed(c, self.gate_open@, m2, n2, p2) implies
                                subsumed(self.metal_high@, m2) && subsumed(
                                self.n_silicon_high@,
                                n2,
                            ) && subsumed(self.p_silicon_high@, p2) by {
                                assert(seed_cell(pins, pv, x as int, y as int));
                                assert(m2[i]);
                                assert(subsumed(pre.metal_high@, m2));
                                assert forall|j: int|
                                    0 <= j < self.metal_high@.len() && #[trigger] self.metal_high@[j]
                                implies m2[j] by {
                                    if j != i {
                                        assert(pre.metal_high@[j]);
                                    }
                                }
                            }
                        }
                    }
                }
                dx = dx + 1;
            }
            dy = dy + 1;
        }
    }

    /// Propagate signals through the circuit: reset every signal to low,
    /// drive the pins named high by `pin_values`, and run the conduction
    /// rules to their fixed point.  The result is the unique least fixed
    /// point; the transistor flags are read, never written.
    pub fn propagate(&mut self, circuit: &Circuit, pins: &[Pin], pin_values: &Vec<bool>)
        requires
            old(self).wf(),
            circuit.wf(),
            all_pins_wf(pins@),
            pins@.len() == 12,
            pin_values@.len() == 12,
        ensures
            final(self).wf(),
            sig_fields_kept(*old(self), *final(self)),
            is_propagation(
                *circuit,
                old(self).gate_open@,
                pins@,
                pin_values@,
                final(self).metal_high@,
                final(self).n_silicon_high@,
                final(self).p_silicon_high@,
            ),
            (
                final(self).metal_high@,
                final(self).n_silicon_high@,
                final(self).p_silicon_high@,
            ) == propagation(*circuit, old(self).gate_open@, pins@, pin_values@),
    {
        self.metal_high = new_grid();
        self.n_silicon_high = new_grid();
        self.p_silicon_high = new_grid();
        proof {
            assert forall|m2: Seq<bool>, n2: Seq<bool>, p2: Seq<bool>|
                grid_wf(m2) && grid_wf(n2) && grid_wf(p2) && seeded(pins@, pin_values@, m2)
                    && #[trigger] closed(*circuit, self.gate_open@, m2, n2, p2) implies subsumed(
                self.metal_high@,
                m2,
            ) && subsumed(self.n_silicon_high@, n2) && subsumed(self.p_silicon_high@, p2) by {
                assert forall|j: int|
                    0 <= j < self.metal_high@.len() && #[trigger] self.metal_high@[j] implies m2[j]
                by {}
                assert forall|j: int|
                    0 <= j < self.n_silicon_high@.len() && #[trigger] self.n_silicon_high@[j]
                implies n2[j] by {}
                assert forall|j: int|
                    0 <= j < self.p_silicon_high@.len() && #[trigger] self.p_silicon_high@[j]
                implies p2[j] by {}
            }
        }
        let mut i: usize = 0;
        while i < 12
            invariant
                self.wf(),
                circuit.wf(),
                all_pins_wf(pins@),
                pins@.len() == 12,
                pin_values@.len() == 12,
                i <= 12,
                sig_fields_kept(*old(self), *self),
                sim_dominated(*circuit, pins@, pin_values@, *self),
                forall|x: int, y: int|
                    in_grid(x, y) && #[trigger] seed_cell_prefix(pins@, pin_values@, i as int, x, y)
                        ==> self.metal_high@[cell_index(x, y)],
            decreases 12 - i,
        {
            let ghost spre = *self;
            if pin_values[i] {
                self.seed_pin(
                    &pins[i],
                    Ghost(*circuit),
                    Ghost(pins@),
                    Ghost(pin_values@),
                    Ghost(i as int),
                );
            }
            proof {
                assert forall|x: int, y: int|
                    in_grid(x, y) && #[trigger] seed_cell_prefix(
                        pins@,
                        pin_values@,
                        i as int + 1,
                        x,
                        y,
                    ) implies self.metal_high@[cell_index(x, y)] by {
                    let k = choose|k: int|
                        0 <= k < i as int + 1 && pin_values@[k] && (#[trigger] pins@[k]).spec_contains(
                            x,
                            y,
                        );
                    if k < i as int {
                        assert(seed_cell_prefix(pins@, pin_values@, i as int, x, y));
                        assert(spre.metal_high@[cell_index(x, y)]);
                    }
                }
            }
            i = i + 1;
        }
        proof {
            assert forall|x: int, y: int|
                in_grid(x, y) && #[trigger] seed_cell(pins@, pin_values@, x, y) implies self.metal_high@[cell_index(
                x,
                y,
            )] by {
                let k = choose|k: int|
                    0 <= k < pins@.len() && pin_values@[k] && (#[trigger] pins@[k]).spec_contains(
                        x,
                        y,
                    );
                assert(seed_cell_prefix(pins@, pin_values@, 12, x, y));
            }
        }
        let mut changed = true;
        while changed
            invariant
                self.wf(),
                old(self).wf(),
                circuit.wf(),
                all_pins_wf(pins@),
                pins@.len() == 12,
                pin_values@.len() == 12,
                sig_fields_kept(*old(self), *self),
                sim_dominated(*circuit, pins@, pin_values@, *self),
                seeded(pins@, pin_values@, self.metal_high@),
                !changed ==> closed(
                    *circuit,
                    self.gate_open@,
                    self.metal_high@,
                    self.n_silicon_high@,
                    self.p_silicon_high@,
                ),
            decreases
                    3 * (GRID_WIDTH * GRID_HEIGHT) - count3(*self),
                    (if changed {
                        1int
                    } else {
                        0
                    }),
        {
            let ghost spre = *self;
            changed = self.propagate_pass(circuit, Ghost(pins@), Ghost(pin_values@));
            proof {
                assert forall|x: int, y: int|
                    in_grid(x, y) && #[trigger] seed_cell(pins@, pin_values@, x, y) implies self.metal_high@[cell_index(
                    x,
                    y,
                )] by {
                    assert(spre.metal_high@[cell_index(x, y)]);
                }
                lemma_count_bounds(self.metal_high@);
                lemma_count_bounds(self.n_silicon_high@);
                lemma_count_bounds(self.p_silicon_high@);
            }
        }
        proof {
            let g = old(self).gate_open@;
            let t = (self.metal_high@, self.n_silicon_high@, self.p_silicon_high@);
            assert(is_propagation(*circuit, g, pins@, pin_values@, t.0, t.1, t.2));
            let u = propagation(*circuit, g, pins@, pin_values@);
            assert(is_propagation(*circuit, g, pins@, pin_values@, u.0, u.1, u.2)) by {
                assert(exists|t2: (Seq<bool>, Seq<bool>, Seq<bool>)|
                    is_propagation(*circuit, g, pins@, pin_values@, t2.0, t2.1, t2.2)) by {
                    assert(is_propagation(*circuit, g, pins@, pin_values@, t.0, t.1, t.2));
                }
            }
            lemma_propagation_unique(
                *circuit,
                g,
                pins@,
                pin_values@,
                t.0,
                t.1,
                t.2,
                u.0,
                u.1,
                u.2,
            );
        }
    }

    /// Latch the transistor flags for the next tick from the signals just
    /// computed: switching runs one tick behind signal propagation.
    pub fn update_gates(&mut self, circuit: &Circuit)
        requires
            old(self).wf(),
            circuit.wf(),
        ensures
            final(self).wf(),
            final(self).metal_high@ == old(self).metal_high@,
            final(self).n_silicon_high@ == old(self).n_silicon_high@,
            final(self).p_silicon_high@ == old(self).p_silicon_high@,
            final(self).tick == old(self).tick,
            final(self).output_history@ == old(self).output_history@,
            final(self).last_accuracy == old(self).last_accuracy,
            final(self).last_passed == old(self).last_passed,
            final(self).gate_open@ == gates_after(
                *circuit,
                old(self).n_silicon_high@,
                old(self).p_silicon_high@,
                old(self).gate_open@,
            ),
    {
        let mut y: usize = 0;
        while y < GRID_HEIGHT
            invariant
                self.wf(),
                circuit.wf(),
                y <= GRID_HEIGHT,
                self.metal_high@ == old(self).metal_high@,
                self.n_silicon_high@ == old(self).n_silicon_high@,
                self.p_silicon_high@ == old(self).p_silicon_high@,
                self.tick == old(self).tick,
                self.output_history@ == old(self).output_history@,
                self.last_accuracy == old(self).last_accuracy,
                self.last_passed == old(self).last_passed,
                forall|cx: int, cy: int|
                    in_grid(cx, cy) && cy < y ==> self.gate_open@[#[trigger] cell_index(cx, cy)]
                        == spec_gate_next(
                        *circuit,
                        old(self).n_silicon_high@,
                        old(self).p_silicon_high@,
                        old(self).gate_open@,
                        cx,
                        cy,
                    ),
                forall|cx: int, cy: int|
                    in_grid(cx, cy) && cy >= y ==> self.gate_open@[#[trigger] cell_index(cx, cy)]
                        == old(self).gate_open@[cell_index(cx, cy)],
            decreases GRID_HEIGHT - y,
        {
            let mut x: usize = 0;
            while x < GRID_WIDTH
                invariant
                    self.wf(),
                    circuit.wf(),
                    y < GRID_HEIGHT,
                    x <= GRID_WIDTH,
                    self.metal_high@ == old(self).metal_high@,
                    self.n_silicon_high@ == old(self).n_silicon_high@,
                    self.p_silicon_high@ == old(self).p_silicon_high@,
                    self.tick == old(self).tick,
                    self.output_history@ == old(self).output_history@,
                    self.last_accuracy == old(self).last_accuracy,
                    self.last_passed == old(self).last_passed,
                    forall|cx: int, cy: int|
                        in_grid(cx, cy) && (cy < y || (cy == y && cx < x)) ==> self.gate_open@[#[trigger] cell_index(
                            cx,
                            cy,
                        )] == spec_gate_next(
                            *circuit,
                            old(self).n_silicon_high@,
                            old(self).p_silicon_high@,
                            old(self).gate_open@,
                            cx,
                            cy,
                        ),
                    forall|cx: int, cy: int|
                        in_grid(cx, cy) && !(cy < y || (cy == y && cx < x)) ==> self.gate_open@[#[trigger] cell_index(
                            cx,
                            cy,
                        )] == old(self).gate_open@[cell_index(cx, cy)],
                decreases GRID_WIDTH - x,
            {
                if let Some(node) = circuit.get_node(x, y) {
                    if let Silicon::Gate { channel } = node.silicon {
                        let i = y * GRID_WIDTH + x;
                        let gate_signal = match channel {
                            SiliconKind::N => self.p_silicon_high[i],
                            SiliconKind::P => self.n_silicon_high[i],
                        };
                        let open = match channel {
                            SiliconKind::N => gate_signal,
                            SiliconKind::P => !gate_signal,
                        };
                        self.gate_open[i] = open;
                    }
                }
                x = x + 1;
            }
            y = y + 1;
        }
        proof {
            let gnext = gates_after(
                *circuit,
                old(self).n_silicon_high@,
                old(self).p_silicon_high@,
                old(self).gate_open@,
            );
            assert forall|i: int| 0 <= i < self.gate_open@.len() implies self.gate_open@[i]
                == gnext[i] by {
                let cx = i % (GRID_WIDTH as int);
                let cy = i / (GRID_WIDTH as int);
                assert(0 <= cx < GRID_WIDTH && 0 <= cy < GRID_HEIGHT && cy * GRID_WIDTH + cx
                    == i) by (nonlinear_arith)
                    requires
                        0 <= i < GRID_WIDTH * GRID_HEIGHT,
                        cx == i % (GRID_WIDTH as int),
                        cy == i / (GRID_WIDTH as int),
                ;
                assert(in_grid(cx, cy) && cell_index(cx, cy) == i);
            }
            assert(self.gate_open@ =~= gnext);
        }
    }

    /// Run one simulation tick: propagate signals with the previous
    /// tick's transistor flags, latch the flags for the next tick, and
    /// append one 12-bit snapshot of the pins to the history.
    pub fn step(&mut self, circuit: &Circuit, pins: &[Pin], pin_values: &Vec<bool>)
        requires
            old(self).wf(),
            circuit.wf(),
            all_pins_wf(pins@),
            pins@.len() == 12,
            pin_values@.len() == 12,
            old(self).tick < usize::MAX,
        ensures
            final(self).wf(),
            step_rel(*circuit, pins@, pin_values@, *old(self), *final(self)),
    {
        self.propagate(circuit, pins, pin_values);
        self.update_gates(circuit);
        let mut out: Vec<bool> = Vec::new();
        let mut i: usize = 0;
        while i < pins.len()
            invariant
                self.wf(),
                all_pins_wf(pins@),
                pins@.len() == 12,
                i <= 12,
                out@.len() == i,
                forall|j: int|
                    0 <= j < i ==> out@[j] == SimState::spec_pin_signal(
                        self.metal_high@,
                        #[trigger] pins@[j],
                    ),
            decreases pins@.len() - i,
        {
            let high = self.get_pin_signal(&pins[i]);
            out.push(high);
            i = i + 1;
        }
        proof {
            assert(out@ =~= spec_snapshot(self.metal_high@, pins@));
        }
        self.output_history.push(out);
        self.tick = self.tick + 1;
    }
}

/// A driven input pin always reads high: its whole region is among the
/// seeds, so its metal signal is high no matter what else drives the same
/// net — several drivers merge as a wired OR, never as a fault.
pub proof fn lemma_driven_pin_reads_high(
    c: Circuit,
    gates: Seq<bool>,
    pins: Seq<Pin>,
    pv: Seq<bool>,
    m: Seq<bool>,
    n: Seq<bool>,
    p: Seq<bool>,
    i: int,
)
    requires
        is_propagation(c, gates, pins, pv, m, n, p),
        0 <= i < pins.len(),
        pv[i],
        pins[i].wf(),
    ensures
        SimState::spec_pin_signal(m, pins[i]),
{
    let pin = pins[i];
    let x = pin.x as int;
    let y = pin.y as int;
    assert(in_grid(x, y));
    assert(pin.spec_contains(x, y));
    assert(seed_cell(pins, pv, x, y));
    assert(m[cell_index(x, y)]);
}

/// Whether a cell-set indicator is closed under the circuit's metal edges:
/// a metal edge never joins a net cell to a non-net cell.
pub open spec fn net_metal_closed(c: Circuit, net: Seq<bool>) -> bool {
    forall|x: int, y: int|
        in_grid(x, y) ==> {
            &&& (in_grid(x + 1, y) && c.edge_between(x, y, x + 1, y)->Some_0.metal
                ==> net[#[trigger] cell_index(x, y)] == net[cell_index(x + 1, y)])
            &&& (in_grid(x, y + 1) && c.edge_between(x, y, x, y + 1)->Some_0.metal ==> net[cell_index(
                x,
                y,
            )] == net[cell_index(x, y + 1)])
        }
}

/// The other half of the wired-OR rule: a metal net that no driven pin
/// touches reads low on every one of its cells.  Together with
/// `lemma_driven_pin_reads_high`, several drivers on one net merge as a
/// plain OR: high iff at least one drives high.  The net is given as a
/// cell indicator closed under the metal edges and free of vias (a via
/// would couple it to the silicon layers).
pub proof fn lemma_undriven_net_reads_low(
    c: Circuit,
    gates: Seq<bool>,
    pins: Seq<Pin>,
    pv: Seq<bool>,
    m: Seq<bool>,
    n: Seq<bool>,
    p: Seq<bool>,
    net: Seq<bool>,
)
    requires
        is_propagation(c, gates, pins, pv, m, n, p),
        grid_wf(net),
        net_metal_closed(c, net),
        forall|x: int, y: int|
            in_grid(x, y) && net[#[trigger] cell_index(x, y)] ==> !c.node_at(x, y).via,
        forall|k: int, x: int, y: int|
            0 <= k < pins.len() && pv[k] && (#[trigger] pins[k]).spec_contains(x, y) && in_grid(
                x,
                y,
            ) ==> !net[#[trigger] cell_index(x, y)],
    ensures
        forall|x: int, y: int|
            in_grid(x, y) && net[#[trigger] cell_index(x, y)] ==> !m[cell_index(x, y)],
{
    let m2 = Seq::new(net.len(), |i: int| !net[i]);
    let n2 = Seq::new(net.len(), |i: int| true);
    let p2 = Seq::new(net.len(), |i: int| true);
    assert(seeded(pins, pv, m2)) by {
        assert forall|x: int, y: int|
            in_grid(x, y) && #[trigger] seed_cell(pins, pv, x, y) implies m2[cell_index(x, y)] by {
            let k = choose|k: int|
                0 <= k < pins.len() && pv[k] && (#[trigger] pins[k]).spec_contains(x, y);
            assert(!net[cell_index(x, y)]);
        }
    }
    assert(closed(c, gates, m2, n2, p2)) by {
        assert forall|x: int, y: int| in_grid(x, y) implies #[trigger] cell_ok(
            c,
            gates,
            m2,
            n2,
            p2,
            x,
            y,
        ) by {
            assert(via_ok(c, m2, n2, p2, x, y)) by {
                if c.node_at(x, y).via {
                    assert(!net[cell_index(x, y)]);
                }
            }
            assert(pair_ok(c, gates, m2, n2, p2, x, y, x + 1, y));
            assert(pair_ok(c, gates, m2, n2, p2, x, y, x, y + 1));
        }
    }
    assert(subsumed(m, m2));
    assert forall|x: int, y: int|
        in_grid(x, y) && net[#[trigger] cell_index(x, y)] implies !m[cell_index(x, y)] by {
        if m[cell_index(x, y)] {
            assert(m2[cell_index(x, y)]);
        }
    }
}

/// Along any run of metal-bridged cells, the settled metal signal carries
/// a single value: the conduction rules tie both ends of every metal edge
/// together.  With `lemma_driven_pin_reads_high` and
/// `lemma_undriven_net_reads_low`, a connected metal net therefore reads
/// high on every cell when some pin drives it and low on every cell when
/// none does.
pub proof fn lemma_metal_run_equal(
    c: Circuit,
    gates: Seq<bool>,
    m: Seq<bool>,
    n: Seq<bool>,
    p: Seq<bool>,
    path: Seq<(int, int)>,
)
    requires
        closed(c, gates, m, n, p),
        path.len() >= 1,
        forall|i: int| 0 <= i < path.len() ==> in_grid((#[trigger] path[i]).0, path[i].1),
        forall|i: int|
            0 < i < path.len() ==> crate::edit::is_neighbour(
                (#[trigger] path[i]).0,
                path[i].1,
                path[i - 1].0,
                path[i - 1].1,
            ),
        forall|i: int|
            0 < i < path.len() ==> (#[trigger] c.edge_between(
                path[i - 1].0,
                path[i - 1].1,
                path[i].0,
                path[i].1,
            ))->Some_0.metal,
    ensures
        m[cell_index(path[0].0, path[0].1)] == m[cell_index(path.last().0, path.last().1)],
    decreases path.len(),
{
    if path.len() > 1 {
        let a = path[0];
        let b = path[1];
        assert(c.edge_between(a.0, a.1, b.0, b.1)->Some_0.metal);
        if b.0 == a.0 + 1 && b.1 == a.1 {
            assert(cell_ok(c, gates, m, n, p, a.0, a.1));
        } else if a.0 == b.0 + 1 && a.1 == b.1 {
            assert(cell_ok(c, gates, m, n, p, b.0, b.1));
        } else if b.1 == a.1 + 1 && b.0 == a.0 {
            assert(cell_ok(c, gates, m, n, p, a.0, a.1));
        } else {
            assert(cell_ok(c, gates, m, n, p, b.0, b.1));
        }
        assert(m[cell_index(a.0, a.1)] == m[cell_index(b.0, b.1)]);
        let rest = path.subrange(1, path.len() as int);
        assert forall|i: int| 0 <= i < rest.len() implies in_grid(
            (#[trigger] rest[i]).0,
            rest[i].1,
        ) by {
            assert(rest[i] == path[i + 1]);
        }
        assert forall|i: int| 0 < i < rest.len() implies crate::edit::is_neighbour(
            (#[trigger] rest[i]).0,
            rest[i].1,
            rest[i - 1].0,
            rest[i - 1].1,
        ) by {
            assert(rest[i] == path[i + 1] && rest[i - 1] == path[i]);
        }
        assert forall|i: int| 0 < i < rest.len() implies (#[trigger] c.edge_between(
            rest[i - 1].0,
            rest[i - 1].1,
            rest[i].0,
            rest[i].1,
        ))->Some_0.metal by {
            assert(rest[i] == path[i + 1] && rest[i - 1] == path[i]);
            assert(c.edge_between(path[i].0, path[i].1, path[i + 1].0, path[i + 1].1)
                ->Some_0.metal);
        }
        lemma_metal_run_equal(c, gates, m, n, p, rest);
        assert(rest[0] == b);
        assert(rest.last() == path.last());
    }
}

/// A fresh all-low grid.
fn new_grid() -> (g: Vec<bool>)
    ensures
        grid_wf(g@),
        forall|i: int| 0 <= i < g@.len() ==> !(#[trigger] g@[i]),
{
    let mut g: Vec<bool> = Vec::new();
    let mut i: usize = 0;
    while i < GRID_WIDTH * GRID_HEIGHT
        invariant
            g@.len() == i,
            i <= GRID_WIDTH * GRID_HEIGHT,
            forall|j: int| 0 <= j < i ==> !(#[trigger] g@[j]),
        decreases GRID_WIDTH * GRID_HEIGHT - i,
    {
        g.push(false);
        i = i + 1;
    }
    g
}

} // verus!
