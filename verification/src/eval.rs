//! The waveform evaluator: drives the pins from a level's input waveforms,
//! one tick per waveform position, then scores the recorded history against
//! the expected output waveforms, counting only the positions the test mask
//! does not exclude.

use vstd::prelude::*;

use crate::circuit::{cell_index, Circuit, Silicon, SiliconKind, GRID_HEIGHT, GRID_WIDTH};
use crate::pins::{all_pins_wf, Pin};
use crate::sim::{gates_after, propagation, spec_snapshot, SimState};

verus! {

/// One waveform: a per-pin, per-tick sequence of binary values, either
/// driven into the circuit or expected from it, with an optional don't-care
/// mask (`true` marks a position the scorer skips; positions beyond the
/// mask are checked).
pub struct Waveform {
    pub pin_index: usize,
    pub is_input: bool,
    pub values: Vec<bool>,
    pub test: Vec<bool>,
    pub display: bool,
}

/// A level: pin labels, waveforms, explanatory text and the accuracy a
/// circuit must reach, as the fraction `threshold_num / threshold_den`.
pub struct Level {
    pub name: String,
    pub order: usize,
    pub pins: Vec<String>,
    pub waveforms: Vec<Waveform>,
    pub specification: Vec<String>,
    pub threshold_num: u32,
    pub threshold_den: u32,
}

impl Level {
    /// Every waveform addresses one of the twelve pins, and the threshold
    /// is a genuine fraction.
    pub open spec fn wf(self) -> bool {
        &&& forall|i: int|
            0 <= i < self.waveforms@.len() ==> (#[trigger] self.waveforms@[i]).pin_index < 12
        &&& self.threshold_den > 0
    }
}

/// The serde default for a waveform's display flag.
pub fn default_true() -> (r: bool)
    ensures
        r,
{
    true
}

/// The default accuracy threshold: ninety-eight hundredths.
pub fn default_accuracy_threshold() -> (r: (u32, u32))
    ensures
        r.0 == 98 && r.1 == 100,
{
    (98, 100)
}

/// Parse a bit-string: `'1'` is high, anything else low.
pub fn parse_values(s: &str) -> (r: Vec<bool>)
    ensures
        r@.len() == s@.len(),
        forall|i: int| 0 <= i < s@.len() ==> r@[i] == (s@[i] == '1'),
{
    let n = s.unicode_len();
    let mut r: Vec<bool> = Vec::new();
    let mut i: usize = 0;
    while i < n
        invariant
            n == s@.len(),
            i <= n,
            r@.len() == i,
            forall|j: int| 0 <= j < i ==> r@[j] == (s@[j] == '1'),
        decreases n - i,
    {
        r.push(s.get_char(i) == '1');
        i = i + 1;
    }
    r
}

/// Parse a test mask: `'x'` marks a don't-care position.
pub fn parse_mask(s: &str) -> (r: Vec<bool>)
    ensures
        r@.len() == s@.len(),
        forall|i: int| 0 <= i < s@.len() ==> r@[i] == (s@[i] == 'x'),
{
    let n = s.unicode_len();
    let mut r: Vec<bool> = Vec::new();
    let mut i: usize = 0;
    while i < n
        invariant
            n == s@.len(),
            i <= n,
            r@.len() == i,
            forall|j: int| 0 <= j < i ==> r@[j] == (s@[j] == 'x'),
        decreases n - i,
    {
        r.push(s.get_char(i) == 'x');
        i = i + 1;
    }
    r
}

/// The bit a waveform holds at one tick; positions past its end are low.
pub open spec fn wave_value(w: Waveform, t: int) -> bool {
    0 <= t < w.values@.len() && w.values@[t]
}

/// Whether the scorer checks a waveform position: it does unless the test
/// mask reaches the position and marks it don't-care.
pub open spec fn wave_checked(w: Waveform, t: int) -> bool {
    !(0 <= t < w.test@.len() && w.test@[t])
}

/// The value driven onto pin `i` at tick `t`: the bit of the last input
/// waveform addressing that pin, or low if none does.
pub open spec fn spec_pin_input(ws: Seq<Waveform>, t: int, i: int) -> bool
    decreases ws.len(),
{
    if ws.len() == 0 {
        false
    } else {
        if ws.last().is_input && ws.last().pin_index == i {
            wave_value(ws.last(), t)
        } else {
            spec_pin_input(ws.drop_last(), t, i)
        }
    }
}

/// The whole 12-bit input vector at tick `t`.
pub open spec fn spec_pin_inputs(ws: Seq<Waveform>, t: int) -> Seq<bool> {
    Seq::new(12, |i: int| spec_pin_input(ws, t, i))
}

/// Read the input pin values for one tick from a level's input waveforms.
pub fn input_pin_values(level: &Level, t: usize) -> (r: Vec<bool>)
    requires
        level.wf(),
    ensures
        r@ == spec_pin_inputs(level.waveforms@, t as int),
{
    let ghost ws = level.waveforms@;
    let mut r: Vec<bool> = Vec::new();
    let mut i: usize = 0;
    while i < 12
        invariant
            r@.len() == i,
            i <= 12,
            forall|j: int| 0 <= j < i ==> r@[j] == false,
        decreases 12 - i,
    {
        r.push(false);
        i = i + 1;
    }
    proof {
        assert forall|j: int| 0 <= j < 12 implies r@[j] == spec_pin_input(ws.take(0), t as int, j)
        by {
            reveal_with_fuel(spec_pin_input, 1);
            assert(ws.take(0).len() == 0);
        }
    }
    let mut k: usize = 0;
    while k < level.waveforms.len()
        invariant
            level.wf(),
            ws == level.waveforms@,
            k <= ws.len(),
            r@.len() == 12,
            forall|j: int| 0 <= j < 12 ==> r@[j] == spec_pin_input(ws.take(k as int), t as int, j),
        decreases ws.len() - k,
    {
        let w = &level.waveforms[k];
        if w.is_input && w.pin_index < 12 {
            let value = if t < w.values.len() {
                w.values[t]
            } else {
                false
            };
            r[w.pin_index] = value;
        }
        proof {
            assert(ws.take(k as int + 1).drop_last() =~= ws.take(k as int));
            assert(ws.take(k as int + 1).last() == ws[k as int]);
        }
        k = k + 1;
    }
    proof {
        assert(ws.take(ws.len() as int) =~= ws);
        assert(r@ =~= spec_pin_inputs(ws, t as int));
    }
    r
}

/// The number of ticks a run lasts: the length of the longest waveform.
pub open spec fn spec_max_len(ws: Seq<Waveform>) -> int
    decreases ws.len(),
{
    if ws.len() == 0 {
        0
    } else {
        let rest = spec_max_len(ws.drop_last());
        if ws.last().values@.len() > rest {
            ws.last().values@.len() as int
        } else {
            rest
        }
    }
}

/// The run length is never negative.
pub proof fn lemma_max_len_nonneg(ws: Seq<Waveform>)
    ensures
        spec_max_len(ws) >= 0,
    decreases ws.len(),
{
    if ws.len() > 0 {
        lemma_max_len_nonneg(ws.drop_last());
    }
}

/// The length of the longest waveform of a level.
pub fn max_waveform_len(level: &Level) -> (r: usize)
    ensures
        r == spec_max_len(level.waveforms@),
{
    let ghost ws = level.waveforms@;
    let mut r: usize = 0;
    let mut k: usize = 0;
    while k < level.waveforms.len()
        invariant
            ws == level.waveforms@,
            k <= ws.len(),
            r == spec_max_len(ws.take(k as int)),
        decreases ws.len() - k,
    {
        let len = level.waveforms[k].values.len();
        if len > r {
            r = len;
        }
        proof {
            assert(ws.take(k as int + 1).drop_last() =~= ws.take(k as int));
            assert(ws.take(k as int + 1).last() == ws[k as int]);
        }
        k = k + 1;
    }
    proof {
        assert(ws.take(ws.len() as int) =~= ws);
    }
    r
}

/// The checked-and-correct counts one output waveform contributes, over
/// its first `t` positions: a position counts when the history reaches it
/// and the mask does not exclude it, and is correct when the expected bit
/// equals the recorded pin bit.
pub open spec fn wave_score_upto(w: Waveform, hist: Seq<Seq<bool>>, t: int) -> (int, int)
    decreases t,
{
    if t <= 0 {
        (0, 0)
    } else {
        let prev = wave_score_upto(w, hist, t - 1);
        if t - 1 < hist.len() && wave_checked(w, t - 1) {
            (
                prev.0 + if w.values@[t - 1] == hist[t - 1][w.pin_index as int] {
                    1int
                } else {
                    0
                },
                prev.1 + 1,
            )
        } else {
            prev
        }
    }
}

/// The counts the first `k` waveforms contribute; input waveforms
/// contribute nothing.
pub open spec fn score_upto(ws: Seq<Waveform>, hist: Seq<Seq<bool>>, k: int) -> (int, int)
    decreases k,
{
    if k <= 0 {
        (0, 0)
    } else {
        let prev = score_upto(ws, hist, k - 1);
        if ws[k - 1].is_input {
            prev
        } else {
            let wsc = wave_score_upto(ws[k - 1], hist, ws[k - 1].values@.len() as int);
            (prev.0 + wsc.0, prev.1 + wsc.1)
        }
    }
}

/// The total checked-and-correct counts of a run: for every output
/// waveform, every checked position the history reaches.
pub open spec fn spec_score(ws: Seq<Waveform>, hist: Seq<Seq<bool>>) -> (int, int) {
    score_upto(ws, hist, ws.len() as int)
}

/// One waveform's counts grow one position at a time, the correct count
/// never past the checked count.
pub proof fn lemma_wave_score_bounds(w: Waveform, hist: Seq<Seq<bool>>, t: int)
    ensures
        0 <= wave_score_upto(w, hist, t).0 <= wave_score_upto(w, hist, t).1,
    decreases t,
{
    if t > 0 {
        lemma_wave_score_bounds(w, hist, t - 1);
    }
}

/// Later positions only add to a waveform's counts.
pub proof fn lemma_wave_score_mono(w: Waveform, hist: Seq<Seq<bool>>, t1: int, t2: int)
    requires
        t1 <= t2,
    ensures
        wave_score_upto(w, hist, t1).0 <= wave_score_upto(w, hist, t2).0,
        wave_score_upto(w, hist, t1).1 <= wave_score_upto(w, hist, t2).1,
    decreases t2 - t1,
{
    if t1 < t2 {
        lemma_wave_score_mono(w, hist, t1, t2 - 1);
        lemma_wave_score_bounds(w, hist, t2 - 1);
    }
}

/// The running counts never fall, and the correct count never passes the
/// checked count.
pub proof fn lemma_score_bounds(ws: Seq<Waveform>, hist: Seq<Seq<bool>>, k: int)
    ensures
        0 <= score_upto(ws, hist, k).0 <= score_upto(ws, hist, k).1,
    decreases k,
{
    if k > 0 {
        lemma_score_bounds(ws, hist, k - 1);
        if !(k - 1 < 0) && !ws[k - 1].is_input {
            lemma_wave_score_bounds(ws[k - 1], hist, ws[k - 1].values@.len() as int);
        }
    }
}

/// Later waveforms only add to the counts.
pub proof fn lemma_score_mono(ws: Seq<Waveform>, hist: Seq<Seq<bool>>, k1: int, k2: int)
    requires
        k1 <= k2,
    ensures
        score_upto(ws, hist, k1).0 <= score_upto(ws, hist, k2).0,
        score_upto(ws, hist, k1).1 <= score_upto(ws, hist, k2).1,
    decreases k2 - k1,
{
    if k1 < k2 {
        lemma_score_mono(ws, hist, k1, k2 - 1);
        if !ws[k2 - 1].is_input {
            lemma_wave_score_bounds(ws[k2 - 1], hist, ws[k2 - 1].values@.len() as int);
        }
    }
}

/// The views of a history's entries.
pub open spec fn views_of(h: Seq<Vec<bool>>) -> Seq<Seq<bool>> {
    h.map_values(|v: Vec<bool>| v@)
}

/// Count the checked and correct output bits of a completed run.
pub fn score(level: &Level, history: &Vec<Vec<bool>>) -> (r: (usize, usize))
    requires
        level.wf(),
        forall|i: int| 0 <= i < history@.len() ==> (#[trigger] history@[i])@.len() == 12,
        spec_score(level.waveforms@, views_of(history@)).1 <= usize::MAX,
    ensures
        (r.0 as int, r.1 as int) == spec_score(level.waveforms@, views_of(history@)),
        r.0 <= r.1,
{
    let ghost ws = level.waveforms@;
    let ghost hist = views_of(history@);
    let mut correct: usize = 0;
    let mut total: usize = 0;
    let mut k: usize = 0;
    while k < level.waveforms.len()
        invariant
            level.wf(),
            ws == level.waveforms@,
            hist == views_of(history@),
            hist.len() == history@.len(),
            forall|i: int| 0 <= i < history@.len() ==> (#[trigger] history@[i])@.len() == 12,
            spec_score(ws, hist).1 <= usize::MAX,
            k <= ws.len(),
            (correct as int, total as int) == score_upto(ws, hist, k as int),
            correct <= total,
        decreases ws.len() - k,
    {
        let w = &level.waveforms[k];
        if !w.is_input {
            let wlen = w.values.len();
            let mut t: usize = 0;
            while t < wlen
                invariant
                    level.wf(),
                    ws == level.waveforms@,
                    hist == views_of(history@),
                    hist.len() == history@.len(),
                    forall|i: int|
                        0 <= i < history@.len() ==> (#[trigger] history@[i])@.len() == 12,
                    spec_score(ws, hist).1 <= usize::MAX,
                    k < ws.len(),
                    w == &level.waveforms[k as int],
                    !w.is_input,
                    wlen == w.values@.len(),
                    t <= wlen,
                    correct as int == score_upto(ws, hist, k as int).0 + wave_score_upto(
                        *w,
                        hist,
                        t as int,
                    ).0,
                    total as int == score_upto(ws, hist, k as int).1 + wave_score_upto(
                        *w,
                        hist,
                        t as int,
                    ).1,
                    correct <= total,
                decreases wlen - t,
            {
                proof {
                    lemma_score_bounds(ws, hist, k as int);
                    lemma_wave_score_mono(*w, hist, t as int + 1, wlen as int);
                    lemma_score_mono(ws, hist, k as int + 1, ws.len() as int);
                    lemma_wave_score_bounds(*w, hist, t as int);
                }
                if t < history.len() {
                    let should_check = if t < w.test.len() {
                        !w.test[t]
                    } else {
                        true
                    };
                    if should_check {
                        let expected = w.values[t];
                        let actual = history[t][w.pin_index];
                        proof {
                            assert(hist[t as int] == history@[t as int]@);
                        }
                        total = total + 1;
                        if expected == actual {
                            correct = correct + 1;
                        }
                    }
                }
                t = t + 1;
            }
        }
        proof {
            lemma_wave_score_bounds(*w, hist, w.values@.len() as int);
        }
        k = k + 1;
    }
    (correct, total)
}

/// The flag a transistor begins a run with: a P-channel one open, an
/// N-channel one closed, every other cell low.
pub open spec fn spec_gate0(c: Circuit, x: int, y: int) -> bool {
    match c.node_at(x, y).silicon {
        Silicon::Gate { channel } => channel == SiliconKind::P,
        _ => false,
    }
}

/// The whole initial gate grid of a run.
pub open spec fn gates0(c: Circuit) -> Seq<bool> {
    Seq::new(
        (GRID_WIDTH * GRID_HEIGHT) as nat,
        |i: int| spec_gate0(c, i % (GRID_WIDTH as int), i / (GRID_WIDTH as int)),
    )
}

/// The transistor flags in force when tick `t` of a run begins.
pub open spec fn run_gates(c: Circuit, pins: Seq<Pin>, ws: Seq<Waveform>, t: int) -> Seq<bool>
    decreases t,
{
    if t <= 0 {
        gates0(c)
    } else {
        let g = run_gates(c, pins, ws, t - 1);
        let prop = propagation(c, g, pins, spec_pin_inputs(ws, t - 1));
        gates_after(c, prop.1, prop.2, g)
    }
}

/// The pin snapshot tick `t` of a run appends to the history.
pub open spec fn run_snapshot(c: Circuit, pins: Seq<Pin>, ws: Seq<Waveform>, t: int) -> Seq<
    bool,
> {
    spec_snapshot(
        propagation(c, run_gates(c, pins, ws, t), pins, spec_pin_inputs(ws, t)).0,
        pins,
    )
}

/// The whole history of a run: one snapshot per tick, for as many ticks as
/// the longest waveform has positions.
pub open spec fn run_history(c: Circuit, pins: Seq<Pin>, ws: Seq<Waveform>) -> Seq<Seq<bool>> {
    Seq::new(spec_max_len(ws) as nat, |t: int| run_snapshot(c, pins, ws, t))
}

/// The outcome of one verification run, as a relation between the inputs
/// and the simulation state handed back: the recorded history is the run
/// history, and the verdict reflects the exact score — or is absent when no
/// bit was checked.
pub open spec fn evaluate_rel(c: Circuit, pins: Seq<Pin>, level: Level, sim: SimState) -> bool {
    let sc = spec_score(level.waveforms@, run_history(c, pins, level.waveforms@));
    &&& sim.wf()
    &&& views_of(sim.output_history@) == run_history(c, pins, level.waveforms@)
    &&& sim.tick == spec_max_len(level.waveforms@)
    &&& sc.1 > 0 ==> (sim.last_accuracy matches Some(a) && a.0 == sc.0 && a.1 == sc.1)
    &&& sc.1 > 0 ==> sim.last_passed == Some(
        spec_passed(sc.0, sc.1, level.threshold_num as int, level.threshold_den as int),
    )
    &&& sc.1 == 0 ==> sim.last_accuracy is None && sim.last_passed is None
}

/// Run a level's verification from a fresh simulation state: drive the
/// pins from the input waveforms for as many ticks as the longest waveform
/// lasts, then score the history and record the verdict.
pub fn evaluate_level(circuit: &Circuit, pins: &[Pin], level: &Level) -> (sim: SimState)
    requires
        circuit.wf(),
        all_pins_wf(pins@),
        pins@.len() == 12,
        level.wf(),
        spec_score(level.waveforms@, run_history(*circuit, pins@, level.waveforms@)).1
            <= usize::MAX,
    ensures
        evaluate_rel(*circuit, pins@, *level, sim),
{
    let ghost ws = level.waveforms@;
    let mut sim = SimState::new();
    sim.init_gates(circuit);
    proof {
        lemma_max_len_nonneg(ws);
        assert forall|i: int| 0 <= i < sim.gate_open@.len() implies sim.gate_open@[i] == gates0(
            *circuit,
        )[i] by {
            let cx = i % (GRID_WIDTH as int);
            let cy = i / (GRID_WIDTH as int);
            assert(0 <= cx < GRID_WIDTH && 0 <= cy < GRID_HEIGHT && cy * GRID_WIDTH + cx == i)
                by (nonlinear_arith)
                requires
                    0 <= i < GRID_WIDTH * GRID_HEIGHT,
                    cx == i % (GRID_WIDTH as int),
                    cy == i / (GRID_WIDTH as int),
            ;
            assert(crate::circuit::in_grid(cx, cy) && cell_index(cx, cy) == i);
        }
        assert(sim.gate_open@ =~= gates0(*circuit));
    }
    let max_len = max_waveform_len(level);
    let mut t: usize = 0;
    while t < max_len
        invariant
            circuit.wf(),
            all_pins_wf(pins@),
            pins@.len() == 12,
            level.wf(),
            ws == level.waveforms@,
            max_len == spec_max_len(ws),
            t <= max_len,
            sim.wf(),
            sim.tick == t,
            sim.output_history@.len() == t,
            sim.gate_open@ == run_gates(*circuit, pins@, ws, t as int),
            forall|u: int|
                0 <= u < t ==> (#[trigger] sim.output_history@[u])@ == run_snapshot(
                    *circuit,
                    pins@,
                    ws,
                    u,
                ),
            sim.last_accuracy is None,
            sim.last_passed is None,
        decreases max_len - t,
    {
        let pv = input_pin_values(level, t);
        let ghost pre = sim;
        sim.step(circuit, pins, &pv);
        proof {
            let g = run_gates(*circuit, pins@, ws, t as int);
            let prop = propagation(*circuit, g, pins@, spec_pin_inputs(ws, t as int));
            assert(run_gates(*circuit, pins@, ws, t as int + 1) == gates_after(
                *circuit,
                prop.1,
                prop.2,
                g,
            ));
        }
        t = t + 1;
    }
    proof {
        assert(views_of(sim.output_history@) =~= run_history(*circuit, pins@, ws));
    }
    let (correct, total) = score(level, &sim.output_history);
    if total > 0 {
        sim.last_accuracy = Some((correct, total));
        let passed = check_passed(correct, total, level.threshold_num, level.threshold_den);
        sim.last_passed = Some(passed);
    }
    sim
}

/// Scoring idempotence: re-running the evaluator on an unchanged circuit
/// and unchanged waveform set yields an identical history, an identical
/// accuracy and an identical verdict.
pub proof fn lemma_evaluation_deterministic(
    c: Circuit,
    pins: Seq<Pin>,
    level: Level,
    s1: SimState,
    s2: SimState,
)
    requires
        evaluate_rel(c, pins, level, s1),
        evaluate_rel(c, pins, level, s2),
    ensures
        views_of(s1.output_history@) == views_of(s2.output_history@),
        s1.tick == s2.tick,
        s1.last_accuracy == s2.last_accuracy,
        s1.last_passed == s2.last_passed,
{
    let sc = spec_score(level.waveforms@, run_history(c, pins, level.waveforms@));
    lemma_score_bounds(
        level.waveforms@,
        run_history(c, pins, level.waveforms@),
        level.waveforms@.len() as int,
    );
    if sc.1 > 0 {
        let a1 = s1.last_accuracy->Some_0;
        let a2 = s2.last_accuracy->Some_0;
        assert(a1.0 == a2.0 && a1.1 == a2.1);
        assert(a1 == a2);
        assert(s1.last_accuracy == Some(a1));
        assert(s2.last_accuracy == Some(a2));
    } else {
        assert(s1.last_accuracy == None::<(usize, usize)>);
        assert(s2.last_accuracy == None::<(usize, usize)>);
        assert(s1.last_passed == None::<bool>);
        assert(s2.last_passed == None::<bool>);
    }
}

/// Whether `correct / total` reaches the threshold `num / den`, compared
/// exactly as fractions.
pub open spec fn spec_passed(correct: int, total: int, num: int, den: int) -> bool {
    correct * den >= num * total
}

/// Compare an accuracy against a threshold, exactly.
pub fn check_passed(correct: usize, total: usize, num: u32, den: u32) -> (r: bool)
    ensures
        r == spec_passed(correct as int, total as int, num as int, den as int),
{
    let c = correct as u128;
    let d = den as u128;
    let n = num as u128;
    let t = total as u128;
    proof {
        assert(c * d <= 0xffff_ffff_ffff_ffffu128 * 0xffff_ffffu128) by (nonlinear_arith)
            requires
                c <= 0xffff_ffff_ffff_ffffu128,
                d <= 0xffff_ffffu128,
        ;
        assert(n * t <= 0xffff_ffffu128 * 0xffff_ffff_ffff_ffffu128) by (nonlinear_arith)
            requires
                n <= 0xffff_ffffu128,
                t <= 0xffff_ffff_ffff_ffffu128,
        ;
    }
    c * d >= n * t
}

} // verus!
