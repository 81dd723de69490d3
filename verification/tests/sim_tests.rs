//! Tests of the propagation engine and the waveform evaluator: single
//! ticks, gate latency, wired-OR nets, scoring and full runs.

use cxema::circuit::{Circuit, SiliconKind};
use cxema::edit::{place_metal_path, place_silicon_path, place_via};
use cxema::eval::{
    check_passed, default_accuracy_threshold, default_true, evaluate_level, input_pin_values,
    max_waveform_len, parse_mask, parse_values, score, Level, Waveform,
};
use cxema::pins::{create_pins, setup_pins, Pin};
use cxema::sim::SimState;

fn pin_values(high: &[usize]) -> Vec<bool> {
    let mut v = vec![false; 12];
    for &i in high {
        v[i] = true;
    }
    v
}

fn metal_row(c: &mut Circuit, y: usize, x_from: usize, x_to: usize) {
    let path: Vec<(usize, usize)> = (x_from..=x_to).map(|x| (x, y)).collect();
    place_metal_path(c, &path);
}

/// A circuit with a plain metal wire joining pin A0 to pin Y0.
fn wire_circuit(pins: &[Pin]) -> Circuit {
    let mut c = Circuit::new();
    setup_pins(&mut c, pins);
    metal_row(&mut c, 7, 3, 40);
    c
}

#[test]
fn metal_wire_carries_signal_within_one_tick() {
    let pins = create_pins();
    let c = wire_circuit(&pins);
    let mut sim = SimState::new();
    sim.init_gates(&c);
    sim.step(&c, &pins, &pin_values(&[1]));
    assert!(sim.get_pin_signal(&pins[7]));
    assert!(sim.get_pin_signal(&pins[1]));
    assert!(!sim.get_pin_signal(&pins[2]));
    sim.step(&c, &pins, &pin_values(&[]));
    assert!(!sim.get_pin_signal(&pins[7]));
}

#[test]
fn step_appends_one_snapshot_per_tick() {
    let pins = create_pins();
    let c = wire_circuit(&pins);
    let mut sim = SimState::new();
    sim.init_gates(&c);
    sim.step(&c, &pins, &pin_values(&[1]));
    sim.step(&c, &pins, &pin_values(&[]));
    assert_eq!(sim.tick, 2);
    assert_eq!(sim.output_history.len(), 2);
    assert!(sim.output_history[0][7]);
    assert!(!sim.output_history[1][7]);
}

#[test]
fn steps_are_deterministic() {
    let pins = create_pins();
    let c = wire_circuit(&pins);
    let mut sim1 = SimState::new();
    sim1.init_gates(&c);
    let mut sim2 = SimState::new();
    sim2.init_gates(&c);
    for inputs in [&[1usize][..], &[], &[1, 2]] {
        sim1.step(&c, &pins, &pin_values(inputs));
        sim2.step(&c, &pins, &pin_values(inputs));
    }
    assert_eq!(sim1.output_history, sim2.output_history);
    assert_eq!(sim1.metal_high, sim2.metal_high);
    assert_eq!(sim1.gate_open, sim2.gate_open);
    assert_eq!(sim1.tick, sim2.tick);
}

/// Two input pins driving one connected metal net: the net reads high iff
/// at least one of them drives high.
#[test]
fn wired_or_contention() {
    let pins = create_pins();
    let mut c = Circuit::new();
    setup_pins(&mut c, &pins);
    // one net touching A0 (row 7), A1 (row 11) and Y0 (row 7)
    metal_row(&mut c, 7, 3, 40);
    metal_row(&mut c, 11, 3, 10);
    let column: Vec<(usize, usize)> = (7..=11).map(|y| (10, y)).collect();
    place_metal_path(&mut c, &column);

    for (a0, a1) in [(false, false), (true, false), (false, true), (true, true)] {
        let mut high: Vec<usize> = Vec::new();
        if a0 {
            high.push(1);
        }
        if a1 {
            high.push(2);
        }
        let mut sim = SimState::new();
        sim.init_gates(&c);
        sim.step(&c, &pins, &pin_values(&high));
        assert_eq!(sim.get_pin_signal(&pins[7]), a0 || a1);
    }
}

/// A P-type pass transistor: its gate closes one tick after the control
/// goes high, not the same tick.
#[test]
fn pass_transistor_gate_latency() {
    let pins = create_pins();
    let mut c = Circuit::new();
    setup_pins(&mut c, &pins);

    // P-type wire along row 7 between two vias
    let wire: Vec<(usize, usize)> = (6..=38).map(|x| (x, 7)).collect();
    place_silicon_path(&mut c, &wire, SiliconKind::P);
    // N-type control drawn vertically across it, down to a via at row 11
    let cross: Vec<(usize, usize)> = (6..=11).map(|y| (20, y)).collect();
    place_silicon_path(&mut c, &cross, SiliconKind::N);
    assert!(place_via(&mut c, 6, 7));
    assert!(place_via(&mut c, 38, 7));
    assert!(place_via(&mut c, 20, 11));
    // metal from pin A0 to the left via, and from the right via to pin Y0
    metal_row(&mut c, 7, 3, 6);
    metal_row(&mut c, 7, 38, 40);
    // metal from pin A1 to the control via
    metal_row(&mut c, 11, 3, 20);

    let mut sim = SimState::new();
    sim.init_gates(&c);
    // control low: the P-channel gate rests open and conducts
    sim.step(&c, &pins, &pin_values(&[1]));
    assert!(sim.get_pin_signal(&pins[7]));
    // control goes high: the transistor still conducts this tick
    sim.step(&c, &pins, &pin_values(&[1, 2]));
    assert!(sim.get_pin_signal(&pins[7]));
    // one tick later the transistor has latched closed
    sim.step(&c, &pins, &pin_values(&[1, 2]));
    assert!(!sim.get_pin_signal(&pins[7]));
    // and it reopens one tick after the control falls
    sim.step(&c, &pins, &pin_values(&[1]));
    assert!(!sim.get_pin_signal(&pins[7]));
    sim.step(&c, &pins, &pin_values(&[1]));
    assert!(sim.get_pin_signal(&pins[7]));
}

fn twelve_labels() -> Vec<String> {
    ["+", "A0", "A1", "A2", "A3", "+", "+", "Y0", "Y1", "Y2", "Y3", "+"]
        .iter()
        .map(|s| s.to_string())
        .collect()
}

fn wire_level() -> Level {
    let threshold = default_accuracy_threshold();
    Level {
        name: String::from("wire"),
        order: 0,
        pins: twelve_labels(),
        waveforms: vec![
            Waveform {
                pin_index: 1,
                is_input: true,
                values: parse_values("0101"),
                test: parse_mask(""),
                display: default_true(),
            },
            Waveform {
                pin_index: 7,
                is_input: false,
                values: parse_values("0101"),
                test: parse_mask(""),
                display: default_true(),
            },
        ],
        specification: Vec::new(),
        threshold_num: threshold.0,
        threshold_den: threshold.1,
    }
}

/// A direct metal wire from pin A0 to pin Y0, driven with alternating
/// bits: the history repeats them and the run passes with full accuracy.
#[test]
fn end_to_end_wire_run() {
    let pins = create_pins();
    let c = wire_circuit(&pins);
    let level = wire_level();
    let sim = evaluate_level(&c, &pins, &level);
    assert_eq!(sim.output_history.len(), 4);
    let expected = [false, true, false, true];
    for t in 0..4 {
        assert_eq!(sim.output_history[t][1], expected[t]);
        assert_eq!(sim.output_history[t][7], expected[t]);
        assert!(!sim.output_history[t][0]);
        assert!(!sim.output_history[t][6]);
    }
    assert_eq!(sim.last_accuracy, Some((4, 4)));
    assert_eq!(sim.last_passed, Some(true));
}

/// Re-running the evaluator on an unchanged circuit and waveforms yields
/// an identical history and an identical verdict.
#[test]
fn evaluation_is_idempotent() {
    let pins = create_pins();
    let c = wire_circuit(&pins);
    let level = wire_level();
    let sim1 = evaluate_level(&c, &pins, &level);
    let sim2 = evaluate_level(&c, &pins, &level);
    assert_eq!(sim1.output_history, sim2.output_history);
    assert_eq!(sim1.last_accuracy, sim2.last_accuracy);
    assert_eq!(sim1.last_passed, sim2.last_passed);
}

#[test]
fn broken_wire_fails_the_run() {
    let pins = create_pins();
    let mut c = Circuit::new();
    setup_pins(&mut c, &pins);
    // no connection at all between A0 and Y0
    let level = wire_level();
    let sim = evaluate_level(&c, &pins, &level);
    // the two high expectations are missed, the two low ones met
    assert_eq!(sim.last_accuracy, Some((2, 4)));
    assert_eq!(sim.last_passed, Some(false));
}

#[test]
fn masked_positions_are_not_checked() {
    let pins = create_pins();
    let mut c = Circuit::new();
    setup_pins(&mut c, &pins);
    let mut level = wire_level();
    // don't-care on the two high expectations
    level.waveforms[1].test = parse_mask("?x?x");
    let sim = evaluate_level(&c, &pins, &level);
    assert_eq!(sim.last_accuracy, Some((2, 2)));
    assert_eq!(sim.last_passed, Some(true));
}

#[test]
fn zero_checked_bits_give_no_verdict() {
    let pins = create_pins();
    let mut c = Circuit::new();
    setup_pins(&mut c, &pins);
    let mut level = wire_level();
    level.waveforms.remove(1);
    let sim = evaluate_level(&c, &pins, &level);
    assert_eq!(sim.output_history.len(), 4);
    assert_eq!(sim.last_accuracy, None);
    assert_eq!(sim.last_passed, None);
}

#[test]
fn input_values_use_last_waveform_and_default_low() {
    let mut level = wire_level();
    level.waveforms.push(Waveform {
        pin_index: 1,
        is_input: true,
        values: parse_values("10"),
        test: parse_mask(""),
        display: true,
    });
    // the later input waveform for the same pin wins
    let v0 = input_pin_values(&level, 0);
    assert!(v0[1]);
    let v1 = input_pin_values(&level, 1);
    assert!(!v1[1]);
    // beyond its end a waveform reads low
    let v9 = input_pin_values(&level, 9);
    assert!(!v9[1]);
    assert_eq!(v0.len(), 12);
}

#[test]
fn longest_waveform_sets_run_length() {
    let mut level = wire_level();
    assert_eq!(max_waveform_len(&level), 4);
    level.waveforms[0].values = parse_values("0101110");
    assert_eq!(max_waveform_len(&level), 7);
}

#[test]
fn parsing_bits_and_masks() {
    assert_eq!(parse_values("0101"), vec![false, true, false, true]);
    assert_eq!(parse_values(""), Vec::<bool>::new());
    assert_eq!(parse_mask("?x?"), vec![false, true, false]);
}

#[test]
fn score_counts_checked_positions() {
    let level = wire_level();
    let mut history: Vec<Vec<bool>> = Vec::new();
    for t in 0..4 {
        let mut row = vec![false; 12];
        row[7] = t % 2 == 1;
        history.push(row);
    }
    assert_eq!(score(&level, &history), (4, 4));
    // a truncated history only checks the ticks it reaches
    history.truncate(2);
    assert_eq!(score(&level, &history), (2, 2));
}

#[test]
fn threshold_comparison_is_exact() {
    assert!(check_passed(98, 100, 98, 100));
    assert!(!check_passed(97, 100, 98, 100));
    assert!(check_passed(0, 0, 98, 100));
    assert_eq!(default_accuracy_threshold(), (98, 100));
}
