//! Tests of the editor-facing helpers: pins, hit-testing, tab and music
//! cycling, completion tracking, cursor search, routing and the demo
//! layout.

use cxema::circuit::{Circuit, Layer, SiliconKind};
use cxema::edit::place_silicon_at;
use cxema::path::find_path;
use cxema::pins::{create_pins, get_pin_corner_fills, is_pin_cell, setup_pins};
use cxema::sample::setup_test_pattern;
use cxema::sim::SimState;
use cxema::ui::{
    find_material_right, get_clicked_button, get_clicked_music_button, get_clicked_tab,
    get_layer_connections, next_tab,
    prev_tab, EditMode, MusicTrack, PendingModifier, SaveData, Tab,
};

#[test]
fn pins_sit_in_two_columns_of_six() {
    let pins = create_pins();
    assert_eq!(pins.len(), 12);
    for (i, pin) in pins.iter().enumerate() {
        assert_eq!(pin.x, if i < 6 { 1 } else { 40 });
        assert_eq!(pin.y, 2 + 4 * (i % 6));
    }
    assert_eq!(pins[1].label, "A0");
    assert_eq!(pins[4].label, "A3");
    assert_eq!(pins[7].label, "Y0");
    assert_eq!(pins[10].label, "Y3");
    assert_eq!(pins[0].label, "+");
    assert_eq!(pins[11].label, "+");
}

#[test]
fn pin_cells_and_corner_fills() {
    let pins = create_pins();
    assert!(pins[0].contains(1, 2));
    assert!(pins[0].contains(3, 4));
    assert!(!pins[0].contains(4, 2));
    assert!(is_pin_cell(2, 3, &pins));
    assert!(is_pin_cell(41, 7, &pins));
    assert!(!is_pin_cell(0, 0, &pins));
    assert_eq!(get_pin_corner_fills(2, 3, &pins), [true, true, true, true]);
    assert_eq!(
        get_pin_corner_fills(1, 2, &pins),
        [false, false, false, true]
    );
}

#[test]
fn setup_pins_lays_connected_metal() {
    let pins = create_pins();
    let mut c = Circuit::new();
    setup_pins(&mut c, &pins);
    for pin in &pins {
        for dy in 0..3 {
            for dx in 0..3 {
                assert!(c.get_node(pin.x + dx, pin.y + dy).unwrap().metal);
            }
        }
        assert!(c.get_edge(pin.x, pin.y, pin.x + 1, pin.y).unwrap().metal);
        assert!(c.get_edge(pin.x, pin.y, pin.x, pin.y + 1).unwrap().metal);
    }
    // cells outside the pins are untouched
    assert!(!c.get_node(10, 10).unwrap().metal);
}

#[test]
fn tab_cycles_are_inverse() {
    let tabs = [
        Tab::Specifications,
        Tab::Verification,
        Tab::DesignSnippets,
        Tab::Designs,
        Tab::Help,
        Tab::Menu,
    ];
    for tab in tabs {
        assert_eq!(prev_tab(next_tab(tab)), tab);
        assert_eq!(next_tab(prev_tab(tab)), tab);
    }
    assert_eq!(next_tab(Tab::Menu), Tab::Specifications);
}

#[test]
fn music_tracks_cycle_and_name_their_files() {
    assert_eq!(MusicTrack::Off.next(), MusicTrack::AnalogSequence);
    assert_eq!(MusicTrack::RetroLoop.next(), MusicTrack::RetroLoop);
    assert_eq!(MusicTrack::Off.prev(), MusicTrack::Off);
    assert_eq!(MusicTrack::GroovyBeat.prev(), MusicTrack::AnalogSequence);
    assert_eq!(MusicTrack::Off.filename(), None);
    assert_eq!(
        MusicTrack::GroovyBeat.filename(),
        Some("music/groovy_beat.wav")
    );
    assert_eq!(MusicTrack::AnalogSequence.display_name(), "Analog Sequence");
    assert_eq!(MusicTrack::Off.display_name(), "No Music");
}

#[test]
fn panel_and_tab_hit_testing() {
    // the panel starts right of the 704 pixel grid area
    assert_eq!(get_clicked_button(710, 10), Some(EditMode::NSilicon));
    assert_eq!(get_clicked_button(710, 60), Some(EditMode::PSilicon));
    assert_eq!(get_clicked_button(710, 390), Some(EditMode::MouseSelect));
    assert_eq!(get_clicked_button(710, 50), None);
    assert_eq!(get_clicked_button(100, 10), None);

    // the tab bar sits between the help strip and the content area
    assert_eq!(get_clicked_tab(0, 452), Some(Tab::Specifications));
    assert_eq!(get_clicked_tab(200, 460), Some(Tab::Verification));
    assert_eq!(get_clicked_tab(700, 475), Some(Tab::Menu));
    assert_eq!(get_clicked_tab(0, 451), None);
    assert_eq!(get_clicked_tab(0, 476), None);

    // the music buttons live in the menu tab content
    assert_eq!(get_clicked_music_button(15, 510), Some(MusicTrack::Off));
    assert_eq!(
        get_clicked_music_button(15, 545),
        Some(MusicTrack::AnalogSequence)
    );
    assert_eq!(get_clicked_music_button(5, 510), None);
    assert_eq!(get_clicked_music_button(15, 700), None);
}

#[test]
fn completion_tracking_is_idempotent() {
    let mut save = SaveData::new();
    assert!(!save.is_level_complete("wire"));
    save.mark_level_complete("wire");
    assert!(save.is_level_complete("wire"));
    save.mark_level_complete("wire");
    assert_eq!(save.completed_levels.len(), 1);
    assert!(!save.is_level_complete("inverter"));
}

#[test]
fn material_search_finds_first_match_or_last_column() {
    let mut c = Circuit::new();
    assert_eq!(find_material_right(&c, 5, 10, PendingModifier::Bare), 43);
    place_silicon_at(&mut c, 20, 10, SiliconKind::N, false);
    assert_eq!(find_material_right(&c, 5, 10, PendingModifier::Bare), 20);
    assert_eq!(find_material_right(&c, 5, 10, PendingModifier::Silicon), 20);
    assert_eq!(find_material_right(&c, 5, 10, PendingModifier::Metal), 43);
    assert_eq!(find_material_right(&c, 20, 10, PendingModifier::Bare), 43);
    assert_eq!(find_material_right(&c, 5, 10, PendingModifier::Goto), 43);
}

#[test]
fn routing_finds_a_straight_corridor() {
    let c = Circuit::new();
    let path = find_path((5, 5), (8, 5), &c, Layer::Metal);
    assert_eq!(path.len(), 4);
    assert_eq!(path[0], (5, 5));
    assert_eq!(path[3], (8, 5));
    for w in path.windows(2) {
        let dx = w[0].0 as i32 - w[1].0 as i32;
        let dy = w[0].1 as i32 - w[1].1 as i32;
        assert_eq!(dx.abs() + dy.abs(), 1);
    }
    assert_eq!(find_path((5, 5), (5, 5), &c, Layer::Metal), vec![(5, 5)]);
}

#[test]
fn routing_avoids_occupied_cells() {
    let mut c = Circuit::new();
    // a vertical silicon wall with one opening at the top
    for y in 1..27 {
        place_silicon_at(&mut c, 10, y, SiliconKind::N, true);
    }
    let path = find_path((8, 5), (12, 5), &c, Layer::NSilicon);
    assert!(path.len() > 5);
    assert_eq!(path[0], (8, 5));
    assert_eq!(*path.last().unwrap(), (12, 5));
    for cell in &path[1..path.len() - 1] {
        assert!(!(cell.0 == 10 && cell.1 >= 1));
    }
}

#[test]
fn demo_pattern_forms_its_gate_and_net() {
    let mut c = Circuit::new();
    setup_test_pattern(&mut c);
    assert!(matches!(
        c.get_node(24, 7).unwrap().silicon,
        cxema::circuit::Silicon::Gate { channel: SiliconKind::P }
    ));
    assert!(c.get_node(8, 16).unwrap().via);
    // the metal-over-silicon run carries both layers on its edges
    let e = c.get_edge(20, 16, 21, 16).unwrap();
    assert!(e.p_silicon && e.metal && !e.n_silicon);
    // the vertical metal run through the via
    assert!(c.get_edge(8, 14, 8, 15).unwrap().metal);
    // the demo joins the second pin rows with metal
    let pins = create_pins();
    let mut c2 = Circuit::new();
    setup_pins(&mut c2, &pins);
    setup_test_pattern(&mut c2);
    let mut sim = SimState::new();
    sim.init_gates(&c2);
    let mut inputs = vec![false; 12];
    inputs[1] = true;
    sim.step(&c2, &pins, &inputs);
    // A0's lead stops at column 7, so Y1's lead stays low
    assert!(sim.get_pin_signal(&pins[1]));
    assert!(!sim.get_pin_signal(&pins[8]));
}

#[test]
fn layer_connections_follow_edges() {
    let mut c = Circuit::new();
    c.set_edge(10, 10, 11, 10, Layer::Metal, true);
    c.set_edge(10, 10, 10, 11, Layer::Metal, true);
    assert_eq!(
        get_layer_connections(&c, 10, 10, Layer::Metal),
        [false, true, false, true]
    );
    assert_eq!(
        get_layer_connections(&c, 10, 10, Layer::NSilicon),
        [false, false, false, false]
    );
}
