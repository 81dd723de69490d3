//! The grid store, the transistor-forming edits, and the snippets.

use cxema::circuit::{Circuit, Direction, Layer, Node, Silicon, SiliconKind};
use cxema::edit::{
    delete_all, delete_metal, delete_region, delete_silicon, delete_via, get_straight_silicon,
    is_playable, place_metal_path, place_silicon_at, place_silicon_path, place_via, validate_gate,
};
use cxema::pins::{create_pins, setup_pins};
use cxema::snippet::{load_design_to_circuit, paste_snippet, rotate_snippet, yank_entire_circuit, yank_region};

fn node_at(c: &Circuit, x: usize, y: usize) -> Node {
    c.get_node(x, y).unwrap()
}

#[test]
fn empty_circuit_has_empty_cells_and_edges() {
    let c = Circuit::new();
    let n = node_at(&c, 0, 0);
    assert!(matches!(n.silicon, Silicon::Empty));
    assert!(!n.metal);
    assert!(!n.via);
    assert!(c.get_node(44, 0).is_none());
    assert!(c.get_node(0, 27).is_none());
    let e = c.get_edge(5, 5, 6, 5).unwrap();
    assert!(!e.n_silicon && !e.p_silicon && !e.metal);
    assert!(c.get_edge(5, 5, 7, 5).is_none());
    assert!(c.get_edge(43, 5, 44, 5).is_none());
}

#[test]
fn edge_lookup_is_symmetric() {
    let mut c = Circuit::new();
    c.set_edge(10, 10, 11, 10, Layer::Metal, true);
    c.set_edge(10, 10, 10, 11, Layer::NSilicon, true);
    assert_eq!(c.get_edge(10, 10, 11, 10), c.get_edge(11, 10, 10, 10));
    assert_eq!(c.get_edge(10, 10, 10, 11), c.get_edge(10, 11, 10, 10));
    assert!(c.get_edge(11, 10, 10, 10).unwrap().metal);
    assert!(c.get_edge(10, 11, 10, 10).unwrap().n_silicon);
}

#[test]
fn is_connected_respects_layer_and_boundary() {
    let mut c = Circuit::new();
    c.set_edge(10, 10, 11, 10, Layer::Metal, true);
    assert!(c.is_connected(10, 10, Direction::Right, Layer::Metal));
    assert!(c.is_connected(11, 10, Direction::Left, Layer::Metal));
    assert!(!c.is_connected(10, 10, Direction::Right, Layer::NSilicon));
    assert!(!c.is_connected(0, 0, Direction::Left, Layer::Metal));
    assert!(!c.is_connected(0, 0, Direction::Up, Layer::Metal));
}

#[test]
fn playable_area_is_columns_four_to_thirty_nine() {
    assert!(!is_playable(3, 0));
    assert!(is_playable(4, 0));
    assert!(is_playable(39, 26));
    assert!(!is_playable(40, 26));
}

fn straight_p_wire(c: &mut Circuit, y: usize, x_from: usize, x_to: usize) {
    let path: Vec<(usize, usize)> = (x_from..=x_to).map(|x| (x, y)).collect();
    place_silicon_path(c, &path, SiliconKind::P);
}

#[test]
fn perpendicular_crossing_forms_gate() {
    let mut c = Circuit::new();
    straight_p_wire(&mut c, 10, 8, 12);
    // crossing N silicon drawn vertically through the middle cell
    let path = vec![(10, 9), (10, 10), (10, 11)];
    place_silicon_path(&mut c, &path, SiliconKind::N);
    assert_eq!(
        node_at(&c, 10, 10).silicon,
        Silicon::Gate { channel: SiliconKind::P }
    );
    // the crossing arms stay plain N silicon
    assert_eq!(node_at(&c, 10, 9).silicon, Silicon::N);
    assert_eq!(node_at(&c, 10, 11).silicon, Silicon::N);
}

#[test]
fn parallel_placement_overwrites_instead_of_gating() {
    let mut c = Circuit::new();
    straight_p_wire(&mut c, 10, 8, 12);
    // N placed with horizontal movement over a horizontal P wire: no gate
    place_silicon_at(&mut c, 10, 10, SiliconKind::N, false);
    assert_eq!(node_at(&c, 10, 10).silicon, Silicon::N);
}

#[test]
fn drawing_over_a_gate_preserves_it() {
    let mut c = Circuit::new();
    straight_p_wire(&mut c, 10, 8, 12);
    let path = vec![(10, 9), (10, 10), (10, 11)];
    place_silicon_path(&mut c, &path, SiliconKind::N);
    place_silicon_at(&mut c, 10, 10, SiliconKind::P, false);
    place_silicon_at(&mut c, 10, 10, SiliconKind::N, true);
    assert_eq!(
        node_at(&c, 10, 10).silicon,
        Silicon::Gate { channel: SiliconKind::P }
    );
}

#[test]
fn deleting_channel_end_reverts_gate() {
    // a valid gate: horizontal P-type channel, vertical N-type crossing
    let mut c = Circuit::new();
    straight_p_wire(&mut c, 10, 9, 11);
    let path = vec![(10, 9), (10, 10), (10, 11)];
    place_silicon_path(&mut c, &path, SiliconKind::N);
    assert_eq!(
        node_at(&c, 10, 10).silicon,
        Silicon::Gate { channel: SiliconKind::P }
    );
    // deleting one end of the channel breaks the through connection
    delete_silicon(&mut c, 9, 10);
    assert_eq!(node_at(&c, 10, 10).silicon, Silicon::P);
    // the crossing N silicon is preserved
    assert_eq!(node_at(&c, 10, 9).silicon, Silicon::N);
    assert_eq!(node_at(&c, 10, 11).silicon, Silicon::N);
    assert!(c.is_connected(10, 10, Direction::Up, Layer::NSilicon));
    assert!(c.is_connected(10, 10, Direction::Down, Layer::NSilicon));
}

#[test]
fn validate_gate_keeps_a_valid_gate() {
    let mut c = Circuit::new();
    straight_p_wire(&mut c, 10, 9, 11);
    let path = vec![(10, 9), (10, 10), (10, 11)];
    place_silicon_path(&mut c, &path, SiliconKind::N);
    validate_gate(&mut c, 10, 10);
    assert_eq!(
        node_at(&c, 10, 10).silicon,
        Silicon::Gate { channel: SiliconKind::P }
    );
}

#[test]
fn vias_need_silicon_and_carry_metal() {
    let mut c = Circuit::new();
    assert!(!place_via(&mut c, 10, 10));
    place_silicon_at(&mut c, 10, 10, SiliconKind::N, false);
    assert!(place_via(&mut c, 10, 10));
    let n = node_at(&c, 10, 10);
    assert!(n.via && n.metal);
    delete_via(&mut c, 10, 10);
    assert!(!node_at(&c, 10, 10).via);
    // the metal stays after the via is gone
    assert!(node_at(&c, 10, 10).metal);
}

#[test]
fn delete_metal_spares_metal_under_via() {
    let mut c = Circuit::new();
    place_silicon_at(&mut c, 10, 10, SiliconKind::N, false);
    place_via(&mut c, 10, 10);
    delete_metal(&mut c, 10, 10);
    assert!(node_at(&c, 10, 10).metal);
    let path = vec![(12, 10), (13, 10)];
    place_metal_path(&mut c, &path);
    assert!(c.is_connected(12, 10, Direction::Right, Layer::Metal));
    delete_metal(&mut c, 12, 10);
    assert!(!node_at(&c, 12, 10).metal);
    assert!(!c.is_connected(12, 10, Direction::Right, Layer::Metal));
}

#[test]
fn delete_all_clears_everything_in_region() {
    let mut c = Circuit::new();
    straight_p_wire(&mut c, 10, 8, 12);
    place_via(&mut c, 10, 10);
    let path = vec![(8, 10), (9, 10), (10, 10)];
    place_metal_path(&mut c, &path);
    delete_all(&mut c, 10, 10);
    let n = node_at(&c, 10, 10);
    assert!(matches!(n.silicon, Silicon::Empty));
    assert!(!n.metal && !n.via);
    delete_region(&mut c, 8, 10, 12, 10);
    for x in 8..=12 {
        let n = node_at(&c, x, 10);
        assert!(matches!(n.silicon, Silicon::Empty));
        assert!(!n.metal && !n.via);
    }
}

#[test]
fn straight_wire_detection_requires_one_axis() {
    let mut c = Circuit::new();
    straight_p_wire(&mut c, 10, 8, 12);
    assert_eq!(
        get_straight_silicon(&c, 10, 10),
        Some((true, SiliconKind::P))
    );
    // an endpoint is not a through wire
    assert_eq!(get_straight_silicon(&c, 8, 10), None);
    // adding a vertical arm spoils straightness
    c.set_edge(10, 10, 10, 11, Layer::PSilicon, true);
    assert_eq!(get_straight_silicon(&c, 10, 10), None);
}

#[test]
fn yank_rotate_paste_round_trip() {
    let mut c = Circuit::new();
    straight_p_wire(&mut c, 10, 8, 10);
    place_via(&mut c, 9, 10);
    let snip = yank_region(&c, 8, 10, 10, 11, String::from("strip"));
    assert_eq!(snip.width, 3);
    assert_eq!(snip.height, 2);
    assert_eq!(snip.nodes[0][1].silicon, Silicon::P);
    assert!(snip.nodes[0][1].via);
    assert!(snip.h_edges[0][0].p_silicon);

    let rot = rotate_snippet(&snip);
    assert_eq!(rot.width, 2);
    assert_eq!(rot.height, 3);
    // the cell at (1, 0) of the source region lands at (height-1-0, 1) = (1, 1)
    assert_eq!(rot.nodes[1][1].silicon, Silicon::P);
    // the horizontal edge becomes a vertical one
    assert!(rot.v_edges[0][1].p_silicon);

    let mut c2 = Circuit::new();
    paste_snippet(&mut c2, &snip, 20, 5);
    assert_eq!(node_at(&c2, 21, 5).silicon, Silicon::P);
    assert!(node_at(&c2, 21, 5).via);
    assert!(c2.get_edge(20, 5, 21, 5).unwrap().p_silicon);
}

#[test]
fn yank_entire_circuit_spans_grid() {
    let mut c = Circuit::new();
    place_silicon_at(&mut c, 4, 0, SiliconKind::N, false);
    let snip = yank_entire_circuit(&c, String::from("whole"));
    assert_eq!(snip.width, 44);
    assert_eq!(snip.height, 27);
    assert_eq!(snip.nodes[0][4].silicon, Silicon::N);
}

#[test]
fn loading_a_design_replaces_the_board() {
    let pins = create_pins();
    let mut c = Circuit::new();
    setup_pins(&mut c, &pins);
    straight_p_wire(&mut c, 10, 8, 12);
    let design = yank_entire_circuit(&c, String::from("board"));
    let mut c2 = Circuit::new();
    // stale material that the load must clear
    place_silicon_at(&mut c2, 20, 20, SiliconKind::N, false);
    load_design_to_circuit(&mut c2, &design, &pins);
    assert_eq!(node_at(&c2, 10, 10).silicon, Silicon::P);
    assert!(matches!(node_at(&c2, 20, 20).silicon, Silicon::Empty));
    // the pins get their metal back
    assert!(node_at(&c2, 1, 2).metal);
    assert!(c2.get_edge(1, 2, 2, 2).unwrap().metal);
}
