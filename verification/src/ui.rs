//! The editor's pure selection logic: edit modes, tab and music-track
//! cycling, panel hit-testing, completion tracking, and cursor motion
//! towards the next material.  Everything here is plain data in and plain
//! data out; drawing and input devices stay outside.

use vstd::prelude::*;

use crate::circuit::{in_grid, Circuit, Direction, Layer, Node, Silicon, GRID_HEIGHT, GRID_WIDTH};

verus! {

/// Pixel size of one grid cell.
pub const CELL_SIZE: usize = 16;

/// Pixel width of the grid area.
pub const GRID_PIXEL_WIDTH: usize = GRID_WIDTH * CELL_SIZE;

/// Pixel height of the grid area.
pub const GRID_PIXEL_HEIGHT: usize = GRID_HEIGHT * CELL_SIZE;

/// Pixel width of the button panel on the right.
pub const PANEL_WIDTH: usize = 80;

/// Pixel height of one panel button.
pub const BUTTON_HEIGHT: usize = 44;

/// Pixel margin around panel buttons.
pub const BUTTON_MARGIN: usize = 4;

/// Pixel height of the help strip under the grid.
pub const HELP_AREA_HEIGHT: usize = 20;

/// Pixel height of the tab bar.
pub const TAB_HEIGHT: usize = 24;

/// Pixel width of the whole window.
pub const WINDOW_WIDTH: usize = GRID_PIXEL_WIDTH + PANEL_WIDTH;

/// Edit modes for construction.
#[derive(Clone, Copy, Debug, PartialEq, Eq, Structural)]
pub enum EditMode {
    NSilicon,
    PSilicon,
    Metal,
    Via,
    DeleteMetal,
    DeleteSilicon,
    DeleteAll,
    Visual,
    MouseSelect,
}

/// Pending prefix modifier for visual-mode commands.
#[derive(Clone, Copy, Debug, PartialEq, Eq, Structural)]
pub enum PendingModifier {
    Bare,
    Silicon,
    Metal,
    Goto,
}

/// The bottom tabs.
#[derive(Clone, Copy, Debug, PartialEq, Eq, Structural)]
pub enum Tab {
    Specifications,
    Verification,
    DesignSnippets,
    Designs,
    Help,
    Menu,
}

/// Music track selection.
#[derive(Clone, Copy, Debug, PartialEq, Eq, Structural)]
pub enum MusicTrack {
    Off,
    AnalogSequence,
    GroovyBeat,
    RetroLoop,
}

impl MusicTrack {
    /// The file a track plays from; silence has none.
    pub fn filename(&self) -> (r: Option<&'static str>)
        ensures
            self is Off ==> r is None,
            self is AnalogSequence ==> (r matches Some(s) && s@ == "music/analog_sequence.wav"@),
            self is GroovyBeat ==> (r matches Some(s) && s@ == "music/groovy_beat.wav"@),
            self is RetroLoop ==> (r matches Some(s) && s@ == "music/retro_loop.wav"@),
    {
        match self {
            MusicTrack::Off => None,
            MusicTrack::AnalogSequence => Some("music/analog_sequence.wav"),
            MusicTrack::GroovyBeat => Some("music/groovy_beat.wav"),
            MusicTrack::RetroLoop => Some("music/retro_loop.wav"),
        }
    }

    /// The track's menu caption.
    pub fn display_name(&self) -> (r: &'static str)
        ensures
            self is Off ==> r@ == "No Music"@,
            self is AnalogSequence ==> r@ == "Analog Sequence"@,
            self is GroovyBeat ==> r@ == "Groovy Beat"@,
            self is RetroLoop ==> r@ == "Retro Loop"@,
    {
        match self {
            MusicTrack::Off => "No Music",
            MusicTrack::AnalogSequence => "Analog Sequence",
            MusicTrack::GroovyBeat => "Groovy Beat",
            MusicTrack::RetroLoop => "Retro Loop",
        }
    }

    /// The following track in menu order; the last track stays put.
    pub fn next(&self) -> (r: MusicTrack)
        ensures
            r == (match self {
                MusicTrack::Off => MusicTrack::AnalogSequence,
                MusicTrack::AnalogSequence => MusicTrack::GroovyBeat,
                MusicTrack::GroovyBeat => MusicTrack::RetroLoop,
                MusicTrack::RetroLoop => MusicTrack::RetroLoop,
            }),
    {
        match self {
            MusicTrack::Off => MusicTrack::AnalogSequence,
            MusicTrack::AnalogSequence => MusicTrack::GroovyBeat,
            MusicTrack::GroovyBeat => MusicTrack::RetroLoop,
            MusicTrack::RetroLoop => MusicTrack::RetroLoop,
        }
    }

    /// The preceding track in menu order; the first entry stays put.
    pub fn prev(&self) -> (r: MusicTrack)
        ensures
            r == (match self {
                MusicTrack::Off => MusicTrack::Off,
                MusicTrack::AnalogSequence => MusicTrack::Off,
                MusicTrack::GroovyBeat => MusicTrack::AnalogSequence,
                MusicTrack::RetroLoop => MusicTrack::GroovyBeat,
            }),
    {
        match self {
            MusicTrack::Off => MusicTrack::Off,
            MusicTrack::AnalogSequence => MusicTrack::Off,
            MusicTrack::GroovyBeat => MusicTrack::AnalogSequence,
            MusicTrack::RetroLoop => MusicTrack::GroovyBeat,
        }
    }
}

/// Get the previous tab in order.
pub fn prev_tab(tab: Tab) -> (r: Tab)
    ensures
        r == (match tab {
            Tab::Specifications => Tab::Menu,
            Tab::Verification => Tab::Specifications,
            Tab::DesignSnippets => Tab::Verification,
            Tab::Designs => Tab::DesignSnippets,
            Tab::Help => Tab::Designs,
            Tab::Menu => Tab::Help,
        }),
{
    match tab {
        Tab::Specifications => Tab::Menu,
        Tab::Verification => Tab::Specifications,
        Tab::DesignSnippets => Tab::Verification,
        Tab::Designs => Tab::DesignSnippets,
        Tab::Help => Tab::Designs,
        Tab::Menu => Tab::Help,
    }
}

/// Get the next tab in order.
pub fn next_tab(tab: Tab) -> (r: Tab)
    ensures
        r == (match tab {
            Tab::Specifications => Tab::Verification,
            Tab::Verification => Tab::DesignSnippets,
            Tab::DesignSnippets => Tab::Designs,
            Tab::Designs => Tab::Help,
            Tab::Help => Tab::Menu,
            Tab::Menu => Tab::Specifications,
        }),
{
    match tab {
        Tab::Specifications => Tab::Verification,
        Tab::Verification => Tab::DesignSnippets,
        Tab::DesignSnippets => Tab::Designs,
        Tab::Designs => Tab::Help,
        Tab::Help => Tab::Menu,
        Tab::Menu => Tab::Specifications,
    }
}

/// Progress tracking: the names of the completed levels.
pub struct SaveData {
    pub completed_levels: Vec<String>,
    pub achievements: Vec<String>,
}

/// Whether a name is among the completed levels.
pub open spec fn spec_level_complete(sd: SaveData, name: Seq<char>) -> bool {
    exists|i: int| 0 <= i < sd.completed_levels@.len() && (#[trigger] sd.completed_levels@[i])@
        == name
}

impl SaveData {
    /// A record with nothing completed.
    pub fn new() -> (r: SaveData)
        ensures
            r.completed_levels@.len() == 0,
            r.achievements@.len() == 0,
    {
        SaveData { completed_levels: Vec::new(), achievements: Vec::new() }
    }

    /// Whether the named level has been completed.
    pub fn is_level_complete(&self, level_name: &str) -> (r: bool)
        ensures
            r == spec_level_complete(*self, level_name@),
    {
        let name = level_name.to_owned();
        let mut i: usize = 0;
        while i < self.completed_levels.len()
            invariant
                i <= self.completed_levels@.len(),
                name@ == level_name@,
                forall|j: int| 0 <= j < i ==> (#[trigger] self.completed_levels@[j])@ != name@,
            decreases self.completed_levels@.len() - i,
        {
            let entry = &self.completed_levels[i];
            if entry.eq(&name) {
                proof {
                    assert(self.completed_levels@[i as int]@ == level_name@);
                }
                return true;
            }
            i = i + 1;
        }
        false
    }

    /// Record the named level as completed, once.
    pub fn mark_level_complete(&mut self, level_name: &str)
        ensures
            final(self).achievements@ == old(self).achievements@,
            spec_level_complete(*old(self), level_name@) ==> final(self).completed_levels@ == old(
                self,
            ).completed_levels@,
            !spec_level_complete(*old(self), level_name@) ==> {
                &&& final(self).completed_levels@.len() == old(self).completed_levels@.len() + 1
                &&& forall|i: int|
                    0 <= i < old(self).completed_levels@.len() ==> final(self).completed_levels@[i]
                        == old(self).completed_levels@[i]
                &&& final(self).completed_levels@.last()@ == level_name@
            },
    {
        if !self.is_level_complete(level_name) {
            self.completed_levels.push(level_name.to_owned());
        }
    }
}

/// The material filter of a cursor search.
pub open spec fn spec_material_match(node: Node, modifier: PendingModifier) -> bool {
    match modifier {
        PendingModifier::Bare => !(node.silicon is Empty) || node.metal,
        PendingModifier::Silicon => !(node.silicon is Empty),
        PendingModifier::Metal => node.metal,
        PendingModifier::Goto => false,
    }
}

/// Whether the search finds material at `(x, y)`.
pub open spec fn spec_found_material(
    c: Circuit,
    x: int,
    y: int,
    modifier: PendingModifier,
) -> bool {
    in_grid(x, y) && spec_material_match(c.node_at(x, y), modifier)
}

/// The column of the nearest material to the right of `start_x` in row
/// `y`, under the modifier's filter; the last column when none is found.
pub fn find_material_right(
    circuit: &Circuit,
    start_x: usize,
    y: usize,
    modifier: PendingModifier,
) -> (r: usize)
    requires
        circuit.wf(),
        start_x < GRID_WIDTH,
    ensures
        r < GRID_WIDTH,
        start_x < r || r == GRID_WIDTH - 1,
        forall|x2: int|
            start_x < x2 < r ==> !spec_found_material(*circuit, x2, y as int, modifier),
        spec_found_material(*circuit, r as int, y as int, modifier) || r == GRID_WIDTH - 1,
{
    let mut x = start_x + 1;
    while x < GRID_WIDTH
        invariant
            circuit.wf(),
            start_x < x,
            forall|x2: int|
                start_x < x2 < x ==> !spec_found_material(*circuit, x2, y as int, modifier),
        decreases GRID_WIDTH - x,
    {
        if let Some(node) = circuit.get_node(x, y) {
            let has_target = match modifier {
                PendingModifier::Bare => !matches!(node.silicon, Silicon::Empty) || node.metal,
                PendingModifier::Silicon => !matches!(node.silicon, Silicon::Empty),
                PendingModifier::Metal => node.metal,
                PendingModifier::Goto => false,
            };
            if has_target {
                return x;
            }
        }
        x = x + 1;
    }
    GRID_WIDTH - 1
}

/// The four connection flags of one cell on one layer, in the order up,
/// down, left, right.
pub fn get_layer_connections(circuit: &Circuit, x: usize, y: usize, layer: Layer) -> (r: [bool; 4])
    requires
        circuit.wf(),
    ensures
        r@[0] == circuit.spec_connected(x as int, y as int, Direction::Up, layer),
        r@[1] == circuit.spec_connected(x as int, y as int, Direction::Down, layer),
        r@[2] == circuit.spec_connected(x as int, y as int, Direction::Left, layer),
        r@[3] == circuit.spec_connected(x as int, y as int, Direction::Right, layer),
{
    [
        circuit.is_connected(x, y, Direction::Up, layer),
        circuit.is_connected(x, y, Direction::Down, layer),
        circuit.is_connected(x, y, Direction::Left, layer),
        circuit.is_connected(x, y, Direction::Right, layer),
    ]
}

/// Which bottom tab a pixel click lands on, if any.
pub fn get_clicked_tab(mx: usize, my: usize) -> (r: Option<Tab>)
    ensures
        r == spec_clicked_tab(mx as int, my as int),
{
    let tab_y = GRID_PIXEL_HEIGHT + HELP_AREA_HEIGHT;
    let content_y = tab_y + TAB_HEIGHT;
    if my < tab_y || my >= content_y {
        return None;
    }
    let tab_width = WINDOW_WIDTH / 6;
    let tab_index = mx / tab_width;
    match tab_index {
        0 => Some(Tab::Specifications),
        1 => Some(Tab::Verification),
        2 => Some(Tab::DesignSnippets),
        3 => Some(Tab::Designs),
        4 => Some(Tab::Help),
        5 => Some(Tab::Menu),
        _ => None,
    }
}

/// The tab under a pixel position: the tab bar sits under the grid and the
/// help strip, split into six equal columns.
pub open spec fn spec_clicked_tab(mx: int, my: int) -> Option<Tab> {
    let tab_y = GRID_PIXEL_HEIGHT + HELP_AREA_HEIGHT;
    if !(tab_y <= my < tab_y + TAB_HEIGHT) {
        None
    } else {
        let idx = mx / ((WINDOW_WIDTH / 6) as int);
        if idx == 0 {
            Some(Tab::Specifications)
        } else if idx == 1 {
            Some(Tab::Verification)
        } else if idx == 2 {
            Some(Tab::DesignSnippets)
        } else if idx == 3 {
            Some(Tab::Designs)
        } else if idx == 4 {
            Some(Tab::Help)
        } else if idx == 5 {
            Some(Tab::Menu)
        } else {
            None
        }
    }
}

/// The music button under a pixel position in the menu tab: four buttons
/// in one column, 28 pixels tall with a 6 pixel gap.
pub open spec fn spec_clicked_music_button(mx: int, my: int) -> Option<MusicTrack> {
    let content_y = GRID_PIXEL_HEIGHT + HELP_AREA_HEIGHT + TAB_HEIGHT;
    if !(10 <= mx < 190) {
        None
    } else if content_y + 32 <= my < content_y + 32 + 28 {
        Some(MusicTrack::Off)
    } else if content_y + 32 + 34 <= my < content_y + 32 + 34 + 28 {
        Some(MusicTrack::AnalogSequence)
    } else if content_y + 32 + 68 <= my < content_y + 32 + 68 + 28 {
        Some(MusicTrack::GroovyBeat)
    } else if content_y + 32 + 102 <= my < content_y + 32 + 102 + 28 {
        Some(MusicTrack::RetroLoop)
    } else {
        None
    }
}

/// Which music button a pixel click lands on, if any.
pub fn get_clicked_music_button(mx: usize, my: usize) -> (r: Option<MusicTrack>)
    ensures
        r == spec_clicked_music_button(mx as int, my as int),
{
    let content_y = GRID_PIXEL_HEIGHT + HELP_AREA_HEIGHT + TAB_HEIGHT;
    let btn_x: usize = 10;
    let btn_w: usize = 180;
    let btn_h: usize = 28;
    if mx < btn_x || mx >= btn_x + btn_w {
        return None;
    }
    if my >= content_y + 32 && my < content_y + 32 + btn_h {
        Some(MusicTrack::Off)
    } else if my >= content_y + 32 + 34 && my < content_y + 32 + 34 + btn_h {
        Some(MusicTrack::AnalogSequence)
    } else if my >= content_y + 32 + 68 && my < content_y + 32 + 68 + btn_h {
        Some(MusicTrack::GroovyBeat)
    } else if my >= content_y + 32 + 102 && my < content_y + 32 + 102 + btn_h {
        Some(MusicTrack::RetroLoop)
    } else {
        None
    }
}

/// The panel button under a pixel position: nine mode buttons in one
/// column on the right panel.
pub open spec fn spec_clicked_button(mx: int, my: int) -> Option<EditMode> {
    let btn_x = GRID_PIXEL_WIDTH + BUTTON_MARGIN;
    let btn_w = PANEL_WIDTH - 2 * BUTTON_MARGIN;
    if !(btn_x <= mx < btn_x + btn_w) {
        None
    } else if BUTTON_MARGIN <= my < BUTTON_MARGIN + BUTTON_HEIGHT {
        Some(EditMode::NSilicon)
    } else if BUTTON_MARGIN + 48 <= my < BUTTON_MARGIN + 48 + BUTTON_HEIGHT {
        Some(EditMode::PSilicon)
    } else if BUTTON_MARGIN + 96 <= my < BUTTON_MARGIN + 96 + BUTTON_HEIGHT {
        Some(EditMode::Metal)
    } else if BUTTON_MARGIN + 144 <= my < BUTTON_MARGIN + 144 + BUTTON_HEIGHT {
        Some(EditMode::Via)
    } else if BUTTON_MARGIN + 192 <= my < BUTTON_MARGIN + 192 + BUTTON_HEIGHT {
        Some(EditMode::DeleteMetal)
    } else if BUTTON_MARGIN + 240 <= my < BUTTON_MARGIN + 240 + BUTTON_HEIGHT {
        Some(EditMode::DeleteSilicon)
    } else if BUTTON_MARGIN + 288 <= my < BUTTON_MARGIN + 288 + BUTTON_HEIGHT {
        Some(EditMode::DeleteAll)
    } else if BUTTON_MARGIN + 336 <= my < BUTTON_MARGIN + 336 + BUTTON_HEIGHT {
        Some(EditMode::Visual)
    } else if BUTTON_MARGIN + 384 <= my < BUTTON_MARGIN + 384 + BUTTON_HEIGHT {
        Some(EditMode::MouseSelect)
    } else {
        None
    }
}

/// Which panel mode button a pixel click lands on, if any.
pub fn get_clicked_button(mx: usize, my: usize) -> (r: Option<EditMode>)
    ensures
        r == spec_clicked_button(mx as int, my as int),
{
    let panel_x = GRID_PIXEL_WIDTH;
    let btn_x = panel_x + BUTTON_MARGIN;
    let btn_w = PANEL_WIDTH - BUTTON_MARGIN * 2;
    if mx < btn_x || mx >= btn_x + btn_w {
        return None;
    }
    if my >= BUTTON_MARGIN && my < BUTTON_MARGIN + BUTTON_HEIGHT {
        Some(EditMode::NSilicon)
    } else if my >= BUTTON_MARGIN + 48 && my < BUTTON_MARGIN + 48 + BUTTON_HEIGHT {
        Some(EditMode::PSilicon)
    } else if my >= BUTTON_MARGIN + 96 && my < BUTTON_MARGIN + 96 + BUTTON_HEIGHT {
        Some(EditMode::Metal)
    } else if my >= BUTTON_MARGIN + 144 && my < BUTTON_MARGIN + 144 + BUTTON_HEIGHT {
        Some(EditMode::Via)
    } else if my >= BUTTON_MARGIN + 192 && my < BUTTON_MARGIN + 192 + BUTTON_HEIGHT {
        Some(EditMode::DeleteMetal)
    } else if my >= BUTTON_MARGIN + 240 && my < BUTTON_MARGIN + 240 + BUTTON_HEIGHT {
        Some(EditMode::DeleteSilicon)
    } else if my >= BUTTON_MARGIN + 288 && my < BUTTON_MARGIN + 288 + BUTTON_HEIGHT {
        Some(EditMode::DeleteAll)
    } else if my >= BUTTON_MARGIN + 336 && my < BUTTON_MARGIN + 336 + BUTTON_HEIGHT {
        Some(EditMode::Visual)
    } else if my >= BUTTON_MARGIN + 384 && my < BUTTON_MARGIN + 384 + BUTTON_HEIGHT {
        Some(EditMode::MouseSelect)
    } else {
        None
    }
}

} // verus!
