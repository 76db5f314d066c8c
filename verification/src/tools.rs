//! The tools that are offered.

use crate::args::ArgsView;
use crate::plan;
use vstd::prelude::*;

verus! {

pub const MOVE_NORTH_ABOUT: &'static str = "Move Cogmind north (numpad 8)";

pub const MOVE_NORTHEAST_ABOUT: &'static str = "Move Cogmind northeast (numpad 9)";

pub const MOVE_EAST_ABOUT: &'static str = "Move Cogmind east (numpad 6)";

pub const MOVE_SOUTHEAST_ABOUT: &'static str = "Move Cogmind southeast (numpad 3)";

pub const MOVE_SOUTH_ABOUT: &'static str = "Move Cogmind south (numpad 2)";

pub const MOVE_SOUTHWEST_ABOUT: &'static str = "Move Cogmind southwest (numpad 1)";

pub const MOVE_WEST_ABOUT: &'static str = "Move Cogmind west (numpad 4)";

pub const MOVE_NORTHWEST_ABOUT: &'static str = "Move Cogmind northwest (numpad 7)";

pub const ATTACH_ABOUT: &'static str = "Attach/equip from the ground (a)";

pub const FIRE_ABOUT: &'static str = "Fire (f). Needs targeting to be useful.";

pub const KEY_ABOUT: &'static str = "Send one keystroke: any SDLK_* keysym with optional modifiers,                                 unicode and repeat. Use the keysym values from actions.json.";

pub const TEXT_ABOUT: &'static str = "Type a string as keystrokes, with correct unicode. For hacking                                 codes and other text fields. Max 64 bytes.";

pub const MOUSE_MOVE_ABOUT: &'static str = "Warp the cursor to a pixel position (for cursor-driven targeting).";

pub const MOUSE_CLICK_ABOUT: &'static str = "Warp the cursor and click. button 1=left 2=middle 3=right.";

pub const GET_GAME_STATE_ABOUT: &'static str = "LuigiAI state: player, inventory, cursor, hacking. Note that the                                 tile list is empty on Beta 17.1 -- the per-tile mirror is stubbed                                 out in that build. Use get_map for terrain.";

pub const LUIGI_RAW_ABOUT: &'static str = "Every LuigiAi field, raw. Use this when get_game_state errors -- it                                 shows whether the struct is live but empty (no map loaded) versus                                 genuinely broken.";

pub const BLIT_STATUS_ABOUT: &'static str = "Header of the SDL blit sniffer: whether recording is on, frame                                 counter, rect count, overflow. Locates the log by magic scan on                                 first use.";

pub const BLIT_ENABLE_ABOUT: &'static str = "Turn blit recording on or off. Off by default so it costs nothing.";

pub const BLIT_VIEW_ABOUT: &'static str = "The map view's top-left cell in game coordinates. Needed to convert                                 screen cells to game cells, and it changes as the view pans.";

pub const BLIT_SCREEN_ABOUT: &'static str = "The accumulated draws converted into game coordinates: which map                                 cells the game redrew since the last blit_clear, plus a count of                                 draws that fell outside the map (HUD).";

pub const BLIT_CLEAR_ABOUT: &'static str = "Start a fresh capture: resets the accumulated draw list. Beta 17.1                                 dirty-rects rather than recompositing, so the pattern is clear, act,                                 wait for the redraw, then read.";

pub const BLIT_FRAME_ABOUT: &'static str = "The blit rects of the last composed frame: destination on screen,                                 source within the atlas (which identifies the glyph) or the fill                                 colour. Accumulated since the last blit_clear, so it is everything                                 drawn in that window -- i.e. everything that changed on screen.";

pub const STAT_DUMP_ABOUT: &'static str = "Make Cogmind serialise the run in progress: calls its own Scorekeeper::outputScoresheet(isDump=1) on the game's main thread, the same writer Alt-Shift-S drives. Writes ~32KB of text (plus JSON with jsonStatDump=1) to the profile's dumps/ directory: part loadouts by slot and name, resource maxima, per-map stats, discovered exits, and the known map as text. Does not append to scorehistory.txt and does not advance a turn, so it is safe to call mid-run and cannot look like a completed run. Works with a menu open, unlike the keybind.";

pub const DUMP_STATUS_ABOUT: &'static str = "Whether the scoresheet writer was resolved and fingerprinted, its address and the Scorekeeper singleton, plus the outcome of the last dump. Check this first if stat_dump errors.";

pub const PLAYER_ABOUT: &'static str = "Cogmind's handle, position and entity id, from the fixed-address                                 player record. Use this instead of LuigiAi.player, which stays                                 NULL on Beta 17.1.";

pub const FIND_STATS_ABOUT: &'static str = "Locate Cogmind's stat block (integrity/energy/matter/heat/corruption)                                 by scanning for matter and confirming integrity. The block is on the                                 heap so its address changes per map; give the two HUD values, both of                                 which carry across maps.";

pub const STATS_ABOUT: &'static str = "Read the stat block at a known base (from find_stats).";

pub const MAP_HEADER_ABOUT: &'static str = "Map dimensions and the Cell* table base, read from the game's own                                 map object. Cheap; works whenever a map is loaded.";

pub const GET_MAP_ABOUT: &'static str = "Read Cogmind's own cell table directly (terrain, doors, and where                                 props/entities are). Complete regardless of field of view. Pass a                                 bounding box to keep the read small; a full map is tens of                                 thousands of reads.";

pub const SCAN_NEW_ABOUT: &'static str = "Start a differential memory scan: find every writable 4-byte-aligned                                 i32 equal to `value`. Candidates are kept server-side.";

pub const SCAN_FILTER_ABOUT: &'static str = "Narrow the stored candidates to those now equal to `value`. Run after                                 the value changed in-game.";

pub const SCAN_CHANGED_ABOUT: &'static str = "Narrow the stored candidates to those that no longer hold `old`, and                                 report what they hold now. For when the new value is unknown.";

pub const SCAN_PTR_TO_ABOUT: &'static str = "Find 4-byte-aligned words holding a value inside [lo, hi]. For                                 pointer chaining: an exact pointer scan usually finds nothing                                 because pointers target an object's start, not the field you care                                 about. Highlights references that live at low/static addresses.";

pub const SCAN_CONTEXT_ABOUT: &'static str = "Narrow the stored candidates to those with ALL of `values` present                                 as i32s within `window` bytes. For narrowing on values you cannot                                 change on demand, by requiring related fields to co-occur.";

pub const READ_WINDOW_ABOUT: &'static str = "Read consecutive i32s at an address, to inspect a candidate's                                 neighbouring fields.";

pub const FOV_ABOUT: &'static str = "Read the field-of-view containers. Visibility is not stored per                                 cell; isVisible() queries a coordinate vector on a global object.                                 Returns the visible coordinate list plus the two adjacent                                 containers. `limit` caps how many coords come back.";

pub const PROBE_CELL_ABOUT: &'static str = "Dump one cell's raw bytes plus the decoded fields. Calibration                                 tool: the decoded x/y must match the requested x/y, otherwise the                                 Cell offsets are wrong for this build.";

/// What an argument can be.
#[derive(Debug, Clone, Copy, PartialEq, Eq, Structural)]
pub enum Kind {
    Any,
    Integer,
    Boolean,
    Text,
    /// An array of integers.
    Integers,
}

/// An argument that a tool takes.
#[derive(Debug)]
pub struct Param {
    pub name: &'static str,
    pub kind: Kind,
    pub about: Option<&'static str>,
}

/// An argument that a tool takes, as contracts speak of it.
pub struct ParamView {
    pub name: Seq<char>,
    pub kind: Kind,
    pub about: Option<Seq<char>>,
}

impl View for Param {
    type V = ParamView;

    open spec fn view(&self) -> ParamView {
        ParamView {
            name: self.name@,
            kind: self.kind,
            about: match self.about {
                Some(s) => Some(s@),
                None => None,
            },
        }
    }
}

/// A tool that is offered.
#[derive(Debug)]
pub struct Tool {
    pub name: &'static str,
    pub about: &'static str,
    pub params: Vec<Param>,
    /// The arguments that cannot be left out.
    pub required: Vec<&'static str>,
}

/// A tool that is offered, as contracts speak of it.
pub struct ToolView {
    pub name: Seq<char>,
    pub about: Seq<char>,
    pub params: Seq<ParamView>,
    pub required: Seq<Seq<char>>,
}

impl View for Tool {
    type V = ToolView;

    open spec fn view(&self) -> ToolView {
        ToolView {
            name: self.name@,
            about: self.about@,
            params: self.params@.map_values(|p: Param| p@),
            required: self.required@.map_values(|s: &'static str| s@),
        }
    }
}

/// An argument without a description.
pub open spec fn takes(name: Seq<char>, kind: Kind) -> ParamView {
    ParamView { name, kind, about: None }
}

/// An argument with a description.
pub open spec fn takes_described(name: Seq<char>, kind: Kind, about: Seq<char>) -> ParamView {
    ParamView { name, kind, about: Some(about) }
}

/// A tool without arguments.
pub open spec fn bare(name: Seq<char>, about: Seq<char>) -> ToolView {
    ToolView { name, about, params: seq![], required: seq![] }
}

/// A tool with arguments.
pub open spec fn with(
    name: Seq<char>,
    about: Seq<char>,
    params: Seq<ParamView>,
    required: Seq<Seq<char>>,
) -> ToolView {
    ToolView { name, about, params, required }
}

/// The tools that are offered, in this order.
pub open spec fn tool_list() -> Seq<ToolView> {
    seq![
        bare("move_north"@, MOVE_NORTH_ABOUT@),
        bare("move_northeast"@, MOVE_NORTHEAST_ABOUT@),
        bare("move_east"@, MOVE_EAST_ABOUT@),
        bare("move_southeast"@, MOVE_SOUTHEAST_ABOUT@),
        bare("move_south"@, MOVE_SOUTH_ABOUT@),
        bare("move_southwest"@, MOVE_SOUTHWEST_ABOUT@),
        bare("move_west"@, MOVE_WEST_ABOUT@),
        bare("move_northwest"@, MOVE_NORTHWEST_ABOUT@),
        bare("attach"@, ATTACH_ABOUT@),
        bare("fire"@, FIRE_ABOUT@),
        with(
            "key"@,
            KEY_ABOUT@,
            seq![
                takes_described("keysym"@, Kind::Integer, "SDLK_* value, 1..65535"@),
                takes("ctrl"@, Kind::Boolean),
                takes("shift"@, Kind::Boolean),
                takes("alt"@, Kind::Boolean),
                takes_described("unicode"@, Kind::Integer, "SDL_keysym.unicode; needed for text fields"@),
                takes_described("repeat"@, Kind::Integer, "1..255, default 1"@),
            ],
            seq!["keysym"@],
        ),
        with(
            "text"@,
            TEXT_ABOUT@,
            seq![
                takes("text"@, Kind::Text),
            ],
            seq!["text"@],
        ),
        with(
            "mouse_move"@,
            MOUSE_MOVE_ABOUT@,
            seq![
                takes("x"@, Kind::Integer),
                takes("y"@, Kind::Integer),
            ],
            seq!["x"@, "y"@],
        ),
        with(
            "mouse_click"@,
            MOUSE_CLICK_ABOUT@,
            seq![
                takes("x"@, Kind::Integer),
                takes("y"@, Kind::Integer),
                takes("button"@, Kind::Integer),
            ],
            seq!["x"@, "y"@],
        ),
        bare("get_game_state"@, GET_GAME_STATE_ABOUT@),
        bare("luigi_raw"@, LUIGI_RAW_ABOUT@),
        bare("blit_status"@, BLIT_STATUS_ABOUT@),
        with(
            "blit_enable"@,
            BLIT_ENABLE_ABOUT@,
            seq![
                takes("on"@, Kind::Boolean),
            ],
            seq![],
        ),
        bare("blit_view"@, BLIT_VIEW_ABOUT@),
        bare("blit_screen"@, BLIT_SCREEN_ABOUT@),
        bare("blit_clear"@, BLIT_CLEAR_ABOUT@),
        with(
            "blit_frame"@,
            BLIT_FRAME_ABOUT@,
            seq![
                takes("limit"@, Kind::Integer),
            ],
            seq![],
        ),
        with(
            "stat_dump"@,
            STAT_DUMP_ABOUT@,
            seq![
                takes("budget_ms"@, Kind::Integer),
            ],
            seq![],
        ),
        bare("dump_status"@, DUMP_STATUS_ABOUT@),
        bare("player"@, PLAYER_ABOUT@),
        with(
            "find_stats"@,
            FIND_STATS_ABOUT@,
            seq![
                takes("integrity"@, Kind::Integer),
                takes("matter"@, Kind::Integer),
            ],
            seq!["integrity"@, "matter"@],
        ),
        with(
            "stats"@,
            STATS_ABOUT@,
            seq![
                takes("base"@, Kind::Any),
            ],
            seq!["base"@],
        ),
        bare("map_header"@, MAP_HEADER_ABOUT@),
        with(
            "get_map"@,
            GET_MAP_ABOUT@,
            seq![
                takes("x0"@, Kind::Integer),
                takes("y0"@, Kind::Integer),
                takes("x1"@, Kind::Integer),
                takes("y1"@, Kind::Integer),
            ],
            seq![],
        ),
        with(
            "scan_new"@,
            SCAN_NEW_ABOUT@,
            seq![
                takes("value"@, Kind::Integer),
            ],
            seq!["value"@],
        ),
        with(
            "scan_filter"@,
            SCAN_FILTER_ABOUT@,
            seq![
                takes("value"@, Kind::Integer),
            ],
            seq!["value"@],
        ),
        with(
            "scan_changed"@,
            SCAN_CHANGED_ABOUT@,
            seq![
                takes("old"@, Kind::Integer),
            ],
            seq!["old"@],
        ),
        with(
            "scan_ptr_to"@,
            SCAN_PTR_TO_ABOUT@,
            seq![
                takes("lo"@, Kind::Any),
                takes("hi"@, Kind::Any),
            ],
            seq!["lo"@, "hi"@],
        ),
        with(
            "scan_context"@,
            SCAN_CONTEXT_ABOUT@,
            seq![
                takes("values"@, Kind::Integers),
                takes("window"@, Kind::Integer),
            ],
            seq!["values"@],
        ),
        with(
            "read_window"@,
            READ_WINDOW_ABOUT@,
            seq![
                takes("addr"@, Kind::Any),
                takes("words"@, Kind::Integer),
            ],
            seq!["addr"@],
        ),
        with(
            "fov"@,
            FOV_ABOUT@,
            seq![
                takes("limit"@, Kind::Integer),
            ],
            seq![],
        ),
        with(
            "probe_cell"@,
            PROBE_CELL_ABOUT@,
            seq![
                takes("x"@, Kind::Integer),
                takes("y"@, Kind::Integer),
            ],
            seq!["x"@, "y"@],
        ),
    ]
}

/// Tools, as contracts speak of them.
pub open spec fn tools_view(v: Seq<Tool>) -> Seq<ToolView> {
    v.map_values(|t: Tool| t@)
}

fn param(name: &'static str, kind: Kind) -> (p: Param)
    ensures
        p@ == takes(name@, kind),
{
    Param { name, kind, about: None }
}

fn described(name: &'static str, kind: Kind, about: &'static str) -> (p: Param)
    ensures
        p@ == takes_described(name@, kind, about@),
{
    Param { name, kind, about: Some(about) }
}

fn offer(out: &mut Vec<Tool>, name: &'static str, about: &'static str)
    ensures
        tools_view(final(out)@) == tools_view(old(out)@).push(bare(name@, about@)),
{
    let t = Tool { name, about, params: Vec::new(), required: Vec::new() };
    assert(t@.params =~= Seq::<ParamView>::empty());
    assert(t@.required =~= Seq::<Seq<char>>::empty());
    out.push(t);
    assert(tools_view(out@) =~= tools_view(old(out)@).push(bare(name@, about@)));
}

fn offer_with(
    out: &mut Vec<Tool>,
    name: &'static str,
    about: &'static str,
    params: Vec<Param>,
    required: Vec<&'static str>,
)
    ensures
        tools_view(final(out)@) == tools_view(old(out)@).push(
            with(
                name@,
                about@,
                params@.map_values(|p: Param| p@),
                required@.map_values(|s: &'static str| s@),
            ),
        ),
{
    let t = Tool { name, about, params, required };
    out.push(t);
    assert(tools_view(out@) =~= tools_view(old(out)@).push(t@));
}

fn offer_moves(out: &mut Vec<Tool>)
    requires
        tools_view(old(out)@) == tool_list().take(0),
    ensures
        tools_view(final(out)@) == tool_list().take(10),
{
    offer(out, "move_north", MOVE_NORTH_ABOUT);
    offer(out, "move_northeast", MOVE_NORTHEAST_ABOUT);
    offer(out, "move_east", MOVE_EAST_ABOUT);
    offer(out, "move_southeast", MOVE_SOUTHEAST_ABOUT);
    offer(out, "move_south", MOVE_SOUTH_ABOUT);
    offer(out, "move_southwest", MOVE_SOUTHWEST_ABOUT);
    offer(out, "move_west", MOVE_WEST_ABOUT);
    offer(out, "move_northwest", MOVE_NORTHWEST_ABOUT);
    offer(out, "attach", ATTACH_ABOUT);
    offer(out, "fire", FIRE_ABOUT);
    assert(tools_view(out@) =~= tool_list().take(10));
}

fn offer_commands(out: &mut Vec<Tool>)
    requires
        tools_view(old(out)@) == tool_list().take(10),
    ensures
        tools_view(final(out)@) == tool_list().take(14),
{
    let params: Vec<Param> = vec![
        described("keysym", Kind::Integer, "SDLK_* value, 1..65535"),
        param("ctrl", Kind::Boolean),
        param("shift", Kind::Boolean),
        param("alt", Kind::Boolean),
        described("unicode", Kind::Integer, "SDL_keysym.unicode; needed for text fields"),
        described("repeat", Kind::Integer, "1..255, default 1"),
    ];
    let required: Vec<&'static str> = vec!["keysym"];
    assert(params@.map_values(|p: Param| p@) =~= seq![
        takes_described("keysym"@, Kind::Integer, "SDLK_* value, 1..65535"@),
        takes("ctrl"@, Kind::Boolean),
        takes("shift"@, Kind::Boolean),
        takes("alt"@, Kind::Boolean),
        takes_described("unicode"@, Kind::Integer, "SDL_keysym.unicode; needed for text fields"@),
        takes_described("repeat"@, Kind::Integer, "1..255, default 1"@),
    ]);
    assert(required@.map_values(|s: &'static str| s@) =~= seq!["keysym"@]);
    offer_with(out, "key", KEY_ABOUT, params, required);
    let params: Vec<Param> = vec![
        param("text", Kind::Text),
    ];
    let required: Vec<&'static str> = vec!["text"];
    assert(params@.map_values(|p: Param| p@) =~= seq![
        takes("text"@, Kind::Text),
    ]);
    assert(required@.map_values(|s: &'static str| s@) =~= seq!["text"@]);
    offer_with(out, "text", TEXT_ABOUT, params, required);
    let params: Vec<Param> = vec![
        param("x", Kind::Integer),
        param("y", Kind::Integer),
    ];
    let required: Vec<&'static str> = vec!["x", "y"];
    assert(params@.map_values(|p: Param| p@) =~= seq![
        takes("x"@, Kind::Integer),
        takes("y"@, Kind::Integer),
    ]);
    assert(required@.map_values(|s: &'static str| s@) =~= seq!["x"@, "y"@]);
    offer_with(out, "mouse_move", MOUSE_MOVE_ABOUT, params, required);
    let params: Vec<Param> = vec![
        param("x", Kind::Integer),
        param("y", Kind::Integer),
        param("button", Kind::Integer),
    ];
    let required: Vec<&'static str> = vec!["x", "y"];
    assert(params@.map_values(|p: Param| p@) =~= seq![
        takes("x"@, Kind::Integer),
        takes("y"@, Kind::Integer),
        takes("button"@, Kind::Integer),
    ]);
    assert(required@.map_values(|s: &'static str| s@) =~= seq!["x"@, "y"@]);
    offer_with(out, "mouse_click", MOUSE_CLICK_ABOUT, params, required);
    assert(tools_view(out@) =~= tool_list().take(14));
}

fn offer_mirror(out: &mut Vec<Tool>)
    requires
        tools_view(old(out)@) == tool_list().take(14),
    ensures
        tools_view(final(out)@) == tool_list().take(16),
{
    offer(out, "get_game_state", GET_GAME_STATE_ABOUT);
    offer(out, "luigi_raw", LUIGI_RAW_ABOUT);
    assert(tools_view(out@) =~= tool_list().take(16));
}

fn offer_blits(out: &mut Vec<Tool>)
    requires
        tools_view(old(out)@) == tool_list().take(16),
    ensures
        tools_view(final(out)@) == tool_list().take(22),
{
    offer(out, "blit_status", BLIT_STATUS_ABOUT);
    let params: Vec<Param> = vec![
        param("on", Kind::Boolean),
    ];
    let required: Vec<&'static str> = Vec::new();
    assert(params@.map_values(|p: Param| p@) =~= seq![
        takes("on"@, Kind::Boolean),
    ]);
    assert(required@.map_values(|s: &'static str| s@) =~= Seq::<Seq<char>>::empty());
    offer_with(out, "blit_enable", BLIT_ENABLE_ABOUT, params, required);
    offer(out, "blit_view", BLIT_VIEW_ABOUT);
    offer(out, "blit_screen", BLIT_SCREEN_ABOUT);
    offer(out, "blit_clear", BLIT_CLEAR_ABOUT);
    let params: Vec<Param> = vec![
        param("limit", Kind::Integer),
    ];
    let required: Vec<&'static str> = Vec::new();
    assert(params@.map_values(|p: Param| p@) =~= seq![
        takes("limit"@, Kind::Integer),
    ]);
    assert(required@.map_values(|s: &'static str| s@) =~= Seq::<Seq<char>>::empty());
    offer_with(out, "blit_frame", BLIT_FRAME_ABOUT, params, required);
    assert(tools_view(out@) =~= tool_list().take(22));
}

fn offer_readings(out: &mut Vec<Tool>)
    requires
        tools_view(old(out)@) == tool_list().take(22),
    ensures
        tools_view(final(out)@) == tool_list().take(29),
{
    let params: Vec<Param> = vec![
        param("budget_ms", Kind::Integer),
    ];
    let required: Vec<&'static str> = Vec::new();
    assert(params@.map_values(|p: Param| p@) =~= seq![
        takes("budget_ms"@, Kind::Integer),
    ]);
    assert(required@.map_values(|s: &'static str| s@) =~= Seq::<Seq<char>>::empty());
    offer_with(out, "stat_dump", STAT_DUMP_ABOUT, params, required);
    offer(out, "dump_status", DUMP_STATUS_ABOUT);
    offer(out, "player", PLAYER_ABOUT);
    let params: Vec<Param> = vec![
        param("integrity", Kind::Integer),
        param("matter", Kind::Integer),
    ];
    let required: Vec<&'static str> = vec!["integrity", "matter"];
    assert(params@.map_values(|p: Param| p@) =~= seq![
        takes("integrity"@, Kind::Integer),
        takes("matter"@, Kind::Integer),
    ]);
    assert(required@.map_values(|s: &'static str| s@) =~= seq!["integrity"@, "matter"@]);
    offer_with(out, "find_stats", FIND_STATS_ABOUT, params, required);
    let params: Vec<Param> = vec![
        param("base", Kind::Any),
    ];
    let required: Vec<&'static str> = vec!["base"];
    assert(params@.map_values(|p: Param| p@) =~= seq![
        takes("base"@, Kind::Any),
    ]);
    assert(required@.map_values(|s: &'static str| s@) =~= seq!["base"@]);
    offer_with(out, "stats", STATS_ABOUT, params, required);
    offer(out, "map_header", MAP_HEADER_ABOUT);
    let params: Vec<Param> = vec![
        param("x0", Kind::Integer),
        param("y0", Kind::Integer),
        param("x1", Kind::Integer),
        param("y1", Kind::Integer),
    ];
    let required: Vec<&'static str> = Vec::new();
    assert(params@.map_values(|p: Param| p@) =~= seq![
        takes("x0"@, Kind::Integer),
        takes("y0"@, Kind::Integer),
        takes("x1"@, Kind::Integer),
        takes("y1"@, Kind::Integer),
    ]);
    assert(required@.map_values(|s: &'static str| s@) =~= Seq::<Seq<char>>::empty());
    offer_with(out, "get_map", GET_MAP_ABOUT, params, required);
    assert(tools_view(out@) =~= tool_list().take(29));
}

fn offer_scans(out: &mut Vec<Tool>)
    requires
        tools_view(old(out)@) == tool_list().take(29),
    ensures
        tools_view(final(out)@) == tool_list().take(37),
{
    let params: Vec<Param> = vec![
        param("value", Kind::Integer),
    ];
    let required: Vec<&'static str> = vec!["value"];
    assert(params@.map_values(|p: Param| p@) =~= seq![
        takes("value"@, Kind::Integer),
    ]);
    assert(required@.map_values(|s: &'static str| s@) =~= seq!["value"@]);
    offer_with(out, "scan_new", SCAN_NEW_ABOUT, params, required);
    let params: Vec<Param> = vec![
        param("value", Kind::Integer),
    ];
    let required: Vec<&'static str> = vec!["value"];
    assert(params@.map_values(|p: Param| p@) =~= seq![
        takes("value"@, Kind::Integer),
    ]);
    assert(required@.map_values(|s: &'static str| s@) =~= seq!["value"@]);
    offer_with(out, "scan_filter", SCAN_FILTER_ABOUT, params, required);
    let params: Vec<Param> = vec![
        param("old", Kind::Integer),
    ];
    let required: Vec<&'static str> = vec!["old"];
    assert(params@.map_values(|p: Param| p@) =~= seq![
        takes("old"@, Kind::Integer),
    ]);
    assert(required@.map_values(|s: &'static str| s@) =~= seq!["old"@]);
    offer_with(out, "scan_changed", SCAN_CHANGED_ABOUT, params, required);
    let params: Vec<Param> = vec![
        param("lo", Kind::Any),
        param("hi", Kind::Any),
    ];
    let required: Vec<&'static str> = vec!["lo", "hi"];
    assert(params@.map_values(|p: Param| p@) =~= seq![
        takes("lo"@, Kind::Any),
        takes("hi"@, Kind::Any),
    ]);
    assert(required@.map_values(|s: &'static str| s@) =~= seq!["lo"@, "hi"@]);
    offer_with(out, "scan_ptr_to", SCAN_PTR_TO_ABOUT, params, required);
    let params: Vec<Param> = vec![
        param("values", Kind::Integers),
        param("window", Kind::Integer),
    ];
    let required: Vec<&'static str> = vec!["values"];
    assert(params@.map_values(|p: Param| p@) =~= seq![
        takes("values"@, Kind::Integers),
        takes("window"@, Kind::Integer),
    ]);
    assert(required@.map_values(|s: &'static str| s@) =~= seq!["values"@]);
    offer_with(out, "scan_context", SCAN_CONTEXT_ABOUT, params, required);
    let params: Vec<Param> = vec![
        param("addr", Kind::Any),
        param("words", Kind::Integer),
    ];
    let required: Vec<&'static str> = vec!["addr"];
    assert(params@.map_values(|p: Param| p@) =~= seq![
        takes("addr"@, Kind::Any),
        takes("words"@, Kind::Integer),
    ]);
    assert(required@.map_values(|s: &'static str| s@) =~= seq!["addr"@]);
    offer_with(out, "read_window", READ_WINDOW_ABOUT, params, required);
    let params: Vec<Param> = vec![
        param("limit", Kind::Integer),
    ];
    let required: Vec<&'static str> = Vec::new();
    assert(params@.map_values(|p: Param| p@) =~= seq![
        takes("limit"@, Kind::Integer),
    ]);
    assert(required@.map_values(|s: &'static str| s@) =~= Seq::<Seq<char>>::empty());
    offer_with(out, "fov", FOV_ABOUT, params, required);
    let params: Vec<Param> = vec![
        param("x", Kind::Integer),
        param("y", Kind::Integer),
    ];
    let required: Vec<&'static str> = vec!["x", "y"];
    assert(params@.map_values(|p: Param| p@) =~= seq![
        takes("x"@, Kind::Integer),
        takes("y"@, Kind::Integer),
    ]);
    assert(required@.map_values(|s: &'static str| s@) =~= seq!["x"@, "y"@]);
    offer_with(out, "probe_cell", PROBE_CELL_ABOUT, params, required);
    assert(tools_view(out@) =~= tool_list().take(37));
}

/// The tools that are offered.
pub fn get_tools() -> (r: Vec<Tool>)
    ensures
        tools_view(r@) == tool_list(),
{
    let mut out: Vec<Tool> = Vec::new();
    assert(tools_view(out@) =~= tool_list().take(0));
    offer_moves(&mut out);
    offer_commands(&mut out);
    offer_mirror(&mut out);
    offer_blits(&mut out);
    offer_readings(&mut out);
    offer_scans(&mut out);
    assert(tool_list().take(37) =~= tool_list());
    out
}

/// A name that does not start like those of the blit tools is none of theirs.
pub proof fn other_than_blit(name: Seq<char>)
    requires
        name.len() > 0,
        name[0] != 'b',
    ensures
        !plan::is_blit(name),
{
    reveal_strlit("blit_");
    if plan::is_blit(name) {
        assert(name.take(5)[0] == name[0]);
    }
}

/// Whether a call of the tool is answered as that of a tool that exists.
pub open spec fn is_known(name: Seq<char>, a: ArgsView) -> bool {
    match plan::request_of(name, a) {
        plan::Request::Unknown => false,
        plan::Request::Blit { blit } => !(blit is Unknown),
        _ => true,
    }
}

proof fn moves_are_known(a: ArgsView)
    ensures
        is_known("move_north"@, a),
        is_known("move_northeast"@, a),
        is_known("move_east"@, a),
        is_known("move_southeast"@, a),
        is_known("move_south"@, a),
        is_known("move_southwest"@, a),
        is_known("move_west"@, a),
        is_known("move_northwest"@, a),
        is_known("attach"@, a),
        is_known("fire"@, a),
{
    assert(is_known("move_north"@, a)) by {
        reveal_strlit("move_north");
        other_than_blit("move_north"@);
    }
    assert(is_known("move_northeast"@, a)) by {
        reveal_strlit("move_northeast");
        other_than_blit("move_northeast"@);
    }
    assert(is_known("move_east"@, a)) by {
        reveal_strlit("move_east");
        other_than_blit("move_east"@);
    }
    assert(is_known("move_southeast"@, a)) by {
        reveal_strlit("move_southeast");
        other_than_blit("move_southeast"@);
    }
    assert(is_known("move_south"@, a)) by {
        reveal_strlit("move_south");
        other_than_blit("move_south"@);
    }
    assert(is_known("move_southwest"@, a)) by {
        reveal_strlit("move_southwest");
        other_than_blit("move_southwest"@);
    }
    assert(is_known("move_west"@, a)) by {
        reveal_strlit("move_west");
        other_than_blit("move_west"@);
    }
    assert(is_known("move_northwest"@, a)) by {
        reveal_strlit("move_northwest");
        other_than_blit("move_northwest"@);
    }
    assert(is_known("attach"@, a)) by {
        reveal_strlit("attach");
        other_than_blit("attach"@);
    }
    assert(is_known("fire"@, a)) by {
        reveal_strlit("fire");
        other_than_blit("fire"@);
    }
}

proof fn commands_are_known(a: ArgsView)
    ensures
        is_known("key"@, a),
        is_known("text"@, a),
        is_known("mouse_move"@, a),
        is_known("mouse_click"@, a),
{
    assert(is_known("key"@, a)) by {
        reveal_strlit("key");
        other_than_blit("key"@);
    }
    assert(is_known("text"@, a)) by {
        reveal_strlit("text");
        other_than_blit("text"@);
    }
    assert(is_known("mouse_move"@, a)) by {
        reveal_strlit("mouse_move");
        other_than_blit("mouse_move"@);
    }
    assert(is_known("mouse_click"@, a)) by {
        reveal_strlit("mouse_click");
        other_than_blit("mouse_click"@);
    }
}

proof fn mirror_are_known(a: ArgsView)
    ensures
        is_known("get_game_state"@, a),
        is_known("luigi_raw"@, a),
{
    assert(is_known("get_game_state"@, a)) by {
        reveal_strlit("get_game_state");
        other_than_blit("get_game_state"@);
    }
    assert(is_known("luigi_raw"@, a)) by {
        reveal_strlit("luigi_raw");
        other_than_blit("luigi_raw"@);
    }
}

proof fn blits_are_known(a: ArgsView)
    ensures
        is_known("blit_status"@, a),
        is_known("blit_enable"@, a),
        is_known("blit_view"@, a),
        is_known("blit_screen"@, a),
        is_known("blit_clear"@, a),
        is_known("blit_frame"@, a),
{
    assert(is_known("blit_status"@, a)) by {
        reveal_strlit("blit_status");
        reveal_strlit("blit_");
        assert("blit_status"@.take(5) =~= "blit_"@);
    }
    assert(is_known("blit_enable"@, a)) by {
        reveal_strlit("blit_enable");
        reveal_strlit("blit_");
        assert("blit_enable"@.take(5) =~= "blit_"@);
    }
    assert(is_known("blit_view"@, a)) by {
        reveal_strlit("blit_view");
        reveal_strlit("blit_");
        assert("blit_view"@.take(5) =~= "blit_"@);
    }
    assert(is_known("blit_screen"@, a)) by {
        reveal_strlit("blit_screen");
        reveal_strlit("blit_");
        assert("blit_screen"@.take(5) =~= "blit_"@);
    }
    assert(is_known("blit_clear"@, a)) by {
        reveal_strlit("blit_clear");
        reveal_strlit("blit_");
        assert("blit_clear"@.take(5) =~= "blit_"@);
    }
    assert(is_known("blit_frame"@, a)) by {
        reveal_strlit("blit_frame");
        reveal_strlit("blit_");
        assert("blit_frame"@.take(5) =~= "blit_"@);
    }
}

proof fn readings_are_known(a: ArgsView)
    ensures
        is_known("stat_dump"@, a),
        is_known("dump_status"@, a),
        is_known("player"@, a),
        is_known("find_stats"@, a),
        is_known("stats"@, a),
        is_known("map_header"@, a),
        is_known("get_map"@, a),
{
    assert(is_known("stat_dump"@, a)) by {
        reveal_strlit("stat_dump");
        other_than_blit("stat_dump"@);
    }
    assert(is_known("dump_status"@, a)) by {
        reveal_strlit("dump_status");
        other_than_blit("dump_status"@);
    }
    assert(is_known("player"@, a)) by {
        reveal_strlit("player");
        other_than_blit("player"@);
    }
    assert(is_known("find_stats"@, a)) by {
        reveal_strlit("find_stats");
        other_than_blit("find_stats"@);
    }
    assert(is_known("stats"@, a)) by {
        reveal_strlit("stats");
        other_than_blit("stats"@);
    }
    assert(is_known("map_header"@, a)) by {
        reveal_strlit("map_header");
        other_than_blit("map_header"@);
    }
    assert(is_known("get_map"@, a)) by {
        reveal_strlit("get_map");
        other_than_blit("get_map"@);
    }
}

proof fn scans_are_known(a: ArgsView)
    ensures
        is_known("scan_new"@, a),
        is_known("scan_filter"@, a),
        is_known("scan_changed"@, a),
        is_known("scan_ptr_to"@, a),
        is_known("scan_context"@, a),
        is_known("read_window"@, a),
        is_known("fov"@, a),
        is_known("probe_cell"@, a),
{
    assert(is_known("scan_new"@, a)) by {
        reveal_strlit("scan_new");
        other_than_blit("scan_new"@);
    }
    assert(is_known("scan_filter"@, a)) by {
        reveal_strlit("scan_filter");
        other_than_blit("scan_filter"@);
    }
    assert(is_known("scan_changed"@, a)) by {
        reveal_strlit("scan_changed");
        other_than_blit("scan_changed"@);
    }
    assert(is_known("scan_ptr_to"@, a)) by {
        reveal_strlit("scan_ptr_to");
        other_than_blit("scan_ptr_to"@);
    }
    assert(is_known("scan_context"@, a)) by {
        reveal_strlit("scan_context");
        other_than_blit("scan_context"@);
    }
    assert(is_known("read_window"@, a)) by {
        reveal_strlit("read_window");
        other_than_blit("read_window"@);
    }
    assert(is_known("fov"@, a)) by {
        reveal_strlit("fov");
        other_than_blit("fov"@);
    }
    assert(is_known("probe_cell"@, a)) by {
        reveal_strlit("probe_cell");
        other_than_blit("probe_cell"@);
    }
}

/// Every tool that is offered can be called: none is answered as unknown.
#[verifier::spinoff_prover]
#[verifier::rlimit(40)]
pub proof fn offered_tools_are_known(i: int, a: ArgsView)
    requires
        0 <= i < tool_list().len(),
    ensures
        is_known(tool_list()[i].name, a),
{
    moves_are_known(a);
    commands_are_known(a);
    mirror_are_known(a);
    blits_are_known(a);
    readings_are_known(a);
    scans_are_known(a);
}

/// A number that tells the names of the tools apart.
pub closed spec fn mark(s: Seq<char>) -> int {
    let n = s.len() as int;
    s[n / 2] as int + s[n / 3] as int + 6 * (s[n - n / 4 - 1] as int) + 13 * n
}

/// Which of the tools has the name with this mark.
spec fn rank(m: int) -> int {
    if m == 1025 {
        0
    } else if m == 997 {
        1
    } else if m == 895 {
        2
    } else if m == 1000 {
        3
    } else if m == 1048 {
        4
    } else if m == 1108 {
        5
    } else if m == 919 {
        6
    } else if m == 1105 {
        7
    } else if m == 885 {
        8
    } else if m == 955 {
        9
    } else if m == 967 {
        10
    } else if m == 993 {
        11
    } else if m == 1006 {
        12
    } else if m == 983 {
        13
    } else if m == 1082 {
        14
    } else if m == 1009 {
        15
    } else if m == 1070 {
        16
    } else if m == 948 {
        17
    } else if m == 958 {
        18
    } else if m == 980 {
        19
    } else if m == 951 {
        20
    } else if m == 930 {
        21
    } else if m == 1030 {
        22
    } else if m == 1066 {
        23
    } else if m == 902 {
        24
    } else if m == 927 {
        25
    } else if m == 974 {
        26
    } else if m == 926 {
        27
    } else if m == 884 {
        28
    } else if m == 956 {
        29
    } else if m == 1051 {
        30
    } else if m == 1015 {
        31
    } else if m == 935 {
        32
    } else if m == 1058 {
        33
    } else if m == 962 {
        34
    } else if m == 969 {
        35
    } else if m == 929 {
        36
    } else {
        -1
    }
}

proof fn first_names_have_marks()
    ensures
        mark("move_north"@) == 1025,
        mark("move_northeast"@) == 997,
        mark("move_east"@) == 895,
        mark("move_southeast"@) == 1000,
        mark("move_south"@) == 1048,
        mark("move_southwest"@) == 1108,
        mark("move_west"@) == 919,
        mark("move_northwest"@) == 1105,
        mark("attach"@) == 885,
        mark("fire"@) == 955,
{
    assert(mark("move_north"@) == 1025) by {
        reveal_strlit("move_north");
    }
    assert(mark("move_northeast"@) == 997) by {
        reveal_strlit("move_northeast");
    }
    assert(mark("move_east"@) == 895) by {
        reveal_strlit("move_east");
    }
    assert(mark("move_southeast"@) == 1000) by {
        reveal_strlit("move_southeast");
    }
    assert(mark("move_south"@) == 1048) by {
        reveal_strlit("move_south");
    }
    assert(mark("move_southwest"@) == 1108) by {
        reveal_strlit("move_southwest");
    }
    assert(mark("move_west"@) == 919) by {
        reveal_strlit("move_west");
    }
    assert(mark("move_northwest"@) == 1105) by {
        reveal_strlit("move_northwest");
    }
    assert(mark("attach"@) == 885) by {
        reveal_strlit("attach");
    }
    assert(mark("fire"@) == 955) by {
        reveal_strlit("fire");
    }
}

proof fn second_names_have_marks()
    ensures
        mark("key"@) == 967,
        mark("text"@) == 993,
        mark("mouse_move"@) == 1006,
        mark("mouse_click"@) == 983,
        mark("get_game_state"@) == 1082,
        mark("luigi_raw"@) == 1009,
        mark("blit_status"@) == 1070,
        mark("blit_enable"@) == 948,
        mark("blit_view"@) == 958,
{
    assert(mark("key"@) == 967) by {
        reveal_strlit("key");
    }
    assert(mark("text"@) == 993) by {
        reveal_strlit("text");
    }
    assert(mark("mouse_move"@) == 1006) by {
        reveal_strlit("mouse_move");
    }
    assert(mark("mouse_click"@) == 983) by {
        reveal_strlit("mouse_click");
    }
    assert(mark("get_game_state"@) == 1082) by {
        reveal_strlit("get_game_state");
    }
    assert(mark("luigi_raw"@) == 1009) by {
        reveal_strlit("luigi_raw");
    }
    assert(mark("blit_status"@) == 1070) by {
        reveal_strlit("blit_status");
    }
    assert(mark("blit_enable"@) == 948) by {
        reveal_strlit("blit_enable");
    }
    assert(mark("blit_view"@) == 958) by {
        reveal_strlit("blit_view");
    }
}

proof fn third_names_have_marks()
    ensures
        mark("blit_screen"@) == 980,
        mark("blit_clear"@) == 951,
        mark("blit_frame"@) == 930,
        mark("stat_dump"@) == 1030,
        mark("dump_status"@) == 1066,
        mark("player"@) == 902,
        mark("find_stats"@) == 927,
        mark("stats"@) == 974,
        mark("map_header"@) == 926,
{
    assert(mark("blit_screen"@) == 980) by {
        reveal_strlit("blit_screen");
    }
    assert(mark("blit_clear"@) == 951) by {
        reveal_strlit("blit_clear");
    }
    assert(mark("blit_frame"@) == 930) by {
        reveal_strlit("blit_frame");
    }
    assert(mark("stat_dump"@) == 1030) by {
        reveal_strlit("stat_dump");
    }
    assert(mark("dump_status"@) == 1066) by {
        reveal_strlit("dump_status");
    }
    assert(mark("player"@) == 902) by {
        reveal_strlit("player");
    }
    assert(mark("find_stats"@) == 927) by {
        reveal_strlit("find_stats");
    }
    assert(mark("stats"@) == 974) by {
        reveal_strlit("stats");
    }
    assert(mark("map_header"@) == 926) by {
        reveal_strlit("map_header");
    }
}

proof fn last_names_have_marks()
    ensures
        mark("get_map"@) == 884,
        mark("scan_new"@) == 956,
        mark("scan_filter"@) == 1051,
        mark("scan_changed"@) == 1015,
        mark("scan_ptr_to"@) == 935,
        mark("scan_context"@) == 1058,
        mark("read_window"@) == 962,
        mark("fov"@) == 969,
        mark("probe_cell"@) == 929,
{
    assert(mark("get_map"@) == 884) by {
        reveal_strlit("get_map");
    }
    assert(mark("scan_new"@) == 956) by {
        reveal_strlit("scan_new");
    }
    assert(mark("scan_filter"@) == 1051) by {
        reveal_strlit("scan_filter");
    }
    assert(mark("scan_changed"@) == 1015) by {
        reveal_strlit("scan_changed");
    }
    assert(mark("scan_ptr_to"@) == 935) by {
        reveal_strlit("scan_ptr_to");
    }
    assert(mark("scan_context"@) == 1058) by {
        reveal_strlit("scan_context");
    }
    assert(mark("read_window"@) == 962) by {
        reveal_strlit("read_window");
    }
    assert(mark("fov"@) == 969) by {
        reveal_strlit("fov");
    }
    assert(mark("probe_cell"@) == 929) by {
        reveal_strlit("probe_cell");
    }
}

/// The marks of the names of the tools; no two are the same.
pub proof fn names_have_marks()
    ensures
        mark("move_north"@) == 1025,
        mark("move_northeast"@) == 997,
        mark("move_east"@) == 895,
        mark("move_southeast"@) == 1000,
        mark("move_south"@) == 1048,
        mark("move_southwest"@) == 1108,
        mark("move_west"@) == 919,
        mark("move_northwest"@) == 1105,
        mark("attach"@) == 885,
        mark("fire"@) == 955,
        mark("key"@) == 967,
        mark("text"@) == 993,
        mark("mouse_move"@) == 1006,
        mark("mouse_click"@) == 983,
        mark("get_game_state"@) == 1082,
        mark("luigi_raw"@) == 1009,
        mark("blit_status"@) == 1070,
        mark("blit_enable"@) == 948,
        mark("blit_view"@) == 958,
        mark("blit_screen"@) == 980,
        mark("blit_clear"@) == 951,
        mark("blit_frame"@) == 930,
        mark("stat_dump"@) == 1030,
        mark("dump_status"@) == 1066,
        mark("player"@) == 902,
        mark("find_stats"@) == 927,
        mark("stats"@) == 974,
        mark("map_header"@) == 926,
        mark("get_map"@) == 884,
        mark("scan_new"@) == 956,
        mark("scan_filter"@) == 1051,
        mark("scan_changed"@) == 1015,
        mark("scan_ptr_to"@) == 935,
        mark("scan_context"@) == 1058,
        mark("read_window"@) == 962,
        mark("fov"@) == 969,
        mark("probe_cell"@) == 929,
{
    first_names_have_marks();
    second_names_have_marks();
    third_names_have_marks();
    last_names_have_marks();
}

/// No two tools have the same name.
pub proof fn tool_names_are_distinct(i: int, j: int)
    requires
        0 <= i < j < tool_list().len(),
    ensures
        tool_list()[i].name != tool_list()[j].name,
{
    first_names_have_marks();
    second_names_have_marks();
    third_names_have_marks();
    last_names_have_marks();
    assert forall|k: int| 0 <= k < tool_list().len() implies rank(
        mark(#[trigger] tool_list()[k].name),
    ) == k by {}
}

/// Whether a tool takes an argument of this name.
pub open spec fn offers(t: ToolView, name: Seq<char>) -> bool {
    exists|p: int| 0 <= p < t.params.len() && (#[trigger] t.params[p]).name == name
}

/// Every argument that a tool requires is one that it lists.
pub proof fn required_arguments_are_listed(i: int, k: int)
    requires
        0 <= i < tool_list().len(),
        0 <= k < tool_list()[i].required.len(),
    ensures
        offers(tool_list()[i], tool_list()[i].required[k]),
{
    let t = tool_list()[i];
    if i == 10 {
        assert(t.params[0].name == "keysym"@);
    } else if i == 11 {
        assert(t.params[0].name == "text"@);
    } else if i == 12 {
        assert(t.params[0].name == "x"@);
        assert(t.params[1].name == "y"@);
    } else if i == 13 {
        assert(t.params[0].name == "x"@);
        assert(t.params[1].name == "y"@);
    } else if i == 25 {
        assert(t.params[0].name == "integrity"@);
        assert(t.params[1].name == "matter"@);
    } else if i == 26 {
        assert(t.params[0].name == "base"@);
    } else if i == 29 {
        assert(t.params[0].name == "value"@);
    } else if i == 30 {
        assert(t.params[0].name == "value"@);
    } else if i == 31 {
        assert(t.params[0].name == "old"@);
    } else if i == 32 {
        assert(t.params[0].name == "lo"@);
        assert(t.params[1].name == "hi"@);
    } else if i == 33 {
        assert(t.params[0].name == "values"@);
    } else if i == 34 {
        assert(t.params[0].name == "addr"@);
    } else if i == 36 {
        assert(t.params[0].name == "x"@);
        assert(t.params[1].name == "y"@);
    }
}

} // verus!
