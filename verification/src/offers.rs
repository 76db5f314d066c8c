//! That a tool is asked for by the arguments that it offers.

use crate::args::ArgsView;
use crate::calls;
use crate::plan;
use crate::tools;
use crate::tools::ToolView;
use vstd::prelude::*;

verus! {

proof fn bare_tools_read_nothing(a: ArgsView, b: ArgsView)
    ensures
        plan::request_of("move_north"@, a) == plan::request_of("move_north"@, b),
        plan::request_of("move_northeast"@, a) == plan::request_of("move_northeast"@, b),
        plan::request_of("move_east"@, a) == plan::request_of("move_east"@, b),
        plan::request_of("move_southeast"@, a) == plan::request_of("move_southeast"@, b),
        plan::request_of("move_south"@, a) == plan::request_of("move_south"@, b),
        plan::request_of("move_southwest"@, a) == plan::request_of("move_southwest"@, b),
        plan::request_of("move_west"@, a) == plan::request_of("move_west"@, b),
        plan::request_of("move_northwest"@, a) == plan::request_of("move_northwest"@, b),
        plan::request_of("attach"@, a) == plan::request_of("attach"@, b),
        plan::request_of("fire"@, a) == plan::request_of("fire"@, b),
        plan::request_of("get_game_state"@, a) == plan::request_of("get_game_state"@, b),
        plan::request_of("luigi_raw"@, a) == plan::request_of("luigi_raw"@, b),
        plan::request_of("blit_status"@, a) == plan::request_of("blit_status"@, b),
        plan::request_of("blit_view"@, a) == plan::request_of("blit_view"@, b),
        plan::request_of("blit_screen"@, a) == plan::request_of("blit_screen"@, b),
        plan::request_of("blit_clear"@, a) == plan::request_of("blit_clear"@, b),
        plan::request_of("dump_status"@, a) == plan::request_of("dump_status"@, b),
        plan::request_of("player"@, a) == plan::request_of("player"@, b),
        plan::request_of("map_header"@, a) == plan::request_of("map_header"@, b),
{
    calls::moves_are_keypad_keys(a);
    calls::moves_are_keypad_keys(b);
    calls::single_keys_are_pressed(a);
    calls::single_keys_are_pressed(b);
    calls::blit_tools_ask_for_what_they_say(a);
    calls::blit_tools_ask_for_what_they_say(b);
    calls::plain_readings_ask_for_what_they_say(a);
    calls::plain_readings_ask_for_what_they_say(b);
}

proof fn key_reads_its_arguments(a: ArgsView, b: ArgsView)
    requires
        a.get("keysym"@) == b.get("keysym"@),
        a.get("ctrl"@) == b.get("ctrl"@),
        a.get("shift"@) == b.get("shift"@),
        a.get("alt"@) == b.get("alt"@),
        a.get("unicode"@) == b.get("unicode"@),
        a.get("repeat"@) == b.get("repeat"@),
    ensures
        plan::request_of("key"@, a) == plan::request_of("key"@, b),
{
    tools::names_have_marks();
    reveal_strlit("key");
    tools::other_than_blit("key"@);
}

proof fn text_reads_its_arguments(a: ArgsView, b: ArgsView)
    requires
        a.get("text"@) == b.get("text"@),
    ensures
        plan::request_of("text"@, a) == plan::request_of("text"@, b),
{
    tools::names_have_marks();
    reveal_strlit("text");
    tools::other_than_blit("text"@);
}

proof fn mouse_move_reads_its_arguments(a: ArgsView, b: ArgsView)
    requires
        a.get("x"@) == b.get("x"@),
        a.get("y"@) == b.get("y"@),
    ensures
        plan::request_of("mouse_move"@, a) == plan::request_of("mouse_move"@, b),
{
    tools::names_have_marks();
    reveal_strlit("mouse_move");
    tools::other_than_blit("mouse_move"@);
}

proof fn mouse_click_reads_its_arguments(a: ArgsView, b: ArgsView)
    requires
        a.get("x"@) == b.get("x"@),
        a.get("y"@) == b.get("y"@),
        a.get("button"@) == b.get("button"@),
    ensures
        plan::request_of("mouse_click"@, a) == plan::request_of("mouse_click"@, b),
{
    tools::names_have_marks();
    reveal_strlit("mouse_click");
    tools::other_than_blit("mouse_click"@);
}

proof fn blit_enable_reads_its_arguments(a: ArgsView, b: ArgsView)
    requires
        a.get("on"@) == b.get("on"@),
    ensures
        plan::request_of("blit_enable"@, a) == plan::request_of("blit_enable"@, b),
{
    tools::names_have_marks();
    reveal_strlit("blit_enable");
    reveal_strlit("blit_");
    assert("blit_enable"@.take(5) =~= "blit_"@);
}

proof fn blit_frame_reads_its_arguments(a: ArgsView, b: ArgsView)
    requires
        a.get("limit"@) == b.get("limit"@),
    ensures
        plan::request_of("blit_frame"@, a) == plan::request_of("blit_frame"@, b),
{
    tools::names_have_marks();
    reveal_strlit("blit_frame");
    reveal_strlit("blit_");
    assert("blit_frame"@.take(5) =~= "blit_"@);
}

proof fn stat_dump_reads_its_arguments(a: ArgsView, b: ArgsView)
    requires
        a.get("budget_ms"@) == b.get("budget_ms"@),
    ensures
        plan::request_of("stat_dump"@, a) == plan::request_of("stat_dump"@, b),
{
    tools::names_have_marks();
    reveal_strlit("stat_dump");
    tools::other_than_blit("stat_dump"@);
}

proof fn find_stats_reads_its_arguments(a: ArgsView, b: ArgsView)
    requires
        a.get("integrity"@) == b.get("integrity"@),
        a.get("matter"@) == b.get("matter"@),
    ensures
        plan::request_of("find_stats"@, a) == plan::request_of("find_stats"@, b),
{
    tools::names_have_marks();
    reveal_strlit("find_stats");
    tools::other_than_blit("find_stats"@);
}

proof fn stats_reads_its_arguments(a: ArgsView, b: ArgsView)
    requires
        a.get("base"@) == b.get("base"@),
    ensures
        plan::request_of("stats"@, a) == plan::request_of("stats"@, b),
{
    tools::names_have_marks();
    reveal_strlit("stats");
    tools::other_than_blit("stats"@);
}

proof fn get_map_reads_its_arguments(a: ArgsView, b: ArgsView)
    requires
        a.get("x0"@) == b.get("x0"@),
        a.get("y0"@) == b.get("y0"@),
        a.get("x1"@) == b.get("x1"@),
        a.get("y1"@) == b.get("y1"@),
    ensures
        plan::request_of("get_map"@, a) == plan::request_of("get_map"@, b),
{
    tools::names_have_marks();
    reveal_strlit("get_map");
    tools::other_than_blit("get_map"@);
}

proof fn scan_new_reads_its_arguments(a: ArgsView, b: ArgsView)
    requires
        a.get("value"@) == b.get("value"@),
    ensures
        plan::request_of("scan_new"@, a) == plan::request_of("scan_new"@, b),
{
    tools::names_have_marks();
    reveal_strlit("scan_new");
    tools::other_than_blit("scan_new"@);
}

proof fn scan_filter_reads_its_arguments(a: ArgsView, b: ArgsView)
    requires
        a.get("value"@) == b.get("value"@),
    ensures
        plan::request_of("scan_filter"@, a) == plan::request_of("scan_filter"@, b),
{
    tools::names_have_marks();
    reveal_strlit("scan_filter");
    tools::other_than_blit("scan_filter"@);
}

proof fn scan_changed_reads_its_arguments(a: ArgsView, b: ArgsView)
    requires
        a.get("old"@) == b.get("old"@),
    ensures
        plan::request_of("scan_changed"@, a) == plan::request_of("scan_changed"@, b),
{
    tools::names_have_marks();
    reveal_strlit("scan_changed");
    tools::other_than_blit("scan_changed"@);
}

proof fn scan_ptr_to_reads_its_arguments(a: ArgsView, b: ArgsView)
    requires
        a.get("lo"@) == b.get("lo"@),
        a.get("hi"@) == b.get("hi"@),
    ensures
        plan::request_of("scan_ptr_to"@, a) == plan::request_of("scan_ptr_to"@, b),
{
    tools::names_have_marks();
    reveal_strlit("scan_ptr_to");
    tools::other_than_blit("scan_ptr_to"@);
}

proof fn scan_context_reads_its_arguments(a: ArgsView, b: ArgsView)
    requires
        a.get("values"@) == b.get("values"@),
        a.get("window"@) == b.get("window"@),
    ensures
        plan::request_of("scan_context"@, a) == plan::request_of("scan_context"@, b),
{
    tools::names_have_marks();
    reveal_strlit("scan_context");
    tools::other_than_blit("scan_context"@);
}

proof fn read_window_reads_its_arguments(a: ArgsView, b: ArgsView)
    requires
        a.get("addr"@) == b.get("addr"@),
        a.get("words"@) == b.get("words"@),
    ensures
        plan::request_of("read_window"@, a) == plan::request_of("read_window"@, b),
{
    tools::names_have_marks();
    reveal_strlit("read_window");
    tools::other_than_blit("read_window"@);
}

proof fn fov_reads_its_arguments(a: ArgsView, b: ArgsView)
    requires
        a.get("limit"@) == b.get("limit"@),
    ensures
        plan::request_of("fov"@, a) == plan::request_of("fov"@, b),
{
    tools::names_have_marks();
    reveal_strlit("fov");
    tools::other_than_blit("fov"@);
}

proof fn probe_cell_reads_its_arguments(a: ArgsView, b: ArgsView)
    requires
        a.get("x"@) == b.get("x"@),
        a.get("y"@) == b.get("y"@),
    ensures
        plan::request_of("probe_cell"@, a) == plan::request_of("probe_cell"@, b),
{
    tools::names_have_marks();
    reveal_strlit("probe_cell");
    tools::other_than_blit("probe_cell"@);
}

/// Whether two calls agree on every argument that a tool offers.
pub open spec fn agree_on(t: ToolView, a: ArgsView, b: ArgsView) -> bool {
    forall|p: int|
        0 <= p < t.params.len() ==> a.get((#[trigger] t.params[p]).name) == b.get(t.params[p].name)
}

/// What a tool is asked for depends on no argument but those that it offers.
#[verifier::spinoff_prover]
#[verifier::rlimit(60)]
pub proof fn tools_read_what_they_offer(i: int, a: ArgsView, b: ArgsView)
    requires
        0 <= i < tools::tool_list().len(),
        agree_on(tools::tool_list()[i], a, b),
    ensures
        plan::request_of(tools::tool_list()[i].name, a) == plan::request_of(
            tools::tool_list()[i].name,
            b,
        ),
{
    let t = tools::tool_list()[i];
    if i == 10 {
        assert(t.params[0].name == "keysym"@);
        assert(t.params[1].name == "ctrl"@);
        assert(t.params[2].name == "shift"@);
        assert(t.params[3].name == "alt"@);
        assert(t.params[4].name == "unicode"@);
        assert(t.params[5].name == "repeat"@);
        key_reads_its_arguments(a, b);
    } else if i == 11 {
        assert(t.params[0].name == "text"@);
        text_reads_its_arguments(a, b);
    } else if i == 12 {
        assert(t.params[0].name == "x"@);
        assert(t.params[1].name == "y"@);
        mouse_move_reads_its_arguments(a, b);
    } else if i == 13 {
        assert(t.params[0].name == "x"@);
        assert(t.params[1].name == "y"@);
        assert(t.params[2].name == "button"@);
        mouse_click_reads_its_arguments(a, b);
    } else if i == 17 {
        assert(t.params[0].name == "on"@);
        blit_enable_reads_its_arguments(a, b);
    } else if i == 21 {
        assert(t.params[0].name == "limit"@);
        blit_frame_reads_its_arguments(a, b);
    } else if i == 22 {
        assert(t.params[0].name == "budget_ms"@);
        stat_dump_reads_its_arguments(a, b);
    } else if i == 25 {
        assert(t.params[0].name == "integrity"@);
        assert(t.params[1].name == "matter"@);
        find_stats_reads_its_arguments(a, b);
    } else if i == 26 {
        assert(t.params[0].name == "base"@);
        stats_reads_its_arguments(a, b);
    } else if i == 28 {
        assert(t.params[0].name == "x0"@);
        assert(t.params[1].name == "y0"@);
        assert(t.params[2].name == "x1"@);
        assert(t.params[3].name == "y1"@);
        get_map_reads_its_arguments(a, b);
    } else if i == 29 {
        assert(t.params[0].name == "value"@);
        scan_new_reads_its_arguments(a, b);
    } else if i == 30 {
        assert(t.params[0].name == "value"@);
        scan_filter_reads_its_arguments(a, b);
    } else if i == 31 {
        assert(t.params[0].name == "old"@);
        scan_changed_reads_its_arguments(a, b);
    } else if i == 32 {
        assert(t.params[0].name == "lo"@);
        assert(t.params[1].name == "hi"@);
        scan_ptr_to_reads_its_arguments(a, b);
    } else if i == 33 {
        assert(t.params[0].name == "values"@);
        assert(t.params[1].name == "window"@);
        scan_context_reads_its_arguments(a, b);
    } else if i == 34 {
        assert(t.params[0].name == "addr"@);
        assert(t.params[1].name == "words"@);
        read_window_reads_its_arguments(a, b);
    } else if i == 35 {
        assert(t.params[0].name == "limit"@);
        fov_reads_its_arguments(a, b);
    } else if i == 36 {
        assert(t.params[0].name == "x"@);
        assert(t.params[1].name == "y"@);
        probe_cell_reads_its_arguments(a, b);
    } else {
        bare_tools_read_nothing(a, b);
    }
}

} // verus!
