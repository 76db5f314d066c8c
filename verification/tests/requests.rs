use statmind::blit_job::BlitTool;
use statmind::dump_job::DumpTool;
use statmind::args::{Arg, Args, Named};
use statmind::error::Error;
use statmind::mailbox::MailboxCmd;
use statmind::mcp::{
    distance_text, is_blank, luigi_raw, map_header, offset_text, pointer_report, process_request,
    respond, sample, unknown_blit_tool, unknown_tool, version_warning, Body, McpServer, Response,
    Route,
};
use statmind::common::Addrs;
use statmind::memory::Reply;
use statmind::plan::{execute_tool, plan, Plan};
use statmind::scan::{scan_changed, scan_context, scan_filter, scan_new};
use statmind::session::{Finding, Report};
use statmind::text::address_text;
use statmind::tools::{get_tools, Kind};
use statmind::types::LuigiAi;

fn args(v: Vec<(&str, Arg)>) -> Args {
    Args {
        entries: v
            .into_iter()
            .map(|(k, value)| Named { key: k.to_string(), value })
            .collect(),
    }
}

fn text(s: &str) -> Arg {
    Arg::Text(s.to_string())
}

fn call(name: &str, v: Vec<(&str, Arg)>) -> String {
    format!("{:?}", plan(&name.to_string(), &args(v)))
}

fn shown(p: Plan) -> String {
    format!("{:?}", p)
}

fn refused(error: Error) -> String {
    shown(Plan::Refused { error })
}

#[test]
fn requests_are_routed_by_their_method() {
    let route = |id, m: &str, c| process_request(id, &m.to_string(), c);
    assert_eq!(route(false, "initialize", true), Route::Silent);
    assert_eq!(route(false, "no such thing", false), Route::Silent);
    assert_eq!(route(true, "initialize", false), Route::Initialize);
    assert_eq!(route(true, "tools/list", false), Route::ListTools);
    assert_eq!(route(true, "tools/call", true), Route::CallTool);
    assert_eq!(route(true, "tools/call", false).error(), Some((-32602, "Invalid params")));
    assert_eq!(route(true, "tools", true).error(), Some((-32601, "Method not found")));
    assert_eq!(Route::CallTool.error(), None);
}

#[test]
fn an_answer_repeats_the_identifier_and_holds_one_thing() {
    let ok = |v: i32| -> Result<i32, String> { Ok(v) };
    assert_eq!(respond(None::<&str>, Route::Silent, ok(1)), None);
    let a = respond(Some("a"), Route::CallTool, ok(1));
    assert_eq!(a, Some(Response { id: "a", body: Body::Result(1) }));
    let e = Body::Error { code: -32000, message: "no".to_string() };
    let a = respond(Some("b"), Route::CallTool, Err::<i32, String>("no".to_string()));
    assert_eq!(a, Some(Response { id: "b", body: e }));
    let e = Body::Error { code: -32602, message: "Invalid params".to_string() };
    let a = respond(Some("c"), Route::InvalidParams, ok(1));
    assert_eq!(a, Some(Response { id: "c", body: e }));
    let e = Body::Error { code: -32601, message: "Method not found".to_string() };
    let a = respond(Some("d"), Route::MethodNotFound, ok(1));
    assert_eq!(a, Some(Response { id: "d", body: e }));
}

#[test]
fn blank_lines_are_passed_over() {
    assert!(is_blank(""));
    assert!(is_blank(" \t\r\u{3000}"));
    assert!(!is_blank(" {} "));
}

#[test]
fn every_offered_tool_is_known() {
    let tools = get_tools();
    assert_eq!(tools.len(), 37);
    for t in &tools {
        let p = plan(&t.name.to_string(), &Args::none());
        assert!(!matches!(p, Plan::Unknown | Plan::Blit { blit: BlitTool::Unknown }), "{}", t.name);
    }
    let mut names: Vec<&str> = tools.iter().map(|t| t.name).collect();
    names.sort();
    names.dedup();
    assert_eq!(names.len(), 37);
    for t in &tools {
        for r in &t.required {
            assert!(t.params.iter().any(|p| p.name == *r), "{} {}", t.name, r);
        }
    }
}

#[test]
fn tools_describe_their_arguments() {
    let tools = get_tools();
    assert_eq!((tools[0].name, tools[0].about), ("move_north", "Move Cogmind north (numpad 8)"));
    assert_eq!(tools[0].params.len(), 0);
    let key = tools.iter().find(|t| t.name == "key").unwrap();
    let names: Vec<&str> = key.params.iter().map(|p| p.name).collect();
    assert_eq!(names, vec!["keysym", "ctrl", "shift", "alt", "unicode", "repeat"]);
    assert_eq!(key.params[0].kind, Kind::Integer);
    assert_eq!(key.params[0].about, Some("SDLK_* value, 1..65535"));
    assert_eq!(key.params[1].kind, Kind::Boolean);
    assert_eq!(key.params[1].about, None);
    assert_eq!(key.required, vec!["keysym"]);
    let ctx = tools.iter().find(|t| t.name == "scan_context").unwrap();
    assert_eq!(ctx.params[0].kind, Kind::Integers);
    assert_eq!(ctx.required, vec!["values"]);
    let stats = tools.iter().find(|t| t.name == "stats").unwrap();
    assert_eq!(stats.params[0].kind, Kind::Any);
    assert_eq!(stats.about, "Read the stat block at a known base (from find_stats).");
    let map = tools.iter().find(|t| t.name == "get_map").unwrap();
    assert_eq!((map.params.len(), map.required.len()), (4, 0));
    assert_eq!(tools.last().unwrap().name, "probe_cell");
}

#[test]
fn reading_tools_take_their_arguments() {
    assert_eq!(call("get_game_state", vec![]), shown(Plan::GetGameState));
    assert_eq!(call("luigi_raw", vec![]), shown(Plan::LuigiRaw));
    assert_eq!(call("map_header", vec![]), shown(Plan::MapHeader));
    assert_eq!(call("player", vec![]), shown(Plan::Player));
    assert_eq!(call("dump_status", vec![]), shown(Plan::Dump { dump: DumpTool::Status }));
    assert_eq!(
        call("get_map", vec![("y0", Arg::Int(4))]),
        shown(Plan::GetMap { bbox: None })
    );
    // any value for x0 makes it a box; what is no number counts as zero
    assert_eq!(
        call("get_map", vec![("x0", Arg::Null), ("x1", Arg::Int(1 << 32 | 7)), ("y1", Arg::Real)]),
        shown(Plan::GetMap { bbox: Some((0, 0, 7, 0)) })
    );
    assert_eq!(
        call("probe_cell", vec![("x", Arg::Int(-1)), ("y", Arg::Big(u64::MAX))]),
        shown(Plan::ProbeCell { x: -1, y: 0 })
    );
    assert_eq!(call("fov", vec![]), shown(Plan::Fov { cap: 400 }));
    assert_eq!(call("fov", vec![("limit", Arg::Int(-1))]), shown(Plan::Fov { cap: u64::MAX }));
}

#[test]
fn dumps_have_a_bounded_budget() {
    let budget = |a: Arg| call("stat_dump", vec![("budget_ms", a)]);
    assert_eq!(call("stat_dump", vec![]), shown(Plan::Dump { dump: DumpTool::Dump { budget_ms: 5000 } }));
    assert_eq!(budget(Arg::Int(1)), shown(Plan::Dump { dump: DumpTool::Dump { budget_ms: 100 } }));
    assert_eq!(budget(Arg::Int(60_001)), shown(Plan::Dump { dump: DumpTool::Dump { budget_ms: 60_000 } }));
    assert_eq!(budget(Arg::Big(u64::MAX)), shown(Plan::Dump { dump: DumpTool::Dump { budget_ms: 60_000 } }));
    assert_eq!(budget(Arg::Int(-1)), shown(Plan::Dump { dump: DumpTool::Dump { budget_ms: 5000 } }));
    assert_eq!(budget(Arg::Int(750)), shown(Plan::Dump { dump: DumpTool::Dump { budget_ms: 750 } }));
}

#[test]
fn stats_need_their_values() {
    assert_eq!(
        call("find_stats", vec![("integrity", Arg::Int(250)), ("matter", Arg::Int(228))]),
        shown(Plan::FindStats { integrity: 250, matter: 228 })
    );
    assert_eq!(call("find_stats", vec![("matter", Arg::Int(1))]), refused(Error::StatsArguments));
    assert_eq!(
        call("find_stats", vec![("integrity", Arg::Int(0x8000_0000)), ("matter", Arg::Int(1))]),
        refused(Error::StatsArguments)
    );
    assert_eq!(
        call("stats", vec![("base", text("0x00500000"))]),
        shown(Plan::ReadStats { base: 0x50_0000 })
    );
    assert_eq!(call("stats", vec![("base", Arg::Int(5))]), refused(Error::StatsBase));
    assert_eq!(call("stats", vec![("base", text("0xzz"))]), refused(Error::StatsBase));
    assert_eq!(call("stats", vec![]), refused(Error::StatsBase));
}

#[test]
fn reported_addresses_can_be_given_back() {
    for n in [0u64, 1, 0x40_0000, 0xDEAD_BEEF, 0x1_2345_6789, u64::MAX] {
        assert_eq!(
            call("stats", vec![("base", text(&address_text(n)))]),
            shown(Plan::ReadStats { base: n })
        );
    }
}

#[test]
fn scan_tools_take_their_arguments() {
    assert_eq!(call("scan_new", vec![("value", Arg::Int(-4))]), shown(Plan::ScanNew { value: -4 }));
    assert_eq!(call("scan_new", vec![]), shown(Plan::ScanNew { value: 0 }));
    assert_eq!(call("scan_filter", vec![("value", Arg::Int(9))]), shown(Plan::ScanFilter { value: 9 }));
    assert_eq!(call("scan_changed", vec![("old", Arg::Int(9))]), shown(Plan::ScanChanged { was: 9 }));
    assert_eq!(
        call("scan_ptr_to", vec![("lo", text("0x0x10")), ("hi", Arg::Int(-1))]),
        shown(Plan::ScanPtrTo { lo: 0x10, hi: u32::MAX })
    );
    for v in [
        vec![("lo", text("20")), ("hi", text("1f"))],
        vec![("lo", text("100000000")), ("hi", text("ffffffff"))],
        vec![("lo", text("1"))],
        vec![("lo", text("1")), ("hi", Arg::Bool(true))],
    ] {
        assert_eq!(call("scan_ptr_to", v), refused(Error::PointerRange));
    }
    let list = Arg::List(vec![Some(5), None, Some((1 << 32) - 1)]);
    assert_eq!(
        call("scan_context", vec![("values", list), ("window", Arg::Int(1))]),
        shown(Plan::ScanContext { values: vec![5, -1], window: 8 })
    );
    assert_eq!(
        call("scan_context", vec![("values", Arg::List(vec![Some(1)])), ("window", Arg::Int(9999))]),
        shown(Plan::ScanContext { values: vec![1], window: 4096 })
    );
    assert_eq!(
        call("scan_context", vec![("values", Arg::List(vec![None]))]),
        refused(Error::ContextValues)
    );
    assert_eq!(call("scan_context", vec![("values", Arg::Table)]), refused(Error::ContextValues));
    assert_eq!(
        call("read_window", vec![("addr", text("+40"))]),
        shown(Plan::ReadWindow { addr: 0x40, words: 16 })
    );
    assert_eq!(
        call("read_window", vec![("addr", Arg::Int(64)), ("words", Arg::Int(1000))]),
        shown(Plan::ReadWindow { addr: 64, words: 256 })
    );
    assert_eq!(call("read_window", vec![("addr", text(""))]), refused(Error::WindowAddress));
}

#[test]
fn blit_tools_share_their_beginning() {
    assert_eq!(call("blit_status", vec![]), shown(Plan::Blit { blit: BlitTool::Status }));
    assert_eq!(call("blit_enable", vec![]), shown(Plan::Blit { blit: BlitTool::Enable { on: true } }));
    assert_eq!(
        call("blit_enable", vec![("on", Arg::Bool(false))]),
        shown(Plan::Blit { blit: BlitTool::Enable { on: false } })
    );
    assert_eq!(call("blit_enable", vec![("on", Arg::Int(0))]), shown(Plan::Blit { blit: BlitTool::Enable { on: true } }));
    assert_eq!(call("blit_clear", vec![]), shown(Plan::Blit { blit: BlitTool::Clear }));
    assert_eq!(call("blit_view", vec![]), shown(Plan::Blit { blit: BlitTool::View }));
    assert_eq!(call("blit_screen", vec![]), shown(Plan::Blit { blit: BlitTool::Screen }));
    assert_eq!(call("blit_frame", vec![]), shown(Plan::Blit { blit: BlitTool::Frame { limit: 16384 } }));
    assert_eq!(
        call("blit_frame", vec![("limit", Arg::Int(-3))]),
        shown(Plan::Blit { blit: BlitTool::Frame { limit: 1 } })
    );
    assert_eq!(call("blit_", vec![]), shown(Plan::Blit { blit: BlitTool::Unknown }));
    assert_eq!(call("blit_statu", vec![]), shown(Plan::Blit { blit: BlitTool::Unknown }));
    assert_eq!(call("blit", vec![]), shown(Plan::Unknown));
    assert_eq!(call("BLIT_status", vec![]), shown(Plan::Unknown));
    assert_eq!(unknown_blit_tool("blit_x"), "unknown blit tool: blit_x");
    assert_eq!(unknown_tool("dance"), "Unknown tool: dance");
}

fn stroke(keysym: u16, mods: u16, unicode: u16, repeat: u16) -> String {
    shown(Plan::Submit(MailboxCmd::Key { keysym, mods, unicode, repeat }))
}

#[test]
fn directions_are_keys_of_the_keypad() {
    let keys = [
        ("move_north", 264), ("move_northeast", 265), ("move_east", 262), ("move_southeast", 259),
        ("move_south", 258), ("move_southwest", 257), ("move_west", 260), ("move_northwest", 263),
    ];
    for (name, keysym) in keys {
        // modifiers do not apply to them
        assert_eq!(call(name, vec![("ctrl", Arg::Bool(true))]), stroke(keysym, 0, 0, 1));
    }
    assert_eq!(call("attach", vec![]), stroke(97, 0, 97, 1));
    assert_eq!(call("fire", vec![]), stroke(102, 0, 102, 1));
}

#[test]
fn keys_take_modifiers_and_bounds() {
    let key = |v: Vec<(&str, Arg)>| call("key", v);
    assert_eq!(key(vec![("keysym", Arg::Int(27))]), stroke(27, 0, 0, 1));
    assert_eq!(
        key(vec![
            ("keysym", Arg::Int(65535)),
            ("ctrl", Arg::Bool(true)),
            ("shift", Arg::Bool(true)),
            ("alt", Arg::Bool(true)),
            ("unicode", Arg::Int(70_000)),
            ("repeat", Arg::Int(300)),
        ]),
        stroke(65535, 0x141, 65535, 255)
    );
    assert_eq!(
        key(vec![("keysym", Arg::Int(1)), ("unicode", Arg::Int(-1)), ("repeat", Arg::Int(0))]),
        stroke(1, 0, 0, 1)
    );
    for bad in [Arg::Int(0), Arg::Int(65536), Arg::Int(-1), text("27")] {
        assert_eq!(key(vec![("keysym", bad)]), refused(Error::KeysymRange));
    }
    assert_eq!(key(vec![]), refused(Error::KeysymRange));
}

#[test]
fn texts_have_to_fit() {
    assert_eq!(call("text", vec![]), refused(Error::TextRequired));
    assert_eq!(call("text", vec![("text", Arg::Int(1))]), refused(Error::TextRequired));
    let longest = "\u{E9}".repeat(32);
    assert_eq!(
        call("text", vec![("text", text(&longest))]),
        shown(Plan::Submit(MailboxCmd::Text(longest.clone())))
    );
    let longer = format!("{}a", longest);
    assert_eq!(
        call("text", vec![("text", text(&longer))]),
        refused(Error::TextTooLong { len: 65 })
    );
}

#[test]
fn clicks_have_a_button() {
    assert_eq!(
        call("mouse_click", vec![("x", Arg::Int(5)), ("y", Arg::Int(6))]),
        shown(Plan::Submit(MailboxCmd::MouseClick { x: 5, y: 6, button: 1 }))
    );
    assert_eq!(
        call("mouse_click", vec![("button", Arg::Int(9))]),
        shown(Plan::Submit(MailboxCmd::MouseClick { x: 0, y: 0, button: 5 }))
    );
    assert_eq!(
        call("mouse_move", vec![("x", Arg::Int(-5))]),
        shown(Plan::Submit(MailboxCmd::MouseMove { x: -5, y: 0 }))
    );
    let direct = execute_tool(&"player".to_string(), &Args::none());
    assert!(matches!(direct, Plan::Unknown));
}

#[test]
fn arguments_are_looked_up_by_their_first_entry() {
    let a = args(vec![("k", Arg::Int(1)), ("k", Arg::Int(2)), ("b", Arg::Bool(true))]);
    assert_eq!(a.int_or("k", 9), 1);
    assert_eq!(a.int_or("b", 9), 9);
    assert_eq!(a.int_or("missing", 9), 9);
    assert!(a.bool_or("b", false));
    assert_eq!(a.nat_or("k", 0), 1);
    assert_eq!(a.clamped("k", 5, 3, 7), 3);
}

#[test]
fn scans_narrow_what_the_server_keeps() {
    let mut server = McpServer::new();
    assert!(server.scan_candidates.is_empty());
    assert!(server.blit_addr.is_none() && server.scoresheet_addr.is_none());
    let mut block = Vec::new();
    for i in 0..100u32 {
        block.extend_from_slice(&(if i % 2 == 0 { 7u32 } else { 1 }).to_le_bytes());
    }
    let s = scan_new(vec![(0x1000, 0x1190)], 7).supply(Reply::Bytes(block));
    let r = server.take_scan(7, s);
    assert_eq!((r.value, r.candidates, r.sample.len()), (7, 50, 12));
    assert_eq!(r.sample[1], "0x00001008");
    assert_eq!(server.scan_candidates.len(), 50);
    server.scan_candidates.truncate(3);

    let mut s = scan_filter(server.scan_candidates.clone(), 8);
    for v in [8u32, 7, 8] {
        s = s.supply(Reply::Bytes(v.to_le_bytes().to_vec()));
    }
    let r = server.take_filter(8, s);
    assert_eq!((r.value, r.before, r.candidates), (8, 3, 2));
    assert_eq!(r.addresses, vec!["0x00001000".to_string(), "0x00001010".to_string()]);

    let mut s = scan_changed(server.scan_candidates.clone(), 8);
    s = s.supply(Reply::Failed(14));
    s = s.supply(Reply::Bytes(vec![9, 0, 0, 0]));
    let r = server.take_changed(8, s);
    assert_eq!((r.was, r.before, r.candidates), (8, 2, 1));
    assert_eq!((r.changed[0].addr.as_str(), r.changed[0].now), ("0x00001010", 9));

    let s = scan_context(server.scan_candidates.clone(), vec![3], 8);
    let s = s.supply(Reply::Bytes(vec![3, 0, 0, 0, 0, 0, 0, 0, 9, 0, 0, 0, 0, 0, 0, 0, 0, 0, 0, 0]));
    let r = server.take_context(s);
    assert_eq!((r.before, r.candidates, r.hits.len()), (1, 1, 1));
    assert_eq!(r.hits[0].addr, "0x00001010");
    assert_eq!((r.hits[0].found[0].value, r.hits[0].found[0].rel.as_str()), (3, "-0x8"));
    assert_eq!(server.scan_candidates, vec![0x1010]);
}

#[test]
fn only_scans_change_the_candidates() {
    let mut server = McpServer::new();
    server.scan_candidates = vec![0x1000, 0x1004];
    // a scan that fails
    let failed = Finding::Fresh(Err(Error::RegionsUnsupported));
    let r = server.take(&Plan::ScanNew { value: 7 }, failed);
    assert!(matches!(r, Report::Failed { error: Error::RegionsUnsupported }));
    assert_eq!(server.scan_candidates, vec![0x1000, 0x1004]);
    // a call that is refused
    let p = plan(&"scan_context".to_string(), &args(vec![("values", Arg::List(vec![None]))]));
    assert!(matches!(p, Plan::Refused { error: Error::ContextValues }));
    assert!(matches!(server.take(&p, Finding::Nothing), Report::Nothing));
    assert_eq!(server.scan_candidates, vec![0x1000, 0x1004]);
    // other tools
    server.take(&Plan::Blit { blit: BlitTool::View }, Finding::Log(Some(0x2000)));
    server.take(&Plan::Dump { dump: DumpTool::Status }, Finding::Channel(Some(0x3000)));
    assert_eq!((server.blit_addr, server.scoresheet_addr), (Some(0x2000), Some(0x3000)));
    assert_eq!(server.scan_candidates, vec![0x1000, 0x1004]);
    // narrowing
    let s = scan_filter(server.scan_candidates.clone(), 8)
        .supply(Reply::Bytes(vec![7, 0, 0, 0]))
        .supply(Reply::Bytes(vec![8, 0, 0, 0]));
    match server.take(&Plan::ScanFilter { value: 8 }, Finding::Filtered(s)) {
        Report::Filtered(r) => assert_eq!((r.before, r.candidates), (2, 1)),
        other => panic!("{:?}", other),
    }
    assert_eq!(server.scan_candidates, vec![0x1004]);
    let s = scan_new(vec![(0x1000, 0x1008)], 3).supply(Reply::Bytes(vec![3, 0, 0, 0, 3, 0, 0, 0]));
    let r = server.take(&Plan::ScanNew { value: 3 }, Finding::Fresh(Ok(s)));
    assert!(matches!(r, Report::Fresh(_)));
    assert_eq!(server.scan_candidates, vec![0x1000, 0x1004]);
    assert_eq!((server.blit_addr, server.scoresheet_addr), (Some(0x2000), Some(0x3000)));
}

#[test]
fn reports_show_the_beginning() {
    assert_eq!(sample(&vec![1, 2, 3], 2), vec!["0x00000001".to_string(), "0x00000002".to_string()]);
    assert_eq!(distance_text(-16), "-0x10");
    assert_eq!(distance_text(0), "+0x0");
    assert_eq!(distance_text(255), "+0xff");
    assert_eq!(offset_text(0), "+0x00");
    assert_eq!(offset_text(100), "+0x190");
    let hits: Vec<(u64, u32)> = (0..60).map(|i| (0x003F_FFF0 + i, i as u32)).collect();
    let r = pointer_report(1, 2, &hits);
    assert_eq!((r.lo.as_str(), r.hi.as_str(), r.references), ("0x00000001", "0x00000002", 60));
    assert_eq!(r.sample.len(), 24);
    assert_eq!((r.sample[0].at.as_str(), r.sample[0].points_to.as_str()), ("0x003FFFF0", "0x00000000"));
    assert_eq!(r.static_or_low_refs.len(), 40);
    assert_eq!(r.static_or_low_refs[0].at, "0x00400000");
    let edge = pointer_report(1, 2, &vec![(0x0100_0000, 1), (0x0100_0001, 1)]);
    assert_eq!(edge.static_or_low_refs.len(), 1);
}

#[test]
fn the_root_of_the_mirror_is_shown_raw() {
    let ai = LuigiAi {
        magic1: 1689123404,
        magic2: 1,
        action_ready: 3,
        map_width: 4,
        map_height: 5,
        location_depth: -6,
        location_map: 7,
        map_data: 0xABC,
        map_cursor_index: 8,
        player: 0xDEF,
        machine_hacking: 0,
    };
    let addrs = Addrs {
        build_stamp: 0x65,
        luigi: 0xCD_0000,
        map_object: 0xCE_0000,
        player_rec: None,
        view_origin: 1,
    };
    let r = luigi_raw(&ai, Some(addrs));
    assert_eq!((r.base_addr.as_str(), r.magic1_ok, r.magic2_ok), ("0x00CD0000", true, false));
    assert_eq!((r.map_data.as_str(), r.player.as_str()), ("0x00000ABC", "0x00000DEF"));
    assert_eq!(luigi_raw(&ai, None).base_addr, "0x00000000");
    let h = map_header((3, 2, 0x10), Some(addrs));
    assert_eq!((h.build.as_str(), h.map_obj.as_str()), ("0x00000065", "0x00CE0000"));
    assert_eq!((h.player_rec_known, h.width, h.height), (false, 3, 2));
    assert_eq!(h.cells_base, "0x00000010");
    assert_eq!(map_header((3, 2, 0x10), None).map_obj, "0x00000000");
}

#[test]
fn another_mailbox_version_is_warned_of() {
    assert_eq!(version_warning(2), None);
    assert_eq!(
        version_warning(1),
        Some("WARNING: mailbox is v1 but statmind expects v2. Rebuild SDL.dll.".to_string())
    );
}
