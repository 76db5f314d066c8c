//! That contracts speak of what is reported: a view shows every field under its own name.

use crate::args::{Arg, ArgView, Args};
use crate::blit_job;
use crate::cells::{CellProbe, CoordVec, DirectCell, PlayerRec, Stats};
use crate::common;
use crate::dump_job;
use crate::ids;
use crate::ids::{IdTable, TableError};
use crate::mailbox;
use crate::mailbox::{Command, MailboxCmd};
use crate::mcp;
use crate::mcp::{Changed, ContextHit, McpServer, Near, Pointer};
use crate::memory::{Answer, Reply, Write};
use crate::plan::{Plan, Request};
use crate::scoresheet::DumpStatus;
use crate::session::{Finding, Found};
use crate::state;
use crate::state::{EntityInfo, GameState, ItemInfo, PropInfo, TileInfo};
use crate::submit;
use crate::tools;
use crate::tools::{Param, Tool};
use vstd::prelude::*;

verus! {

/// An entity is seen as it is.
pub proof fn entity_is_seen_as_it_is(v: EntityInfo)
    ensures
        match v.name {
            Some(x) => v@.name == Some(x@),
            None => v@.name is None,
        },
        v@.raw_id == v.raw_id,
        v@.integrity == v.integrity,
        v@.relation == v.relation,
        v@.active_state == v.active_state,
        v@.exposure == v.exposure,
        v@.energy == v.energy,
        v@.matter == v.matter,
        v@.heat == v.heat,
        v@.system_corruption == v.system_corruption,
        v@.speed == v.speed,
        v@.inventory_size == v.inventory_size,
{
}

/// A prop is seen as it is.
pub proof fn prop_is_seen_as_it_is(v: PropInfo)
    ensures
        match v.name {
            Some(x) => v@.name == Some(x@),
            None => v@.name is None,
        },
        v@.raw_id == v.raw_id,
        v@.interactive_piece == v.interactive_piece,
{
}

/// An item is seen as it is.
pub proof fn item_is_seen_as_it_is(v: ItemInfo)
    ensures
        match v.name {
            Some(x) => v@.name == Some(x@),
            None => v@.name is None,
        },
        v@.raw_id == v.raw_id,
        v@.integrity == v.integrity,
        v@.equipped == v.equipped,
{
}

/// A tile is seen as it is.
pub proof fn tile_is_seen_as_it_is(v: TileInfo)
    ensures
        v@.last_action == v.last_action,
        v@.last_fov == v.last_fov,
        match v.cell {
            Some(x) => v@.cell == Some(x@),
            None => v@.cell is None,
        },
        v@.raw_cell == v.raw_cell,
        v@.door_open == v.door_open,
        match v.prop {
            Some(x) => v@.prop == Some(x@),
            None => v@.prop is None,
        },
        match v.entity {
            Some(x) => v@.entity == Some(x@),
            None => v@.entity is None,
        },
        match v.item {
            Some(x) => v@.item == Some(x@),
            None => v@.item is None,
        },
        v@.x == v.x,
        v@.y == v.y,
{
}

/// The game state is seen as it is.
pub proof fn game_is_seen_as_it_is(v: GameState)
    ensures
        v@.action_ready == v.action_ready,
        v@.map_width == v.map_width,
        v@.map_height == v.map_height,
        v@.location == v.location@,
        v@.map_cursor_index == v.map_cursor_index,
        v@.player_at == (v.player_x as int, v.player_y as int),
        v@.player == v.player@,
        v@.item_stride == v.item_stride as int,
        v@.machine_hacking == v.machine_hacking,
        v@.inventory.len() == v.inventory@.len(),
        forall|i: int| 0 <= i < v.inventory@.len() ==> #[trigger] v@.inventory[i] == v.inventory@[i]@,
        v@.map.len() == v.map@.len(),
        forall|c: int|
            0 <= c < v.map@.len() ==> (#[trigger] v@.map[c]).len() == v.map@[c]@.len(),
        forall|c: int, i: int|
            0 <= c < v.map@.len() && 0 <= i < v.map@[c]@.len() ==> #[trigger] v@.map[c][i]
                == v.map@[c]@[i]@,
{
}

/// A cell is seen as it is.
pub proof fn cell_is_seen_as_it_is(v: DirectCell)
    ensures
        v@.x == v.x,
        v@.y == v.y,
        v@.glyph == v.glyph,
        v@.color == v.color,
        v@.unk_0c == v.unk_0c,
        v@.passable == v.passable,
        v@.transparent == v.transparent,
        v@.unk_2c == v.unk_2c,
        v@.unk_40 == v.unk_40,
        v@.unk_98 == v.unk_98,
        v@.unk_a0 == v.unk_a0,
        v@.cell_id == v.cell_id,
        match v.cell_name {
            Some(x) => v@.cell_name == Some(x@),
            None => v@.cell_name is None,
        },
        v@.type_class == v.type_class,
        v@.prop == v.prop,
        v@.entity == v.entity,
        v@.item_container == v.item_container,
{
}

/// The player record is seen as it is.
pub proof fn player_is_seen_as_it_is(v: PlayerRec)
    ensures
        v@.addr == v.addr@,
        v@.handle == v.handle,
        v@.x == v.x,
        v@.y == v.y,
        v@.entity_id == v.entity_id,
        match v.entity_name {
            Some(x) => v@.entity_name == Some(x@),
            None => v@.entity_name is None,
        },
        v@.plausible == v.plausible,
{
}

/// A stat block is seen as it is.
pub proof fn stats_is_seen_as_it_is(v: Stats)
    ensures
        v@.base == v.base@,
        v@.integrity == v.integrity,
        v@.energy == v.energy,
        v@.matter == v.matter,
        v@.heat == v.heat,
        v@.corruption == v.corruption,
        v@.speed == v.speed,
{
}

/// A container is seen as it is.
pub proof fn container_is_seen_as_it_is(v: CoordVec)
    ensures
        v@.member_offset == v.member_offset@,
        v@.first == v.first,
        v@.last == v.last,
        v@.end == v.end,
        v@.len == v.len as int,
        v@.capacity == v.capacity as int,
        v@.plausible == v.plausible,
        v@.coords == v.coords@,
{
}

/// A probe is seen as it is.
pub proof fn probe_is_seen_as_it_is(v: CellProbe)
    ensures
        v@.x == v.x,
        v@.y == v.y,
        v@.index == v.index as int,
        v@.slot_addr == v.slot_addr,
        v@.cell_ptr == v.cell_ptr,
        v@.raw_hex == v.raw_hex@,
        match v.decoded {
            Some(x) => v@.decoded == Some(x@),
            None => v@.decoded is None,
        },
        v@.type_ptr == v.type_ptr,
        v@.type_raw_hex == v.type_raw_hex@,
        v@.note == v.note@,
{
}

/// The state of the score sheet channel is seen as it is.
pub proof fn channel_is_seen_as_it_is(v: DumpStatus)
    ensures
        v@.addr == v.addr@,
        v@.status == v.status,
        v@.status_text == v.status_text@,
        v@.module_base == v.module_base@,
        v@.writer == v.writer@,
        v@.scorekeeper == v.scorekeeper@,
        v@.req == v.req,
        v@.done == v.done,
        v@.last_result == v.last_result,
        v@.last_result_text == v.last_result_text@,
        v@.calls == v.calls,
        v@.returned == v.returned@,
        v@.ret_raw == v.ret_raw@,
{
}

/// A command is seen as it is.
pub proof fn command_is_seen_as_it_is(v: MailboxCmd)
    ensures
        match v {
            MailboxCmd::Key { keysym, mods, unicode, repeat } => v@ == (Command::Key {
                keysym,
                mods,
                unicode,
                repeat,
            }),
            MailboxCmd::Text(t) => v@ == Command::Text(t@),
            MailboxCmd::MouseMove { x, y } => v@ == (Command::MouseMove { x, y }),
            MailboxCmd::MouseClick { x, y, button } => v@ == (Command::MouseClick { x, y, button }),
            MailboxCmd::Dump { budget_ms } => v@ == (Command::Dump { budget_ms }),
        },
{
}

/// An argument is seen as it is.
pub proof fn argument_is_seen_as_it_is(v: Arg)
    ensures
        match v {
            Arg::Null => v@ == ArgView::Null,
            Arg::Bool(b) => v@ == ArgView::Bool(b),
            Arg::Int(n) => v@ == ArgView::Int(n),
            Arg::Big(n) => v@ == ArgView::Big(n),
            Arg::Real => v@ == ArgView::Real,
            Arg::Text(s) => v@ == ArgView::Text(s@),
            Arg::List(l) => v@ == ArgView::List(l@),
            Arg::Table => v@ == ArgView::Table,
        },
{
}

/// The arguments of a call are seen as they are, in their order.
pub proof fn arguments_are_seen_as_they_are(v: Args, i: int)
    requires
        0 <= i < v.entries@.len(),
    ensures
        v@.entries.len() == v.entries@.len(),
        v@.entries[i] == (v.entries@[i].key@, v.entries@[i].value@),
{
}

/// A write, and what a read brings, are seen as they are.
pub proof fn exchanges_are_seen_as_they_are(w: Write, r: Reply)
    ensures
        w@.addr == w.addr,
        w@.bytes == w.bytes@,
        match r {
            Reply::Bytes(b) => r@ == Answer::Bytes(b@),
            Reply::Failed(code) => r@ == Answer::Failed(code),
        },
{
}

/// A plan is seen as it is: every value under its own name.
pub proof fn plan_is_seen_as_it_is(p: Plan)
    ensures
        p is GetGameState <==> p@ is GetGameState,
        p is LuigiRaw <==> p@ is LuigiRaw,
        p is Player <==> p@ is Player,
        p is MapHeader <==> p@ is MapHeader,
        p is Unknown <==> p@ is Unknown,
        p matches Plan::GetMap { bbox: b } ==> p@ == (Request::GetMap { bbox: b }),
        p matches Plan::Dump { dump: d } ==> p@ == (Request::Dump { dump: d }),
        p matches Plan::Blit { blit: b } ==> p@ == (Request::Blit { blit: b }),
        p matches Plan::FindStats { integrity: i, matter: m } ==> p@ == (Request::FindStats {
            integrity: i,
            matter: m,
        }),
        p matches Plan::ReadStats { base: b } ==> p@ == (Request::ReadStats { base: b }),
        p matches Plan::ScanNew { value: v } ==> p@ == (Request::ScanNew { value: v }),
        p matches Plan::ScanFilter { value: v } ==> p@ == (Request::ScanFilter { value: v }),
        p matches Plan::ScanChanged { was: w } ==> p@ == (Request::ScanChanged { was: w }),
        p matches Plan::ScanPtrTo { lo: l, hi: h } ==> p@ == (Request::ScanPtrTo { lo: l, hi: h }),
        p matches Plan::ScanContext { values: v, window: w } ==> p@ == (Request::ScanContext {
            values: v@,
            window: w,
        }),
        p matches Plan::ReadWindow { addr: a, words: w } ==> p@ == (Request::ReadWindow {
            addr: a,
            words: w,
        }),
        p matches Plan::Fov { cap: c } ==> p@ == (Request::Fov { cap: c }),
        p matches Plan::ProbeCell { x: a, y: b } ==> p@ == (Request::ProbeCell { x: a, y: b }),
        p matches Plan::Submit(c) ==> p@ == Request::Submit(c@),
        p matches Plan::Refused { error: e } ==> p@ == (Request::Refused { error: e }),
{
}

/// The server, and what carrying out a plan has brought, are seen as they are.
pub proof fn session_is_seen_as_it_is(s: McpServer, f: Finding)
    ensures
        s@.located == s.located,
        s@.blit_addr == s.blit_addr,
        s@.scoresheet_addr == s.scoresheet_addr,
        s@.candidates == s.scan_candidates@,
        f matches Finding::Fresh(Ok(w)) ==> f@ == Found::Fresh(Ok(w@)),
        f matches Finding::Fresh(Err(e)) ==> f@ == Found::Fresh(Err(e)),
        f matches Finding::Filtered(w) ==> f@ == Found::Filtered(w@),
        f matches Finding::Changed(w) ==> f@ == Found::Changed(w@),
        f matches Finding::Near(w) ==> f@ == Found::Near(w@),
        f matches Finding::Log(a) ==> f@ == Found::Log(a),
        f matches Finding::Channel(a) ==> f@ == Found::Channel(a),
        f is Nothing ==> f@ is Nothing,
{
}

/// A table of names and what is wrong with one are seen as they are.
pub proof fn table_is_seen_as_it_is(t: IdTable, i: int, e: TableError)
    ensures
        t@.len() == t.entries@.len(),
        0 <= i < t.entries@.len() ==> t@[i].0 == t.entries@[i].id && t@[i].1
            == t.entries@[i].name@,
        e matches TableError::NoName(s) ==> e@ == ids::TableFault::NoName(s@),
        e matches TableError::BadId(s) ==> e@ == ids::TableFault::BadId(s@),
{
}

/// A tool that is offered is seen as it is.
pub proof fn tool_is_seen_as_it_is(t: Tool, p: Param, i: int)
    ensures
        t@.name == t.name@,
        t@.about == t.about@,
        t@.params.len() == t.params@.len(),
        0 <= i < t.params@.len() ==> t@.params[i] == t.params@[i]@,
        t@.required.len() == t.required@.len(),
        0 <= i < t.required@.len() ==> t@.required[i] == t.required@[i]@,
        p@.name == p.name@,
        p@.kind == p.kind,
        p@.about is Some <==> p.about is Some,
        p.about matches Some(s) ==> p@.about == Some(s@),
{
}

/// What a submission does, and what came of it, are seen as they are.
pub proof fn submission_is_seen_as_it_is(a: submit::Action, e: submit::Event)
    ensures
        a matches submit::Action::Read(q) ==> a@ == submit::Deed::Read(q),
        a matches submit::Action::Protect { addr: p, len: n } ==> a@ == (submit::Deed::Protect {
            addr: p,
            len: n,
        }),
        a matches submit::Action::Write(w) ==> a@ == submit::Deed::Write(w@),
        a is Sample ==> a@ is Sample,
        a is Start ==> a@ is Start,
        a is Clock ==> a@ is Clock,
        a matches submit::Action::Sleep(ms) ==> a@ == submit::Deed::Sleep(ms),
        a is Over ==> a@ is Over,
        e matches submit::Event::Reply(r) ==> e@ == submit::Outcome::Reply(r@),
        e matches submit::Event::Protected(r) ==> e@ == submit::Outcome::Protected(r),
        e matches submit::Event::Written(c) ==> e@ == submit::Outcome::Written(c),
        e matches submit::Event::Sampled(n) ==> e@ == submit::Outcome::Sampled(n),
        e matches submit::Event::Elapsed(ms) ==> e@ == submit::Outcome::Elapsed(ms),
        e is Done ==> e@ is Done,
{
}

/// What work on the log and on the channel does, and what came of it, are seen as they are.
pub proof fn work_is_seen_as_it_is(
    a: blit_job::Action,
    e: blit_job::Event,
    d: dump_job::Event,
)
    ensures
        a is Find ==> a@ is Find,
        a is Header ==> a@ is Header,
        a is Addrs ==> a@ is Addrs,
        a matches blit_job::Action::Read(q) ==> a@ == blit_job::Deed::Read(q),
        a matches blit_job::Action::Protect { addr: p, len: n } ==> a@ == (
        blit_job::Deed::Protect { addr: p, len: n }),
        a matches blit_job::Action::Write(w) ==> a@ == blit_job::Deed::Write(w@),
        a is Over ==> a@ is Over,
        e matches blit_job::Event::Found(r) ==> e@ == blit_job::Outcome::Found(r),
        e matches blit_job::Event::Header(r) ==> e@ == blit_job::Outcome::Header(r),
        e matches blit_job::Event::Addrs(r) ==> e@ == blit_job::Outcome::Addrs(r),
        e matches blit_job::Event::Reply(r) ==> e@ == blit_job::Outcome::Reply(r@),
        e matches blit_job::Event::Protected(r) ==> e@ == blit_job::Outcome::Protected(r),
        e matches blit_job::Event::Written(c) ==> e@ == blit_job::Outcome::Written(c),
        d matches dump_job::Event::Found(r) ==> d@ == dump_job::Outcome::Found(r),
        d matches dump_job::Event::Reply(r) ==> d@ == dump_job::Outcome::Reply(r@),
        d matches dump_job::Event::Submitted(Ok(s)) ==> d@ == dump_job::Outcome::Submitted(Ok(s@)),
        d matches dump_job::Event::Submitted(Err(s)) ==> d@ == dump_job::Outcome::Submitted(
            Err(s@),
        ),
{
}

/// Lists that are reported are seen as they are, each element in its place.
pub proof fn reported_lists_are_seen_as_they_are(
    t: Seq<String>,
    c: Seq<Changed>,
    n: Seq<Near>,
    h: Seq<ContextHit>,
    p: Seq<Pointer>,
    i: int,
)
    ensures
        mcp::texts(t).len() == t.len(),
        0 <= i < t.len() ==> mcp::texts(t)[i] == t[i]@,
        mcp::changed_view(c).len() == c.len(),
        0 <= i < c.len() ==> mcp::changed_view(c)[i].0 == c[i].addr@ && mcp::changed_view(c)[i].1
            == c[i].now,
        mcp::near_view(n).len() == n.len(),
        0 <= i < n.len() ==> mcp::near_view(n)[i].0 == n[i].value && mcp::near_view(n)[i].1
            == n[i].rel@,
        mcp::hits_view(h).len() == h.len(),
        0 <= i < h.len() ==> mcp::hits_view(h)[i].0 == h[i].addr@ && mcp::hits_view(h)[i].1
            == mcp::near_view(h[i].found@),
        mcp::pointers_view(p).len() == p.len(),
        0 <= i < p.len() ==> mcp::pointers_view(p)[i].0 == p[i].at@ && mcp::pointers_view(p)[i].1
            == p[i].points_to@,
{
}

/// Lists that are worked on are seen as they are, each element in its place.
pub proof fn lists_are_seen_as_they_are(
    m: Seq<Vec<TileInfo>>,
    v: Seq<ItemInfo>,
    w: Seq<Write>,
    t: Seq<Tool>,
    r: Seq<(usize, usize)>,
    i: int,
    j: int,
)
    ensures
        state::columns_view(m).len() == m.len(),
        0 <= i < m.len() ==> state::columns_view(m)[i].len() == m[i]@.len(),
        0 <= i < m.len() && 0 <= j < m[i]@.len() ==> state::columns_view(m)[i][j] == m[i]@[j]@,
        state::items_view(v).len() == v.len(),
        0 <= i < v.len() ==> state::items_view(v)[i] == v[i]@,
        mailbox::writes_view(w).len() == w.len(),
        0 <= i < w.len() ==> mailbox::writes_view(w)[i] == w[i]@,
        tools::tools_view(t).len() == t.len(),
        0 <= i < t.len() ==> tools::tools_view(t)[i] == t[i]@,
        common::spans(r).len() == r.len(),
        0 <= i < r.len() ==> common::spans(r)[i].0 == r[i].0 && common::spans(r)[i].1 == r[i].1,
        common::widened(r).len() == r.len(),
        0 <= i < r.len() ==> common::widened(r)[i].0 == r[i].0 && common::widened(r)[i].1
            == r[i].1,
{
}

} // verus!
