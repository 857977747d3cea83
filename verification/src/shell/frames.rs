//! Frames of the host: what the window does with each, before and after the
//! state that it mirrors has changed.

use crate::attachments::{attachment_id_of, block_attachment};
use crate::json::{text_field, values, Json, JsonValue};
use crate::settings::SettingsStore;
use crate::shell::store::{cfg_values, AppStore, ChatPane};
use crate::text::{cat5, opt_view, owned, str_eq, views};
use crate::trajectory::{fetch_begun, PageRequest};
use vstd::prelude::*;
use vstd::string::*;

verus! {

/// A frame of the host.
#[derive(Debug, PartialEq, Eq)]
pub struct Frame {
    pub method: String,
    pub payload: Json,
}

/// What is left to be done with a frame once the mirrored state has changed.
#[derive(Debug, PartialEq, Eq)]
pub struct FramePlan {
    /// Whether the frame is an event of the current session.
    pub touches_current: bool,
    /// Whether the trajectory in view has to be fetched anew.
    pub trajectory_live: bool,
    /// Whether the billing has to be fetched anew.
    pub billing_due: bool,
    /// The images of the event that have to be read, by their ids.
    pub images: Vec<String>,
}

/// What the host has to be asked for.
#[derive(Debug, PartialEq, Eq)]
pub enum HostRead {
    Sessions,
    HostInfo,
    Workspaces,
    Stats(String),
    Branches,
}

/// What a change of the mirrored state brings with it.
#[derive(Debug, PartialEq, Eq)]
pub enum Effect {
    Sessions,
    HostInfo,
    Stats(String),
    StatsUpsert(String, Json),
}

/// What follows a frame.
#[derive(Debug, PartialEq, Eq)]
pub struct FollowUp {
    pub refresh: Option<PageRequest>,
    pub billing: bool,
    pub run_tick: bool,
    pub lineage_tick: bool,
}

/// Whether a frame is an event of the current session.
pub open spec fn touches(current: Option<Seq<char>>, f: Frame) -> bool {
    &&& f.method@ == "session/event"@
    &&& f.payload.value().field("sessionId"@).as_text() is Some
    &&& f.payload.value().field("sessionId"@).as_text() == current
}

/// The event of a frame.
pub open spec fn event_of(f: Frame) -> JsonValue {
    f.payload.value().field("event"@)
}

/// The type of the event of a frame.
pub open spec fn event_type(f: Frame) -> Option<Seq<char>> {
    event_of(f).field("type"@).as_text()
}

/// The permission that a frame reports.
pub open spec fn reported_mode(f: Frame) -> Option<Seq<char>> {
    if event_type(f) == Some("sandbox/mode"@) {
        event_of(f).field("data"@).field("mode"@).as_text()
    } else {
        None
    }
}

/// The ids of the attachments of content blocks.
pub open spec fn ids_in(blocks: Seq<JsonValue>) -> Seq<Seq<char>>
    decreases blocks.len(),
{
    if blocks.len() == 0 {
        Seq::empty()
    } else {
        let init = ids_in(blocks.drop_last());
        match attachment_id_of(blocks.last()) {
            Some(id) => init.push(id),
            None => init,
        }
    }
}

/// The items of a document, none where it is no list.
pub open spec fn items_or_none(j: JsonValue) -> Seq<JsonValue> {
    match j.as_items() {
        Some(v) => v,
        None => Seq::empty(),
    }
}

/// The ids of the attachments of messages.
pub open spec fn ids_in_messages(items: Seq<JsonValue>) -> Seq<Seq<char>>
    decreases items.len(),
{
    if items.len() == 0 {
        Seq::empty()
    } else {
        ids_in_messages(items.drop_last()) + ids_in(
            items_or_none(items.last().field("message"@).field("content"@)),
        )
    }
}

/// The ids of the attachments that a frame mentions: those of the event, then
/// those of the messages that come with it.
pub open spec fn mentioned(f: Frame) -> Seq<Seq<char>> {
    ids_in(items_or_none(event_of(f).field("data"@).field("content"@))) + ids_in_messages(
        items_or_none(f.payload.value().field("items"@)),
    )
}

/// The ids that are not known yet.
pub open spec fn missing(ids: Seq<Seq<char>>, known: Set<Seq<char>>) -> Seq<Seq<char>> {
    ids.filter(|id: Seq<char>| !known.contains(id))
}

/// What a report of a tool server does: its state is kept, and a failure
/// becomes a notice.
pub open spec fn server_reported(a: SettingsStore, b: SettingsStore, payload: JsonValue) -> bool {
    match payload.field("server"@).as_text() {
        None => b == a,
        Some(server) => {
            let status = text_field(payload, "status"@);
            let error = text_field(payload, "error"@);
            let m = b.mcp_status_by_id@;
            &&& m.dom() == a.mcp_status_by_id@.dom().insert(server)
            &&& m[server].0@ == status
            &&& m[server].1@ == error
            &&& forall|k: Seq<char>|
                k != server && a.mcp_status_by_id@.dom().contains(k) ==> #[trigger] m[k]
                    == a.mcp_status_by_id@[k]
            &&& if status == "failed"@ {
                b.settings_notice matches Some(n) && !n.0 && n.1@ == "MCP server「"@ + server
                    + "」连接失败:"@ + error
            } else {
                b.settings_notice == a.settings_notice
            }
            &&& b == (SettingsStore {
                mcp_status_by_id: b.mcp_status_by_id,
                settings_notice: b.settings_notice,
                ..a
            })
        },
    }
}

impl SettingsStore {
    /// Says what came of an action.
    pub fn set_settings_notice(&mut self, ok: bool, message: &str)
        requires
            old(self).wf(),
        ensures
            final(self).wf(),
            final(self).settings_notice matches Some(n) && n.0 == ok && n.1@ == message@,
            *final(self) == (SettingsStore {
                settings_notice: final(self).settings_notice,
                ..*old(self)
            }),
    {
        self.settings_notice = Some((ok, owned(message)));
    }

    fn report_server(&mut self, payload: &Json)
        requires
            old(self).wf(),
        ensures
            final(self).wf(),
            server_reported(*old(self), *final(self), payload.value()),
    {
        let server = match payload.text_at("server") {
            Some(s) => s,
            None => {
                return ;
            },
        };
        let status = payload.text_or_empty("status");
        let error = payload.text_or_empty("error");
        let failed = str_eq(status.as_str(), "failed");
        let message = cat5("MCP server「", server.as_str(), "」连接失败:", error.as_str(), "");
        proof {
            reveal_strlit("");
            assert(message@ =~= "MCP server「"@ + server@ + "」连接失败:"@ + error@);
        }
        self.mcp_status_by_id.insert(server.as_str(), (status, error));
        if failed {
            self.set_settings_notice(false, message.as_str());
        }
    }
}

fn push_ids(out: &mut Vec<String>, blocks: &Vec<Json>)
    ensures
        views(final(out)@) == views(old(out)@) + ids_in(values(blocks@)),
{
    let ghost start = views(out@);
    let ghost all = values(blocks@);
    let mut i: usize = 0;
    assert(all.take(0) =~= Seq::<JsonValue>::empty());
    assert(start + Seq::<Seq<char>>::empty() =~= start);
    while i < blocks.len()
        invariant
            i <= blocks@.len(),
            all == values(blocks@),
            views(out@) == start + ids_in(all.take(i as int)),
        decreases blocks@.len() - i,
    {
        let ghost before = out@;
        assert(all.take(i + 1).drop_last() =~= all.take(i as int));
        assert(all.take(i + 1).last() == blocks@[i as int].value());
        if let Some(id) = block_attachment(&blocks[i]) {
            out.push(id);
            assert(views(out@) =~= views(before).push(id@));
            assert((start + ids_in(all.take(i as int))).push(id@) =~= start + ids_in(
                all.take(i as int),
            ).push(id@));
        }
        i = i + 1;
    }
    assert(all.take(i as int) =~= all);
}

fn mentioned_ids(f: &Frame) -> (r: Vec<String>)
    ensures
        views(r@) == mentioned(*f),
{
    let mut out: Vec<String> = Vec::new();
    assert(views(out@) =~= Seq::<Seq<char>>::empty());
    let none = Json::Null;
    let event = match f.payload.get("event") {
        Some(e) => e,
        None => &none,
    };
    let data = match event.get("data") {
        Some(d) => d,
        None => &none,
    };
    let ghost first = ids_in(items_or_none(event_of(*f).field("data"@).field("content"@)));
    if let Some(blocks) = data.items_at("content") {
        push_ids(&mut out, blocks);
    }
    assert(views(out@) =~= first);
    let ghost items_value = items_or_none(f.payload.value().field("items"@));
    if let Some(items) = f.payload.items_at("items") {
        let ghost all = values(items@);
        let mut i: usize = 0;
        assert(all.take(0) =~= Seq::<JsonValue>::empty());
        assert(first + Seq::<Seq<char>>::empty() =~= first);
        while i < items.len()
            invariant
                i <= items@.len(),
                all == values(items@),
                none.value() == JsonValue::Null,
                views(out@) == first + ids_in_messages(all.take(i as int)),
            decreases items@.len() - i,
        {
            assert(all.take(i + 1).drop_last() =~= all.take(i as int));
            assert(all.take(i + 1).last() == items@[i as int].value());
            let message = match items[i].get("message") {
                Some(m) => m,
                None => &none,
            };
            let ghost done = ids_in_messages(all.take(i as int));
            let ghost more = ids_in(
                items_or_none(items@[i as int].value().field("message"@).field("content"@)),
            );
            if let Some(blocks) = message.items_at("content") {
                push_ids(&mut out, blocks);
            } else {
                assert(more =~= Seq::<Seq<char>>::empty());
            }
            assert((first + done) + more =~= first + (done + more));
            assert(views(out@) =~= first + ids_in_messages(all.take(i + 1)));
            i = i + 1;
        }
        assert(all.take(i as int) =~= all);
    } else {
        assert(first + ids_in_messages(items_value) =~= first);
    }
    out
}

fn opt_text_is(j: Option<String>, s: &str) -> (r: bool)
    ensures
        r == (opt_view(j) == Some(s@)),
{
    match j {
        Some(t) => str_eq(t.as_str(), s),
        None => false,
    }
}

fn type_is(f: &Frame, kind: &str) -> (r: bool)
    ensures
        r == (event_type(*f) == Some(kind@)),
{
    match f.payload.get("event") {
        Some(e) => opt_text_is(e.text_at("type"), kind),
        None => false,
    }
}

fn mode_of(f: &Frame) -> (r: Option<String>)
    ensures
        opt_view(r) == reported_mode(*f),
{
    if !type_is(f, "sandbox/mode") {
        return None;
    }
    match f.payload.get("event") {
        Some(e) => match e.get("data") {
            Some(d) => d.text_at("mode"),
            None => None,
        },
        None => None,
    }
}

/// What has to be done with a frame, from the state before it.
pub open spec fn plan_of(a: AppStore, f: Frame, p: FramePlan) -> bool {
    let t = touches(a.current(), f);
    &&& p.touches_current == t
    &&& p.trajectory_live == (t && a.trajectory_shown() && event_type(f) == Some("turn/end"@))
    &&& p.billing_due == (t && event_type(f) == Some("turn/end"@))
    &&& views(p.images@) == (if t {
        missing(mentioned(f), a.attachments.image_cache@.dom())
    } else {
        Seq::empty()
    })
}

impl AppStore {
    fn missing_images(&self, ids: Vec<String>) -> (r: Vec<String>)
        requires
            self.wf(),
        ensures
            views(r@) == missing(views(ids@), self.attachments.image_cache@.dom()),
    {
        let ghost all = views(ids@);
        let ghost known = self.attachments.image_cache@.dom();
        let ghost is_new = |id: Seq<char>| !known.contains(id);
        let mut out: Vec<String> = Vec::new();
        let mut i: usize = 0;
        proof {
            assert(all.take(0) =~= Seq::<Seq<char>>::empty());
            reveal(Seq::filter);
            assert(views(out@) =~= Seq::<Seq<char>>::empty());
        }
        while i < ids.len()
            invariant
                self.wf(),
                i <= ids@.len(),
                all == views(ids@),
                known == self.attachments.image_cache@.dom(),
                is_new == (|id: Seq<char>| !known.contains(id)),
                views(out@) == all.take(i as int).filter(is_new),
            decreases ids@.len() - i,
        {
            let ghost before = out@;
            proof {
                assert(all.take(i + 1).drop_last() =~= all.take(i as int));
                assert(all.take(i + 1).last() == ids@[i as int]@);
                reveal(Seq::filter);
            }
            if self.ensure_image_loaded(ids[i].as_str()) {
                out.push(owned(ids[i].as_str()));
                assert(views(out@) =~= views(before).push(ids@[i as int]@));
            }
            i = i + 1;
        }
        assert(all.take(i as int) =~= all);
        out
    }

    /// What is done with a frame before the mirrored state changes. A report
    /// of a tool server is done with; of any other frame the result says what
    /// is left.
    pub fn apply_frame(&mut self, frame: &Frame, at_bottom: bool) -> (r: Option<FramePlan>)
        requires
            old(self).wf(),
        ensures
            final(self).wf(),
            r is None <==> frame.method@ == "mcp/status"@,
            match r {
                None => {
                    &&& server_reported(
                        old(self).settings,
                        final(self).settings,
                        frame.payload.value(),
                    )
                    &&& *final(self) == (AppStore {
                        settings: final(self).settings,
                        ..*old(self)
                    })
                },
                Some(p) => {
                    &&& plan_of(*old(self), *frame, p)
                    &&& cfg_values(final(self).session_cfg_by_id@) == (match reported_mode(*frame) {
                        Some(mode) if p.touches_current => old(self).echoed(mode),
                        _ => cfg_values(old(self).session_cfg_by_id@),
                    })
                    &&& *final(self) == (AppStore {
                        chat: ChatPane {
                            pinned: if p.touches_current {
                                at_bottom
                            } else {
                                old(self).chat.pinned
                            },
                            ..old(self).chat
                        },
                        session_cfg_by_id: final(self).session_cfg_by_id,
                        ..*old(self)
                    })
                },
            },
    {
        if str_eq(frame.method.as_str(), "mcp/status") {
            self.settings.report_server(&frame.payload);
            return None;
        }
        let touches_current = match (&self.state.current_id, frame.payload.text_at("sessionId")) {
            (Some(id), Some(sid)) => str_eq(frame.method.as_str(), "session/event") && str_eq(
                sid.as_str(),
                id.as_str(),
            ),
            _ => false,
        };
        assert(touches_current == touches(self.current(), *frame));
        if !touches_current {
            let images: Vec<String> = Vec::new();
            assert(views(images@) =~= Seq::<Seq<char>>::empty());
            return Some(
                FramePlan { touches_current, trajectory_live: false, billing_due: false, images },
            );
        }
        let turn_end = type_is(frame, "turn/end");
        let trajectory_live = turn_end && self.trajectory_visible();
        let images = self.missing_images(mentioned_ids(frame));
        let plan = FramePlan { touches_current, trajectory_live, billing_due: turn_end, images };
        self.chat.pinned = at_bottom;
        if let Some(mode) = mode_of(frame) {
            self.apply_permission_echo(mode.as_str());
        }
        Some(plan)
    }

    /// What a change of the mirrored state brings with it: what the host has
    /// to be asked for. Statistics that came with it are kept at once.
    pub fn run_effect(&mut self, effect: Effect) -> (r: Vec<HostRead>)
        requires
            old(self).wf(),
        ensures
            final(self).wf(),
            *final(self) == (AppStore { stats_by_id: final(self).stats_by_id, ..*old(self) }),
            match effect {
                Effect::StatsUpsert(id, stats) => final(self).stats_by_id@ == old(
                    self).stats_by_id@.insert(id@, stats),
                _ => final(self).stats_by_id == old(self).stats_by_id,
            },
            r@ == (match effect {
                Effect::Sessions => seq![HostRead::Sessions],
                Effect::HostInfo => seq![HostRead::HostInfo, HostRead::Workspaces],
                Effect::Stats(id) => seq![HostRead::Stats(id), HostRead::Branches],
                Effect::StatsUpsert(_, _) => seq![HostRead::Branches],
            }),
    {
        let mut out: Vec<HostRead> = Vec::new();
        match effect {
            Effect::Sessions => {
                out.push(HostRead::Sessions);
            },
            Effect::HostInfo => {
                out.push(HostRead::HostInfo);
                out.push(HostRead::Workspaces);
            },
            Effect::Stats(id) => {
                out.push(HostRead::Stats(id));
                out.push(HostRead::Branches);
            },
            Effect::StatsUpsert(id, stats) => {
                self.stats_by_id.insert(id.as_str(), stats);
                out.push(HostRead::Branches);
            },
        }
        out
    }

    /// What is done with a frame after the mirrored state has changed: an
    /// event of the current session counts as a change of the chat, the
    /// trajectory in view is fetched anew at the end of a turn, and the clocks
    /// are brought up to date.
    #[verifier::rlimit(40)]
    pub fn finish_frame(&mut self, plan: &FramePlan, at_bottom: bool) -> (r: FollowUp)
        requires
            old(self).wf(),
            old(self).has_room(),
        ensures
            final(self).wf(),
            r.billing == plan.billing_due,
            r.run_tick == (old(self).run_tick_due() && !old(self).run_ticking),
            r.lineage_tick == (old(self).lineage_tick_due() && !old(self).lineage_ticking),
            if plan.trajectory_live {
                fetch_begun(
                    old(self).trajectory,
                    final(self).trajectory,
                    old(self).current(),
                    r.refresh,
                    at_bottom,
                )
            } else {
                r.refresh is None && final(self).trajectory == old(self).trajectory
            },
            *final(self) == (AppStore {
                chat: ChatPane {
                    chat_version: if plan.touches_current {
                        (old(self).chat.chat_version + 1) as u64
                    } else {
                        old(self).chat.chat_version
                    },
                    ..old(self).chat
                },
                trajectory: final(self).trajectory,
                run_ticking: old(self).run_tick_due(),
                lineage_ticking: old(self).lineage_tick_due(),
                ..*old(self)
            }),
    {
        let run_tick = self.sync_run_tick();
        assert(self.state == old(self).state);
        assert(self.lineage_tick_due() == old(self).lineage_tick_due());
        let lineage_tick = self.sync_lineage_tick();
        if plan.touches_current {
            self.chat.chat_version = self.chat.chat_version + 1;
        }
        assert(self.current() == old(self).current());
        let refresh = if plan.trajectory_live {
            self.refresh_trajectory(at_bottom)
        } else {
            None
        };
        FollowUp { refresh, billing: plan.billing_due, run_tick, lineage_tick }
    }
}

/// An event of another session leaves the chat that is shown as it is.
pub proof fn law_other_sessions_do_not_scroll(a: AppStore, f: Frame, p: FramePlan)
    requires
        plan_of(a, f, p),
        f.payload.value().field("sessionId"@).as_text() != a.current(),
    ensures
        !p.touches_current,
        !p.trajectory_live,
        !p.billing_due,
        p.images@.len() == 0,
{
    assert(views(p.images@).len() == p.images@.len());
}

proof fn lemma_ids_in(blocks: Seq<JsonValue>, i: int, id: Seq<char>)
    requires
        0 <= i < blocks.len(),
        attachment_id_of(blocks[i]) == Some(id),
    ensures
        ids_in(blocks).contains(id),
    decreases blocks.len(),
{
    let init = ids_in(blocks.drop_last());
    if i < blocks.len() - 1 {
        lemma_ids_in(blocks.drop_last(), i, id);
        let k = choose|k: int| 0 <= k < init.len() && init[k] == id;
        assert(ids_in(blocks)[k] == id);
    } else {
        assert(ids_in(blocks).last() == id);
    }
}

proof fn lemma_missing(ids: Seq<Seq<char>>, known: Set<Seq<char>>, id: Seq<char>)
    ensures
        missing(ids, known).contains(id) <==> ids.contains(id) && !known.contains(id),
    decreases ids.len(),
{
    reveal(Seq::filter);
    let f = |x: Seq<char>| !known.contains(x);
    if ids.len() > 0 {
        let init = ids.drop_last();
        lemma_missing(init, known, id);
        let m = init.filter(f);
        if ids.contains(id) {
            let k = choose|k: int| 0 <= k < ids.len() && ids[k] == id;
            if k < ids.len() - 1 {
                assert(init[k] == id);
            }
        }
        if init.contains(id) {
            let k = choose|k: int| 0 <= k < init.len() && init[k] == id;
            assert(ids[k] == id);
        }
        if f(ids.last()) {
            assert(ids.filter(f) == m.push(ids.last()));
            if m.contains(id) {
                let k = choose|k: int| 0 <= k < m.len() && m[k] == id;
                assert(m.push(ids.last())[k] == id);
            }
            assert(m.push(ids.last()).last() == ids.last());
            if m.push(ids.last()).contains(id) && !m.contains(id) {
                let k = choose|k: int|
                    0 <= k < m.push(ids.last()).len() && m.push(ids.last())[k] == id;
                assert(k < m.len() ==> m[k] == id);
            }
        } else {
            assert(ids.filter(f) == m);
        }
    }
}

/// An image in the content of an event of the current session is read, unless
/// it is known; one that is known is not read again.
pub proof fn law_new_images_are_read(
    a: AppStore,
    f: Frame,
    p: FramePlan,
    content: Seq<JsonValue>,
    i: int,
    id: Seq<char>,
)
    requires
        plan_of(a, f, p),
        f.method@ == "session/event"@,
        f.payload.value().field("sessionId"@).as_text() is Some,
        f.payload.value().field("sessionId"@).as_text() == opt_view(a.state.current_id),
        f.payload.value().field("event"@).field("data"@).field("content"@).as_items() == Some(
            content,
        ),
        0 <= i < content.len(),
        attachment_id_of(content[i]) == Some(id),
    ensures
        p.touches_current,
        !a.attachments.image_cache@.contains_key(id) ==> views(p.images@).contains(id),
        a.attachments.image_cache@.contains_key(id) ==> !views(p.images@).contains(id),
{
    lemma_ids_in(content, i, id);
    let m = mentioned(f);
    let k = choose|k: int| 0 <= k < ids_in(content).len() && ids_in(content)[k] == id;
    assert(m[k] == id);
    lemma_missing(m, a.attachments.image_cache@.dom(), id);
}

/// The end of a turn of the current session has the billing fetched anew, and
/// the trajectory where it is in view; no other event has.
pub proof fn law_turns_end_with_a_fetch(a: AppStore, f: Frame, p: FramePlan)
    requires
        plan_of(a, f, p),
        f.method@ == "session/event"@,
        f.payload.value().field("sessionId"@).as_text() is Some,
        f.payload.value().field("sessionId"@).as_text() == opt_view(a.state.current_id),
    ensures
        p.billing_due <==> f.payload.value().field("event"@).field("type"@).as_text() == Some(
            "turn/end"@,
        ),
        p.trajectory_live <==> p.billing_due && a.panel_active_tab == Some(
            crate::shell::store::PanelTab::Trajectory,
        ),
{
}

/// A report of a tool server is kept under its name; a failure is told. Any
/// other frame is planned.
pub proof fn law_tool_servers_report(
    s: &mut AppStore,
    frame: &Frame,
    at_bottom: bool,
    r: Option<FramePlan>,
    server: Seq<char>,
)
    requires
        call_ensures(AppStore::apply_frame, (s, frame, at_bottom), r),
        frame.payload.value().field("server"@).as_text() == Some(server),
    ensures
        r is None <==> frame.method@ == "mcp/status"@,
        r is None ==> {
            let m = final(s).settings.mcp_status_by_id@;
            &&& m.contains_key(server)
            &&& m[server].0@ == text_field(frame.payload.value(), "status"@)
            &&& m[server].1@ == text_field(frame.payload.value(), "error"@)
            &&& text_field(frame.payload.value(), "status"@) == "failed"@ ==> (
            final(s).settings.settings_notice matches Some(n) && !n.0 && n.1@ == "MCP server「"@
                + server + "」连接失败:"@ + text_field(frame.payload.value(), "error"@))
            &&& text_field(frame.payload.value(), "status"@) != "failed"@
                ==> final(s).settings.settings_notice == old(s).settings.settings_notice
        },
{
}

/// An event of the current session keeps the chat where it stands: pinned to
/// its end where it was there. A permission that it reports is the session's.
pub proof fn law_events_keep_the_place(
    s: &mut AppStore,
    frame: &Frame,
    at_bottom: bool,
    r: Option<FramePlan>,
    id: Seq<char>,
)
    requires
        call_ensures(AppStore::apply_frame, (s, frame, at_bottom), r),
        frame.method@ != "mcp/status"@,
        frame.method@ == "session/event"@,
        opt_view(s.state.current_id) == Some(id),
    ensures
        r is Some,
        frame.payload.value().field("sessionId"@).as_text() == Some(id) ==> final(s).chat.pinned
            == at_bottom,
        frame.payload.value().field("sessionId"@).as_text() != Some(id) ==> final(s).chat.pinned
            == old(s).chat.pinned,
        frame.payload.value().field("sessionId"@).as_text() == Some(id)
            && frame.payload.value().field("event"@).field("type"@).as_text() == Some(
            "sandbox/mode"@,
        ) ==> (frame.payload.value().field("event"@).field("data"@).field("mode"@).as_text() matches Some(
            mode,
        ) ==> old(s).session_cfg_by_id@.contains_key(id)
            ==> (final(s).session_cfg_by_id@.contains_key(id)
            && final(s).session_cfg_by_id@[id].permission@
            == mode)),
{
    assert(cfg_values(final(s).session_cfg_by_id@).contains_key(id)
        == final(s).session_cfg_by_id@.contains_key(id));
    assert(cfg_values(s.session_cfg_by_id@).contains_key(id)
        == s.session_cfg_by_id@.contains_key(id));
    if s.session_cfg_by_id@.contains_key(id) {
        assert(cfg_values(s.session_cfg_by_id@)[id].permission
            == s.session_cfg_by_id@[id].permission@);
    }
    if final(s).session_cfg_by_id@.contains_key(id) {
        assert(cfg_values(final(s).session_cfg_by_id@)[id].permission
            == final(s).session_cfg_by_id@[id].permission@);
    }
}

/// A change of the list asks for the sessions, one of the host for what it is
/// and for its workspaces, and one of the statistics for the branches; new
/// statistics are kept.
pub proof fn law_effects_ask_the_host(
    s: &mut AppStore,
    effect: Effect,
    r: Vec<HostRead>,
)
    requires
        call_ensures(AppStore::run_effect, (s, effect), r),
    ensures
        effect is Sessions <==> r@ =~= seq![HostRead::Sessions],
        effect is HostInfo <==> r@ =~= seq![HostRead::HostInfo, HostRead::Workspaces],
        effect matches Effect::Stats(id) ==> r@ =~= seq![HostRead::Stats(id), HostRead::Branches],
        effect matches Effect::StatsUpsert(id, stats) ==> {
            &&& r@ =~= seq![HostRead::Branches]
            &&& final(s).stats_by_id@.contains_key(id@)
            &&& final(s).stats_by_id@[id@] == stats
        },
        !(effect is StatsUpsert) ==> final(s).stats_by_id == old(s).stats_by_id,
{
    assert(r@.len() > 0 ==> r@[0] == r@[0]);
    if effect is Sessions {
        assert(r@[0] is Sessions);
    } else if effect is HostInfo {
        assert(r@[0] is HostInfo);
    } else if effect is Stats {
        assert(r@[0] is Stats);
    } else {
        assert(r@[0] is Branches);
    }
}

/// After an event of the current session the chat counts as changed; billing
/// and trajectory are fetched where the plan says so.
pub proof fn law_plans_are_carried_out(
    s: &mut AppStore,
    plan: &FramePlan,
    at_bottom: bool,
    r: FollowUp,
)
    requires
        call_ensures(AppStore::finish_frame, (s, plan, at_bottom), r),
        s.chat.chat_version < u64::MAX,
    ensures
        r.billing == plan.billing_due,
        plan.touches_current ==> final(s).chat.chat_version == old(s).chat.chat_version + 1,
        !plan.touches_current ==> final(s).chat.chat_version == old(s).chat.chat_version,
        !plan.trajectory_live ==> r.refresh is None,
        plan.trajectory_live ==> (r.refresh is Some
            <==> old(s).state.current_id is Some && !old(s).trajectory.trajectory.loading),
        r.run_tick ==> !old(s).run_ticking && final(s).run_ticking,
        r.lineage_tick ==> !old(s).lineage_ticking && final(s).lineage_ticking,
{
}

/// A notice of the settings says whether it went well, and what happened.
pub proof fn law_notices_say_what_happened(s: &mut SettingsStore, ok: bool, message: &str)
    requires
        call_ensures(SettingsStore::set_settings_notice, (s, ok, message), ()),
    ensures
        final(s).settings_notice matches Some(n) && n.0 == ok && n.1@ == message@,
{
}

} // verus!
