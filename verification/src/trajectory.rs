//! The trajectory: the records of a session, fetched in pages, and what is
//! selected and folded in their list.

use crate::binary64::{ascending, greater, lesser};
use crate::decimal::{parse_u64, parsed_u64};
use crate::scan::starts_with_str;
use crate::shell::store::{AppStore, PanelTab};
use crate::table::{IdSet, NameSet};
use crate::text::{chars_of, opt_view, owned, str_eq, string_of_range};
use vstd::prelude::*;
use vstd::string::*;

verus! {

/// What the inspector shows.
#[derive(Debug, Clone, Copy, PartialEq, Eq, Structural)]
pub enum InspectTarget {
    /// A record, by its index in the session.
    Record(u64),
    /// A request, by its number.
    Request(u64),
}

/// A record of a session.
#[derive(Debug, PartialEq, Eq)]
pub struct TrajectoryRecord {
    pub index: u64,
    pub seq: u64,
    pub kind: String,
    pub turn: Option<u64>,
}

/// A request that a session made to its model.
#[derive(Debug, PartialEq, Eq)]
pub struct TrajectoryRequest {
    pub number: u64,
}

/// A page of records.
pub struct TrajectoryPage {
    pub records: Vec<TrajectoryRecord>,
    pub requests: Vec<TrajectoryRequest>,
    pub has_older: bool,
    pub total: u64,
}

/// The records that are loaded.
pub struct TrajectoryView {
    pub records: Vec<TrajectoryRecord>,
    pub requests: Vec<TrajectoryRequest>,
    pub has_older: bool,
    pub total: u64,
    pub loading: bool,
    pub loading_older: bool,
}

/// How many records the first page has.
pub const TRAJECTORY_WINDOW: usize = 200;

/// How many records a page of earlier ones has.
pub const TRAJECTORY_PAGE: usize = 500;

/// How many frames a page of earlier records has to be laid out in.
pub const ANCHOR_FRAMES: usize = 5;

/// A page to be fetched.
#[derive(Debug, PartialEq, Eq)]
pub struct PageRequest {
    pub session_id: String,
    pub limit: usize,
    /// Only records before this one.
    pub before: Option<u64>,
    /// Whether the records that are loaded belong to another session.
    pub session_changed: bool,
}

/// A stretch of the timeline, its ends as binary64 bit patterns.
#[derive(Debug, Clone, Copy, PartialEq, Eq, Structural)]
pub struct Stretch {
    pub from: u64,
    pub to: u64,
}

/// The list of records.
pub struct TrajectoryStore {
    /// The tool call that is to be shown as soon as its record is there.
    pub inspect_locate: Option<(String, u64)>,
    pub trajectory: TrajectoryView,
    /// The session that the records belong to.
    pub trajectory_session: Option<String>,
    /// Whether the list follows its end.
    pub trajectory_follow: bool,
    /// Counts the pages that were taken over.
    pub trajectory_version: u64,
    /// The count that was drawn last.
    pub trajectory_rendered_version: u64,
    /// The frames left in which earlier records are laid out above the view.
    pub trajectory_anchor: Option<usize>,
    pub trajectory_duration: bool,
    pub collapsed_turns: IdSet,
    pub all_turns_collapsed: bool,
    pub collapsed_calls: IdSet,
    pub all_calls_collapsed: bool,
    pub inspector: Option<InspectTarget>,
    /// The page of the inspector; nothing for the one visited last.
    pub inspector_tab: Option<String>,
    pub inspector_last_tab: String,
    pub inspector_raw_thinking: bool,
    pub json_expanded: NameSet,
    pub expanded_inspector_tools: NameSet,
    pub timeline_selection: Option<Stretch>,
    pub timeline_viewport: Option<Stretch>,
    /// Where a drag over the timeline began.
    pub timeline_drag: Option<u64>,
    pub timeline_draft: Option<Stretch>,
}

impl TrajectoryStore {
    /// No set has a member twice.
    pub open spec fn wf(self) -> bool {
        &&& self.collapsed_turns.wf()
        &&& self.collapsed_calls.wf()
        &&& self.json_expanded.wf()
        &&& self.expanded_inspector_tools.wf()
    }

    /// Nothing is loaded, selected or folded; the list follows its end.
    pub open spec fn is_fresh(self) -> bool {
        &&& self.inspect_locate is None
        &&& self.trajectory.records@.len() == 0
        &&& self.trajectory.requests@.len() == 0
        &&& !self.trajectory.has_older
        &&& self.trajectory.total == 0
        &&& !self.trajectory.loading
        &&& !self.trajectory.loading_older
        &&& self.trajectory_session is None
        &&& self.trajectory_follow
        &&& self.trajectory_version == 0
        &&& self.trajectory_rendered_version == 0
        &&& self.trajectory_anchor is None
        &&& !self.trajectory_duration
        &&& self.collapsed_turns@ == Set::<u64>::empty()
        &&& !self.all_turns_collapsed
        &&& self.collapsed_calls@ == Set::<u64>::empty()
        &&& !self.all_calls_collapsed
        &&& self.inspector is None
        &&& self.inspector_tab is None
        &&& self.inspector_last_tab@ == "summary"@
        &&& !self.inspector_raw_thinking
        &&& self.json_expanded@ == Set::<Seq<char>>::empty()
        &&& self.expanded_inspector_tools@ == Set::<Seq<char>>::empty()
        &&& self.timeline_selection is None
        &&& self.timeline_viewport is None
        &&& self.timeline_drag is None
        &&& self.timeline_draft is None
    }

    /// Nothing loaded, selected or folded; the list follows its end.
    pub fn new() -> (r: TrajectoryStore)
        ensures
            r.wf(),
            r.is_fresh(),
    {
        TrajectoryStore {
            inspect_locate: None,
            trajectory: TrajectoryView {
                records: Vec::new(),
                requests: Vec::new(),
                has_older: false,
                total: 0,
                loading: false,
                loading_older: false,
            },
            trajectory_session: None,
            trajectory_follow: true,
            trajectory_version: 0,
            trajectory_rendered_version: 0,
            trajectory_anchor: None,
            trajectory_duration: false,
            collapsed_turns: IdSet::new(),
            all_turns_collapsed: false,
            collapsed_calls: IdSet::new(),
            all_calls_collapsed: false,
            inspector: None,
            inspector_tab: None,
            inspector_last_tab: owned("summary"),
            inspector_raw_thinking: false,
            json_expanded: NameSet::new(),
            expanded_inspector_tools: NameSet::new(),
            timeline_selection: None,
            timeline_viewport: None,
            timeline_drag: None,
            timeline_draft: None,
        }
    }
}

/// The first record of a tool call.
pub open spec fn tool_record(records: Seq<TrajectoryRecord>, seq: u64) -> Option<TrajectoryRecord>
    decreases records.len(),
{
    if records.len() == 0 {
        None
    } else if records[0].kind@ == "tool"@ && records[0].seq == seq {
        Some(records[0])
    } else {
        tool_record(records.skip(1), seq)
    }
}

fn find_tool_record(records: &Vec<TrajectoryRecord>, seq: u64) -> (r: Option<usize>)
    ensures
        match r {
            Some(i) => i < records@.len() && tool_record(records@, seq) == Some(
                records@[i as int],
            ),
            None => tool_record(records@, seq) is None,
        },
{
    let mut i: usize = 0;
    assert(records@.skip(0) =~= records@);
    while i < records.len()
        invariant
            i <= records@.len(),
            tool_record(records@, seq) == tool_record(records@.skip(i as int), seq),
        decreases records@.len() - i,
    {
        assert(records@.skip(i as int)[0] == records@[i as int]);
        assert(records@.skip(i as int).skip(1) =~= records@.skip(i + 1));
        if str_eq(records[i].kind.as_str(), "tool") && records[i].seq == seq {
            return Some(i);
        }
        i = i + 1;
    }
    None
}

/// Whether a record with an index is among the records.
pub open spec fn has_index(records: Seq<TrajectoryRecord>, index: u64) -> bool {
    exists|i: int| 0 <= i < records.len() && (#[trigger] records[i]).index == index
}

fn holds_index(records: &Vec<TrajectoryRecord>, index: u64) -> (r: bool)
    ensures
        r == has_index(records@, index),
{
    let mut i: usize = 0;
    while i < records.len()
        invariant
            i <= records@.len(),
            forall|k: int| 0 <= k < i ==> (#[trigger] records@[k]).index != index,
        decreases records@.len() - i,
    {
        if records[i].index == index {
            return true;
        }
        i = i + 1;
    }
    false
}

/// What the start of a fetch does: the list is loading and, where it was at
/// its end or empty, follows it. Without a session, and while another fetch is
/// under way, nothing happens.
pub open spec fn fetch_begun(
    a: TrajectoryStore,
    b: TrajectoryStore,
    current: Option<Seq<char>>,
    r: Option<PageRequest>,
    at_bottom: bool,
) -> bool {
    if current is None || a.trajectory.loading {
        r is None && b == a
    } else {
        &&& b == (TrajectoryStore {
            trajectory: TrajectoryView { loading: true, ..a.trajectory },
            trajectory_follow: at_bottom || a.trajectory.records@.len() == 0,
            ..a
        })
        &&& r matches Some(q) && {
            &&& current == Some(q.session_id@)
            &&& q.limit == TRAJECTORY_WINDOW
            &&& q.before is None
            &&& q.session_changed == (opt_view(a.trajectory_session) != current)
        }
    }
}

/// Only the list of records changes.
pub open spec fn listing(a: AppStore, b: AppStore) -> bool {
    b == (AppStore { trajectory: b.trajectory, ..a })
}

/// What the start of a fetch does to the window, see [`fetch_begun`].
pub open spec fn refresh_begun(
    a: AppStore,
    b: AppStore,
    r: Option<PageRequest>,
    at_bottom: bool,
) -> bool {
    &&& listing(a, b)
    &&& fetch_begun(a.trajectory, b.trajectory, a.current(), r, at_bottom)
}

/// Everything that was folded and selected is forgotten.
pub open spec fn forgotten(a: TrajectoryStore, b: TrajectoryStore) -> bool {
    &&& b.collapsed_turns@ == Set::<u64>::empty()
    &&& b.collapsed_calls@ == Set::<u64>::empty()
    &&& b == (TrajectoryStore {
        collapsed_turns: b.collapsed_turns,
        collapsed_calls: b.collapsed_calls,
        all_turns_collapsed: false,
        all_calls_collapsed: false,
        inspector: None,
        inspector_tab: None,
        timeline_selection: None,
        timeline_viewport: None,
        timeline_drag: None,
        timeline_draft: None,
        trajectory_anchor: None,
        ..a
    })
}

/// The inspector closes where its record is not on a page.
pub open spec fn reinspected(a: TrajectoryStore, page: Seq<TrajectoryRecord>) -> TrajectoryStore {
    if a.inspector matches Some(InspectTarget::Record(ix)) && !has_index(page, ix) {
        TrajectoryStore { inspector: None, inspector_tab: None, ..a }
    } else {
        a
    }
}

/// A page takes the place of what was loaded.
pub open spec fn replaced(
    a: TrajectoryStore,
    b: TrajectoryStore,
    session_id: Seq<char>,
    page: TrajectoryPage,
) -> bool {
    let v = b.trajectory;
    &&& v.records@ == page.records@
    &&& v.requests@ == page.requests@
    &&& v.has_older == page.has_older
    &&& v.total == page.total
    &&& !v.loading
    &&& !v.loading_older
    &&& opt_view(b.trajectory_session) == Some(session_id)
    &&& b.trajectory_version == a.trajectory_version + 1
    &&& b == (TrajectoryStore {
        trajectory: v,
        trajectory_session: b.trajectory_session,
        trajectory_version: b.trajectory_version,
        ..a
    })
}

/// What a page does before the tool call that waits for it is looked up: the
/// inspector closes where its record is gone; everything is forgotten where
/// the session is another one; the page takes the place of what was loaded.
pub open spec fn page_taken(
    a: TrajectoryStore,
    b: TrajectoryStore,
    session_id: Seq<char>,
    session_changed: bool,
    page: TrajectoryPage,
) -> bool {
    if session_changed {
        exists|mid: TrajectoryStore| #[trigger]
            forgotten(a, mid) && replaced(mid, b, session_id, page)
    } else {
        replaced(reinspected(a, page.records@), b, session_id, page)
    }
}

/// What the look-up of the waiting tool call does: where its session is the
/// current one and its record is loaded, its turn unfolds and the inspector
/// shows it.
pub open spec fn located(
    a: TrajectoryStore,
    b: TrajectoryStore,
    current: Option<Seq<char>>,
) -> bool {
    match a.inspect_locate {
        Some(want) if current == Some(want.0@) => match tool_record(
            a.trajectory.records@,
            want.1,
        ) {
            Some(rec) => {
                &&& b.collapsed_turns@ == (match rec.turn {
                    Some(t) => a.collapsed_turns@.remove(t),
                    None => a.collapsed_turns@,
                })
                &&& b == (TrajectoryStore {
                    inspect_locate: None,
                    collapsed_turns: b.collapsed_turns,
                    inspector: Some(InspectTarget::Record(rec.index)),
                    inspector_tab: None,
                    inspector_raw_thinking: false,
                    ..a
                })
            },
            None => b == a,
        },
        _ => b == a,
    }
}

/// The number behind the prefix of a tool call's key.
pub open spec fn call_seq(key: Seq<char>) -> Option<u64> {
    let p = "call:"@;
    if p.len() <= key.len() && key.take(p.len() as int) == p {
        parsed_u64(key.skip(p.len() as int))
    } else {
        None
    }
}

fn call_number(key: &str) -> (r: Option<u64>)
    ensures
        r == call_seq(key@),
{
    if !starts_with_str(key, "call:") {
        return None;
    }
    let cs = chars_of(key);
    proof {
        reveal_strlit("call:");
    }
    let rest = string_of_range(cs.as_slice(), 5, cs.len());
    assert(rest@ =~= key@.skip(5));
    parse_u64(rest.as_str())
}

impl TrajectoryStore {
    fn begin_fetch(&mut self, current: &Option<String>, at_bottom: bool) -> (r: Option<PageRequest>)
        requires
            old(self).wf(),
        ensures
            final(self).wf(),
            fetch_begun(*old(self), *final(self), opt_view(*current), r, at_bottom),
    {
        let id = match current {
            Some(id) => owned(id.as_str()),
            None => {
                return None;
            },
        };
        if self.trajectory.loading {
            return None;
        }
        let session_changed = match &self.trajectory_session {
            Some(s) => !str_eq(s.as_str(), id.as_str()),
            None => true,
        };
        let follow = at_bottom || self.trajectory.records.len() == 0;
        self.trajectory.loading = true;
        self.trajectory_follow = follow;
        Some(
            PageRequest {
                session_id: id,
                limit: TRAJECTORY_WINDOW,
                before: None,
                session_changed,
            },
        )
    }

    fn forget(&mut self)
        requires
            old(self).wf(),
        ensures
            final(self).wf(),
            forgotten(*old(self), *final(self)),
    {
        self.collapsed_turns.clear();
        self.collapsed_calls.clear();
        self.all_turns_collapsed = false;
        self.all_calls_collapsed = false;
        self.inspector = None;
        self.inspector_tab = None;
        self.timeline_selection = None;
        self.timeline_viewport = None;
        self.timeline_drag = None;
        self.timeline_draft = None;
        self.trajectory_anchor = None;
    }

    fn replace(&mut self, session_id: &str, page: TrajectoryPage)
        requires
            old(self).wf(),
            old(self).trajectory_version < u64::MAX,
        ensures
            final(self).wf(),
            replaced(*old(self), *final(self), session_id@, page),
    {
        self.trajectory = TrajectoryView {
            records: page.records,
            requests: page.requests,
            has_older: page.has_older,
            total: page.total,
            loading: false,
            loading_older: false,
        };
        self.trajectory_session = Some(owned(session_id));
        self.trajectory_version = self.trajectory_version + 1;
    }

    fn take_page(&mut self, request: &PageRequest, page: TrajectoryPage)
        requires
            old(self).wf(),
            old(self).trajectory_version < u64::MAX,
        ensures
            final(self).wf(),
            page_taken(
                *old(self),
                *final(self),
                request.session_id@,
                request.session_changed,
                page,
            ),
    {
        if request.session_changed {
            self.forget();
            assert(forgotten(*old(self), *self));
        } else {
            let gone = match self.inspector {
                Some(InspectTarget::Record(ix)) => !holds_index(&page.records, ix),
                _ => false,
            };
            if gone {
                self.inspector = None;
                self.inspector_tab = None;
            }
            assert(*self == reinspected(*old(self), page.records@));
        }
        self.replace(request.session_id.as_str(), page);
    }

    fn begin_earlier(&mut self, current: &Option<String>) -> (r: Option<PageRequest>)
        requires
            old(self).wf(),
        ensures
            final(self).wf(),
            older_begun(*old(self), *final(self), opt_view(*current), r),
    {
        if self.trajectory.loading || self.trajectory.loading_older
            || !self.trajectory.has_older {
            return None;
        }
        let id = match current {
            Some(id) => owned(id.as_str()),
            None => {
                return None;
            },
        };
        if self.trajectory.records.len() == 0 {
            return None;
        }
        let before: u64 = self.trajectory.records[0].index;
        self.trajectory.loading_older = true;
        Some(
            PageRequest {
                session_id: id,
                limit: TRAJECTORY_PAGE,
                before: Some(before),
                session_changed: false,
            },
        )
    }

    fn take_earlier(&mut self, page: TrajectoryPage)
        requires
            old(self).wf(),
            old(self).trajectory_version < u64::MAX,
        ensures
            final(self).wf(),
            prepended(*old(self), *final(self), page),
    {
        let mut records = page.records;
        records.append(&mut self.trajectory.records);
        let loading = self.trajectory.loading;
        self.trajectory = TrajectoryView {
            records,
            requests: page.requests,
            has_older: page.has_older,
            total: page.total,
            loading,
            loading_older: false,
        };
        self.trajectory_anchor = Some(ANCHOR_FRAMES);
        self.trajectory_version = self.trajectory_version + 1;
    }

    fn flush(&mut self, taller: bool) -> (r: ScrollMove)
        requires
            old(self).wf(),
        ensures
            final(self).wf(),
            r == scroll_move(*old(self), taller),
            *final(self) == flushed(*old(self), taller),
    {
        match self.trajectory_anchor {
            Some(n) => {
                if !taller {
                    if n == 0 {
                        self.trajectory_anchor = None;
                    } else {
                        self.trajectory_anchor = Some(n - 1);
                    }
                    ScrollMove::Stay
                } else {
                    self.trajectory_anchor = None;
                    ScrollMove::KeepView
                }
            },
            None => {
                if self.trajectory_version != self.trajectory_rendered_version {
                    self.trajectory_rendered_version = self.trajectory_version;
                    if self.trajectory_follow {
                        return ScrollMove::ToEnd;
                    }
                }
                ScrollMove::Stay
            },
        }
    }

    fn mark_call(&mut self, current: &Option<String>, seq: u64)
        requires
            old(self).wf(),
        ensures
            final(self).wf(),
            call_marked(*old(self), *final(self), opt_view(*current), seq),
    {
        if let Some(id) = current {
            self.inspect_locate = Some((owned(id.as_str()), seq));
        }
    }

    fn locate(&mut self, current: &Option<String>)
        requires
            old(self).wf(),
        ensures
            final(self).wf(),
            located(*old(self), *final(self), opt_view(*current)),
    {
        let seq: u64 = match (&self.inspect_locate, current) {
            (Some(want), Some(id)) => if str_eq(want.0.as_str(), id.as_str()) {
                want.1
            } else {
                return ;
            },
            _ => {
                return ;
            },
        };
        let at = match find_tool_record(&self.trajectory.records, seq) {
            Some(i) => i,
            None => {
                return ;
            },
        };
        let turn = self.trajectory.records[at].turn;
        let index: u64 = self.trajectory.records[at].index;
        if let Some(t) = turn {
            self.collapsed_turns.remove(t);
        }
        self.inspector = Some(InspectTarget::Record(index));
        self.inspector_tab = None;
        self.inspector_raw_thinking = false;
        self.inspect_locate = None;
    }
}

impl AppStore {
    // -----------------------------------------------------------------------
    // Pages
    // -----------------------------------------------------------------------
    /// Starts to fetch the last records of the current session.
    pub fn refresh_trajectory(&mut self, at_bottom: bool) -> (r: Option<PageRequest>)
        requires
            old(self).wf(),
        ensures
            final(self).wf(),
            refresh_begun(*old(self), *final(self), r, at_bottom),
    {
        self.trajectory.begin_fetch(&self.state.current_id, at_bottom)
    }

    fn is_current(&self, id: &str) -> (r: bool)
        ensures
            r == (self.current() == Some(id@)),
    {
        match &self.state.current_id {
            Some(c) => str_eq(c.as_str(), id),
            None => false,
        }
    }

    /// Takes over the page that was fetched, then looks up the tool call that
    /// waits for it. A page of a session that is no longer the current one, and
    /// a failed fetch, only end the loading.
    pub fn trajectory_fetched(&mut self, request: &PageRequest, page: Option<TrajectoryPage>)
        requires
            old(self).wf(),
            old(self).has_room(),
        ensures
            final(self).wf(),
            listing(*old(self), *final(self)),
            match page {
                Some(p) if old(self).current() == Some(request.session_id@) => exists|
                    mid: TrajectoryStore,
                | #[trigger]
                    page_taken(
                        old(self).trajectory,
                        mid,
                        request.session_id@,
                        request.session_changed,
                        p,
                    ) && located(mid, final(self).trajectory, old(self).current()),
                _ => final(self).trajectory == (TrajectoryStore {
                    trajectory: TrajectoryView { loading: false, ..old(self).trajectory.trajectory },
                    ..old(self).trajectory
                }),
            },
    {
        if !self.is_current(request.session_id.as_str()) {
            self.trajectory.trajectory.loading = false;
            return ;
        }
        match page {
            Some(p) => {
                self.trajectory.take_page(request, p);
                assert(page_taken(
                    old(self).trajectory,
                    self.trajectory,
                    request.session_id@,
                    request.session_changed,
                    p,
                ));
                self.trajectory.locate(&self.state.current_id);
            },
            None => {
                self.trajectory.trajectory.loading = false;
            },
        }
    }

    /// Starts to fetch the records before the first one that is loaded.
    pub fn load_earlier_trajectory(&mut self) -> (r: Option<PageRequest>)
        requires
            old(self).wf(),
        ensures
            final(self).wf(),
            listing(*old(self), *final(self)),
            older_begun(old(self).trajectory, final(self).trajectory, old(self).current(), r),
    {
        self.trajectory.begin_earlier(&self.state.current_id)
    }

    /// Puts the earlier records that were fetched before those that are
    /// loaded. A page of a session that is no longer the current one, and a
    /// failed fetch, only end the loading.
    pub fn earlier_fetched(&mut self, request: &PageRequest, page: Option<TrajectoryPage>)
        requires
            old(self).wf(),
            old(self).has_room(),
        ensures
            final(self).wf(),
            listing(*old(self), *final(self)),
            match page {
                Some(p) if old(self).current() == Some(request.session_id@) => prepended(
                    old(self).trajectory,
                    final(self).trajectory,
                    p,
                ),
                _ => final(self).trajectory == (TrajectoryStore {
                    trajectory: TrajectoryView {
                        loading_older: false,
                        ..old(self).trajectory.trajectory
                    },
                    ..old(self).trajectory
                }),
            },
    {
        if !self.is_current(request.session_id.as_str()) {
            self.trajectory.trajectory.loading_older = false;
            return ;
        }
        match page {
            Some(p) => {
                self.trajectory.take_earlier(p);
            },
            None => {
                self.trajectory.trajectory.loading_older = false;
            },
        }
    }

    /// After a scroll: the list follows its end where it is there, and near
    /// its top earlier records are fetched.
    pub fn on_trajectory_scroll(&mut self, at_bottom: bool, near_top: bool) -> (r: Option<
        PageRequest,
    >)
        requires
            old(self).wf(),
        ensures
            final(self).wf(),
            listing(*old(self), *final(self)),
            ({
                let mid = TrajectoryStore { trajectory_follow: at_bottom, ..old(self).trajectory };
                if near_top {
                    older_begun(mid, final(self).trajectory, old(self).current(), r)
                } else {
                    r is None && final(self).trajectory == mid
                }
            }),
    {
        self.trajectory.trajectory_follow = at_bottom;
        if near_top {
            self.trajectory.begin_earlier(&self.state.current_id)
        } else {
            None
        }
    }

    /// What has to be scrolled when the list is drawn. `taller` says whether
    /// the list has grown since earlier records were fetched.
    pub fn flush_trajectory_scroll(&mut self, taller: bool) -> (r: ScrollMove)
        requires
            old(self).wf(),
        ensures
            final(self).wf(),
            listing(*old(self), *final(self)),
            r == scroll_move(old(self).trajectory, taller),
            final(self).trajectory == flushed(old(self).trajectory, taller),
    {
        self.trajectory.flush(taller)
    }

    // -----------------------------------------------------------------------
    // Inspector
    // -----------------------------------------------------------------------
    /// Shows the record of a tool call: the trajectory opens, and the record is
    /// shown at once where it is loaded, else when it is fetched. A key that is
    /// not that of a tool call changes nothing.
    pub fn inspect_call(&mut self, key: &str, at_bottom: bool) -> (r: Option<PageRequest>)
        requires
            old(self).wf(),
        ensures
            final(self).wf(),
            match call_seq(key@) {
                None => r is None && *final(self) == *old(self),
                Some(seq) => {
                    &&& final(self).panel_tabs@ == crate::shell::store::opened(
                        old(self).panel_tabs@,
                        PanelTab::Trajectory,
                    )
                    &&& *final(self) == (AppStore {
                        panel_open: true,
                        panel_tabs: final(self).panel_tabs,
                        panel_active_tab: Some(PanelTab::Trajectory),
                        panel_plus_menu_open: false,
                        trajectory: final(self).trajectory,
                        ..*old(self)
                    })
                    &&& exists|marked: TrajectoryStore, begun: TrajectoryStore|
                        {
                            &&& #[trigger] call_marked(
                                old(self).trajectory,
                                marked,
                                old(self).current(),
                                seq,
                            )
                            &&& #[trigger] fetch_begun(
                                marked,
                                begun,
                                old(self).current(),
                                r,
                                at_bottom,
                            )
                            &&& located(begun, final(self).trajectory, old(self).current())
                        }
                },
            },
    {
        let seq = match call_number(key) {
            Some(n) => n,
            None => {
                return None;
            },
        };
        self.trajectory.mark_call(&self.state.current_id, seq);
        let ghost marked = self.trajectory;
        let r = self.open_panel_tab(PanelTab::Trajectory, at_bottom);
        let ghost begun = self.trajectory;
        assert(fetch_begun(marked, begun, old(self).current(), r, at_bottom));
        self.trajectory.locate(&self.state.current_id);
        r
    }

    /// Looks up the tool call that waits to be shown.
    pub fn locate_inspect(&mut self)
        requires
            old(self).wf(),
        ensures
            final(self).wf(),
            listing(*old(self), *final(self)),
            located(old(self).trajectory, final(self).trajectory, old(self).current()),
    {
        self.trajectory.locate(&self.state.current_id);
    }

    /// Selects a record; the one that is selected is deselected.
    pub fn select_trajectory_record(&mut self, index: u64)
        requires
            old(self).wf(),
        ensures
            final(self).wf(),
            *final(self) == (AppStore {
                trajectory: TrajectoryStore {
                    inspector: if old(self).trajectory.inspector == Some(
                        InspectTarget::Record(index),
                    ) {
                        None
                    } else {
                        Some(InspectTarget::Record(index))
                    },
                    inspector_tab: None,
                    inspector_raw_thinking: false,
                    ..old(self).trajectory
                },
                ..*old(self)
            }),
    {
        let same = match self.trajectory.inspector {
            Some(InspectTarget::Record(i)) => i == index,
            _ => false,
        };
        self.trajectory.inspector = if same {
            None
        } else {
            Some(InspectTarget::Record(index))
        };
        self.trajectory.inspector_tab = None;
        self.trajectory.inspector_raw_thinking = false;
    }

    /// Selects a request.
    pub fn select_trajectory_request(&mut self, number: u64)
        requires
            old(self).wf(),
        ensures
            final(self).wf(),
            *final(self) == (AppStore {
                trajectory: TrajectoryStore {
                    inspector: Some(InspectTarget::Request(number)),
                    inspector_tab: None,
                    ..old(self).trajectory
                },
                ..*old(self)
            }),
    {
        self.trajectory.inspector = Some(InspectTarget::Request(number));
        self.trajectory.inspector_tab = None;
    }

    /// Closes the inspector.
    pub fn close_inspector(&mut self)
        requires
            old(self).wf(),
        ensures
            final(self).wf(),
            *final(self) == (AppStore {
                trajectory: TrajectoryStore {
                    inspector: None,
                    inspector_tab: None,
                    ..old(self).trajectory
                },
                ..*old(self)
            }),
    {
        self.trajectory.inspector = None;
        self.trajectory.inspector_tab = None;
    }

    /// Turns to a page of the inspector and keeps it in mind.
    pub fn set_inspector_tab(&mut self, tab: &str)
        requires
            old(self).wf(),
        ensures
            final(self).wf(),
            opt_view(final(self).trajectory.inspector_tab) == Some(tab@),
            final(self).trajectory.inspector_last_tab@ == tab@,
            *final(self) == (AppStore {
                trajectory: TrajectoryStore {
                    inspector_tab: final(self).trajectory.inspector_tab,
                    inspector_last_tab: final(self).trajectory.inspector_last_tab,
                    ..old(self).trajectory
                },
                ..*old(self)
            }),
    {
        self.trajectory.inspector_tab = Some(owned(tab));
        self.trajectory.inspector_last_tab = owned(tab);
    }

    /// Folds or unfolds the thinking on the raw page.
    pub fn toggle_inspector_thinking(&mut self)
        requires
            old(self).wf(),
        ensures
            final(self).wf(),
            *final(self) == (AppStore {
                trajectory: TrajectoryStore {
                    inspector_raw_thinking: !old(self).trajectory.inspector_raw_thinking,
                    ..old(self).trajectory
                },
                ..*old(self)
            }),
    {
        self.trajectory.inspector_raw_thinking = !self.trajectory.inspector_raw_thinking;
    }

    /// Folds or unfolds a tool.
    pub fn toggle_inspector_tool(&mut self, name: &str)
        requires
            old(self).wf(),
        ensures
            final(self).wf(),
            final(self).trajectory.expanded_inspector_tools@ == crate::table::toggled(
                old(self).trajectory.expanded_inspector_tools@,
                name@,
            ),
            *final(self) == (AppStore {
                trajectory: TrajectoryStore {
                    expanded_inspector_tools: final(self).trajectory.expanded_inspector_tools,
                    ..old(self).trajectory
                },
                ..*old(self)
            }),
    {
        self.trajectory.expanded_inspector_tools.toggle(name);
    }

    /// Folds or unfolds a node of a document.
    pub fn toggle_json_node(&mut self, key: &str)
        requires
            old(self).wf(),
        ensures
            final(self).wf(),
            final(self).trajectory.json_expanded@ == crate::table::toggled(
                old(self).trajectory.json_expanded@,
                key@,
            ),
            *final(self) == (AppStore {
                trajectory: TrajectoryStore {
                    json_expanded: final(self).trajectory.json_expanded,
                    ..old(self).trajectory
                },
                ..*old(self)
            }),
    {
        self.trajectory.json_expanded.toggle(key);
    }

    // -----------------------------------------------------------------------
    // Turns and calls
    // -----------------------------------------------------------------------
    /// Folds or unfolds all turns.
    pub fn toggle_all_turns(&mut self)
        requires
            old(self).wf(),
        ensures
            final(self).wf(),
            final(self).trajectory.collapsed_turns@ == Set::<u64>::empty(),
            *final(self) == (AppStore {
                trajectory: TrajectoryStore {
                    all_turns_collapsed: !old(self).trajectory.all_turns_collapsed,
                    collapsed_turns: final(self).trajectory.collapsed_turns,
                    ..old(self).trajectory
                },
                ..*old(self)
            }),
    {
        self.trajectory.all_turns_collapsed = !self.trajectory.all_turns_collapsed;
        self.trajectory.collapsed_turns.clear();
    }

    /// Folds or unfolds a turn.
    pub fn toggle_turn(&mut self, turn: u64)
        requires
            old(self).wf(),
        ensures
            final(self).wf(),
            final(self).trajectory.collapsed_turns@ == crate::table::toggled(
                old(self).trajectory.collapsed_turns@,
                turn,
            ),
            *final(self) == (AppStore {
                trajectory: TrajectoryStore {
                    collapsed_turns: final(self).trajectory.collapsed_turns,
                    ..old(self).trajectory
                },
                ..*old(self)
            }),
    {
        self.trajectory.collapsed_turns.toggle(turn);
    }

    /// Folds or unfolds the calls of all messages.
    pub fn toggle_all_calls(&mut self)
        requires
            old(self).wf(),
        ensures
            final(self).wf(),
            final(self).trajectory.collapsed_calls@ == Set::<u64>::empty(),
            *final(self) == (AppStore {
                trajectory: TrajectoryStore {
                    all_calls_collapsed: !old(self).trajectory.all_calls_collapsed,
                    collapsed_calls: final(self).trajectory.collapsed_calls,
                    ..old(self).trajectory
                },
                ..*old(self)
            }),
    {
        self.trajectory.all_calls_collapsed = !self.trajectory.all_calls_collapsed;
        self.trajectory.collapsed_calls.clear();
    }

    /// Folds or unfolds the calls of a message.
    pub fn toggle_call(&mut self, message_index: u64)
        requires
            old(self).wf(),
        ensures
            final(self).wf(),
            final(self).trajectory.collapsed_calls@ == crate::table::toggled(
                old(self).trajectory.collapsed_calls@,
                message_index,
            ),
            *final(self) == (AppStore {
                trajectory: TrajectoryStore {
                    collapsed_calls: final(self).trajectory.collapsed_calls,
                    ..old(self).trajectory
                },
                ..*old(self)
            }),
    {
        self.trajectory.collapsed_calls.toggle(message_index);
    }

    // -----------------------------------------------------------------------
    // Timeline
    // -----------------------------------------------------------------------
    /// Draws the timeline by durations or not; the selection is forgotten.
    pub fn toggle_trajectory_duration(&mut self)
        requires
            old(self).wf(),
        ensures
            final(self).wf(),
            *final(self) == (AppStore {
                trajectory: TrajectoryStore {
                    trajectory_duration: !old(self).trajectory.trajectory_duration,
                    timeline_selection: None,
                    ..old(self).trajectory
                },
                ..*old(self)
            }),
    {
        self.trajectory.trajectory_duration = !self.trajectory.trajectory_duration;
        self.trajectory.timeline_selection = None;
    }

    /// Selects a stretch of the timeline, given by its ends in any order.
    pub fn set_timeline_selection(&mut self, sel: Option<(u64, u64)>)
        requires
            old(self).wf(),
        ensures
            final(self).wf(),
            *final(self) == (AppStore {
                trajectory: TrajectoryStore {
                    timeline_selection: stretch(sel),
                    ..old(self).trajectory
                },
                ..*old(self)
            }),
    {
        self.trajectory.timeline_selection = ordered_stretch(sel);
    }

    /// Shows a stretch of the timeline, given by its ends in any order.
    pub fn set_timeline_viewport(&mut self, vp: Option<(u64, u64)>)
        requires
            old(self).wf(),
        ensures
            final(self).wf(),
            *final(self) == (AppStore {
                trajectory: TrajectoryStore {
                    timeline_viewport: stretch(vp),
                    ..old(self).trajectory
                },
                ..*old(self)
            }),
    {
        self.trajectory.timeline_viewport = ordered_stretch(vp);
    }

    /// A drag over the timeline begins.
    pub fn begin_timeline_drag(&mut self, anchor: u64)
        requires
            old(self).wf(),
        ensures
            final(self).wf(),
            *final(self) == (AppStore {
                trajectory: TrajectoryStore {
                    timeline_drag: Some(anchor),
                    timeline_draft: None,
                    ..old(self).trajectory
                },
                ..*old(self)
            }),
    {
        self.trajectory.timeline_drag = Some(anchor);
        self.trajectory.timeline_draft = None;
    }

    /// A drag moves: the draft reaches from where it began to here.
    pub fn move_timeline_drag(&mut self, here: u64)
        requires
            old(self).wf(),
        ensures
            final(self).wf(),
            *final(self) == (AppStore {
                trajectory: TrajectoryStore {
                    timeline_draft: match old(self).trajectory.timeline_drag {
                        Some(a) => stretch(Some((a, here))),
                        None => old(self).trajectory.timeline_draft,
                    },
                    ..old(self).trajectory
                },
                ..*old(self)
            }),
    {
        if let Some(a) = self.trajectory.timeline_drag {
            self.trajectory.timeline_draft = ordered_stretch(Some((a, here)));
        }
    }

    /// A drag ends.
    pub fn clear_timeline_drag(&mut self)
        requires
            old(self).wf(),
        ensures
            final(self).wf(),
            *final(self) == (AppStore {
                trajectory: TrajectoryStore {
                    timeline_drag: None,
                    timeline_draft: None,
                    ..old(self).trajectory
                },
                ..*old(self)
            }),
    {
        self.trajectory.timeline_drag = None;
        self.trajectory.timeline_draft = None;
    }
}

/// How the list is scrolled when it is drawn.
#[derive(Debug, Clone, Copy, PartialEq, Eq, Structural)]
pub enum ScrollMove {
    Stay,
    /// By as much as it has grown, so that the view stays on its records.
    KeepView,
    ToEnd,
}

/// How the list is scrolled: earlier records that are laid out keep the view;
/// otherwise a new page is followed where the list follows its end.
pub open spec fn scroll_move(t: TrajectoryStore, taller: bool) -> ScrollMove {
    match t.trajectory_anchor {
        Some(_) => if taller {
            ScrollMove::KeepView
        } else {
            ScrollMove::Stay
        },
        None => if t.trajectory_version != t.trajectory_rendered_version && t.trajectory_follow {
            ScrollMove::ToEnd
        } else {
            ScrollMove::Stay
        },
    }
}

/// A stretch between two ends.
pub open spec fn stretch(ends: Option<(u64, u64)>) -> Option<Stretch> {
    match ends {
        Some(e) => Some(Stretch { from: lesser(e.0, e.1), to: greater(e.0, e.1) }),
        None => None,
    }
}

fn ordered_stretch(ends: Option<(u64, u64)>) -> (r: Option<Stretch>)
    ensures
        r == stretch(ends),
{
    match ends {
        Some(e) => {
            let (from, to) = ascending(e.0, e.1);
            Some(Stretch { from, to })
        },
        None => None,
    }
}

/// The list after it was drawn.
pub open spec fn flushed(t: TrajectoryStore, taller: bool) -> TrajectoryStore {
    match t.trajectory_anchor {
        Some(n) => TrajectoryStore {
            trajectory_anchor: if !taller && n > 0 {
                Some((n - 1) as usize)
            } else {
                None
            },
            ..t
        },
        None => TrajectoryStore { trajectory_rendered_version: t.trajectory_version, ..t },
    }
}

/// What the start of a fetch of earlier records does: nothing while a fetch is
/// under way, where there are none, and without a session.
pub open spec fn older_begun(
    a: TrajectoryStore,
    b: TrajectoryStore,
    current: Option<Seq<char>>,
    r: Option<PageRequest>,
) -> bool {
    let v = a.trajectory;
    if v.loading || v.loading_older || !v.has_older || current is None || v.records@.len() == 0 {
        r is None && b == a
    } else {
        &&& b == (TrajectoryStore { trajectory: TrajectoryView { loading_older: true, ..v }, ..a })
        &&& r matches Some(q) && {
            &&& current == Some(q.session_id@)
            &&& q.limit == TRAJECTORY_PAGE
            &&& q.before == Some(v.records@[0].index)
        }
    }
}

/// Earlier records stand before those that were loaded.
pub open spec fn prepended(a: TrajectoryStore, b: TrajectoryStore, page: TrajectoryPage) -> bool {
    let v = b.trajectory;
    &&& v.records@ == page.records@ + a.trajectory.records@
    &&& v.requests@ == page.requests@
    &&& v.has_older == page.has_older
    &&& v.total == page.total
    &&& v.loading == a.trajectory.loading
    &&& !v.loading_older
    &&& b.trajectory_version == a.trajectory_version + 1
    &&& b == (TrajectoryStore {
        trajectory: v,
        trajectory_anchor: Some(ANCHOR_FRAMES),
        trajectory_version: b.trajectory_version,
        ..a
    })
}

/// A tool call of the current session is marked to be shown.
pub open spec fn call_marked(
    a: TrajectoryStore,
    b: TrajectoryStore,
    current: Option<Seq<char>>,
    seq: u64,
) -> bool {
    match current {
        Some(id) => {
            &&& b.inspect_locate matches Some(w) && w.0@ == id && w.1 == seq
            &&& b == (TrajectoryStore { inspect_locate: b.inspect_locate, ..a })
        },
        None => b == a,
    }
}

/// A fetch that is under way is not started again.
pub proof fn law_one_fetch_at_a_time(
    a: TrajectoryStore,
    b: TrajectoryStore,
    c: TrajectoryStore,
    current: Option<Seq<char>>,
    q: Option<PageRequest>,
    r: Option<PageRequest>,
    at_bottom: bool,
)
    requires
        fetch_begun(a, b, current, q, at_bottom),
        q is Some,
        fetch_begun(b, c, current, r, at_bottom),
    ensures
        r is None,
        c == b,
{
}

/// What is selected and folded survives a new page of the same session, as
/// long as its record is on it.
pub proof fn law_same_session_keeps_selection(
    a: TrajectoryStore,
    b: TrajectoryStore,
    session_id: Seq<char>,
    page: TrajectoryPage,
)
    requires
        page_taken(a, b, session_id, false, page),
        a.inspector matches Some(InspectTarget::Record(ix)) ==> has_index(page.records@, ix),
    ensures
        b.inspector == a.inspector,
        b.inspector_tab == a.inspector_tab,
        b.collapsed_turns == a.collapsed_turns,
        b.collapsed_calls == a.collapsed_calls,
        b.timeline_selection == a.timeline_selection,
{
}

/// An open inspector shows a record of the page after every fetch, or a
/// request.
pub proof fn law_inspector_shows_loaded_record(
    a: TrajectoryStore,
    b: TrajectoryStore,
    session_id: Seq<char>,
    session_changed: bool,
    page: TrajectoryPage,
)
    requires
        page_taken(a, b, session_id, session_changed, page),
    ensures
        b.inspector matches Some(InspectTarget::Record(ix)) ==> has_index(
            b.trajectory.records@,
            ix,
        ),
{
}

/// A fetch of the newest records asks for the last two hundred of the current
/// session; nothing is asked for without a session nor while a fetch is under
/// way. The list follows its end where it stood there or was empty.
pub proof fn law_newest_records_are_asked_for(
    s: &mut AppStore,
    at_bottom: bool,
    r: Option<PageRequest>,
)
    requires
        call_ensures(AppStore::refresh_trajectory, (s, at_bottom), r),
    ensures
        r is None <==> old(s).state.current_id is None || old(s).trajectory.trajectory.loading,
        r matches Some(q) ==> {
            &&& opt_view(old(s).state.current_id) == Some(q.session_id@)
            &&& q.limit == 200
            &&& q.before is None
            &&& q.session_changed <==> opt_view(old(s).trajectory.trajectory_session) != Some(
                q.session_id@,
            )
            &&& final(s).trajectory.trajectory.loading
            &&& final(s).trajectory.trajectory_follow
                <==> (at_bottom || old(s).trajectory.trajectory.records@.len() == 0)
        },
        r is None ==> *final(s) == *old(s),
{
}

/// A fetch of older records asks for five hundred before the first one that is
/// there; nothing is asked for while any fetch is under way, nor where there
/// are no older ones.
pub proof fn law_older_records_are_asked_for(s: &mut AppStore, r: Option<PageRequest>)
    requires
        call_ensures(AppStore::load_earlier_trajectory, (s,), r),
    ensures
        r is Some <==> {
            &&& old(s).state.current_id is Some
            &&& old(s).trajectory.trajectory.has_older
            &&& !old(s).trajectory.trajectory.loading
            &&& !old(s).trajectory.trajectory.loading_older
            &&& old(s).trajectory.trajectory.records@.len() > 0
        },
        r matches Some(q) ==> {
            &&& opt_view(old(s).state.current_id) == Some(q.session_id@)
            &&& q.limit == 500
            &&& q.before == Some(old(s).trajectory.trajectory.records@[0].index)
            &&& final(s).trajectory.trajectory.loading_older
        },
{
}

/// Older records are put before those that are there, and the view stays where
/// it was for up to five frames. A page of another session, or none, changes
/// nothing but that the fetch is over.
pub proof fn law_older_records_come_first(
    s: &mut AppStore,
    request: &PageRequest,
    page: Option<TrajectoryPage>,
)
    requires
        call_ensures(AppStore::earlier_fetched, (s, request, page), ()),
    ensures
        !final(s).trajectory.trajectory.loading_older,
        page is Some && opt_view(old(s).state.current_id) == Some(request.session_id@) ==> {
            let v = final(s).trajectory.trajectory;
            let n = page->0.records@.len();
            &&& v.records@.len() == n + old(s).trajectory.trajectory.records@.len()
            &&& forall|i: int| 0 <= i < n ==> #[trigger] v.records@[i] == page->0.records@[i]
            &&& forall|i: int|
                0 <= i < old(s).trajectory.trajectory.records@.len() ==> v.records@[n + i]
                    == #[trigger] old(s).trajectory.trajectory.records@[i]
            &&& v.has_older == page->0.has_older
            &&& v.total == page->0.total
            &&& v.requests@ == page->0.requests@
            &&& final(s).trajectory.trajectory_anchor == Some(5usize)
        },
        page is None || opt_view(old(s).state.current_id) != Some(request.session_id@)
            ==> final(s).trajectory.trajectory.records == old(s).trajectory.trajectory.records,
{
}

/// The newest records take the place of those that are there. With those of
/// another session nothing stays folded or selected. A page of a session that
/// is not shown any more, or none, leaves the records as they are.
pub proof fn law_newest_records_replace(
    s: &mut AppStore,
    request: &PageRequest,
    page: Option<TrajectoryPage>,
)
    requires
        call_ensures(AppStore::trajectory_fetched, (s, request, page), ()),
    ensures
        !final(s).trajectory.trajectory.loading,
        page is Some && opt_view(old(s).state.current_id) == Some(request.session_id@) ==> {
            let v = final(s).trajectory.trajectory;
            &&& v.records@ == page->0.records@
            &&& v.requests@ == page->0.requests@
            &&& v.has_older == page->0.has_older
            &&& v.total == page->0.total
            &&& !v.loading_older
            &&& opt_view(final(s).trajectory.trajectory_session) == Some(request.session_id@)
        },
        page is Some && opt_view(old(s).state.current_id) == Some(request.session_id@)
            && request.session_changed ==> {
            let t = final(s).trajectory;
            &&& t.collapsed_turns@ =~= Set::<u64>::empty()
            &&& t.collapsed_calls@ == Set::<u64>::empty()
            &&& !t.all_turns_collapsed
            &&& !t.all_calls_collapsed
            &&& t.timeline_selection is None
            &&& t.timeline_viewport is None
            &&& t.timeline_drag is None
            &&& old(s).trajectory.inspect_locate is None ==> t.inspector is None
        },
        page is None || opt_view(old(s).state.current_id) != Some(request.session_id@)
            ==> final(s).trajectory.trajectory.records == old(s).trajectory.trajectory.records,
{
}

/// The first record of a tool call with a number is found, and no other.
pub proof fn law_tool_records_are_found(records: Seq<TrajectoryRecord>, seq: u64, i: int)
    requires
        0 <= i < records.len(),
        records[i].kind@ == "tool"@ && records[i].seq == seq,
        forall|j: int|
            0 <= j < i ==> (#[trigger] records[j]).kind@ != "tool"@ || records[j].seq != seq,
    ensures
        tool_record(records, seq) == Some(records[i]),
    decreases i,
{
    if i > 0 {
        assert(records[0].kind@ != "tool"@ || records[0].seq != seq);
        assert forall|j: int| 0 <= j < i - 1 implies (#[trigger] records.skip(1)[j]).kind@
            != "tool"@ || records.skip(1)[j].seq != seq by {
            assert(records.skip(1)[j] == records[j + 1]);
        }
        law_tool_records_are_found(records.skip(1), seq, i - 1);
    }
}

/// A call that is looked for in the current session is shown as soon as its
/// record is there, in a turn that is unfolded; it is then looked for no more.
pub proof fn law_a_call_is_shown(s: &mut AppStore, id: String, seq: u64, i: int)
    requires
        call_ensures(AppStore::locate_inspect, (s,), ()),
        s.trajectory.inspect_locate == Some((id, seq)),
        opt_view(s.state.current_id) == Some(id@),
        0 <= i < s.trajectory.trajectory.records@.len(),
        s.trajectory.trajectory.records@[i].kind@ == "tool"@,
        s.trajectory.trajectory.records@[i].seq == seq,
        forall|j: int|
            0 <= j < i ==> (#[trigger] s.trajectory.trajectory.records@[j]).kind@ != "tool"@
                || s.trajectory.trajectory.records@[j].seq != seq,
    ensures
        ({
            let rec = old(s).trajectory.trajectory.records@[i];
            let t = final(s).trajectory;
            &&& t.inspector == Some(InspectTarget::Record(rec.index))
            &&& t.inspect_locate is None
            &&& (rec.turn matches Some(n) ==> !t.collapsed_turns@.contains(n))
            &&& forall|n: u64|
                rec.turn != Some(n) ==> (#[trigger] t.collapsed_turns@.contains(n)
                    <==> old(s).trajectory.collapsed_turns@.contains(n))
        }),
{
    law_tool_records_are_found(s.trajectory.trajectory.records@, seq, i);
}

/// The key of a call is its number behind a word.
pub proof fn law_calls_are_numbered(n: u64)
    ensures
        call_seq("call:"@ + crate::decimal::dec(n as nat)) == Some(n),
{
    let p = "call:"@;
    let d = crate::decimal::dec(n as nat);
    assert((p + d).take(p.len() as int) =~= p);
    assert((p + d).skip(p.len() as int) =~= d);
    crate::decimal::law_decimal_round_trip(n);
}

/// A record is selected where it is not, and no record where it is. A request
/// is selected in any case. Closing selects nothing.
pub proof fn law_records_are_selected(
    s: &mut AppStore,
    t: &mut AppStore,
    u: &mut AppStore,
    index: u64,
)
    requires
        call_ensures(AppStore::select_trajectory_record, (s, index), ()),
        call_ensures(AppStore::select_trajectory_request, (t, index), ()),
        call_ensures(AppStore::close_inspector, (u,), ()),
    ensures
        old(s).trajectory.inspector == Some(InspectTarget::Record(index))
            ==> final(s).trajectory.inspector is None,
        old(s).trajectory.inspector != Some(InspectTarget::Record(index))
            ==> final(s).trajectory.inspector == Some(InspectTarget::Record(index)),
        final(t).trajectory.inspector == Some(InspectTarget::Request(index)),
        final(u).trajectory.inspector is None,
        final(s).trajectory.inspector_tab is None,
        final(t).trajectory.inspector_tab is None,
        final(u).trajectory.inspector_tab is None,
{
}

/// A toggle folds what is not folded and unfolds what is; what is not named
/// stays as it was.
pub proof fn law_turns_and_calls_are_folded(
    s: &mut AppStore,
    t: &mut AppStore,
    turn: u64,
    other: u64,
)
    requires
        call_ensures(AppStore::toggle_turn, (s, turn), ()),
        call_ensures(AppStore::toggle_call, (t, turn), ()),
        other != turn,
    ensures
        final(s).trajectory.collapsed_turns@.contains(turn)
            <==> !old(s).trajectory.collapsed_turns@.contains(turn),
        final(s).trajectory.collapsed_turns@.contains(other)
            <==> old(s).trajectory.collapsed_turns@.contains(other),
        final(s).trajectory.collapsed_calls == old(s).trajectory.collapsed_calls,
        final(t).trajectory.collapsed_calls@.contains(turn)
            <==> !old(t).trajectory.collapsed_calls@.contains(turn),
        final(t).trajectory.collapsed_calls@.contains(other)
            <==> old(t).trajectory.collapsed_calls@.contains(other),
        final(t).trajectory.collapsed_turns == old(t).trajectory.collapsed_turns,
{
}

/// All turns, or all calls, are folded or unfolded at once; none is then
/// marked on its own.
pub proof fn law_all_are_folded_at_once(s: &mut AppStore, t: &mut AppStore, n: u64)
    requires
        call_ensures(AppStore::toggle_all_turns, (s,), ()),
        call_ensures(AppStore::toggle_all_calls, (t,), ()),
    ensures
        final(s).trajectory.all_turns_collapsed != old(s).trajectory.all_turns_collapsed,
        final(s).trajectory.all_calls_collapsed == old(s).trajectory.all_calls_collapsed,
        !final(s).trajectory.collapsed_turns@.contains(n),
        final(t).trajectory.all_calls_collapsed != old(t).trajectory.all_calls_collapsed,
        final(t).trajectory.all_turns_collapsed == old(t).trajectory.all_turns_collapsed,
        !final(t).trajectory.collapsed_calls@.contains(n),
{
}

/// The parts of the inspector are opened and closed by their names.
pub proof fn law_parts_of_the_inspector_are_opened(
    s: &mut AppStore,
    t: &mut AppStore,
    u: &mut AppStore,
    v: &mut AppStore,
    name: &str,
    other: Seq<char>,
)
    requires
        call_ensures(AppStore::toggle_inspector_tool, (s, name), ()),
        call_ensures(AppStore::toggle_json_node, (t, name), ()),
        call_ensures(AppStore::set_inspector_tab, (u, name), ()),
        call_ensures(AppStore::toggle_inspector_thinking, (v,), ()),
        other != name@,
    ensures
        final(s).trajectory.expanded_inspector_tools@.contains(name@)
            <==> !old(s).trajectory.expanded_inspector_tools@.contains(name@),
        final(s).trajectory.expanded_inspector_tools@.contains(other)
            <==> old(s).trajectory.expanded_inspector_tools@.contains(other),
        final(t).trajectory.json_expanded@.contains(name@)
            <==> !old(t).trajectory.json_expanded@.contains(name@),
        final(t).trajectory.json_expanded@.contains(other)
            <==> old(t).trajectory.json_expanded@.contains(other),
        opt_view(final(u).trajectory.inspector_tab) == Some(name@),
        final(u).trajectory.inspector_last_tab@ == name@,
        final(v).trajectory.inspector_raw_thinking != old(v).trajectory.inspector_raw_thinking,
{
}

/// The list moves to its end where there is something new and it follows its
/// end. While it waits for older records to be laid out it keeps its view,
/// for as many frames as it was given.
pub proof fn law_list_scrolls(s: &mut AppStore, taller: bool, r: ScrollMove)
    requires
        call_ensures(AppStore::flush_trajectory_scroll, (s, taller), r),
    ensures
        r == ScrollMove::KeepView <==> old(s).trajectory.trajectory_anchor is Some && taller,
        r == ScrollMove::ToEnd
            <==> old(s).trajectory.trajectory_anchor is None
            && old(s).trajectory.trajectory_follow
            && old(s).trajectory.trajectory_version != old(s).trajectory.trajectory_rendered_version,
        taller ==> final(s).trajectory.trajectory_anchor is None,
        !taller ==> (old(s).trajectory.trajectory_anchor matches Some(n) ==> (if n == 0 {
            final(s).trajectory.trajectory_anchor is None
        } else {
            final(s).trajectory.trajectory_anchor matches Some(m) && m + 1 == n
        })),
        old(s).trajectory.trajectory_anchor is None
            ==> final(s).trajectory.trajectory_rendered_version
            == old(s).trajectory.trajectory_version,
{
}

/// A stretch of the timeline has the two ends that were given, in whichever
/// order they came.
pub proof fn law_stretches_have_their_ends(s: &mut AppStore, a: u64, b: u64)
    requires
        call_ensures(AppStore::set_timeline_selection, (s, Some((a, b))), ()),
        !crate::binary64::is_nan(a),
        !crate::binary64::is_nan(b),
    ensures
        final(s).trajectory.timeline_selection matches Some(x) && {
            &&& (x.from == a && x.to == b) || (x.from == b && x.to == a)
            &&& crate::binary64::rank_of(x.from) <= crate::binary64::rank_of(x.to)
        },
{
}

/// A drag runs from where it began to where the pointer is; without one no
/// stretch is drawn.
pub proof fn law_drags_draw_a_stretch(
    s: &mut AppStore,
    t: &mut AppStore,
    u: &mut AppStore,
    from: u64,
    here: u64,
)
    requires
        call_ensures(AppStore::begin_timeline_drag, (s, from), ()),
        call_ensures(AppStore::move_timeline_drag, (t, here), ()),
        call_ensures(AppStore::clear_timeline_drag, (u,), ()),
        !crate::binary64::is_nan(from),
        !crate::binary64::is_nan(here),
    ensures
        final(s).trajectory.timeline_drag == Some(from),
        final(s).trajectory.timeline_draft is None,
        old(t).trajectory.timeline_drag == Some(from) ==> {
            &&& final(t).trajectory.timeline_drag == Some(from)
            &&& final(t).trajectory.timeline_draft matches Some(x) && {
                &&& (x.from == from && x.to == here) || (x.from == here && x.to == from)
                &&& crate::binary64::rank_of(x.from) <= crate::binary64::rank_of(x.to)
            }
        },
        old(t).trajectory.timeline_drag is None
            ==> final(t).trajectory.timeline_draft == old(t).trajectory.timeline_draft,
        final(u).trajectory.timeline_drag is None,
        final(u).trajectory.timeline_draft is None,
{
}

/// A call that is opened from the chat brings the trajectory to the front, and
/// its record is looked for until it is there. A key that is none opens
/// nothing.
pub proof fn law_calls_are_opened_from_the_chat(
    s: &mut AppStore,
    key: &str,
    at_bottom: bool,
    r: Option<PageRequest>,
    id: Seq<char>,
    seq: u64,
)
    requires
        call_ensures(AppStore::inspect_call, (s, key, at_bottom), r),
        opt_view(s.state.current_id) == Some(id),
        call_seq(key@) is Some ==> call_seq(key@) == Some(seq),
    ensures
        call_seq(key@) is None ==> r is None && *final(s) == *old(s),
        call_seq(key@) is Some ==> {
            &&& final(s).panel_open
            &&& final(s).panel_active_tab == Some(PanelTab::Trajectory)
            &&& final(s).panel_tabs@.contains(PanelTab::Trajectory)
            &&& r is Some <==> !old(s).trajectory.trajectory.loading
        },
        call_seq(key@) is Some && tool_record(old(s).trajectory.trajectory.records@, seq) is None
            ==> (final(s).trajectory.inspect_locate matches Some(w) && w.0@ == id && w.1 == seq),
        call_seq(key@) is Some ==> (tool_record(
            old(s).trajectory.trajectory.records@,
            seq,
        ) matches Some(rec) ==> final(s).trajectory.inspector == Some(
            InspectTarget::Record(rec.index),
        )),
{
    if call_seq(key@) is Some {
        assert(crate::shell::store::opened(s.panel_tabs@, PanelTab::Trajectory).contains(
            PanelTab::Trajectory,
        )) by {
            let v = s.panel_tabs@;
            if !v.contains(PanelTab::Trajectory) {
                assert(v.push(PanelTab::Trajectory).last() == PanelTab::Trajectory);
            }
        }
    }
}

/// A list that is scrolled near its top asks for older records; it follows its
/// end where it stands there.
pub proof fn law_scrolling_up_asks_for_older_records(
    s: &mut AppStore,
    at_bottom: bool,
    near_top: bool,
    r: Option<PageRequest>,
)
    requires
        call_ensures(AppStore::on_trajectory_scroll, (s, at_bottom, near_top), r),
    ensures
        final(s).trajectory.trajectory_follow == at_bottom,
        !near_top ==> r is None,
        near_top ==> (r is Some <==> {
            &&& old(s).state.current_id is Some
            &&& old(s).trajectory.trajectory.has_older
            &&& !old(s).trajectory.trajectory.loading
            &&& !old(s).trajectory.trajectory.loading_older
            &&& old(s).trajectory.trajectory.records@.len() > 0
        }),
        r matches Some(q) ==> q.before == Some(old(s).trajectory.trajectory.records@[0].index),
{
}

/// The part of the timeline in view has the two ends that were given, and the
/// scale is changed without a selection.
pub proof fn law_timeline_has_its_view(s: &mut AppStore, t: &mut AppStore, a: u64, b: u64)
    requires
        call_ensures(AppStore::set_timeline_viewport, (s, Some((a, b))), ()),
        call_ensures(AppStore::toggle_trajectory_duration, (t,), ()),
        !crate::binary64::is_nan(a),
        !crate::binary64::is_nan(b),
    ensures
        final(s).trajectory.timeline_viewport matches Some(x) && {
            &&& (x.from == a && x.to == b) || (x.from == b && x.to == a)
            &&& crate::binary64::rank_of(x.from) <= crate::binary64::rank_of(x.to)
        },
        final(s).trajectory.timeline_selection == old(s).trajectory.timeline_selection,
        final(t).trajectory.trajectory_duration != old(t).trajectory.trajectory_duration,
        final(t).trajectory.timeline_selection is None,
{
}

} // verus!
