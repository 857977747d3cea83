//! The session tree of the sidebar: sessions by workspace, filtered by a
//! query, and the menus of its rows.

use crate::decimal::{dec, usize_text};
use crate::scan::{contains_str, occurs, trim, trimmed};
use crate::shell::state::{summary_values, SessionSummary, SummaryValue};
use crate::shell::store::{AppStore, SessionsPane};
use crate::subagents::{count_running, title_of};
use crate::text::{cat2, lower, lowercase, opt_is, opt_view, owned, str_eq, views};
use vstd::prelude::*;
use vstd::string::*;

verus! {

// ---------------------------------------------------------------------------
// Groups
// ---------------------------------------------------------------------------
/// The sessions of a workspace, by their places in the list of sessions.
#[derive(Debug, PartialEq, Eq)]
pub struct Group {
    pub workspace: String,
    pub sessions: Vec<usize>,
}

/// The content of a group.
#[verifier::ext_equal]
pub struct GroupValue {
    pub workspace: Seq<char>,
    pub sessions: Seq<usize>,
}

impl View for Group {
    type V = GroupValue;

    open spec fn view(&self) -> GroupValue {
        GroupValue { workspace: self.workspace@, sessions: self.sessions@ }
    }
}

pub open spec fn group_values(v: Seq<Group>) -> Seq<GroupValue> {
    v.map_values(|g: Group| g@)
}

/// The first group of a workspace from a position on, or the end.
pub open spec fn group_at(g: Seq<GroupValue>, workspace: Seq<char>, i: int) -> int
    decreases g.len() - i,
{
    if 0 <= i < g.len() && g[i].workspace != workspace {
        group_at(g, workspace, i + 1)
    } else {
        i
    }
}

/// The groups with a session put into that of its workspace, which is added at
/// the end where it is missing.
pub open spec fn placed(g: Seq<GroupValue>, workspace: Seq<char>, ix: usize) -> Seq<GroupValue> {
    let k = group_at(g, workspace, 0);
    if k < g.len() {
        g.update(
            k,
            GroupValue { workspace: g[k].workspace, sessions: g[k].sessions.push(ix) },
        )
    } else {
        g.push(GroupValue { workspace, sessions: seq![ix] })
    }
}

/// Whether a session is shown: no subagent, and its title, in lower case, holds
/// the query.
pub open spec fn shown(s: SummaryValue, lowered: Seq<char>, query: Seq<char>) -> bool {
    !s.is_subagent() && (query.len() == 0 || occurs(lowered, query))
}

/// A group without sessions for each workspace.
pub open spec fn empty_groups(workspaces: Seq<Seq<char>>) -> Seq<GroupValue> {
    workspaces.map_values(|w: Seq<char>| GroupValue { workspace: w, sessions: Seq::empty() })
}

/// The groups with the first sessions put into them. `of` gives the workspace
/// of each session, `lowered` its title in lower case.
pub open spec fn gathered(
    workspaces: Seq<Seq<char>>,
    sessions: Seq<SummaryValue>,
    of: Seq<Seq<char>>,
    lowered: Seq<Seq<char>>,
    query: Seq<char>,
    n: nat,
) -> Seq<GroupValue>
    decreases n,
{
    if n == 0 {
        empty_groups(workspaces)
    } else {
        let init = gathered(workspaces, sessions, of, lowered, query, (n - 1) as nat);
        if shown(sessions[n - 1], lowered[n - 1], query) {
            placed(init, of[n - 1], (n - 1) as usize)
        } else {
            init
        }
    }
}

/// The groups that have sessions.
pub open spec fn filled(g: Seq<GroupValue>) -> Seq<GroupValue>
    decreases g.len(),
{
    if g.len() == 0 {
        Seq::empty()
    } else if g.last().sessions.len() > 0 {
        filled(g.drop_last()).push(g.last())
    } else {
        filled(g.drop_last())
    }
}

/// The groups of the tree: one for each workspace; under a query, those with
/// sessions only.
pub open spec fn groups_of(
    workspaces: Seq<Seq<char>>,
    sessions: Seq<SummaryValue>,
    of: Seq<Seq<char>>,
    lowered: Seq<Seq<char>>,
    query: Seq<char>,
) -> Seq<GroupValue> {
    let all = gathered(workspaces, sessions, of, lowered, query, sessions.len());
    if query.len() > 0 {
        filled(all)
    } else {
        all
    }
}

/// Whether every place is one of the list.
pub open spec fn places_below(g: Seq<GroupValue>, n: int) -> bool {
    forall|k: int, j: int|
        0 <= k < g.len() && 0 <= j < g[k].sessions.len() ==> #[trigger] g[k].sessions[j] < n
}

proof fn lemma_group_at(g: Seq<GroupValue>, workspace: Seq<char>, i: int)
    requires
        0 <= i <= g.len(),
    ensures
        i <= group_at(g, workspace, i) <= g.len(),
        group_at(g, workspace, i) < g.len() ==> g[group_at(g, workspace, i)].workspace == workspace,
    decreases g.len() - i,
{
    if i < g.len() && g[i].workspace != workspace {
        lemma_group_at(g, workspace, i + 1);
    }
}

proof fn lemma_placed_below(g: Seq<GroupValue>, workspace: Seq<char>, ix: usize, n: int)
    requires
        places_below(g, n),
        ix < n,
    ensures
        places_below(placed(g, workspace, ix), n),
{
    lemma_group_at(g, workspace, 0);
    let r = placed(g, workspace, ix);
    let p = group_at(g, workspace, 0);
    assert forall|k: int, j: int|
        0 <= k < r.len()
            && 0 <= j < r[k].sessions.len() implies #[trigger] r[k].sessions[j] < n by {
        if k != p {
            assert(r[k] == g[k]);
            assert(g[k].sessions[j] < n);
        } else if p < g.len() && j < g[k].sessions.len() {
            assert(g[k].sessions[j] < n);
        }
    }
}

fn place(groups: &mut Vec<Group>, workspace: &str, ix: usize)
    ensures
        group_values(final(groups)@) == placed(group_values(old(groups)@), workspace@, ix),
{
    let ghost all = group_values(groups@);
    let mut k: usize = 0;
    while k < groups.len() && !str_eq(groups[k].workspace.as_str(), workspace)
        invariant
            k <= groups@.len(),
            groups@ == old(groups)@,
            all == group_values(groups@),
            group_at(all, workspace@, 0) == group_at(all, workspace@, k as int),
        decreases groups@.len() - k,
    {
        assert(all[k as int] == groups@[k as int]@);
        k = k + 1;
    }
    if k < groups.len() {
        assert(all[k as int] == groups@[k as int]@);
        groups[k].sessions.push(ix);
    } else {
        let mut sessions: Vec<usize> = Vec::new();
        sessions.push(ix);
        groups.push(Group { workspace: owned(workspace), sessions });
        assert(groups@.last()@.sessions =~= seq![ix]);
    }
    assert(group_values(groups@) =~= placed(all, workspace@, ix));
}

/// See [`groups_of`].
pub fn group_sessions(
    workspaces: &Vec<String>,
    sessions: &Vec<SessionSummary>,
    of: &Vec<String>,
    lowered: &Vec<String>,
    query: &str,
) -> (r: Vec<Group>)
    requires
        of@.len() == sessions@.len(),
        lowered@.len() == sessions@.len(),
    ensures
        group_values(r@) == groups_of(
            views(workspaces@),
            summary_values(sessions@),
            views(of@),
            views(lowered@),
            query@,
        ),
        places_below(group_values(r@), sessions@.len() as int),
{
    let ghost w = views(workspaces@);
    let ghost s = summary_values(sessions@);
    let ghost o = views(of@);
    let ghost l = views(lowered@);
    let mut groups: Vec<Group> = Vec::new();
    let mut i: usize = 0;
    while i < workspaces.len()
        invariant
            i <= workspaces@.len(),
            w == views(workspaces@),
            group_values(groups@) == empty_groups(w).take(i as int),
        decreases workspaces@.len() - i,
    {
        let ghost before = groups@;
        let g = Group { workspace: owned(workspaces[i].as_str()), sessions: Vec::new() };
        assert(g@ =~= empty_groups(w)[i as int]);
        groups.push(g);
        assert(group_values(groups@) =~= group_values(before).push(g@));
        assert(empty_groups(w).take(i + 1) =~= empty_groups(w).take(i as int).push(g@));
        i = i + 1;
    }
    assert(empty_groups(w).take(i as int) =~= empty_groups(w));
    let all_shown = query.is_empty();
    assert(all_shown == (query@.len() == 0));
    let mut n: usize = 0;
    while n < sessions.len()
        invariant
            n <= sessions@.len(),
            of@.len() == sessions@.len(),
            lowered@.len() == sessions@.len(),
            s == summary_values(sessions@),
            o == views(of@),
            l == views(lowered@),
            all_shown == (query@.len() == 0),
            group_values(groups@) == gathered(w, s, o, l, query@, n as nat),
            places_below(group_values(groups@), sessions@.len() as int),
        decreases sessions@.len() - n,
    {
        let sub = sessions[n].is_subagent();
        if !sub && (all_shown || contains_str(lowered[n].as_str(), query)) {
            proof {
                lemma_placed_below(group_values(groups@), o[n as int], n, sessions@.len() as int);
            }
            place(&mut groups, of[n].as_str(), n);
        }
        n = n + 1;
    }
    if all_shown {
        return groups;
    }
    let ghost all = group_values(groups@);
    let mut out: Vec<Group> = Vec::new();
    let mut k: usize = 0;
    assert(all.take(0) =~= Seq::<GroupValue>::empty());
    assert(group_values(out@) =~= Seq::<GroupValue>::empty());
    while k < groups.len()
        invariant
            k <= groups@.len(),
            all == group_values(groups@),
            group_values(out@) == filled(all.take(k as int)),
            places_below(all, sessions@.len() as int),
            places_below(group_values(out@), sessions@.len() as int),
        decreases groups@.len() - k,
    {
        assert(all.take(k + 1).drop_last() =~= all.take(k as int));
        assert(all.take(k + 1).last() == groups@[k as int]@);
        if groups[k].sessions.len() > 0 {
            let ghost before = group_values(out@);
            let mut places: Vec<usize> = Vec::new();
            let mut j: usize = 0;
            while j < groups[k as usize].sessions.len()
                invariant
                    k < groups@.len(),
                    j <= groups@[k as int].sessions@.len(),
                    places@ == groups@[k as int].sessions@.take(j as int),
                decreases groups@[k as int].sessions@.len() - j,
            {
                places.push(groups[k].sessions[j]);
                j = j + 1;
            }
            assert(places@ =~= groups@[k as int].sessions@);
            let g = Group { workspace: owned(groups[k].workspace.as_str()), sessions: places };
            assert(g@ == all[k as int]);
            out.push(g);
            assert(group_values(out@) =~= before.push(all[k as int]));
            proof {
                let after = group_values(out@);
                assert forall|a: int, b: int|
                    0 <= a < after.len()
                        && 0 <= b < after[a].sessions.len() implies #[trigger] after[a].sessions[b]
                    < sessions@.len() by {
                    if a < before.len() {
                        assert(after[a] == before[a]);
                        assert(before[a].sessions[b] < sessions@.len());
                    } else {
                        assert(all[k as int].sessions[b] < sessions@.len());
                    }
                }
            }
        }
        k = k + 1;
    }
    assert(all.take(k as int) =~= all);
    out
}

/// A session that is shown stands in the group of its workspace.
pub proof fn law_shown_sessions_are_listed(
    workspaces: Seq<Seq<char>>,
    sessions: Seq<SummaryValue>,
    of: Seq<Seq<char>>,
    lowered: Seq<Seq<char>>,
    query: Seq<char>,
    n: nat,
    i: int,
)
    requires
        0 <= i < n <= usize::MAX,
        shown(sessions[i], lowered[i], query),
    ensures
        exists|k: int|
            0 <= k < gathered(workspaces, sessions, of, lowered, query, n).len() && (
            #[trigger] gathered(workspaces, sessions, of, lowered, query, n)[k]).workspace == of[i]
                && gathered(workspaces, sessions, of, lowered, query, n)[k].sessions.contains(
                i as usize,
            ),
    decreases n,
{
    let init = gathered(workspaces, sessions, of, lowered, query, (n - 1) as nat);
    let all = gathered(workspaces, sessions, of, lowered, query, n);
    let p = group_at(init, of[n - 1], 0);
    lemma_group_at(init, of[n - 1], 0);
    if i == n - 1 {
        let last = all[p].sessions.len() - 1;
        assert(all[p].sessions[last] == i as usize);
        assert(all[p].sessions.contains(i as usize));
    } else {
        law_shown_sessions_are_listed(
            workspaces,
            sessions,
            of,
            lowered,
            query,
            (n - 1) as nat,
            i,
        );
        let k = choose|k: int|
            0 <= k < init.len() && (#[trigger] init[k]).workspace == of[i]
                && init[k].sessions.contains(i as usize);
        let j = init[k].sessions.index_of(i as usize);
        assert(all[k].sessions[j] == i as usize);
        assert(all[k].sessions.contains(i as usize));
    }
}

/// What stands in a group is a session that is shown, of that workspace.
pub proof fn law_listed_sessions_are_shown(
    workspaces: Seq<Seq<char>>,
    sessions: Seq<SummaryValue>,
    of: Seq<Seq<char>>,
    lowered: Seq<Seq<char>>,
    query: Seq<char>,
    n: nat,
    k: int,
    j: int,
)
    requires
        n <= usize::MAX,
        0 <= k < gathered(workspaces, sessions, of, lowered, query, n).len(),
        0 <= j < gathered(workspaces, sessions, of, lowered, query, n)[k].sessions.len(),
    ensures
        ({
            let g = gathered(workspaces, sessions, of, lowered, query, n)[k];
            let i = g.sessions[j] as int;
            i < n && shown(sessions[i], lowered[i], query) && of[i] == g.workspace
        }),
    decreases n,
{
    if n > 0 {
        let init = gathered(workspaces, sessions, of, lowered, query, (n - 1) as nat);
        let p = group_at(init, of[n - 1], 0);
        lemma_group_at(init, of[n - 1], 0);
        let hidden = !shown(sessions[n - 1], lowered[n - 1], query);
        if k < init.len() && j < init[k].sessions.len() {
            law_listed_sessions_are_shown(
                workspaces,
                sessions,
                of,
                lowered,
                query,
                (n - 1) as nat,
                k,
                j,
            );
        } else {
            assert(!hidden && k == p);
        }
    }
}

/// Every workspace keeps its group, in the order of the workspaces, though it
/// has no session.
pub proof fn law_workspaces_stay(
    workspaces: Seq<Seq<char>>,
    sessions: Seq<SummaryValue>,
    of: Seq<Seq<char>>,
    lowered: Seq<Seq<char>>,
    n: nat,
    k: int,
)
    requires
        0 <= k < workspaces.len(),
    ensures
        k < gathered(workspaces, sessions, of, lowered, Seq::empty(), n).len(),
        gathered(workspaces, sessions, of, lowered, Seq::empty(), n)[k].workspace == workspaces[k],
    decreases n,
{
    if n > 0 {
        law_workspaces_stay(workspaces, sessions, of, lowered, (n - 1) as nat, k);
        lemma_group_at(
            gathered(workspaces, sessions, of, lowered, Seq::empty(), (n - 1) as nat),
            of[n - 1],
            0,
        );
    }
}

// ---------------------------------------------------------------------------
// Rows
// ---------------------------------------------------------------------------
/// The head of a group.
#[derive(Debug, PartialEq, Eq)]
pub struct GroupHeader {
    pub workspace: String,
    /// The name that the workspace is shown under.
    pub title: String,
    /// Whether the workspace is the active one.
    pub active: bool,
    /// Whether its sessions are hidden.
    pub collapsed: bool,
}

/// What stands at the end of a session's row.
#[derive(Debug, PartialEq, Eq)]
pub enum RowTail {
    /// The session runs.
    Running,
    /// Subagents of the session run.
    Subagents(String),
    /// When the session changed last.
    Time(String),
}

/// The row of a session.
#[derive(Debug, PartialEq, Eq)]
pub struct SessionRow {
    pub session_id: String,
    pub title: String,
    /// Whether the session is the current one.
    pub active: bool,
    /// Whether its menu is open.
    pub menu_open: bool,
    pub tail: RowTail,
}

/// A row of the tree.
#[derive(Debug, PartialEq, Eq)]
pub enum TreeRow {
    Header(GroupHeader),
    Session(SessionRow),
}

/// The content of what stands at the end of a row.
#[verifier::ext_equal]
pub enum TailValue {
    Running,
    Subagents(Seq<char>),
    Time(Seq<char>),
}

/// The content of a row.
#[verifier::ext_equal]
pub enum TreeRowValue {
    Header { workspace: Seq<char>, title: Seq<char>, active: bool, collapsed: bool },
    Session {
        session_id: Seq<char>,
        title: Seq<char>,
        active: bool,
        menu_open: bool,
        tail: TailValue,
    },
}

impl View for RowTail {
    type V = TailValue;

    open spec fn view(&self) -> TailValue {
        match *self {
            RowTail::Running => TailValue::Running,
            RowTail::Subagents(t) => TailValue::Subagents(t@),
            RowTail::Time(t) => TailValue::Time(t@),
        }
    }
}

impl View for GroupHeader {
    type V = TreeRowValue;

    open spec fn view(&self) -> TreeRowValue {
        TreeRowValue::Header {
            workspace: self.workspace@,
            title: self.title@,
            active: self.active,
            collapsed: self.collapsed,
        }
    }
}

impl View for SessionRow {
    type V = TreeRowValue;

    open spec fn view(&self) -> TreeRowValue {
        TreeRowValue::Session {
            session_id: self.session_id@,
            title: self.title@,
            active: self.active,
            menu_open: self.menu_open,
            tail: self.tail@,
        }
    }
}

impl View for TreeRow {
    type V = TreeRowValue;

    open spec fn view(&self) -> TreeRowValue {
        match *self {
            TreeRow::Header(h) => h@,
            TreeRow::Session(r) => r@,
        }
    }
}

pub open spec fn tree_row_values(v: Seq<TreeRow>) -> Seq<TreeRowValue> {
    v.map_values(|r: TreeRow| r@)
}

/// What the sidebar shows.
#[derive(Debug, Clone, Copy, PartialEq, Eq, Structural)]
pub enum SidebarView {
    /// Nothing: it is folded.
    Hidden,
    /// The menu of the settings.
    Settings,
    /// What a search over all sessions found.
    Hits,
    /// The session tree.
    Tree,
}

impl AppStore {
    /// What the sidebar shows: nothing where it is folded, the menu of the
    /// settings where they are open, what a search found where there was one,
    /// else the session tree.
    pub fn sidebar_view(&self, searched: bool) -> (r: SidebarView)
        ensures
            r == (if self.sidebar_collapsed {
                SidebarView::Hidden
            } else if self.settings.settings_open {
                SidebarView::Settings
            } else if searched {
                SidebarView::Hits
            } else {
                SidebarView::Tree
            }),
    {
        if self.sidebar_collapsed {
            SidebarView::Hidden
        } else if self.settings.settings_open {
            SidebarView::Settings
        } else if searched {
            SidebarView::Hits
        } else {
            SidebarView::Tree
        }
    }

    /// The head of a group.
    pub open spec fn header_of(self, workspace: Seq<char>, collapsed: bool) -> TreeRowValue {
        TreeRowValue::Header {
            workspace,
            title: title_of(self.sessions.workspace_titles@, workspace),
            active: opt_view(self.state.active_workspace) == Some(workspace),
            collapsed,
        }
    }

    /// See [`AppStore::header_of`].
    pub fn group_header(&self, workspace: &str, collapsed: bool) -> (r: GroupHeader)
        requires
            self.wf(),
        ensures
            r@ == self.header_of(workspace@, collapsed),
    {
        let title = match self.sessions.workspace_titles.get(workspace) {
            Some(t) => owned(t.as_str()),
            None => owned(workspace),
        };
        GroupHeader {
            workspace: owned(workspace),
            title,
            active: opt_is(&self.state.active_workspace, workspace),
            collapsed,
        }
    }

    /// The row of a session: that it runs stands before that subagents of it
    /// run, and that before the time.
    pub open spec fn row_of(self, id: Seq<char>, time: Seq<char>) -> TreeRowValue {
        let subagents = count_running(self.jobs(id));
        TreeRowValue::Session {
            session_id: id,
            title: title_of(self.state.titles@, id),
            active: opt_view(self.state.current_id) == Some(id),
            menu_open: opt_view(self.sessions.menu_open_session) == Some(id),
            tail: if self.runs(id) {
                TailValue::Running
            } else if subagents > 0 {
                TailValue::Subagents(dec(subagents) + " 个子代理"@)
            } else {
                TailValue::Time(time)
            },
        }
    }

    /// See [`AppStore::row_of`].
    pub fn session_row(&self, id: &str, time: &str) -> (r: SessionRow)
        requires
            self.wf(),
        ensures
            r@ == self.row_of(id@, time@),
    {
        let subagents = self.running_subagent_count(id);
        let tail = if self.is_running(id) {
            RowTail::Running
        } else if subagents > 0 {
            let n = usize_text(subagents);
            RowTail::Subagents(cat2(n.as_str(), " 个子代理"))
        } else {
            RowTail::Time(owned(time))
        };
        SessionRow {
            session_id: owned(id),
            title: self.title_for(id),
            active: opt_is(&self.state.current_id, id),
            menu_open: opt_is(&self.sessions.menu_open_session, id),
            tail,
        }
    }

    /// The rows of sessions, by their places.
    pub open spec fn rows_at(self, places: Seq<usize>, times: Seq<Seq<char>>) -> Seq<TreeRowValue> {
        Seq::new(
            places.len(),
            |j: int|
                self.row_of(
                    self.state.sessions@[places[j] as int].session_id@,
                    times[places[j] as int],
                ),
        )
    }

    /// The rows of a group: its head and, unless they are hidden, its sessions.
    /// A search looks into hidden ones too.
    pub open spec fn rows_of_group(
        self,
        g: GroupValue,
        searching: bool,
        times: Seq<Seq<char>>,
    ) -> Seq<TreeRowValue> {
        let collapsed = self.sessions.collapsed_workspaces@.contains(g.workspace) && !searching;
        let head = seq![self.header_of(g.workspace, collapsed)];
        if collapsed {
            head
        } else {
            head + self.rows_at(g.sessions, times)
        }
    }

    /// The rows of groups.
    pub open spec fn rows_of_groups(
        self,
        g: Seq<GroupValue>,
        searching: bool,
        times: Seq<Seq<char>>,
    ) -> Seq<TreeRowValue>
        decreases g.len(),
    {
        if g.len() == 0 {
            Seq::empty()
        } else {
            self.rows_of_groups(g.drop_last(), searching, times) + self.rows_of_group(
                g.last(),
                searching,
                times,
            )
        }
    }

    /// The rows of groups; `times` holds when each session changed last.
    pub fn tree_rows(&self, groups: &Vec<Group>, searching: bool, times: &Vec<String>) -> (r: Vec<
        TreeRow,
    >)
        requires
            self.wf(),
            times@.len() == self.state.sessions@.len(),
            places_below(group_values(groups@), self.state.sessions@.len() as int),
        ensures
            tree_row_values(r@) == self.rows_of_groups(
                group_values(groups@),
                searching,
                views(times@),
            ),
    {
        let ghost all = group_values(groups@);
        let ghost t = views(times@);
        let mut out: Vec<TreeRow> = Vec::new();
        let mut k: usize = 0;
        assert(all.take(0) =~= Seq::<GroupValue>::empty());
        assert(tree_row_values(out@) =~= Seq::<TreeRowValue>::empty());
        while k < groups.len()
            invariant
                self.wf(),
                k <= groups@.len(),
                all == group_values(groups@),
                t == views(times@),
                times@.len() == self.state.sessions@.len(),
                places_below(all, self.state.sessions@.len() as int),
                tree_row_values(out@) == self.rows_of_groups(all.take(k as int), searching, t),
            decreases groups@.len() - k,
        {
            let ghost init = tree_row_values(out@);
            let ghost g = all[k as int];
            assert(all.take(k + 1).drop_last() =~= all.take(k as int));
            assert(all.take(k + 1).last() == g);
            let workspace = groups[k].workspace.as_str();
            let collapsed = self.sessions.collapsed_workspaces.contains(workspace) && !searching;
            let head = self.group_header(workspace, collapsed);
            let ghost h = head@;
            out.push(TreeRow::Header(head));
            assert(tree_row_values(out@) =~= init + seq![h]);
            if !collapsed {
                let places = &groups[k].sessions;
                let mut j: usize = 0;
                assert(self.rows_at(places@, t).take(0) =~= Seq::<TreeRowValue>::empty());
                assert(init + seq![h] + Seq::<TreeRowValue>::empty() =~= init + seq![h]);
                while j < places.len()
                    invariant
                        self.wf(),
                        j <= places@.len(),
                        0 <= k < all.len(),
                        g == all[k as int],
                        places@ == g.sessions,
                        t == views(times@),
                        times@.len() == self.state.sessions@.len(),
                        places_below(all, self.state.sessions@.len() as int),
                        tree_row_values(out@) == init + seq![h] + self.rows_at(places@, t).take(
                            j as int,
                        ),
                    decreases places@.len() - j,
                {
                    let ghost before = tree_row_values(out@);
                    let ghost rows = self.rows_at(places@, t);
                    let ix: usize = places[j];
                    assert(all[k as int].sessions[j as int] < self.state.sessions@.len());
                    let row = self.session_row(
                        self.state.sessions[ix].session_id.as_str(),
                        times[ix].as_str(),
                    );
                    assert(row@ == rows[j as int]);
                    out.push(TreeRow::Session(row));
                    assert(tree_row_values(out@) =~= before.push(row@));
                    assert(rows.take(j + 1) =~= rows.take(j as int).push(row@));
                    assert(init + seq![h] + rows.take(j + 1) =~= before.push(row@));
                    j = j + 1;
                }
                assert(self.rows_at(places@, t).take(j as int) =~= self.rows_at(places@, t));
                assert(init + seq![h] + self.rows_at(places@, t) =~= init + (seq![h]
                    + self.rows_at(places@, t)));
            }
            k = k + 1;
        }
        assert(all.take(k as int) =~= all);
        out
    }

    /// The titles of the sessions.
    pub open spec fn all_titles(self) -> Seq<Seq<char>> {
        summary_values(self.state.sessions@).map_values(
            |s: SummaryValue| title_of(self.state.titles@, s.session_id),
        )
    }

    /// The session tree under what stands in the search box. `of` gives the
    /// workspace of each session, `times` when it changed last.
    pub fn session_list(&self, of: &Vec<String>, times: &Vec<String>, input: &str) -> (r: Vec<
        TreeRow,
    >)
        requires
            self.wf(),
            of@.len() == self.state.sessions@.len(),
            times@.len() == self.state.sessions@.len(),
        ensures
            ({
                let query = lowercase(trim(input@));
                tree_row_values(r@) == self.rows_of_groups(
                    groups_of(
                        views(self.state.host_info.workspaces@),
                        summary_values(self.state.sessions@),
                        views(of@),
                        self.all_titles().map_values(|t: Seq<char>| lowercase(t)),
                        query,
                    ),
                    query.len() > 0,
                    views(times@),
                )
            }),
    {
        let text = trimmed(input);
        let query = lower(text.as_str());
        let ghost want = self.all_titles().map_values(|t: Seq<char>| lowercase(t));
        let mut lowered: Vec<String> = Vec::new();
        let mut i: usize = 0;
        assert(views(lowered@) =~= want.take(0));
        while i < self.state.sessions.len()
            invariant
                self.wf(),
                i <= self.state.sessions@.len(),
                want == self.all_titles().map_values(|t: Seq<char>| lowercase(t)),
                lowered@.len() == i,
                views(lowered@) == want.take(i as int),
            decreases self.state.sessions@.len() - i,
        {
            let ghost before = views(lowered@);
            let title = self.title_for(self.state.sessions[i].session_id.as_str());
            let l = lower(title.as_str());
            assert(self.all_titles()[i as int] == title@);
            assert(l@ == want[i as int]);
            lowered.push(l);
            assert(views(lowered@) =~= before.push(l@));
            assert(want.take(i + 1) =~= before.push(l@));
            i = i + 1;
        }
        assert(want.take(i as int) =~= want);
        let groups = group_sessions(
            &self.state.host_info.workspaces,
            &self.state.sessions,
            of,
            &lowered,
            query.as_str(),
        );
        let searching = !query.as_str().is_empty();
        self.tree_rows(&groups, searching, times)
    }

    // -----------------------------------------------------------------------
    // Menus
    // -----------------------------------------------------------------------
    /// A click on the menu button of a session: opens its menu, or closes it
    /// where it is the open one.
    pub fn click_row_menu(&mut self, id: &str)
        requires
            old(self).wf(),
        ensures
            final(self).wf(),
            opt_view(final(self).sessions.menu_open_session) == clicked(
                opt_view(old(self).sessions.menu_open_session),
                id@,
            ),
            *final(self) == (AppStore {
                sessions: SessionsPane {
                    menu_open_session: final(self).sessions.menu_open_session,
                    ..old(self).sessions
                },
                ..*old(self)
            }),
    {
        if opt_is(&self.sessions.menu_open_session, id) {
            self.sessions.menu_open_session = None;
        } else {
            self.sessions.menu_open_session = Some(owned(id));
        }
    }

    /// A click on the menu button of a workspace, likewise.
    pub fn click_ws_menu(&mut self, workspace: &str)
        requires
            old(self).wf(),
        ensures
            final(self).wf(),
            opt_view(final(self).sessions.menu_open_ws) == clicked(
                opt_view(old(self).sessions.menu_open_ws),
                workspace@,
            ),
            *final(self) == (AppStore {
                sessions: SessionsPane {
                    menu_open_ws: final(self).sessions.menu_open_ws,
                    ..old(self).sessions
                },
                ..*old(self)
            }),
    {
        if opt_is(&self.sessions.menu_open_ws, workspace) {
            self.sessions.menu_open_ws = None;
        } else {
            self.sessions.menu_open_ws = Some(owned(workspace));
        }
    }

    /// Closes the menu of a session where the action taken from it leaves it
    /// open.
    pub fn after_row_action(&mut self, action: RowAction)
        requires
            old(self).wf(),
        ensures
            final(self).wf(),
            opt_view(final(self).sessions.menu_open_session) == (if action.ends_menu() {
                None
            } else {
                opt_view(old(self).sessions.menu_open_session)
            }),
            *final(self) == (AppStore {
                sessions: SessionsPane {
                    menu_open_session: final(self).sessions.menu_open_session,
                    ..old(self).sessions
                },
                ..*old(self)
            }),
    {
        match action {
            RowAction::Fork | RowAction::Archive | RowAction::ExportLog => {
                self.sessions.menu_open_session = None;
            },
            RowAction::Rename | RowAction::Delete => {},
        }
    }

    /// The menu of a workspace.
    pub fn ws_menu_card(&self, workspace: &str) -> (r: Vec<WsAction>)
        ensures
            r@ == ws_actions(views(self.state.host_info.workspaces@), workspace@),
    {
        let names = &self.state.host_info.workspaces;
        let ghost all = views(names@);
        let mut i: usize = 0;
        while i < names.len() && !str_eq(names[i].as_str(), workspace)
            invariant
                i <= names@.len(),
                all == views(names@),
                name_at(all, workspace@, 0) == name_at(all, workspace@, i as int),
            decreases names@.len() - i,
        {
            assert(all[i as int] == names@[i as int]@);
            i = i + 1;
        }
        if i < names.len() {
            assert(all[i as int] == names@[i as int]@);
        }
        let found = i < names.len();
        let mut out: Vec<WsAction> = Vec::new();
        out.push(WsAction::Rename);
        if found && i > 0 {
            out.push(WsAction::MoveUp);
        }
        if found && i + 1 < names.len() {
            out.push(WsAction::MoveDown);
        }
        if !(found && i == 0) {
            out.push(WsAction::Remove);
        }
        assert(out@ =~= ws_actions(all, workspace@));
        out
    }
}

/// What is open after a click on the button of a menu.
pub open spec fn clicked(open: Option<Seq<char>>, id: Seq<char>) -> Option<Seq<char>> {
    if open == Some(id) {
        None
    } else {
        Some(id)
    }
}

/// What the menu of a session offers.
#[derive(Debug, Clone, Copy, PartialEq, Eq, Structural)]
pub enum RowAction {
    Rename,
    Fork,
    Archive,
    Delete,
    ExportLog,
}

impl RowAction {
    /// Whether the menu is closed with the action. A new name and a deletion
    /// are asked for first.
    pub open spec fn ends_menu(self) -> bool {
        self == RowAction::Fork || self == RowAction::Archive || self == RowAction::ExportLog
    }

    /// The text of the item.
    pub fn label(self) -> (r: &'static str)
        ensures
            r@ == (match self {
                RowAction::Rename => "重命名"@,
                RowAction::Fork => "分叉"@,
                RowAction::Archive => "归档"@,
                RowAction::Delete => "删除"@,
                RowAction::ExportLog => "导出日志"@,
            }),
    {
        match self {
            RowAction::Rename => "重命名",
            RowAction::Fork => "分叉",
            RowAction::Archive => "归档",
            RowAction::Delete => "删除",
            RowAction::ExportLog => "导出日志",
        }
    }
}

/// The menu of a session.
pub fn row_menu_card() -> (r: Vec<RowAction>)
    ensures
        r@ == seq![
            RowAction::Rename,
            RowAction::Fork,
            RowAction::Archive,
            RowAction::Delete,
            RowAction::ExportLog,
        ],
{
    let r = vec![
        RowAction::Rename,
        RowAction::Fork,
        RowAction::Archive,
        RowAction::Delete,
        RowAction::ExportLog,
    ];
    r
}

/// What the menu of a workspace offers.
#[derive(Debug, Clone, Copy, PartialEq, Eq, Structural)]
pub enum WsAction {
    Rename,
    MoveUp,
    MoveDown,
    Remove,
}

impl WsAction {
    /// The text of the item.
    pub fn label(self) -> (r: &'static str)
        ensures
            r@ == (match self {
                WsAction::Rename => "重命名"@,
                WsAction::MoveUp => "上移"@,
                WsAction::MoveDown => "下移"@,
                WsAction::Remove => "移除"@,
            }),
    {
        match self {
            WsAction::Rename => "重命名",
            WsAction::MoveUp => "上移",
            WsAction::MoveDown => "下移",
            WsAction::Remove => "移除",
        }
    }
}

/// The first place of a name from a position on, or the end.
pub open spec fn name_at(names: Seq<Seq<char>>, name: Seq<char>, i: int) -> int
    decreases names.len() - i,
{
    if 0 <= i < names.len() && names[i] != name {
        name_at(names, name, i + 1)
    } else {
        i
    }
}

/// The menu of a workspace: the first one cannot move up, the last one not
/// down, and the default one, the first, cannot be removed.
pub open spec fn ws_actions(names: Seq<Seq<char>>, workspace: Seq<char>) -> Seq<WsAction> {
    let i = name_at(names, workspace, 0);
    let up = if 0 < i < names.len() {
        seq![WsAction::MoveUp]
    } else {
        Seq::empty()
    };
    let down = if i + 1 < names.len() {
        seq![WsAction::MoveDown]
    } else {
        Seq::empty()
    };
    let remove = if i == 0 && names.len() > 0 {
        Seq::empty()
    } else {
        seq![WsAction::Remove]
    };
    seq![WsAction::Rename] + up + down + remove
}

/// A second click on the same button undoes the first where no other menu was
/// open.
pub proof fn law_second_click_closes(open: Option<Seq<char>>, id: Seq<char>)
    ensures
        clicked(clicked(open, id), id) == (if open == Some(id) {
            Some(id)
        } else {
            None
        }),
{
}

/// The list shows sessions that no other one delegated and whose title holds the
/// query.
pub proof fn law_delegated_sessions_are_not_shown(
    s: SummaryValue,
    lowered: Seq<char>,
    query: Seq<char>,
)
    ensures
        s.origin == Some("subagent"@) ==> !shown(s, lowered, query),
        s.origin != Some("subagent"@) ==> (shown(s, lowered, query) <==> query.len() == 0 || occurs(
            lowered,
            query,
        )),
{
}

/// The sessions of a workspace stand in the order in which the host lists them.
pub proof fn law_sessions_keep_their_order(
    workspaces: Seq<Seq<char>>,
    sessions: Seq<SummaryValue>,
    of: Seq<Seq<char>>,
    lowered: Seq<Seq<char>>,
    query: Seq<char>,
    n: nat,
)
    requires
        n <= usize::MAX,
    ensures
        ({
            let g = gathered(workspaces, sessions, of, lowered, query, n);
            &&& places_below(g, n as int)
            &&& forall|k: int, i: int, j: int|
                0 <= k < g.len() && 0 <= i < j < g[k].sessions.len()
                    ==> #[trigger] g[k].sessions[i] < #[trigger] g[k].sessions[j]
        }),
    decreases n,
{
    let g = gathered(workspaces, sessions, of, lowered, query, n);
    if n > 0 {
        let m = (n - 1) as nat;
        law_sessions_keep_their_order(workspaces, sessions, of, lowered, query, m);
        let init = gathered(workspaces, sessions, of, lowered, query, m);
        if shown(sessions[n - 1], lowered[n - 1], query) {
            let at = group_at(init, of[n - 1], 0);
            lemma_group_at(init, of[n - 1], 0);
            assert forall|k: int, j: int|
                0 <= k < g.len() && 0 <= j < g[k].sessions.len() implies #[trigger] g[k].sessions[j]
                < n by {
                if k < init.len() && j < init[k].sessions.len() {
                    assert(g[k].sessions[j] == init[k].sessions[j]);
                }
            }
            assert forall|k: int, i: int, j: int|
                0 <= k < g.len() && 0 <= i < j < g[k].sessions.len() implies
                #[trigger] g[k].sessions[i] < #[trigger] g[k].sessions[j] by {
                if k < init.len() {
                    assert(g[k].sessions[i] == init[k].sessions[i]);
                    if j < init[k].sessions.len() {
                        assert(g[k].sessions[j] == init[k].sessions[j]);
                    }
                }
            }
        } else {
            assert forall|k: int, j: int|
                0 <= k < g.len() && 0 <= j < g[k].sessions.len() implies #[trigger] g[k].sessions[j]
                < n by {
                assert(init[k].sessions[j] < m);
            }
        }
    } else {
        assert forall|k: int| 0 <= k < g.len() implies (#[trigger] g[k]).sessions.len() == 0 by {}
    }
}

/// A search leaves out workspaces without a session that was found, and only those.
pub proof fn law_empty_workspaces_are_left_out_of_a_search(g: Seq<GroupValue>)
    ensures
        filled(g) == g.filter(|x: GroupValue| x.sessions.len() > 0),
    decreases g.len(),
{
    reveal(Seq::filter);
    if g.len() > 0 {
        law_empty_workspaces_are_left_out_of_a_search(g.drop_last());
    } else {
        assert(filled(g) =~= g.filter(|x: GroupValue| x.sessions.len() > 0));
    }
}

/// The row of a session has its title, marks the current session and the open menu,
/// and tells that it runs, else how many of its subagents run, else its time.
pub proof fn law_rows_tell_what_runs(s: &AppStore, id: &str, time: &str, r: SessionRow)
    requires
        call_ensures(AppStore::session_row, (s, id, time), r),
    ensures
        r.session_id@ == id@,
        r.title@ == title_of(s.state.titles@, id@),
        r.active <==> (s.state.current_id matches Some(c) && c@ == id@),
        r.menu_open <==> (s.sessions.menu_open_session matches Some(c) && c@ == id@),
        s.runs(id@) ==> r.tail == RowTail::Running,
        !s.runs(id@) && count_running(s.jobs(id@)) > 0 ==> (r.tail matches RowTail::Subagents(t)
            && t@ == dec(count_running(s.jobs(id@))) + " 个子代理"@),
        !s.runs(id@) && count_running(s.jobs(id@)) == 0 ==> (r.tail matches RowTail::Time(t) && t@
            == time@),
{
}

/// A workspace is folded to its header unless something is searched for; else its
/// sessions stand below the header.
pub proof fn law_folded_workspaces_show_their_header(
    a: AppStore,
    g: GroupValue,
    searching: bool,
    times: Seq<Seq<char>>,
    j: int,
)
    ensures
        ({
            let rows = a.rows_of_group(g, searching, times);
            let folded = a.sessions.collapsed_workspaces@.contains(g.workspace) && !searching;
            &&& rows.len() > 0
            &&& rows[0] == a.header_of(g.workspace, folded)
            &&& folded ==> rows.len() == 1
            &&& !folded ==> rows.len() == 1 + g.sessions.len()
            &&& !folded && 0 <= j < g.sessions.len() ==> rows[1 + j] == a.row_of(
                a.state.sessions@[g.sessions[j] as int].session_id@,
                times[g.sessions[j] as int],
            )
        }),
{
}

/// The header of a workspace has its title and marks the active workspace.
pub proof fn law_headers_mark_the_active_workspace(
    s: &AppStore,
    workspace: &str,
    collapsed: bool,
    r: GroupHeader,
)
    requires
        call_ensures(AppStore::group_header, (s, workspace, collapsed), r),
    ensures
        r.workspace@ == workspace@,
        r.title@ == title_of(s.sessions.workspace_titles@, workspace@),
        r.active <==> (s.state.active_workspace matches Some(w) && w@ == workspace@),
        r.collapsed == collapsed,
{
}

/// Every workspace can be renamed. All but the first can be moved up and removed, and
/// all but the last can be moved down.
pub proof fn law_menus_fit_the_place_of_a_workspace(names: Seq<Seq<char>>, i: int)
    requires
        0 <= i < names.len(),
        forall|k: int| 0 <= k < i ==> #[trigger] names[k] != names[i],
    ensures
        ({
            let a = ws_actions(names, names[i]);
            &&& a.contains(WsAction::Rename)
            &&& a.contains(WsAction::MoveUp) <==> i > 0
            &&& a.contains(WsAction::MoveDown) <==> i + 1 < names.len()
            &&& a.contains(WsAction::Remove) <==> i > 0
        }),
{
    lemma_name_at(names, names[i], 0, i);
    let up = if 0 < i < names.len() {
        seq![WsAction::MoveUp]
    } else {
        Seq::empty()
    };
    let down = if i + 1 < names.len() {
        seq![WsAction::MoveDown]
    } else {
        Seq::empty()
    };
    let remove = if i == 0 && names.len() > 0 {
        Seq::empty()
    } else {
        seq![WsAction::Remove]
    };
    let a = ws_actions(names, names[i]);
    assert(a == seq![WsAction::Rename] + up + down + remove);
    assert(a[0] == WsAction::Rename);
    if i > 0 {
        assert(a[1] == WsAction::MoveUp);
        assert(a.last() == WsAction::Remove);
        assert(a[a.len() - 1] == WsAction::Remove);
    }
    if i + 1 < names.len() {
        assert(a[(1 + up.len()) as int] == WsAction::MoveDown);
    }
}

proof fn lemma_name_at(names: Seq<Seq<char>>, name: Seq<char>, from: int, i: int)
    requires
        0 <= from <= i < names.len(),
        names[i] == name,
        forall|k: int| from <= k < i ==> #[trigger] names[k] != name,
    ensures
        name_at(names, name, from) == i,
    decreases i - from,
{
    if from < i {
        assert(names[from] != name);
        lemma_name_at(names, name, from + 1, i);
    }
}

/// A click on the menu of a row opens it, or closes it where it was open; forking,
/// archiving and exporting close it.
pub proof fn law_menus_open_and_close(
    s: &mut AppStore,
    t: &mut AppStore,
    id: &str,
    action: RowAction,
)
    requires
        call_ensures(AppStore::click_row_menu, (s, id), ()),
        call_ensures(AppStore::after_row_action, (t, action), ()),
    ensures
        ({
            let open = old(s).sessions.menu_open_session matches Some(m) && m@ == id@;
            &&& open ==> final(s).sessions.menu_open_session is None
            &&& !open ==> opt_view(final(s).sessions.menu_open_session) == Some(id@)
        }),
        action == RowAction::Fork || action == RowAction::Archive || action == RowAction::ExportLog
            ==> final(t).sessions.menu_open_session is None,
        action == RowAction::Rename || action == RowAction::Delete ==> opt_view(
            final(t).sessions.menu_open_session,
        ) == opt_view(old(t).sessions.menu_open_session),
{
}

/// The sidebar is hidden where it is folded; else it shows the settings where they are
/// open, else what was found, else the tree.
pub proof fn law_sidebar_shows_one_thing(s: &AppStore, searched: bool, r: SidebarView)
    requires
        call_ensures(AppStore::sidebar_view, (s, searched), r),
    ensures
        r == SidebarView::Hidden <==> s.sidebar_collapsed,
        r == SidebarView::Settings <==> !s.sidebar_collapsed && s.settings.settings_open,
        r == SidebarView::Hits <==> !s.sidebar_collapsed && !s.settings.settings_open && searched,
        r == SidebarView::Tree <==> !s.sidebar_collapsed && !s.settings.settings_open && !searched,
{
}

/// The menu of a session offers five things under names of their own.
pub proof fn law_row_menus_offer_five_things(
    r: Vec<RowAction>,
    a: RowAction,
    b: WsAction,
    row: &str,
    ws: &str,
)
    requires
        call_ensures(row_menu_card, (), r),
        call_ensures(RowAction::label, (a,), row),
        call_ensures(WsAction::label, (b,), ws),
    ensures
        r@.contains(a),
        r@.len() == 5,
        r@[0] == RowAction::Rename,
        a == RowAction::Rename ==> row@ == "重命名"@,
        a == RowAction::Fork ==> row@ == "分叉"@,
        a == RowAction::Archive ==> row@ == "归档"@,
        a == RowAction::Delete ==> row@ == "删除"@,
        a == RowAction::ExportLog ==> row@ == "导出日志"@,
        b == WsAction::Rename ==> ws@ == "重命名"@,
        b == WsAction::MoveUp ==> ws@ == "上移"@,
        b == WsAction::MoveDown ==> ws@ == "下移"@,
        b == WsAction::Remove ==> ws@ == "移除"@,
{
    assert(r@[0] == RowAction::Rename);
    assert(r@[1] == RowAction::Fork);
    assert(r@[2] == RowAction::Archive);
    assert(r@[3] == RowAction::Delete);
    assert(r@[4] == RowAction::ExportLog);
}

/// A click on the menu of a workspace opens it, and closes it where it is open.
pub proof fn law_workspace_menus_open_and_close(s: &mut AppStore, workspace: &str)
    requires
        call_ensures(AppStore::click_ws_menu, (s, workspace), ()),
    ensures
        ({
            let open = old(s).sessions.menu_open_ws matches Some(m) && m@ == workspace@;
            &&& open ==> final(s).sessions.menu_open_ws is None
            &&& !open ==> opt_view(final(s).sessions.menu_open_ws) == Some(workspace@)
        }),
{
}

/// Without a search every workspace of the host has its group, in the order of
/// the host; in a search every group that is shown has a session.
pub proof fn law_groups_are_those_of_the_host(
    workspaces: &Vec<String>,
    sessions: &Vec<SessionSummary>,
    of: &Vec<String>,
    lowered: &Vec<String>,
    query: &str,
    r: Vec<Group>,
    i: int,
)
    requires
        call_ensures(group_sessions, (workspaces, sessions, of, lowered, query), r),
    ensures
        query@.len() == 0 && 0 <= i < workspaces@.len() ==> i < r@.len() && r@[i]@.workspace
            == workspaces@[i]@,
        query@.len() > 0 && 0 <= i < r@.len() ==> r@[i]@.sessions.len() > 0,
{
    let w = views(workspaces@);
    let all = gathered(
        w,
        summary_values(sessions@),
        views(of@),
        views(lowered@),
        query@,
        summary_values(sessions@).len(),
    );
    if query@.len() == 0 && 0 <= i < workspaces@.len() {
        assert(query@ =~= Seq::empty());
        law_workspaces_stay(
            w,
            summary_values(sessions@),
            views(of@),
            views(lowered@),
            summary_values(sessions@).len(),
            i,
        );
        assert(group_values(r@)[i] == r@[i]@);
    }
    if query@.len() > 0 && 0 <= i < r@.len() {
        lemma_filled(all, i);
        assert(group_values(r@)[i] == r@[i]@);
    }
}

proof fn lemma_filled(g: Seq<GroupValue>, i: int)
    requires
        0 <= i < filled(g).len(),
    ensures
        filled(g)[i].sessions.len() > 0,
    decreases g.len(),
{
    if i < filled(g.drop_last()).len() {
        lemma_filled(g.drop_last(), i);
    }
}

/// Groups are shown one behind the other.
pub proof fn law_groups_are_shown_in_order(
    s: AppStore,
    g: Seq<GroupValue>,
    last: GroupValue,
    searching: bool,
    times: Seq<Seq<char>>,
)
    ensures
        s.rows_of_groups(g.push(last), searching, times) == s.rows_of_groups(g, searching, times)
            + s.rows_of_group(last, searching, times),
        s.rows_of_groups(Seq::empty(), searching, times).len() == 0,
{
    assert(g.push(last).drop_last() =~= g);
}

/// The list shows the sessions whose titles hold the text that is looked for,
/// without regard to case and to white space around it.
pub proof fn law_list_is_searched_by_title(
    s: &AppStore,
    of: &Vec<String>,
    times: &Vec<String>,
    input: &str,
    query: Seq<char>,
    lowered: Seq<Seq<char>>,
    r: Vec<TreeRow>,
)
    requires
        call_ensures(AppStore::session_list, (s, of, times, input), r),
        query == lowercase(trim(input@)),
        lowered.len() == s.state.sessions@.len(),
        forall|i: int|
            0 <= i < lowered.len() ==> #[trigger] lowered[i] == lowercase(
                title_of(s.state.titles@, s.state.sessions@[i].session_id@),
            ),
    ensures
        tree_row_values(r@) == s.rows_of_groups(
            groups_of(
                views(s.state.host_info.workspaces@),
                summary_values(s.state.sessions@),
                views(of@),
                lowered,
                query,
            ),
            query.len() > 0,
            views(times@),
        ),
{
    let v = s.all_titles().map_values(|t: Seq<char>| lowercase(t));
    assert forall|i: int| 0 <= i < lowered.len() implies #[trigger] lowered[i] == v[i] by {
        assert(summary_values(s.state.sessions@)[i].session_id
            == s.state.sessions@[i].session_id@);
    }
    assert(lowered =~= v);
}

} // verus!
