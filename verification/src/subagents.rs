//! Subagents: the sessions that a session delegated work to.

use crate::json::{values, Json, JsonValue};
use crate::shell::state::{
    find_session, law_first_session_with_an_id, session_with, summary_values, SessionSummary,
    SummaryValue,
};
use crate::shell::store::AppStore;
use crate::text::{opt_view, owned, str_eq};
use vstd::prelude::*;
use vstd::string::*;

verus! {

/// The list of subagents.
pub struct SubagentsStore {
    /// Whether the list is unfolded.
    pub task_bar_open: bool,
}

impl SubagentsStore {
    /// Unfolded, so that running subagents are seen.
    pub fn new() -> (r: SubagentsStore)
        ensures
            r.task_bar_open,
    {
        SubagentsStore { task_bar_open: true }
    }
}

/// How the state of a subagent is marked.
#[derive(Debug, Clone, Copy, PartialEq, Eq, Structural)]
pub enum JobDot {
    Running,
    Completed,
    Failed,
    Killed,
}

/// A subagent in the list.
#[derive(Debug, PartialEq, Eq)]
pub struct LineageRow {
    pub session_id: String,
    pub label: String,
    pub running: bool,
    /// How its state is marked; nothing where no job is known of it.
    pub dot: Option<JobDot>,
    pub started_at: Option<i64>,
    pub finished_at: Option<i64>,
}

/// The content of a row.
#[verifier::ext_equal]
pub struct RowValue {
    pub session_id: Seq<char>,
    pub label: Seq<char>,
    pub running: bool,
    pub dot: Option<JobDot>,
    pub started_at: Option<i64>,
    pub finished_at: Option<i64>,
}

impl View for LineageRow {
    type V = RowValue;

    open spec fn view(&self) -> RowValue {
        RowValue {
            session_id: self.session_id@,
            label: self.label@,
            running: self.running,
            dot: self.dot,
            started_at: self.started_at,
            finished_at: self.finished_at,
        }
    }
}

pub open spec fn row_values(v: Seq<LineageRow>) -> Seq<RowValue> {
    v.map_values(|r: LineageRow| r@)
}

/// Whether a job runs.
pub open spec fn job_runs(job: JsonValue) -> bool {
    job.field("status"@).as_text() == Some("running"@)
}

/// How many jobs run.
pub open spec fn count_running(jobs: Seq<JsonValue>) -> nat
    decreases jobs.len(),
{
    if jobs.len() == 0 {
        0
    } else {
        count_running(jobs.drop_last()) + (if job_runs(jobs.last()) {
            1nat
        } else {
            0nat
        })
    }
}

/// The mark of a status.
pub open spec fn dot_of(status: Seq<char>) -> JobDot {
    if status == "running"@ {
        JobDot::Running
    } else if status == "failed"@ {
        JobDot::Failed
    } else if status == "killed"@ {
        JobDot::Killed
    } else {
        JobDot::Completed
    }
}

/// The row of a job. A job without a status is taken as completed.
pub open spec fn job_row(job: JsonValue) -> RowValue {
    let status = match job.field("status"@).as_text() {
        Some(s) => s,
        None => "completed"@,
    };
    RowValue {
        session_id: crate::json::text_field(job, "id"@),
        label: crate::json::text_field(job, "label"@),
        running: status == "running"@,
        dot: Some(dot_of(status)),
        started_at: job.field("startedAt"@).as_signed(),
        finished_at: job.field("finishedAt"@).as_signed(),
    }
}

/// The row of a session that no job is known of.
pub open spec fn session_row(session_id: Seq<char>, title: Seq<char>) -> RowValue {
    RowValue {
        session_id,
        label: title,
        running: false,
        dot: None,
        started_at: None,
        finished_at: None,
    }
}

/// Whether a session is a subagent of another one.
pub open spec fn is_child(s: SummaryValue, parent: Seq<char>) -> bool {
    s.is_subagent() && s.parent_session_id == Some(parent)
}

/// The subagents of a session, in the order of the list.
pub open spec fn children(v: Seq<SummaryValue>, parent: Seq<char>) -> Seq<SummaryValue>
    decreases v.len(),
{
    if v.len() == 0 {
        Seq::empty()
    } else {
        let init = children(v.drop_last(), parent);
        if is_child(v.last(), parent) {
            init.push(v.last())
        } else {
            init
        }
    }
}

/// Whether some row is that of a session.
pub open spec fn listed(rows: Seq<RowValue>, id: Seq<char>) -> bool {
    exists|i: int| 0 <= i < rows.len() && (#[trigger] rows[i]).session_id == id
}

/// The rows with those sessions added that have none yet.
pub open spec fn with_children(
    rows: Seq<RowValue>,
    sessions: Seq<SummaryValue>,
    titles: Map<Seq<char>, String>,
) -> Seq<RowValue>
    decreases sessions.len(),
{
    if sessions.len() == 0 {
        rows
    } else {
        let init = with_children(rows, sessions.drop_last(), titles);
        let id = sessions.last().session_id;
        if listed(init, id) {
            init
        } else {
            init.push(session_row(id, title_of(titles, id)))
        }
    }
}

/// The title of a session, its id where it has none.
pub open spec fn title_of(titles: Map<Seq<char>, String>, id: Seq<char>) -> Seq<char> {
    if titles.dom().contains(id) {
        titles[id]@
    } else {
        id
    }
}

fn job_status(job: &Json) -> (r: Option<String>)
    ensures
        opt_view(r) == job.value().field("status"@).as_text(),
{
    job.text_at("status")
}

fn row_of_job(job: &Json) -> (r: LineageRow)
    ensures
        r@ == job_row(job.value()),
{
    let status = match job_status(job) {
        Some(s) => s,
        None => owned("completed"),
    };
    let running = str_eq(status.as_str(), "running");
    let dot = if running {
        JobDot::Running
    } else if str_eq(status.as_str(), "failed") {
        JobDot::Failed
    } else if str_eq(status.as_str(), "killed") {
        JobDot::Killed
    } else {
        JobDot::Completed
    };
    let started_at = match job.get("startedAt") {
        Some(v) => v.as_i64(),
        None => None,
    };
    let finished_at = match job.get("finishedAt") {
        Some(v) => v.as_i64(),
        None => None,
    };
    LineageRow {
        session_id: job.text_or_empty("id"),
        label: job.text_or_empty("label"),
        running,
        dot: Some(dot),
        started_at,
        finished_at,
    }
}

fn is_listed(rows: &Vec<LineageRow>, id: &str) -> (r: bool)
    ensures
        r == listed(row_values(rows@), id@),
{
    let ghost all = row_values(rows@);
    let mut i: usize = 0;
    while i < rows.len()
        invariant
            i <= rows@.len(),
            all == row_values(rows@),
            forall|k: int| 0 <= k < i ==> (#[trigger] all[k]).session_id != id@,
        decreases rows@.len() - i,
    {
        assert(all[i as int] == rows@[i as int]@);
        if str_eq(rows[i].session_id.as_str(), id) {
            return true;
        }
        i = i + 1;
    }
    false
}

impl AppStore {
    /// The title of a session, its id where it has none.
    pub fn title_for(&self, id: &str) -> (r: String)
        requires
            self.wf(),
        ensures
            r@ == title_of(self.state.titles@, id@),
    {
        match self.state.titles.get(id) {
            Some(t) => owned(t.as_str()),
            None => owned(id),
        }
    }

    /// The session whose subagents are shown beside a session: its parent
    /// where it has one, else itself.
    pub open spec fn anchor(self, id: Seq<char>) -> Seq<char> {
        match session_with(summary_values(self.state.sessions@), id) {
            Some(s) => match s.parent_session_id {
                Some(p) => p,
                None => id,
            },
            None => id,
        }
    }

    /// See [`AppStore::anchor`].
    pub fn subagent_anchor_of(&self, session_id: &str) -> (r: String)
        ensures
            r@ == self.anchor(session_id@),
    {
        match find_session(&self.state.sessions, session_id) {
            Some(s) => match &s.parent_session_id {
                Some(p) => owned(p.as_str()),
                None => owned(session_id),
            },
            None => owned(session_id),
        }
    }

    /// Folds or unfolds the list of subagents.
    pub fn toggle_task_bar(&mut self)
        requires
            old(self).wf(),
        ensures
            final(self).wf(),
            *final(self) == (AppStore {
                subagents: SubagentsStore { task_bar_open: !old(self).subagents.task_bar_open },
                ..*old(self)
            }),
    {
        self.subagents.task_bar_open = !self.subagents.task_bar_open;
    }

    /// The jobs of a session.
    pub open spec fn jobs(self, id: Seq<char>) -> Seq<JsonValue> {
        if self.state.jobs_by_id@.dom().contains(id) {
            values(self.state.jobs_by_id@[id]@)
        } else {
            Seq::empty()
        }
    }

    /// How many background jobs of a session run.
    pub fn running_subagent_count(&self, session_id: &str) -> (r: usize)
        requires
            self.wf(),
        ensures
            r == count_running(self.jobs(session_id@)),
    {
        match self.state.jobs_by_id.get(session_id) {
            Some(jobs) => {
                let ghost all = values(jobs@);
                let mut n: usize = 0;
                let mut i: usize = 0;
                assert(all.take(0) =~= Seq::<JsonValue>::empty());
                while i < jobs.len()
                    invariant
                        i <= jobs@.len(),
                        n <= i,
                        all == values(jobs@),
                        n == count_running(all.take(i as int)),
                    decreases jobs@.len() - i,
                {
                    assert(all.take(i + 1).drop_last() =~= all.take(i as int));
                    assert(all.take(i + 1).last() == jobs@[i as int].value());
                    let runs = match job_status(&jobs[i]) {
                        Some(s) => str_eq(s.as_str(), "running"),
                        None => false,
                    };
                    if runs {
                        n = n + 1;
                    }
                    i = i + 1;
                }
                assert(all.take(i as int) =~= all);
                n
            },
            None => 0,
        }
    }

    /// The rows of the list: the jobs, then those subagents of the list of
    /// sessions that no job is known of.
    pub open spec fn lineage(self, id: Seq<char>) -> Seq<RowValue> {
        with_children(
            self.jobs(id).map_values(|j: JsonValue| job_row(j)),
            children(summary_values(self.state.sessions@), id),
            self.state.titles@,
        )
    }

    /// See [`AppStore::lineage`].
    pub fn lineage_rows(&self, session_id: &str) -> (r: Vec<LineageRow>)
        requires
            self.wf(),
        ensures
            row_values(r@) == self.lineage(session_id@),
    {
        let ghost jobs_seq = self.jobs(session_id@);
        let ghost start = jobs_seq.map_values(|j: JsonValue| job_row(j));
        let mut rows: Vec<LineageRow> = Vec::new();
        if let Some(jobs) = self.state.jobs_by_id.get(session_id) {
            let mut i: usize = 0;
            while i < jobs.len()
                invariant
                    i <= jobs@.len(),
                    jobs_seq == values(jobs@),
                    start == jobs_seq.map_values(|j: JsonValue| job_row(j)),
                    row_values(rows@) == start.take(i as int),
                decreases jobs@.len() - i,
            {
                let ghost before = rows@;
                assert(jobs_seq[i as int] == jobs@[i as int].value());
                rows.push(row_of_job(&jobs[i]));
                assert(row_values(rows@) =~= row_values(before).push(rows@.last()@));
                assert(start.take(i + 1) =~= start.take(i as int).push(start[i as int]));
                i = i + 1;
            }
            assert(start.take(i as int) =~= start);
        } else {
            assert(row_values(rows@) =~= start);
        }
        assert(row_values(rows@) == start);
        let kids = self.subagent_children_of(session_id);
        let ghost all = summary_values(kids@);
        let mut i: usize = 0;
        assert(all.take(0) =~= Seq::<SummaryValue>::empty());
        while i < kids.len()
            invariant
                self.wf(),
                i <= kids@.len(),
                all == summary_values(kids@),
                row_values(rows@) == with_children(start, all.take(i as int), self.state.titles@),
            decreases kids@.len() - i,
        {
            let ghost before = rows@;
            assert(all.take(i + 1).drop_last() =~= all.take(i as int));
            assert(all.take(i + 1).last() == kids@[i as int]@);
            let id = kids[i].session_id.as_str();
            if !is_listed(&rows, id) {
                let label = self.title_for(id);
                rows.push(
                    LineageRow {
                        session_id: owned(id),
                        label,
                        running: false,
                        dot: None,
                        started_at: None,
                        finished_at: None,
                    },
                );
                assert(row_values(rows@) =~= row_values(before).push(rows@.last()@));
            }
            i = i + 1;
        }
        assert(all.take(i as int) =~= all);
        rows
    }

    /// The subagents of a session, in the order of the list of sessions.
    pub fn subagent_children_of(&self, session_id: &str) -> (r: Vec<SessionSummary>)
        ensures
            summary_values(r@) == children(summary_values(self.state.sessions@), session_id@),
    {
        let ghost all = summary_values(self.state.sessions@);
        let mut out: Vec<SessionSummary> = Vec::new();
        let mut i: usize = 0;
        assert(all.take(0) =~= Seq::<SummaryValue>::empty());
        assert(summary_values(out@) =~= Seq::<SummaryValue>::empty());
        while i < self.state.sessions.len()
            invariant
                i <= self.state.sessions@.len(),
                all == summary_values(self.state.sessions@),
                summary_values(out@) == children(all.take(i as int), session_id@),
            decreases self.state.sessions@.len() - i,
        {
            let s = &self.state.sessions[i];
            let ghost before = out@;
            assert(all.take(i + 1).drop_last() =~= all.take(i as int));
            assert(all.take(i + 1).last() == s@);
            let child = match &s.parent_session_id {
                Some(p) => str_eq(p.as_str(), session_id) && s.is_subagent(),
                None => false,
            };
            if child {
                out.push(s.copy());
                assert(summary_values(out@) =~= summary_values(before).push(s@));
            }
            i = i + 1;
        }
        assert(all.take(i as int) =~= all);
        out
    }

    /// Whether the current session is a subagent.
    pub fn current_is_subagent(&self) -> (r: bool)
        ensures
            r == (match self.current() {
                Some(id) => match session_with(summary_values(self.state.sessions@), id) {
                    Some(s) => s.is_subagent(),
                    None => false,
                },
                None => false,
            }),
    {
        match &self.state.current_id {
            Some(id) => match find_session(&self.state.sessions, id.as_str()) {
                Some(s) => s.is_subagent(),
                None => false,
            },
            None => false,
        }
    }

    /// Whether the clock of the subagents is due: the session whose subagents
    /// are shown has running ones.
    pub open spec fn lineage_tick_due(self) -> bool {
        match self.current() {
            Some(id) => count_running(self.jobs(self.anchor(id))) > 0,
            None => false,
        }
    }

    /// Starts or stops the clock of the subagents; returns whether a tick has
    /// to be scheduled anew.
    pub fn sync_lineage_tick(&mut self) -> (started: bool)
        requires
            old(self).wf(),
        ensures
            final(self).wf(),
            started == (old(self).lineage_tick_due() && !old(self).lineage_ticking),
            *final(self) == (AppStore {
                lineage_ticking: old(self).lineage_tick_due(),
                ..*old(self)
            }),
    {
        let due = match &self.state.current_id {
            Some(id) => {
                let anchor = self.subagent_anchor_of(id.as_str());
                self.running_subagent_count(anchor.as_str()) > 0
            },
            None => false,
        };
        let started = due && !self.lineage_ticking;
        self.lineage_ticking = due;
        started
    }
}

/// Every subagent of a session has a row.
pub proof fn law_every_child_is_listed(a: AppStore, id: Seq<char>, child: SummaryValue)
    requires
        summary_values(a.state.sessions@).contains(child),
        is_child(child, id),
    ensures
        listed(a.lineage(id), child.session_id),
{
    let all = summary_values(a.state.sessions@);
    let kids = children(all, id);
    lemma_children_contain(all, id, child);
    lemma_children_listed(
        a.jobs(id).map_values(|j: JsonValue| job_row(j)),
        kids,
        a.state.titles@,
        child,
    );
}

proof fn lemma_children_contain(v: Seq<SummaryValue>, parent: Seq<char>, child: SummaryValue)
    requires
        v.contains(child),
        is_child(child, parent),
    ensures
        children(v, parent).contains(child),
    decreases v.len(),
{
    let i = choose|i: int| 0 <= i < v.len() && v[i] == child;
    let init = children(v.drop_last(), parent);
    if i == v.len() - 1 {
        assert(init.push(v.last()).last() == child);
    } else {
        assert(v.drop_last()[i] == child);
        lemma_children_contain(v.drop_last(), parent, child);
        let k = choose|k: int| 0 <= k < init.len() && init[k] == child;
        assert(init.push(v.last())[k] == child);
    }
}

proof fn lemma_children_listed(
    rows: Seq<RowValue>,
    sessions: Seq<SummaryValue>,
    titles: Map<Seq<char>, String>,
    child: SummaryValue,
)
    requires
        sessions.contains(child),
    ensures
        listed(with_children(rows, sessions, titles), child.session_id),
    decreases sessions.len(),
{
    let i = choose|i: int| 0 <= i < sessions.len() && sessions[i] == child;
    let init = with_children(rows, sessions.drop_last(), titles);
    let last = sessions.last();
    let row = session_row(last.session_id, title_of(titles, last.session_id));
    if i == sessions.len() - 1 {
        if !listed(init, last.session_id) {
            assert(init.push(row)[init.len() as int].session_id == last.session_id);
        }
    } else {
        assert(sessions.drop_last()[i] == child);
        lemma_children_listed(rows, sessions.drop_last(), titles, child);
        let k = choose|k: int|
            0 <= k < init.len() && (#[trigger] init[k]).session_id == child.session_id;
        assert(init.push(row)[k].session_id == child.session_id);
    }
}

/// The rows of the jobs come first, unchanged.
pub proof fn law_jobs_come_first(a: AppStore, id: Seq<char>)
    ensures
        a.lineage(id).len() >= a.jobs(id).len(),
        forall|i: int|
            0 <= i < a.jobs(id).len() ==> #[trigger] a.lineage(id)[i] == job_row(a.jobs(id)[i]),
{
    let rows = a.jobs(id).map_values(|j: JsonValue| job_row(j));
    lemma_rows_stay(rows, children(summary_values(a.state.sessions@), id), a.state.titles@);
}

proof fn lemma_rows_stay(
    rows: Seq<RowValue>,
    sessions: Seq<SummaryValue>,
    titles: Map<Seq<char>, String>,
)
    ensures
        with_children(rows, sessions, titles).len() >= rows.len(),
        forall|i: int|
            0 <= i < rows.len() ==> #[trigger] with_children(rows, sessions, titles)[i] == rows[i],
    decreases sessions.len(),
{
    if sessions.len() > 0 {
        lemma_rows_stay(rows, sessions.drop_last(), titles);
    }
}

/// A job is shown with its id and label and its times; it runs where its status says
/// so, and its dot tells failed, killed and completed jobs apart.
pub proof fn law_jobs_are_shown(
    job: JsonValue,
    id: Seq<char>,
    label: Seq<char>,
    status: Seq<char>,
)
    requires
        job.get("id"@) == Some(JsonValue::Str(id)),
        job.get("label"@) == Some(JsonValue::Str(label)),
        job.get("status"@) == Some(JsonValue::Str(status)),
    ensures
        job_row(job).session_id == id,
        job_row(job).label == label,
        job_row(job).running <==> status == "running"@,
        job_runs(job) <==> status == "running"@,
        job_row(job).dot == Some(JobDot::Running) <==> status == "running"@,
        job_row(job).dot == Some(JobDot::Failed) <==> status == "failed"@,
        job_row(job).dot == Some(JobDot::Killed) <==> status == "killed"@,
        job_row(job).dot is Some,
        job_row(job).started_at == job.field("startedAt"@).as_signed(),
        job_row(job).finished_at == job.field("finishedAt"@).as_signed(),
{
    reveal_strlit("running");
    reveal_strlit("failed");
    reveal_strlit("killed");
    assert("running"@.len() == 7 && "failed"@.len() == 6 && "killed"@.len() == 6);
    assert("failed"@[0] == 'f' && "killed"@[0] == 'k');
}

/// Running jobs are counted one by one.
pub proof fn law_running_jobs_are_counted(jobs: Seq<JsonValue>, job: JsonValue)
    ensures
        count_running(Seq::empty()) == 0,
        job.get("status"@) == Some(JsonValue::Str("running"@)) ==> count_running(jobs.push(job))
            == count_running(jobs) + 1,
        job.get("status"@) != Some(JsonValue::Str("running"@)) ==> count_running(jobs.push(job))
            == count_running(jobs),
{
    assert(jobs.push(job).drop_last() =~= jobs);
}

/// The children of a session are the subagents that name it as their parent, in
/// order.
pub proof fn law_children_name_their_parent(v: Seq<SummaryValue>, parent: Seq<char>)
    ensures
        children(v, parent) == v.filter(
            |s: SummaryValue|
                s.origin == Some("subagent"@) && s.parent_session_id == Some(parent),
        ),
    decreases v.len(),
{
    reveal(Seq::filter);
    if v.len() > 0 {
        law_children_name_their_parent(v.drop_last(), parent);
    } else {
        assert(children(v, parent) =~= v.filter(
            |s: SummaryValue|
                s.origin == Some("subagent"@) && s.parent_session_id == Some(parent),
        ));
    }
}

/// A child that is not listed yet comes behind the rows, under its title; one that
/// is listed is not listed again.
pub proof fn law_children_are_listed_once(
    rows: Seq<RowValue>,
    before: Seq<SummaryValue>,
    child: SummaryValue,
    titles: Map<Seq<char>, String>,
)
    ensures
        ({
            let init = with_children(rows, before, titles);
            let all = with_children(rows, before.push(child), titles);
            let known = exists|i: int|
                0 <= i < init.len() && (#[trigger] init[i]).session_id == child.session_id;
            &&& known ==> all == init
            &&& !known ==> all.len() == init.len() + 1 && all.take(init.len() as int) == init && {
                let r = all.last();
                &&& r.session_id == child.session_id
                &&& r.label == title_of(titles, child.session_id)
                &&& !r.running
                &&& r.dot is None
            }
        }),
        with_children(rows, Seq::empty(), titles) == rows,
{
    assert(before.push(child).drop_last() =~= before);
    let init = with_children(rows, before, titles);
    let all = with_children(rows, before.push(child), titles);
    if all.len() > init.len() {
        assert(all.take(init.len() as int) =~= init);
    }
}

/// A session is called by its title, or by its id where it has none.
pub proof fn law_sessions_are_called_by_their_titles(
    titles: Map<Seq<char>, String>,
    id: Seq<char>,
    title: String,
)
    ensures
        title_of(titles.insert(id, title), id) == title@,
        title_of(titles.remove(id), id) == id,
{
}

/// A subagent belongs to the session that delegated it, any other session to itself.
pub proof fn law_subagents_belong_to_their_parents(s: &AppStore, id: &str, r: String, k: int)
    requires
        call_ensures(AppStore::subagent_anchor_of, (s, id), r),
        0 <= k < s.state.sessions@.len(),
        s.state.sessions@[k].session_id@ == id@,
        forall|i: int| 0 <= i < k ==> (#[trigger] s.state.sessions@[i]).session_id@ != id@,
    ensures
        match s.state.sessions@[k].parent_session_id {
            Some(p) => r@ == p@,
            None => r@ == id@,
        },
{
    let v = summary_values(s.state.sessions@);
    assert(v[k] == s.state.sessions@[k]@);
    assert forall|i: int| 0 <= i < k implies (#[trigger] v[i]).session_id != id@ by {
        assert(v[i] == s.state.sessions@[i]@);
    }
    law_first_session_with_an_id(v, id@, k);
}

/// The lines of running subagents tick while the current session, or the one that it
/// belongs to, has a job that runs; the clock is started once.
pub proof fn law_lineage_ticks_while_jobs_run(
    s: &mut AppStore,
    started: bool,
    id: Seq<char>,
)
    requires
        call_ensures(AppStore::sync_lineage_tick, (s,), started),
        s.current() == Some(id),
    ensures
        final(s).lineage_ticking <==> count_running(old(s).jobs(old(s).anchor(id))) > 0,
        started <==> final(s).lineage_ticking && !old(s).lineage_ticking,
{
}

/// The task bar is shown where it was not, and the other way round.
pub proof fn law_task_bar_is_toggled(s: &mut AppStore)
    requires
        call_ensures(AppStore::toggle_task_bar, (s,), ()),
    ensures
        final(s).subagents.task_bar_open != old(s).subagents.task_bar_open,
        final(s).state == old(s).state,
{
}

/// The current session is a subagent where the first session with its id is.
pub proof fn law_the_current_session_can_be_a_subagent(s: &AppStore, id: Seq<char>, k: int, r: bool)
    requires
        call_ensures(AppStore::current_is_subagent, (s,), r),
        opt_view(s.state.current_id) == Some(id),
        0 <= k <= s.state.sessions@.len(),
        forall|i: int|
            0 <= i < k ==> (#[trigger] s.state.sessions@[i]).session_id@ != id,
        k < s.state.sessions@.len() ==> s.state.sessions@[k].session_id@ == id,
    ensures
        k < s.state.sessions@.len() ==> r == s.state.sessions@[k]@.is_subagent(),
        k == s.state.sessions@.len() ==> !r,
{
    let v = summary_values(s.state.sessions@);
    assert forall|i: int| 0 <= i < k implies (#[trigger] v[i]).session_id != id by {
        assert(v[i].session_id == s.state.sessions@[i].session_id@);
    }
    crate::shell::state::law_first_session_with_an_id(v, id, k);
}

} // verus!
