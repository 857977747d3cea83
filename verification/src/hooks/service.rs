//! Running hook points: which hooks run and in which order, what is recorded
//! for each, and what the merged answers mean to the engine.
//!
//! The host judges matchers, runs processes and asks for approvals; this
//! module decides everything around them.

use crate::decimal::{dec, law_decimal_is_injective, u64_text};
use crate::hooks::codec::{Decision, HookOutput};
use crate::hooks::config::{
    groups_for, group_values, BridgeDialect, GroupValue, HookConfig, MatcherGroup,
};
use crate::hooks::events::{
    law_dialect_names, HookDialect, HookInvocation, DEFAULT_STDERR_SUMMARY_MAX_CHARS,
};
use crate::hooks::merge::{
    law_strictest_decision_wins, merge_hook_outputs, merged, MergedDecision, MergedHookOutcome,
};
use crate::json::Number;
use crate::text::{cat2, cat3, cat5, chars_of, opt_view, owned, owned_opt, str_eq, string_of_range};
use vstd::prelude::*;
use vstd::string::*;

verus! {

/// One loaded configuration with its settings.
#[derive(Debug, PartialEq, Eq)]
pub struct Bridge {
    pub dialect: BridgeDialect,
    pub config: HookConfig,
    /// Value of `CLAUDE_PROJECT_DIR` in the environment of hooks.
    pub project_dir: Option<String>,
    pub default_timeout_ms: u64,
    pub stderr_summary_max_chars: usize,
    /// Name of the bridge in notices.
    pub plugin: String,
}

/// The name of a bridge in notices.
pub open spec fn plugin_name(d: BridgeDialect) -> Seq<char> {
    "hooks-"@ + d.record_dialect().name()
}

impl Bridge {
    /// A bridge with all its settings.
    pub fn new(
        dialect: BridgeDialect,
        config: HookConfig,
        project_dir: Option<String>,
        default_timeout_ms: u64,
        stderr_summary_max_chars: usize,
    ) -> (r: Bridge)
        ensures
            r.dialect == dialect,
            r.config == config,
            r.project_dir == project_dir,
            r.default_timeout_ms == default_timeout_ms,
            r.stderr_summary_max_chars == stderr_summary_max_chars,
            r.plugin@ == plugin_name(dialect),
    {
        let name = dialect.dialect().as_str();
        Bridge {
            dialect,
            config,
            project_dir,
            default_timeout_ms,
            stderr_summary_max_chars,
            plugin: cat2("hooks-", name.as_str()),
        }
    }
}

/// All bridges of a process, with the number of hooks that each has started.
#[derive(Debug, PartialEq, Eq)]
pub struct HookService {
    pub bridges: Vec<Bridge>,
    pub counters: Vec<u64>,
}

/// A matcher group of a bridge at some point.
#[derive(Debug, Clone, Copy, PartialEq, Eq, Structural)]
pub struct GroupRef {
    pub bridge: usize,
    pub group: usize,
}

/// A hook of a group.
#[derive(Debug, Clone, Copy, PartialEq, Eq, Structural)]
pub struct HookRef {
    pub bridge: usize,
    pub group: usize,
    pub hook: usize,
}

/// The groups of a bridge at a point.
pub open spec fn point_groups(b: Bridge, point: Seq<char>) -> Seq<GroupValue> {
    match groups_for(b.config@, point) {
        Some(g) => g,
        None => Seq::empty(),
    }
}

/// Whether a bridge is configured for a point.
pub open spec fn configured(b: Bridge, point: Seq<char>) -> bool {
    groups_for(b.config@, point) is Some
}

/// The references to the groups `0..n` of bridge `b`.
pub open spec fn refs_of_bridge(b: nat, n: nat) -> Seq<GroupRef> {
    Seq::new(n, |g: int| GroupRef { bridge: b as usize, group: g as usize })
}

/// All groups at a point: bridge by bridge, in configuration order.
pub open spec fn groups_at_point(bridges: Seq<Bridge>, point: Seq<char>) -> Seq<GroupRef>
    decreases bridges.len(),
{
    if bridges.len() == 0 {
        Seq::empty()
    } else {
        groups_at_point(bridges.drop_last(), point) + refs_of_bridge(
            (bridges.len() - 1) as nat,
            point_groups(bridges.last(), point).len(),
        )
    }
}

/// The number of hooks of a group.
pub open spec fn hook_count(bridges: Seq<Bridge>, point: Seq<char>, g: GroupRef) -> nat {
    point_groups(bridges[g.bridge as int], point)[g.group as int].hooks.len()
}

/// The references to the hooks `0..n` of a group.
pub open spec fn refs_of_group(g: GroupRef, n: nat) -> Seq<HookRef> {
    Seq::new(n, |h: int| HookRef { bridge: g.bridge, group: g.group, hook: h as usize })
}

/// The hooks that run: those of the groups whose matcher matched, in order.
pub open spec fn hooks_of_groups(
    bridges: Seq<Bridge>,
    point: Seq<char>,
    refs: Seq<GroupRef>,
    verdicts: Seq<bool>,
) -> Seq<HookRef>
    decreases refs.len(),
{
    if refs.len() == 0 {
        Seq::empty()
    } else {
        let init = hooks_of_groups(bridges, point, refs.drop_last(), verdicts);
        if verdicts[refs.len() - 1] {
            init + refs_of_group(refs.last(), hook_count(bridges, point, refs.last()))
        } else {
            init
        }
    }
}

/// Whether a hook reference points to a hook.
pub open spec fn valid_hook(bridges: Seq<Bridge>, point: Seq<char>, h: HookRef) -> bool {
    &&& h.bridge < bridges.len()
    &&& h.group < point_groups(bridges[h.bridge as int], point).len()
    &&& h.hook < point_groups(bridges[h.bridge as int], point)[h.group as int].hooks.len()
}

/// The id of the `n`-th hook that a bridge starts.
pub open spec fn handler_id(d: HookDialect, point: Seq<char>, n: u64) -> Seq<char> {
    d.name() + ":"@ + point + ":"@ + dec(n as nat)
}

/// The environment that hooks of a bridge get on top of the host's.
pub open spec fn hook_env(b: Bridge) -> Seq<(Seq<char>, Seq<char>)> {
    if b.dialect == BridgeDialect::ClaudeCode && b.project_dir is Some {
        seq![("CLAUDE_PROJECT_DIR"@, b.project_dir->0@)]
    } else {
        Seq::empty()
    }
}

/// Everything the host needs to run one hook.
#[derive(Debug, PartialEq, Eq)]
pub struct HookStart {
    pub hook: HookRef,
    pub command: String,
    pub timeout_sec: Option<Number>,
    pub default_timeout_ms: u64,
    pub stderr_summary_max_chars: usize,
    pub env: Vec<(String, String)>,
    pub invocation: HookInvocation,
}

/// One run of a point.
#[derive(Debug, PartialEq, Eq)]
pub struct PointRun {
    pub point: String,
    /// Whether the plain output of Codex hooks counts as context.
    pub plain_stdout_as_context: bool,
    /// The turn of the records; `None` outside a turn.
    pub turn: Option<u64>,
    /// The hooks to run, in order.
    pub agenda: Vec<HookRef>,
    /// The number of hooks that were started.
    pub started: usize,
    /// The answers so far.
    pub outputs: Vec<HookOutput>,
}

impl PointRun {
    /// A run that fits a service: the agenda points to its hooks, and every
    /// started hook but the last one has answered.
    pub open spec fn wf(self, bridges: Seq<Bridge>) -> bool {
        &&& self.started <= self.agenda@.len()
        &&& forall|i: int|
            0 <= i < self.agenda@.len()
                ==> valid_hook(bridges, self.point@, #[trigger] self.agenda@[i])
    }
}

/// What the host does next in a run.
#[derive(Debug, PartialEq, Eq)]
pub enum PointAction {
    /// Run a hook and hand back its answer.
    Run(HookStart),
    /// The run is over.
    Finish(MergedHookOutcome),
}

/// Whether the plain standard output of a hook becomes its context.
pub open spec fn takes_stdout(
    plain: bool,
    d: HookDialect,
    point: Seq<char>,
    o: HookOutput,
) -> bool {
    &&& plain
    &&& d == HookDialect::Codex
    &&& point != "PreToolUse"@
    &&& point != "PostToolUse"@
    &&& o.exit_code == Some(0i32)
    &&& o.additional_context is None
    &&& o.stdout@.len() > 0
    &&& o.stdout@[0] != '{'
}

/// How an answer relates to the output that is merged: its plain standard
/// output may become its context, and nothing else changes.
pub open spec fn absorbed(
    plain: bool,
    d: HookDialect,
    point: Seq<char>,
    o: HookOutput,
    r: HookOutput,
) -> bool {
    &&& r == (HookOutput { additional_context: r.additional_context, ..o })
    &&& opt_view(r.additional_context) == (if takes_stdout(plain, d, point, o) {
        Some(o.stdout@)
    } else {
        opt_view(o.additional_context)
    })
}

/// Applies the dialect's reading of plain standard output to an answer.
pub fn absorb_output(plain: bool, dialect: HookDialect, point: &str, output: HookOutput) -> (r:
    HookOutput)
    ensures
        absorbed(plain, dialect, point@, output, r),
{
    let take = plain && dialect == HookDialect::Codex && !str_eq(point, "PreToolUse") && !str_eq(
        point,
        "PostToolUse",
    ) && output.exit_code.is_some() && output.exit_code.unwrap() == 0
        && output.additional_context.is_none() && starts_plain(output.stdout.as_str());
    if take {
        let context = output.stdout.clone();
        HookOutput { additional_context: Some(context), ..output }
    } else {
        output
    }
}

fn starts_plain(s: &str) -> (r: bool)
    ensures
        r == (s@.len() > 0 && s@[0] != '{'),
{
    !s.is_empty() && s.get_char(0) != '{'
}

/// The value of a counter after one more start.
pub open spec fn next_count(n: u64) -> u64 {
    if n == u64::MAX {
        0
    } else {
        (n + 1) as u64
    }
}

/// What a start of a hook says.
pub open spec fn start_of(
    service: HookService,
    run: PointRun,
    h: HookRef,
    start: HookStart,
) -> bool {
    let b = service.bridges@[h.bridge as int];
    let g = point_groups(b, run.point@)[h.group as int];
    &&& start.hook == h
    &&& start.command@ == g.hooks[h.hook as int].command
    &&& start.timeout_sec == g.hooks[h.hook as int].timeout_sec
    &&& start.default_timeout_ms == b.default_timeout_ms
    &&& start.stderr_summary_max_chars == b.stderr_summary_max_chars
    &&& start.env@.map_values(|e: (String, String)| (e.0@, e.1@)) == hook_env(b)
    &&& start.invocation.turn == (match run.turn {
        Some(t) => t,
        None => 0,
    })
    &&& start.invocation.point@ == run.point@
    &&& start.invocation.dialect == b.dialect.record_dialect()
    &&& start.invocation.handler_id@ == handler_id(
        b.dialect.record_dialect(),
        run.point@,
        next_count(service.counters@[h.bridge as int]),
    )
    &&& opt_view(start.invocation.matcher) == g.matcher
}

proof fn lemma_groups_at_valid(bridges: Seq<Bridge>, k: int, point: Seq<char>)
    requires
        0 <= k <= bridges.len() <= usize::MAX,
        forall|i: int| 0 <= i < bridges.len() ==> point_groups(#[trigger] bridges[i], point).len()
            <= usize::MAX,
    ensures
        forall|i: int|
            0 <= i < groups_at_point(bridges.take(k), point).len() ==> {
                let g = #[trigger] groups_at_point(bridges.take(k), point)[i];
                g.bridge < k && g.group < point_groups(bridges[g.bridge as int], point).len()
            },
    decreases k,
{
    if k > 0 {
        lemma_groups_at_valid(bridges, k - 1, point);
        assert(bridges.take(k).drop_last() =~= bridges.take(k - 1));
        assert(bridges.take(k).last() == bridges[k - 1]);
        let init = groups_at_point(bridges.take(k - 1), point);
        let all = groups_at_point(bridges.take(k), point);
        assert(point_groups(bridges[k - 1], point).len() <= usize::MAX);
        assert forall|i: int| 0 <= i < all.len() implies {
            let g = #[trigger] all[i];
            g.bridge < k && g.group < point_groups(bridges[g.bridge as int], point).len()
        } by {
            if i < init.len() {
                assert(all[i] == init[i]);
            } else {
                assert(all[i] == refs_of_bridge(
                    (k - 1) as nat,
                    point_groups(bridges[k - 1], point).len(),
                )[i - init.len()]);
            }
        }
    }
}

impl HookService {
    /// Every bridge has its counter.
    pub open spec fn wf(self) -> bool {
        self.bridges@.len() == self.counters@.len()
    }

    /// A bridge with defaults for what is not configured.
    pub fn bridge(
        dialect: BridgeDialect,
        config: HookConfig,
        project_dir: Option<String>,
        default_timeout_ms: Option<u64>,
        fallback_timeout_ms: u64,
        stderr_summary_max_chars: Option<usize>,
    ) -> (r: Bridge)
        ensures
            r.dialect == dialect,
            r.config == config,
            r.project_dir == project_dir,
            r.default_timeout_ms == (match default_timeout_ms {
                Some(t) => t,
                None => fallback_timeout_ms,
            }),
            r.stderr_summary_max_chars == (match stderr_summary_max_chars {
                Some(n) => n,
                None => DEFAULT_STDERR_SUMMARY_MAX_CHARS,
            }),
            r.plugin@ == plugin_name(dialect),
    {
        Bridge::new(
            dialect,
            config,
            project_dir,
            default_timeout_ms.unwrap_or(fallback_timeout_ms),
            stderr_summary_max_chars.unwrap_or(DEFAULT_STDERR_SUMMARY_MAX_CHARS),
        )
    }

    /// A service over loaded bridges; none of them has started a hook.
    pub fn new(bridges: Vec<Bridge>) -> (r: HookService)
        ensures
            r.wf(),
            r.bridges == bridges,
            forall|i: int| 0 <= i < r.counters@.len() ==> #[trigger] r.counters@[i] == 0,
    {
        let mut counters: Vec<u64> = Vec::new();
        let mut i: usize = 0;
        while i < bridges.len()
            invariant
                i <= bridges@.len(),
                counters@.len() == i,
                forall|k: int| 0 <= k < i ==> #[trigger] counters@[k] == 0,
            decreases bridges@.len() - i,
        {
            counters.push(0);
            i = i + 1;
        }
        HookService { bridges, counters }
    }

    /// Whether there is no bridge at all.
    pub fn is_empty(&self) -> (r: bool)
        ensures
            r == (self.bridges@.len() == 0),
    {
        self.bridges.len() == 0
    }

    fn groups_of(&self, b: usize, point: &str) -> (r: Option<&Vec<MatcherGroup>>)
        requires
            b < self.bridges@.len(),
        ensures
            match r {
                Some(g) => point_groups(self.bridges@[b as int], point@) == group_values(g@),
                None => point_groups(self.bridges@[b as int], point@) == Seq::<GroupValue>::empty(),
            },
            point_groups(self.bridges@[b as int], point@).len() <= usize::MAX,
    {
        let r = self.bridges[b].config.get(point);
        proof {
            if let Some(g) = r {
                assert(group_values(g@).len() == g.len());
            }
        }
        r
    }

    /// The bridges that are configured for a point, in order: each of them gets
    /// a payload in its dialect, and no other does.
    pub fn bridges_at(&self, point: &str) -> (r: Vec<usize>)
        ensures
            forall|i: int, j: int| 0 <= i < j < r@.len() ==> #[trigger] r@[i] < #[trigger] r@[j],
            forall|b: usize| #[trigger]
                r@.contains(b) <==> b < self.bridges@.len() && configured(
                    self.bridges@[b as int],
                    point@,
                ),
    {
        let mut out: Vec<usize> = Vec::new();
        let mut b: usize = 0;
        while b < self.bridges.len()
            invariant
                b <= self.bridges@.len(),
                forall|i: int, j: int|
                    0 <= i < j < out@.len() ==> #[trigger] out@[i] < #[trigger] out@[j],
                forall|k: usize| #[trigger]
                    out@.contains(k) <==> k < b && configured(self.bridges@[k as int], point@),
            decreases self.bridges@.len() - b,
        {
            if self.bridges[b].config.get(point).is_some() {
                let ghost before = out@;
                proof {
                    assert forall|i: int| 0 <= i < before.len() implies #[trigger] before[i] < b by {
                        assert(before.contains(before[i]));
                    }
                }
                out.push(b);
                proof {
                    assert forall|k: usize| #[trigger] out@.contains(k) <==> k < b + 1
                        && configured(self.bridges@[k as int], point@) by {
                        if before.contains(k) {
                            let w = choose|w: int| 0 <= w < before.len() && before[w] == k;
                            assert(out@[w] == k);
                        }
                        assert(out@[before.len() as int] == b);
                        if out@.contains(k) && k != b {
                            let w = choose|w: int| 0 <= w < out@.len() && out@[w] == k;
                            assert(before[w] == k);
                        }
                    }
                }
            }
            b = b + 1;
        }
        out
    }

    /// The groups at a point whose matchers the host judges, in order.
    pub fn groups_at(&self, point: &str) -> (r: Vec<GroupRef>)
        ensures
            r@ == groups_at_point(self.bridges@, point@),
            forall|i: int| 0 <= i < r@.len() ==> {
                let g = #[trigger] r@[i];
                g.bridge < self.bridges@.len() && g.group < point_groups(
                    self.bridges@[g.bridge as int],
                    point@,
                ).len()
            },
    {
        let mut out: Vec<GroupRef> = Vec::new();
        let mut b: usize = 0;
        assert(self.bridges@.take(0) =~= Seq::<Bridge>::empty());
        while b < self.bridges.len()
            invariant
                b <= self.bridges@.len(),
                out@ == groups_at_point(self.bridges@.take(b as int), point@),
                forall|i: int|
                    0 <= i < b ==> point_groups(#[trigger] self.bridges@[i], point@).len()
                        <= usize::MAX,
            decreases self.bridges@.len() - b,
        {
            let n: usize = match self.groups_of(b, point) {
                Some(g) => g.len(),
                None => 0,
            };
            let ghost base = out@;
            let mut k: usize = 0;
            assert(base + refs_of_bridge(b as nat, 0) =~= base);
            while k < n
                invariant
                    k <= n,
                    out@ == base + refs_of_bridge(b as nat, k as nat),
                decreases n - k,
            {
                out.push(GroupRef { bridge: b, group: k });
                assert(out@ =~= base + refs_of_bridge(b as nat, (k + 1) as nat));
                k = k + 1;
            }
            assert(self.bridges@.take(b + 1).drop_last() =~= self.bridges@.take(b as int));
            assert(self.bridges@.take(b + 1).last() == self.bridges@[b as int]);
            b = b + 1;
        }
        proof {
            lemma_groups_at_valid(self.bridges@, b as int, point@);
            assert(self.bridges@.take(b as int) =~= self.bridges@);
        }
        out
    }

    /// Starts a run of a point. `verdicts` says of each group that
    /// [`HookService::groups_at`] lists whether its matcher matched.
    pub fn begin_point(
        &self,
        point: &str,
        verdicts: &[bool],
        plain_stdout_as_context: bool,
        turn: Option<u64>,
    ) -> (r: PointRun)
        requires
            verdicts@.len() == groups_at_point(self.bridges@, point@).len(),
        ensures
            r.point@ == point@,
            r.plain_stdout_as_context == plain_stdout_as_context,
            r.turn == turn,
            r.agenda@ == hooks_of_groups(
                self.bridges@,
                point@,
                groups_at_point(self.bridges@, point@),
                verdicts@,
            ),
            r.started == 0,
            r.outputs@.len() == 0,
            r.wf(self.bridges@),
    {
        let refs = self.groups_at(point);
        let mut agenda: Vec<HookRef> = Vec::new();
        let mut i: usize = 0;
        assert(refs@.take(0) =~= Seq::<GroupRef>::empty());
        while i < refs.len()
            invariant
                i <= refs@.len(),
                refs@ == groups_at_point(self.bridges@, point@),
                verdicts@.len() == refs@.len(),
                forall|k: int| 0 <= k < refs@.len() ==> {
                    let g = #[trigger] refs@[k];
                    g.bridge < self.bridges@.len() && g.group < point_groups(
                        self.bridges@[g.bridge as int],
                        point@,
                    ).len()
                },
                agenda@ == hooks_of_groups(
                    self.bridges@,
                    point@,
                    refs@.take(i as int),
                    verdicts@,
                ),
                forall|k: int|
                    0 <= k < agenda@.len() ==> valid_hook(
                        self.bridges@,
                        point@,
                        #[trigger] agenda@[k],
                    ),
            decreases refs@.len() - i,
        {
            let g = refs[i];
            assert(refs@.take(i + 1).drop_last() =~= refs@.take(i as int));
            assert(refs@.take(i + 1).last() == g);
            if verdicts[i] {
                let ghost base = agenda@;
                let n: usize = match self.groups_of(g.bridge, point) {
                    Some(v) => v[g.group].hooks.len(),
                    None => 0,
                };
                assert(n == hook_count(self.bridges@, point@, g));
                let mut h: usize = 0;
                assert(base + refs_of_group(g, 0) =~= base);
                while h < n
                    invariant
                        h <= n,
                        n == hook_count(self.bridges@, point@, g),
                        g.bridge < self.bridges@.len(),
                        g.group < point_groups(self.bridges@[g.bridge as int], point@).len(),
                        agenda@ == base + refs_of_group(g, h as nat),
                        forall|k: int|
                            0 <= k < agenda@.len() ==> valid_hook(
                                self.bridges@,
                                point@,
                                #[trigger] agenda@[k],
                            ),
                    decreases n - h,
                {
                    agenda.push(HookRef { bridge: g.bridge, group: g.group, hook: h });
                    assert(agenda@ =~= base + refs_of_group(g, (h + 1) as nat));
                    h = h + 1;
                }
            }
            i = i + 1;
        }
        assert(refs@.take(i as int) =~= refs@);
        PointRun {
            point: owned(point),
            plain_stdout_as_context,
            turn,
            agenda,
            started: 0,
            outputs: Vec::new(),
        }
    }

    fn start(&mut self, run: &PointRun, h: HookRef) -> (r: HookStart)
        requires
            old(self).wf(),
            valid_hook(old(self).bridges@, run.point@, h),
        ensures
            final(self).wf(),
            final(self).bridges == old(self).bridges,
            final(self).counters@ == old(self).counters@.update(
                h.bridge as int,
                next_count(old(self).counters@[h.bridge as int]),
            ),
            start_of(*old(self), *run, h, r),
    {
        let ghost before = *self;
        let n: u64 = self.counters[h.bridge].wrapping_add(1);
        self.counters.set(h.bridge, n);
        let b = &self.bridges[h.bridge];
        let mut env: Vec<(String, String)> = Vec::new();
        if b.dialect == BridgeDialect::ClaudeCode {
            match &b.project_dir {
                Some(d) => {
                    env.push((owned("CLAUDE_PROJECT_DIR"), d.clone()));
                },
                None => {},
            }
        }
        assert(env@.map_values(|e: (String, String)| (e.0@, e.1@)) =~= hook_env(*b));
        let dialect = b.dialect.dialect();
        let number = u64_text(n);
        let name = dialect.as_str();
        let handler_id = cat5(
            name.as_str(),
            ":",
            run.point.as_str(),
            ":",
            number.as_str(),
        );
        let turn: u64 = match run.turn {
            Some(t) => t,
            None => 0,
        };
        let groups = self.groups_of(h.bridge, run.point.as_str());
        assert(groups is Some);
        let group = &groups.unwrap()[h.group];
        let hook = &group.hooks[h.hook];
        HookStart {
            hook: h,
            command: hook.command.clone(),
            timeout_sec: hook.timeout_sec,
            default_timeout_ms: b.default_timeout_ms,
            stderr_summary_max_chars: b.stderr_summary_max_chars,
            env,
            invocation: HookInvocation {
                turn,
                point: run.point.clone(),
                dialect,
                handler_id,
                matcher: owned_opt(&group.matcher),
            },
        }
    }

    /// One step of a run. `answer` is what the hook that was started last
    /// answered; there is none at the first step.
    ///
    /// The answer joins the outputs, then the next hook of the agenda starts,
    /// or the outputs are merged where none is left.
    pub fn advance(&mut self, run: &mut PointRun, answer: Option<HookOutput>) -> (r: PointAction)
        requires
            old(self).wf(),
            old(run).wf(old(self).bridges@),
            answer is Some <==> old(run).started > 0,
        ensures
            final(self).wf(),
            final(self).bridges == old(self).bridges,
            final(run).wf(final(self).bridges@),
            final(run).point == old(run).point,
            final(run).plain_stdout_as_context == old(run).plain_stdout_as_context,
            final(run).turn == old(run).turn,
            final(run).agenda == old(run).agenda,
            match answer {
                Some(o) => {
                    &&& final(run).outputs@.len() == old(run).outputs@.len() + 1
                    &&& final(run).outputs@.drop_last() == old(run).outputs@
                    &&& absorbed(
                        old(run).plain_stdout_as_context,
                        old(self).bridges@[old(run).agenda@[old(run).started
                            - 1].bridge as int].dialect.record_dialect(),
                        old(run).point@,
                        o,
                        final(run).outputs@.last(),
                    )
                },
                None => final(run).outputs@ == old(run).outputs@,
            },
            match r {
                PointAction::Run(start) => {
                    let h = old(run).agenda@[old(run).started as int];
                    &&& old(run).started < old(run).agenda@.len()
                    &&& final(run).started == old(run).started + 1
                    &&& start_of(*old(self), *old(run), h, start)
                    &&& final(self).counters@ == old(self).counters@.update(
                        h.bridge as int,
                        next_count(old(self).counters@[h.bridge as int]),
                    )
                },
                PointAction::Finish(m) => {
                    &&& old(run).started == old(run).agenda@.len()
                    &&& final(run).started == old(run).started
                    &&& m@ == merged(final(run).outputs@)
                    &&& final(self).counters == old(self).counters
                },
            },
    {
        match answer {
            Some(o) => {
                let last = run.agenda[run.started - 1];
                assert(valid_hook(self.bridges@, run.point@, last));
                let dialect = self.bridges[last.bridge].dialect.dialect();
                let out = absorb_output(
                    run.plain_stdout_as_context,
                    dialect,
                    run.point.as_str(),
                    o,
                );
                run.outputs.push(out);
                assert(run.outputs@.drop_last() =~= old(run).outputs@);
            },
            None => {},
        }
        if run.started < run.agenda.len() {
            let h = run.agenda[run.started];
            let start = self.start(run, h);
            run.started = run.started + 1;
            PointAction::Run(start)
        } else {
            PointAction::Finish(merge_hook_outputs(run.outputs.as_slice()))
        }
    }
}

/// What is printed of an answer that asks for things which are not honoured.
pub fn ignored_notices(plugin: &str, point: &str, output: &HookOutput) -> (r: Vec<String>)
    ensures
        r@.map_values(|s: String| s@) == (if output.updated_input is Some {
            seq![
                "hooks: "@ + plugin@ + " "@ + point@
                    + " hook requested updatedInput, which is not yet honored (ignored)"@,
            ]
        } else {
            Seq::empty()
        }) + (match output.system_message {
            Some(m) => seq![
                "hooks: "@ + plugin@ + " "@ + point@
                    + " hook emitted a systemMessage, which is not yet surfaced (ignored): "@ + m@,
            ],
            None => Seq::empty(),
        }),
{
    let mut out: Vec<String> = Vec::new();
    if output.updated_input.is_some() {
        out.push(
            cat5(
                "hooks: ",
                plugin,
                " ",
                point,
                " hook requested updatedInput, which is not yet honored (ignored)",
            ),
        );
    }
    match &output.system_message {
        Some(m) => {
            let mut line = cat5(
                "hooks: ",
                plugin,
                " ",
                point,
                " hook emitted a systemMessage, which is not yet surfaced (ignored): ",
            );
            line.append(m.as_str());
            out.push(line);
        },
        None => {},
    }
    assert(out@.map_values(|s: String| s@) =~= (if output.updated_input is Some {
        seq![
            "hooks: "@ + plugin@ + " "@ + point@
                + " hook requested updatedInput, which is not yet honored (ignored)"@,
        ]
    } else {
        Seq::empty()
    }) + (match output.system_message {
        Some(m) => seq![
            "hooks: "@ + plugin@ + " "@ + point@
                + " hook emitted a systemMessage, which is not yet surfaced (ignored): "@ + m@,
        ],
        None => Seq::empty(),
    }));
    out
}

// ---------------------------------------------------------------------------
// What a merged result means to the engine
// ---------------------------------------------------------------------------
/// The verdict on a submitted prompt.
#[derive(Debug, Clone, Copy, PartialEq, Eq, Structural)]
pub enum PreStepVerdict {
    Proceed,
    Reject,
}

/// The verdict on a tool call.
#[derive(Debug, PartialEq, Eq)]
pub enum PreToolVerdict {
    Proceed,
    Deny { reason: String },
}

/// The verdict on a tool result.
#[derive(Debug, PartialEq, Eq)]
pub enum PostToolVerdict {
    Pass,
    Inject { text: String },
    Block { feedback: String },
}

/// The verdict on a stop.
#[derive(Debug, PartialEq, Eq)]
pub enum StopVerdict {
    Pass,
    Continue { reason: String },
}

/// The answer to an approval request.
#[derive(Debug, Clone, Copy, PartialEq, Eq, Structural)]
pub enum ToolApprovalOutcome {
    AllowedOnce,
    Rejected,
    Cancelled,
    Unavailable,
}

/// What follows from the hooks before a tool call.
#[derive(Debug, PartialEq, Eq)]
pub enum PreToolStep {
    Decided(PreToolVerdict),
    /// The host asks for approval and hands the outcome to
    /// [`approval_verdict`].
    NeedsApproval { tool: String, args_summary: String, reason: String },
}

/// A merged reason, or a text where there is none.
pub open spec fn reason_or(m: MergedHookOutcome, fallback: Seq<char>) -> Seq<char> {
    match m.reason {
        Some(r) => r@,
        None => fallback,
    }
}

fn reason_text(m: &MergedHookOutcome, fallback: &str) -> (r: String)
    ensures
        r@ == reason_or(*m, fallback@),
{
    match &m.reason {
        Some(r) => r.clone(),
        None => owned(fallback),
    }
}

/// A submitted prompt is rejected exactly where the hooks deny it.
pub fn on_prompt_submit(m: &MergedHookOutcome) -> (r: PreStepVerdict)
    ensures
        r == (if m.decision == MergedDecision::Deny {
            PreStepVerdict::Reject
        } else {
            PreStepVerdict::Proceed
        }),
{
    match m.decision {
        MergedDecision::Deny => PreStepVerdict::Reject,
        _ => PreStepVerdict::Proceed,
    }
}

/// The summary of tool arguments: at most 200 characters, then an ellipsis.
pub open spec fn args_summary(args: Seq<char>) -> Seq<char> {
    if args.len() > 200 {
        args.take(200).push('…')
    } else {
        args
    }
}

/// The summary of the JSON text of tool arguments.
pub fn abbreviated_args(args: &str) -> (r: String)
    ensures
        r@ == args_summary(args@),
{
    let cs = chars_of(args);
    if cs.len() > 200 {
        let mut cut = string_of_range(cs.as_slice(), 0, 200);
        assert(cs@.subrange(0, 200) =~= cs@.take(200));
        cut.push('…');
        cut
    } else {
        owned(args)
    }
}

/// A tool call is denied where the hooks deny it, and put to approval where
/// they ask; without an approval channel asking denies.
pub fn pre_tool(m: &MergedHookOutcome, tool_name: &str, args: &str, has_approval: bool) -> (r:
    PreToolStep)
    ensures
        match m.decision {
            MergedDecision::Deny => r matches PreToolStep::Decided(PreToolVerdict::Deny { reason })
                && reason@ == reason_or(*m, "blocked by PreToolUse hook"@),
            MergedDecision::Ask => if has_approval {
                r matches PreToolStep::NeedsApproval { tool, args_summary: summary, reason }
                    && tool@ == tool_name@ && summary@ == args_summary(args@) && reason@
                    == reason_or(*m, Seq::empty())
            } else {
                r matches PreToolStep::Decided(PreToolVerdict::Deny { reason }) && reason@
                    == "tool \""@ + tool_name@ + "\" needs approval"@
            },
            _ => r == PreToolStep::Decided(PreToolVerdict::Proceed),
        },
{
    match m.decision {
        MergedDecision::Deny => PreToolStep::Decided(
            PreToolVerdict::Deny { reason: reason_text(m, "blocked by PreToolUse hook") },
        ),
        MergedDecision::Ask => {
            if has_approval {
                let reason = match &m.reason {
                    Some(r) => r.clone(),
                    None => String::new(),
                };
                PreToolStep::NeedsApproval {
                    tool: owned(tool_name),
                    args_summary: abbreviated_args(args),
                    reason,
                }
            } else {
                PreToolStep::Decided(
                    PreToolVerdict::Deny {
                        reason: cat3("tool \"", tool_name, "\" needs approval"),
                    },
                )
            }
        },
        _ => PreToolStep::Decided(PreToolVerdict::Proceed),
    }
}

/// Only an allowance lets a tool call through; every other outcome denies it
/// with a reason that tells them apart.
pub fn approval_verdict(tool_name: &str, reason: &str, outcome: ToolApprovalOutcome) -> (r:
    PreToolVerdict)
    ensures
        match outcome {
            ToolApprovalOutcome::AllowedOnce => r == PreToolVerdict::Proceed,
            ToolApprovalOutcome::Rejected => r matches PreToolVerdict::Deny { reason: text }
                && text@ == (if reason@.len() == 0 {
                "tool \""@ + tool_name@ + "\" requires approval (rejected)"@
            } else {
                reason@
            }),
            ToolApprovalOutcome::Cancelled => r matches PreToolVerdict::Deny { reason: text }
                && text@ == "tool \""@ + tool_name@ + "\" approval cancelled"@,
            ToolApprovalOutcome::Unavailable => r matches PreToolVerdict::Deny { reason: text }
                && text@ == "tool \""@ + tool_name@ + "\" needs approval (no approval channel)"@,
        },
{
    match outcome {
        ToolApprovalOutcome::AllowedOnce => PreToolVerdict::Proceed,
        ToolApprovalOutcome::Rejected => PreToolVerdict::Deny {
            reason: if reason.is_empty() {
                cat3("tool \"", tool_name, "\" requires approval (rejected)")
            } else {
                owned(reason)
            },
        },
        ToolApprovalOutcome::Cancelled => PreToolVerdict::Deny {
            reason: cat3("tool \"", tool_name, "\" approval cancelled"),
        },
        ToolApprovalOutcome::Unavailable => PreToolVerdict::Deny {
            reason: cat3("tool \"", tool_name, "\" needs approval (no approval channel)"),
        },
    }
}

/// A tool result is blocked where the hooks deny it; else the first context
/// is injected.
pub fn post_tool(m: &MergedHookOutcome) -> (r: PostToolVerdict)
    ensures
        if m.decision == MergedDecision::Deny {
            r matches PostToolVerdict::Block { feedback } && feedback@ == reason_or(
                *m,
                "blocked by PostToolUse hook"@,
            )
        } else if m.additional_context@.len() > 0 {
            r matches PostToolVerdict::Inject { text } && text@ == m.additional_context@[0]@
        } else {
            r == PostToolVerdict::Pass
        },
{
    match m.decision {
        MergedDecision::Deny => PostToolVerdict::Block {
            feedback: reason_text(m, "blocked by PostToolUse hook"),
        },
        _ => {
            if m.additional_context.len() > 0 {
                PostToolVerdict::Inject { text: m.additional_context[0].clone() }
            } else {
                PostToolVerdict::Pass
            }
        },
    }
}

/// A stop is turned into another round exactly where the hooks deny it.
pub fn on_stop(m: &MergedHookOutcome) -> (r: StopVerdict)
    ensures
        if m.decision == MergedDecision::Deny {
            r matches StopVerdict::Continue { reason } && reason@ == reason_or(
                *m,
                "continue: blocked by Stop hook"@,
            )
        } else {
            r == StopVerdict::Pass
        },
{
    match m.decision {
        MergedDecision::Deny => StopVerdict::Continue {
            reason: reason_text(m, "continue: blocked by Stop hook"),
        },
        _ => StopVerdict::Pass,
    }
}

// ---------------------------------------------------------------------------
// Laws
// ---------------------------------------------------------------------------
/// Two starts of one bridge at one point have different ids while the counter
/// has not wrapped.
pub proof fn law_handler_ids_are_distinct(d: HookDialect, point: Seq<char>, a: u64, b: u64)
    requires
        a != b,
    ensures
        handler_id(d, point, a) != handler_id(d, point, b),
{
    if handler_id(d, point, a) == handler_id(d, point, b) {
        let p = d.name() + ":"@ + point + ":"@;
        assert(handler_id(d, point, a).skip(p.len() as int) =~= dec(a as nat));
        assert(handler_id(d, point, b).skip(p.len() as int) =~= dec(b as nat));
        law_decimal_is_injective(a as nat, b as nat);
    }
}

/// Whether a hook belongs to a group at position `k` whose matcher matched.
pub open spec fn from_matched_group(
    refs: Seq<GroupRef>,
    verdicts: Seq<bool>,
    k: int,
    x: HookRef,
) -> bool {
    &&& 0 <= k < refs.len()
    &&& verdicts[k]
    &&& refs[k].bridge == x.bridge
    &&& refs[k].group == x.group
}

/// Every hook of a group whose matcher matched is on the agenda.
pub proof fn law_matched_hooks_run(
    bridges: Seq<Bridge>,
    point: Seq<char>,
    refs: Seq<GroupRef>,
    verdicts: Seq<bool>,
    k: int,
    x: HookRef,
)
    requires
        verdicts.len() == refs.len(),
        from_matched_group(refs, verdicts, k, x),
        x.hook < hook_count(bridges, point, refs[k]),
    ensures
        hooks_of_groups(bridges, point, refs, verdicts).contains(x),
    decreases refs.len(),
{
    let init = refs.drop_last();
    let vinit = verdicts.drop_last();
    lemma_verdict_prefix(bridges, point, init, verdicts, vinit);
    let all = hooks_of_groups(bridges, point, refs, verdicts);
    let head = hooks_of_groups(bridges, point, init, verdicts);
    if k < init.len() {
        law_matched_hooks_run(bridges, point, init, vinit, k, x);
        let w = choose|w: int| 0 <= w < head.len() && head[w] == x;
        assert(all[w] == x);
    } else {
        let tail = refs_of_group(refs.last(), hook_count(bridges, point, refs.last()));
        assert(all == head + tail);
        assert(tail[x.hook as int] == x);
        assert(all[head.len() + x.hook] == x);
    }
}

/// Every hook on the agenda belongs to a group whose matcher matched; where
/// no matcher matched, nothing runs.
pub proof fn law_only_matched_hooks_run(
    bridges: Seq<Bridge>,
    point: Seq<char>,
    refs: Seq<GroupRef>,
    verdicts: Seq<bool>,
    x: HookRef,
)
    requires
        verdicts.len() == refs.len(),
        hooks_of_groups(bridges, point, refs, verdicts).contains(x),
    ensures
        exists|k: int| from_matched_group(refs, verdicts, k, x),
    decreases refs.len(),
{
    if refs.len() > 0 {
        let init = refs.drop_last();
        let vinit = verdicts.drop_last();
        lemma_verdict_prefix(bridges, point, init, verdicts, vinit);
        let all = hooks_of_groups(bridges, point, refs, verdicts);
        let head = hooks_of_groups(bridges, point, init, verdicts);
        let i = choose|i: int| 0 <= i < all.len() && all[i] == x;
        if i < head.len() {
            assert(head[i] == x);
            law_only_matched_hooks_run(bridges, point, init, vinit, x);
            let k = choose|k: int| from_matched_group(init, vinit, k, x);
            assert(from_matched_group(refs, verdicts, k, x));
        } else {
            let tail = refs_of_group(refs.last(), hook_count(bridges, point, refs.last()));
            assert(all == head + tail);
            assert(tail[i - head.len()] == x);
            assert(from_matched_group(refs, verdicts, refs.len() - 1, x));
        }
    }
}

/// Every hook on the agenda of a run belongs to a bridge that is configured for
/// the point, so that there is a payload for it.
pub proof fn law_hooks_belong_to_configured_bridges(
    bridges: Seq<Bridge>,
    run: PointRun,
    i: int,
)
    requires
        run.wf(bridges),
        0 <= i < run.agenda@.len(),
    ensures
        run.agenda@[i].bridge < bridges.len(),
        configured(bridges[run.agenda@[i].bridge as int], run.point@),
{
    assert(valid_hook(bridges, run.point@, run.agenda@[i]));
}

/// Where no bridge is configured for a point, no group is judged and no hook
/// runs.
pub proof fn law_unconfigured_points_run_nothing(
    bridges: Seq<Bridge>,
    point: Seq<char>,
    verdicts: Seq<bool>,
)
    requires
        forall|b: int| 0 <= b < bridges.len() ==> !configured(#[trigger] bridges[b], point),
    ensures
        groups_at_point(bridges, point).len() == 0,
        hooks_of_groups(bridges, point, groups_at_point(bridges, point), verdicts).len() == 0,
    decreases bridges.len(),
{
    if bridges.len() > 0 {
        let init = bridges.drop_last();
        assert forall|b: int| 0 <= b < init.len() implies !configured(
            #[trigger] init[b],
            point,
        ) by {
            assert(init[b] == bridges[b]);
        }
        law_unconfigured_points_run_nothing(init, point, verdicts);
        assert(!configured(bridges[bridges.len() - 1], point));
        assert(point_groups(bridges.last(), point).len() == 0);
    }
}

proof fn lemma_verdict_prefix(
    bridges: Seq<Bridge>,
    point: Seq<char>,
    refs: Seq<GroupRef>,
    a: Seq<bool>,
    b: Seq<bool>,
)
    requires
        refs.len() <= a.len(),
        refs.len() <= b.len(),
        forall|i: int| 0 <= i < refs.len() ==> a[i] == b[i],
    ensures
        hooks_of_groups(bridges, point, refs, a) == hooks_of_groups(bridges, point, refs, b),
    decreases refs.len(),
{
    if refs.len() > 0 {
        lemma_verdict_prefix(bridges, point, refs.drop_last(), a, b);
    }
}

/// Whether a tool call is denied.
pub open spec fn is_denial(r: PreToolStep) -> bool {
    match r {
        PreToolStep::Decided(PreToolVerdict::Deny { .. }) => true,
        _ => false,
    }
}

/// What the answers of the hooks before a tool call come to: one that denies or
/// blocks denies the call; else one that asks puts it to approval, where that can
/// be asked for, and denies it where it cannot; else the call goes on.
pub proof fn law_hooks_decide_on_tool_calls(
    outs: Seq<HookOutput>,
    m: &MergedHookOutcome,
    tool: &str,
    args: &str,
    has_approval: bool,
    r: PreToolStep,
)
    requires
        m@ == merged(outs),
        call_ensures(pre_tool, (m, tool, args, has_approval), r),
    ensures
        ({
            let denied = exists|i: int|
                0 <= i < outs.len() && ((#[trigger] outs[i]).decision == Some(Decision::Deny)
                    || outs[i].decision == Some(Decision::Block));
            let asked = exists|i: int|
                0 <= i < outs.len() && (#[trigger] outs[i]).decision == Some(Decision::Ask);
            &&& denied || (asked && !has_approval) ==> is_denial(r)
            &&& !denied && asked && has_approval ==> (r matches PreToolStep::NeedsApproval {
                tool: t,
                args_summary: s,
                ..
            } && t@ == tool@ && (args@.len() <= 200 ==> s@ == args@))
            &&& !denied && !asked ==> r == PreToolStep::Decided(PreToolVerdict::Proceed)
        }),
{
    law_strictest_decision_wins(outs);
}

/// A denied tool call says why: the reasons of the hooks, or else that a hook
/// blocked it.
pub proof fn law_denials_say_why(
    m: &MergedHookOutcome,
    tool: &str,
    args: &str,
    has_approval: bool,
    r: PreToolStep,
)
    requires
        call_ensures(pre_tool, (m, tool, args, has_approval), r),
        m.decision == MergedDecision::Deny,
    ensures
        r matches PreToolStep::Decided(PreToolVerdict::Deny { reason }) && reason@ == (
        match m@.reason {
            Some(text) => text,
            None => "blocked by PreToolUse hook"@,
        }),
{
}

/// What the answers of the hooks on a prompt, on a tool result and on a stop
/// come to: one that denies or blocks rejects the prompt, blocks the result and
/// makes the turn go on; without one the prompt is taken, the first context is
/// handed over, and the turn ends.
pub proof fn law_hooks_decide_on_prompts_results_and_stops(
    outs: Seq<HookOutput>,
    m: &MergedHookOutcome,
    prompt: PreStepVerdict,
    result: PostToolVerdict,
    end: StopVerdict,
)
    requires
        m@ == merged(outs),
        call_ensures(on_prompt_submit, (m,), prompt),
        call_ensures(post_tool, (m,), result),
        call_ensures(on_stop, (m,), end),
    ensures
        ({
            let denied = exists|i: int|
                0 <= i < outs.len() && ((#[trigger] outs[i]).decision == Some(Decision::Deny)
                    || outs[i].decision == Some(Decision::Block));
            &&& prompt == PreStepVerdict::Reject <==> denied
            &&& prompt == PreStepVerdict::Proceed <==> !denied
            &&& denied ==> (result matches PostToolVerdict::Block { feedback } && (
            m@.reason matches Some(t) ==> feedback@ == t))
            &&& denied ==> (end matches StopVerdict::Continue { reason } && (
            m@.reason matches Some(t) ==> reason@ == t))
            &&& !denied ==> end == StopVerdict::Pass
            &&& !denied && m@.additional_context.len() == 0 ==> result == PostToolVerdict::Pass
            &&& !denied && m@.additional_context.len() > 0 ==> (result matches
                PostToolVerdict::Inject { text } && text@ == m@.additional_context[0])
        }),
{
    law_strictest_decision_wins(outs);
}

/// Only a tool call that was allowed goes on; one that was not is denied.
pub proof fn law_only_allowed_calls_go_on(
    tool: &str,
    reason: &str,
    outcome: ToolApprovalOutcome,
    r: PreToolVerdict,
)
    requires
        call_ensures(approval_verdict, (tool, reason, outcome), r),
    ensures
        r == PreToolVerdict::Proceed <==> outcome == ToolApprovalOutcome::AllowedOnce,
        outcome == ToolApprovalOutcome::Rejected && reason@.len() > 0 ==> (r matches
            PreToolVerdict::Deny { reason: text } && text@ == reason@),
{
}

/// Hooks run in the order of bridges, groups and entries.
pub proof fn law_hooks_run_in_order(
    bridges: Seq<Bridge>,
    point: Seq<char>,
    verdicts: Seq<bool>,
)
    requires
        bridges.len() <= usize::MAX,
        forall|b: int|
            0 <= b < bridges.len() ==> point_groups(#[trigger] bridges[b], point).len()
                <= usize::MAX,
        forall|b: int, g: int|
            0 <= b < bridges.len() && 0 <= g < point_groups(bridges[b], point).len() ==> (
            #[trigger] point_groups(bridges[b], point)[g]).hooks.len() <= usize::MAX,
    ensures
        ({
            let agenda = hooks_of_groups(
                bridges,
                point,
                groups_at_point(bridges, point),
                verdicts,
            );
            forall|i: int, j: int|
                0 <= i < j < agenda.len()
                    ==> comes_before(#[trigger] agenda[i], #[trigger] agenda[j])
        }),
{
    let refs = groups_at_point(bridges, point);
    assert(bridges.take(bridges.len() as int) =~= bridges);
    lemma_groups_rise(bridges, bridges, point);
    lemma_hooks_rise(bridges, point, refs, verdicts);
}

/// Whether a hook comes before another: in an earlier bridge, or there in an
/// earlier group, or there as an earlier entry.
pub open spec fn comes_before(a: HookRef, b: HookRef) -> bool {
    ||| a.bridge < b.bridge
    ||| a.bridge == b.bridge && a.group < b.group
    ||| a.bridge == b.bridge && a.group == b.group && a.hook < b.hook
}

spec fn group_before(a: GroupRef, b: GroupRef) -> bool {
    a.bridge < b.bridge || (a.bridge == b.bridge && a.group < b.group)
}

proof fn lemma_groups_rise(bridges: Seq<Bridge>, all: Seq<Bridge>, point: Seq<char>)
    requires
        bridges.len() <= all.len() <= usize::MAX,
        bridges == all.take(bridges.len() as int),
        forall|b: int|
            0 <= b < all.len() ==> point_groups(#[trigger] all[b], point).len() <= usize::MAX,
    ensures
        ({
            let refs = groups_at_point(bridges, point);
            &&& forall|i: int|
                0 <= i < refs.len() ==> (#[trigger] refs[i]).bridge < bridges.len()
                    && refs[i].group < point_groups(all[refs[i].bridge as int], point).len()
            &&& forall|i: int, j: int|
                0 <= i < j < refs.len() ==> group_before(#[trigger] refs[i], #[trigger] refs[j])
        }),
    decreases bridges.len(),
{
    if bridges.len() > 0 {
        let init = bridges.drop_last();
        let n = bridges.len() - 1;
        assert(init =~= all.take(n));
        assert(bridges.last() == all[n]);
        lemma_groups_rise(init, all, point);
        let a = groups_at_point(init, point);
        let b = refs_of_bridge(n as nat, point_groups(bridges.last(), point).len());
        let refs = groups_at_point(bridges, point);
        assert forall|i: int| 0 <= i < refs.len() implies (#[trigger] refs[i]).bridge
            < bridges.len() && refs[i].group < point_groups(
            all[refs[i].bridge as int],
            point,
        ).len() by {
            if i < a.len() {
                assert(refs[i] == a[i]);
            } else {
                assert(refs[i] == b[i - a.len()]);
            }
        }
        assert forall|i: int, j: int| 0 <= i < j < refs.len() implies group_before(
            #[trigger] refs[i],
            #[trigger] refs[j],
        ) by {
            if j < a.len() {
                assert(group_before(a[i], a[j]));
            } else {
                assert(refs[j] == b[j - a.len()]);
                if i < a.len() {
                    assert(refs[i] == a[i]);
                } else {
                    assert(refs[i] == b[i - a.len()]);
                }
            }
        }
    }
}

proof fn lemma_hooks_rise(
    bridges: Seq<Bridge>,
    point: Seq<char>,
    refs: Seq<GroupRef>,
    verdicts: Seq<bool>,
)
    requires
        forall|i: int|
            0 <= i < refs.len() ==> (#[trigger] refs[i]).bridge < bridges.len() && refs[i].group
                < point_groups(bridges[refs[i].bridge as int], point).len(),
        forall|i: int, j: int|
            0 <= i < j < refs.len() ==> group_before(#[trigger] refs[i], #[trigger] refs[j]),
        forall|b: int, g: int|
            0 <= b < bridges.len() && 0 <= g < point_groups(bridges[b], point).len() ==> (
            #[trigger] point_groups(bridges[b], point)[g]).hooks.len() <= usize::MAX,
    ensures
        ({
            let agenda = hooks_of_groups(bridges, point, refs, verdicts);
            &&& forall|i: int|
                0 <= i < agenda.len() ==> exists|k: int|
                    0 <= k < refs.len() && (#[trigger] refs[k]).bridge == (
                    #[trigger] agenda[i]).bridge && refs[k].group == agenda[i].group
            &&& forall|i: int, j: int|
                0 <= i < j < agenda.len()
                    ==> comes_before(#[trigger] agenda[i], #[trigger] agenda[j])
        }),
    decreases refs.len(),
{
    if refs.len() > 0 {
        let init = refs.drop_last();
        let n = refs.len() - 1;
        assert forall|i: int| 0 <= i < init.len() implies (#[trigger] init[i]).bridge
            < bridges.len() && init[i].group < point_groups(
            bridges[init[i].bridge as int],
            point,
        ).len() by {
            assert(init[i] == refs[i]);
        }
        assert forall|i: int, j: int| 0 <= i < j < init.len() implies group_before(
            #[trigger] init[i],
            #[trigger] init[j],
        ) by {
            assert(group_before(refs[i], refs[j]));
        }
        lemma_hooks_rise(bridges, point, init, verdicts);
        let a = hooks_of_groups(bridges, point, init, verdicts);
        let last = refs.last();
        assert(last == refs[n]);
        let count = hook_count(bridges, point, last);
        let gs = point_groups(bridges[last.bridge as int], point);
        assert(gs[last.group as int].hooks.len() <= usize::MAX);
        let b = refs_of_group(last, count);
        let agenda = hooks_of_groups(bridges, point, refs, verdicts);
        assert forall|i: int| 0 <= i < agenda.len() implies exists|k: int|
            0 <= k < refs.len() && (#[trigger] refs[k]).bridge == (#[trigger] agenda[i]).bridge
                && refs[k].group == agenda[i].group by {
            if i < a.len() {
                assert(agenda[i] == a[i]);
                let k = choose|k: int|
                    0 <= k < init.len() && (#[trigger] init[k]).bridge == a[i].bridge
                        && init[k].group == a[i].group;
                assert(refs[k] == init[k]);
            } else {
                assert(agenda[i] == b[i - a.len()]);
                assert(refs[n].bridge == agenda[i].bridge && refs[n].group == agenda[i].group);
            }
        }
        assert forall|i: int, j: int| 0 <= i < j < agenda.len() implies comes_before(
            #[trigger] agenda[i],
            #[trigger] agenda[j],
        ) by {
            if j < a.len() {
                assert(comes_before(a[i], a[j]));
            } else {
                assert(agenda[j] == b[j - a.len()]);
                if i < a.len() {
                    assert(agenda[i] == a[i]);
                    let k = choose|k: int|
                        0 <= k < init.len() && (#[trigger] init[k]).bridge == a[i].bridge
                            && init[k].group == a[i].group;
                    assert(refs[k] == init[k]);
                    assert(group_before(refs[k], refs[n]));
                } else {
                    assert(agenda[i] == b[i - a.len()]);
                }
            }
        }
    }
}

/// A hook is started with its own command and timeout, the defaults of its
/// bridge, and, in the dialect that knows one, the project directory in its
/// environment. Its id counts the starts of its bridge.
pub proof fn law_a_start_is_the_configured_hook(
    service: HookService,
    run: PointRun,
    h: HookRef,
    start: HookStart,
    groups: Seq<GroupValue>,
)
    requires
        start_of(service, run, h, start),
        h.bridge < service.bridges@.len(),
        groups_for(service.bridges@[h.bridge as int].config@, run.point@) == Some(groups),
        service.counters@[h.bridge as int] < u64::MAX,
    ensures
        ({
            let b = service.bridges@[h.bridge as int];
            let n = service.counters@[h.bridge as int] + 1;
            let env = start.env@.map_values(|e: (String, String)| (e.0@, e.1@));
            &&& start.command@ == groups[h.group as int].hooks[h.hook as int].command
            &&& start.timeout_sec == groups[h.group as int].hooks[h.hook as int].timeout_sec
            &&& start.default_timeout_ms == b.default_timeout_ms
            &&& opt_view(start.invocation.matcher) == groups[h.group as int].matcher
            &&& start.invocation.point@ == run.point@
            &&& run.turn matches Some(t) ==> start.invocation.turn == t
            &&& b.dialect == BridgeDialect::Codex ==> env.len() == 0 && start.invocation.handler_id@
                == "codex:"@ + run.point@ + ":"@ + dec(n as nat)
            &&& b.dialect == BridgeDialect::ClaudeCode ==> start.invocation.handler_id@
                == HookDialect::ClaudeCode.name() + ":"@ + run.point@ + ":"@ + dec(n as nat)
                    && (match b.project_dir {
                Some(dir) => env == seq![("CLAUDE_PROJECT_DIR"@, dir@)],
                None => env.len() == 0,
            })
        }),
{
    law_dialect_names();
    reveal_strlit("codex:");
    reveal_strlit("codex");
    reveal_strlit(":");
    assert("codex"@ + ":"@ =~= "codex:"@);
}

/// The plain output of a Codex hook that succeeded and says nothing else is its
/// context, where plain output counts and the point is not round a tool call; in
/// every other case an answer is taken as it is.
pub proof fn law_plain_output_is_context_for_codex_only(
    plain: bool,
    d: HookDialect,
    point: Seq<char>,
    o: HookOutput,
    r: HookOutput,
)
    requires
        absorbed(plain, d, point, o, r),
    ensures
        r.decision == o.decision,
        r.reason == o.reason,
        r.continue_ == o.continue_,
        r.stop_reason == o.stop_reason,
        o.additional_context is Some ==> opt_view(r.additional_context) == opt_view(
            o.additional_context,
        ),
        !plain || d == HookDialect::ClaudeCode || point == "PreToolUse"@ || point == "PostToolUse"@
            || o.exit_code != Some(0i32) || o.stdout@.len() == 0 ==> opt_view(r.additional_context)
            == opt_view(o.additional_context),
        plain && d == HookDialect::Codex && point != "PreToolUse"@ && point != "PostToolUse"@
            && o.exit_code == Some(0i32) && o.additional_context is None && o.stdout@.len() > 0
                ==> (
        opt_view(r.additional_context) == Some(o.stdout@) <==> o.stdout@[0] != '{'),
{
}

/// A summary of arguments is the arguments, or their first 200 characters and an
/// ellipsis.
pub proof fn law_long_arguments_are_cut(args: Seq<char>)
    ensures
        args.len() <= 200 ==> args_summary(args) == args,
        args.len() > 200 ==> args_summary(args).len() == 201 && args_summary(args).last() == '…'
            && args_summary(args).take(200) == args.take(200),
{
    if args.len() > 200 {
        assert(args_summary(args).take(200) =~= args.take(200));
    }
}

/// What a hook asks for and does not get is told, each on its own: a changed
/// input first, then a message.
pub proof fn law_what_is_not_honored_is_told(
    plugin: &str,
    point: &str,
    output: &HookOutput,
    r: Vec<String>,
)
    requires
        call_ensures(ignored_notices, (plugin, point, output), r),
    ensures
        r@.len() == (if output.updated_input is Some {
            1int
        } else {
            0
        }) + (if output.system_message is Some {
            1int
        } else {
            0
        }),
        output.updated_input is Some ==> r@[0]@ == "hooks: "@ + plugin@ + " "@ + point@
            + " hook requested updatedInput, which is not yet honored (ignored)"@,
        output.system_message matches Some(m) ==> r@.last()@ == "hooks: "@ + plugin@ + " "@ + point@
            + " hook emitted a systemMessage, which is not yet surfaced (ignored): "@ + m@,
{
    let v = r@.map_values(|s: String| s@);
    assert(v.len() == r@.len());
    if r@.len() > 0 {
        assert(v[0] == r@[0]@);
        assert(v[r@.len() - 1] == r@.last()@);
    }
}

/// A bridge has what it was made with; what is not given it has from the
/// defaults.
pub proof fn law_bridges_have_their_limits(
    dialect: BridgeDialect,
    config: HookConfig,
    project_dir: Option<String>,
    timeout: Option<u64>,
    fallback: u64,
    max_chars: Option<usize>,
    r: Bridge,
)
    requires
        call_ensures(
            HookService::bridge,
            (dialect, config, project_dir, timeout, fallback, max_chars),
            r,
        ),
    ensures
        r.dialect == dialect,
        r.config == config,
        r.project_dir == project_dir,
        timeout matches Some(t) ==> r.default_timeout_ms == t,
        timeout is None ==> r.default_timeout_ms == fallback,
        max_chars matches Some(n) ==> r.stderr_summary_max_chars == n,
        max_chars is None ==> r.stderr_summary_max_chars == 500,
{
}

/// A run starts with nothing done, on the hooks of the groups that match, and
/// a registry without bridges is empty.
pub proof fn law_runs_start_with_nothing_done(
    s: &HookService,
    point: &str,
    verdicts: &[bool],
    plain: bool,
    turn: Option<u64>,
    r: PointRun,
    empty: bool,
)
    requires
        call_ensures(HookService::begin_point, (s, point, verdicts, plain, turn), r),
        call_ensures(HookService::is_empty, (s,), empty),
    ensures
        r.point@ == point@,
        r.turn == turn,
        r.plain_stdout_as_context == plain,
        r.started == 0,
        r.outputs@.len() == 0,
        r.agenda@ == hooks_of_groups(
            s.bridges@,
            point@,
            groups_at_point(s.bridges@, point@),
            verdicts@,
        ),
        empty <==> s.bridges@.len() == 0,
{
}

/// A run goes through its hooks one by one and finishes behind the last, with
/// all the answers merged; each answer is taken in before the next hook.
pub proof fn law_runs_go_through_their_hooks(
    s: &mut HookService,
    run: &mut PointRun,
    answer: Option<HookOutput>,
    r: PointAction,
)
    requires
        call_ensures(HookService::advance, (s, run, answer), r),
    ensures
        r is Finish ==> old(run).started == old(run).agenda@.len(),
        r is Run ==> old(run).started < old(run).agenda@.len()
            && final(run).started == old(run).started + 1,
        r matches PointAction::Finish(m) ==> m@ == merged(final(run).outputs@),
        answer is Some ==> final(run).outputs@.len() == old(run).outputs@.len() + 1,
        answer is None ==> final(run).outputs@ == old(run).outputs@,
        final(run).agenda == old(run).agenda,
        final(run).point == old(run).point,
        final(s).bridges == old(s).bridges,
{
}

} // verus!
