//! Parsing of `hooks.json` documents of both dialects.
//!
//! A document is either `{"hooks": {event: groups}}` or the bare event map.
//! Events that the dialect does not know are ignored as a whole, malformed
//! entries are dropped, and hooks that cannot run are listed as skipped. One
//! invalid matcher on a group that could run rejects the whole document.

use crate::hooks::events::HookDialect;
use crate::json::{get_member, lookup, member_values, values, Json, JsonValue, Number};
use crate::scan::{
    law_replace_fills_the_first_place, law_replace_leaves_other_text, replace, replace_str,
};
use crate::text::{cat3, cat4, opt_view, owned, str_eq, views};
use vstd::prelude::*;
use vstd::string::*;

verus! {

/// How the text of a matcher is read.
#[derive(Debug, Clone, Copy, PartialEq, Eq, Structural)]
pub enum MatcherMode {
    ClaudeCode,
    Codex,
}

/// The dialect of a hook configuration.
#[derive(Debug, Clone, Copy, PartialEq, Eq, Structural)]
pub enum BridgeDialect {
    ClaudeCode,
    Codex,
}

/// One command to run.
#[derive(Debug, PartialEq, Eq)]
pub struct CommandHook {
    pub command: String,
    /// Timeout in seconds, as the document states it.
    pub timeout_sec: Option<Number>,
}

/// Commands that run when a matcher matches; without one they always run.
#[derive(Debug, PartialEq, Eq)]
pub struct MatcherGroup {
    pub matcher: Option<String>,
    pub hooks: Vec<CommandHook>,
}

/// The groups of each event that has any.
#[derive(Debug, PartialEq, Eq)]
pub struct HookConfig {
    pub entries: Vec<(String, Vec<MatcherGroup>)>,
}

/// A hook that cannot run, and why.
#[derive(Debug, PartialEq, Eq)]
pub struct SkippedHook {
    pub event: String,
    pub reason: String,
}

/// A parsed document.
#[derive(Debug, PartialEq, Eq)]
pub struct ParsedConfig {
    pub config: HookConfig,
    pub skipped: Vec<SkippedHook>,
}

/// The diagnostics of those matchers that are not valid in a mode.
#[derive(Debug, PartialEq, Eq)]
pub struct MatcherDiagnostics {
    /// Matcher and diagnostic.
    pub entries: Vec<(String, String)>,
}

// ---------------------------------------------------------------------------
// Mathematical values
// ---------------------------------------------------------------------------
#[verifier::ext_equal]
pub struct CommandValue {
    pub command: Seq<char>,
    pub timeout_sec: Option<Number>,
}

#[verifier::ext_equal]
pub struct GroupValue {
    pub matcher: Option<Seq<char>>,
    pub hooks: Seq<CommandValue>,
}

#[verifier::ext_equal]
pub struct SkippedValue {
    pub event: Seq<char>,
    pub reason: Seq<char>,
}

#[verifier::ext_equal]
pub struct ParsedValue {
    pub config: Seq<(Seq<char>, Seq<GroupValue>)>,
    pub skipped: Seq<SkippedValue>,
}

impl View for CommandHook {
    type V = CommandValue;

    open spec fn view(&self) -> CommandValue {
        CommandValue { command: self.command@, timeout_sec: self.timeout_sec }
    }
}

pub open spec fn command_values(s: Seq<CommandHook>) -> Seq<CommandValue> {
    s.map_values(|h: CommandHook| h@)
}

impl View for MatcherGroup {
    type V = GroupValue;

    open spec fn view(&self) -> GroupValue {
        GroupValue { matcher: opt_view(self.matcher), hooks: command_values(self.hooks@) }
    }
}

pub open spec fn group_values(s: Seq<MatcherGroup>) -> Seq<GroupValue> {
    s.map_values(|g: MatcherGroup| g@)
}

impl View for HookConfig {
    type V = Seq<(Seq<char>, Seq<GroupValue>)>;

    open spec fn view(&self) -> Seq<(Seq<char>, Seq<GroupValue>)> {
        entry_values(self.entries@)
    }
}

pub open spec fn entry_values(s: Seq<(String, Vec<MatcherGroup>)>) -> Seq<
    (Seq<char>, Seq<GroupValue>),
> {
    s.map_values(|e: (String, Vec<MatcherGroup>)| (e.0@, group_values(e.1@)))
}

impl View for SkippedHook {
    type V = SkippedValue;

    open spec fn view(&self) -> SkippedValue {
        SkippedValue { event: self.event@, reason: self.reason@ }
    }
}

pub open spec fn skipped_values(s: Seq<SkippedHook>) -> Seq<SkippedValue> {
    s.map_values(|h: SkippedHook| h@)
}

impl View for ParsedConfig {
    type V = ParsedValue;

    open spec fn view(&self) -> ParsedValue {
        ParsedValue { config: self.config@, skipped: skipped_values(self.skipped@) }
    }
}

impl View for MatcherDiagnostics {
    type V = Seq<(Seq<char>, Seq<char>)>;

    open spec fn view(&self) -> Seq<(Seq<char>, Seq<char>)> {
        self.entries@.map_values(|e: (String, String)| (e.0@, e.1@))
    }
}

pub open spec fn opt_str(o: Option<&str>) -> Option<Seq<char>> {
    match o {
        Some(s) => Some(s@),
        None => None,
    }
}

// ---------------------------------------------------------------------------
// Dialects
// ---------------------------------------------------------------------------
impl BridgeDialect {
    /// The events that a dialect knows, in order.
    pub open spec fn event_names(self) -> Seq<Seq<char>> {
        match self {
            BridgeDialect::ClaudeCode => seq![
                "SessionStart"@,
                "UserPromptSubmit"@,
                "PreToolUse"@,
                "PostToolUse"@,
                "Stop"@,
                "SubagentStart"@,
                "SubagentStop"@,
            ],
            BridgeDialect::Codex => seq![
                "PreToolUse"@,
                "PostToolUse"@,
                "SessionStart"@,
                "UserPromptSubmit"@,
                "Stop"@,
            ],
        }
    }

    /// How the matchers of a dialect are read.
    pub fn matcher_mode(self) -> (r: MatcherMode)
        ensures
            r == (match self {
                BridgeDialect::ClaudeCode => MatcherMode::ClaudeCode,
                BridgeDialect::Codex => MatcherMode::Codex,
            }),
    {
        match self {
            BridgeDialect::ClaudeCode => MatcherMode::ClaudeCode,
            BridgeDialect::Codex => MatcherMode::Codex,
        }
    }

    /// The events that a dialect knows, in order.
    pub fn events(self) -> (r: Vec<&'static str>)
        ensures
            r@.map_values(|s: &str| s@) == self.event_names(),
    {
        let r = match self {
            BridgeDialect::ClaudeCode => vec![
                "SessionStart",
                "UserPromptSubmit",
                "PreToolUse",
                "PostToolUse",
                "Stop",
                "SubagentStart",
                "SubagentStop",
            ],
            BridgeDialect::Codex => vec![
                "PreToolUse",
                "PostToolUse",
                "SessionStart",
                "UserPromptSubmit",
                "Stop",
            ],
        };
        assert(r@.map_values(|s: &str| s@) =~= self.event_names());
        r
    }

    /// The dialect of the records of a bridge.
    pub open spec fn record_dialect(self) -> HookDialect {
        match self {
            BridgeDialect::ClaudeCode => HookDialect::ClaudeCode,
            BridgeDialect::Codex => HookDialect::Codex,
        }
    }

    /// The dialect of the records of a bridge.
    pub fn dialect(self) -> (r: HookDialect)
        ensures
            r == self.record_dialect(),
    {
        match self {
            BridgeDialect::ClaudeCode => HookDialect::ClaudeCode,
            BridgeDialect::Codex => HookDialect::Codex,
        }
    }
}

/// Whether an event has nothing that a matcher could match.
pub open spec fn matcherless(event: Seq<char>) -> bool {
    event == "UserPromptSubmit"@ || event == "Stop"@
}

/// Whether an event has nothing that a matcher could match.
pub fn ignores_matchers(point: &str) -> (r: bool)
    ensures
        r == matcherless(point@),
{
    str_eq(point, "UserPromptSubmit") || str_eq(point, "Stop")
}

// ---------------------------------------------------------------------------
// Substitution
// ---------------------------------------------------------------------------
/// A command with the plugin root and then the project directory filled in,
/// each as far as it is known.
pub open spec fn substituted(
    command: Seq<char>,
    plugin_root: Option<Seq<char>>,
    project_dir: Option<Seq<char>>,
) -> Seq<char> {
    let a = match plugin_root {
        Some(root) => replace(command, "${CLAUDE_PLUGIN_ROOT}"@, root),
        None => command,
    };
    match project_dir {
        Some(dir) => replace(a, "${CLAUDE_PROJECT_DIR}"@, dir),
        None => a,
    }
}

/// Fills in the plugin root and the project directory of a command.
pub fn substitute_command(
    command: &str,
    plugin_root: Option<&str>,
    project_dir: Option<&str>,
) -> (r: String)
    ensures
        r@ == substituted(command@, opt_str(plugin_root), opt_str(project_dir)),
{
    let mut out = owned(command);
    if let Some(root) = plugin_root {
        out = replace_str(out.as_str(), "${CLAUDE_PLUGIN_ROOT}", root);
    }
    if let Some(dir) = project_dir {
        out = replace_str(out.as_str(), "${CLAUDE_PROJECT_DIR}", dir);
    }
    out
}

// ---------------------------------------------------------------------------
// What a document means
// ---------------------------------------------------------------------------
/// What one hook entry of a group comes to.
#[verifier::ext_equal]
pub enum HookEntry {
    /// Not a hook: dropped silently.
    Malformed,
    /// A hook that cannot run.
    Skipped(Seq<char>),
    /// A hook that runs.
    Command(CommandValue),
}

/// The variables that commands are filled with.
#[verifier::ext_equal]
pub struct Variables {
    pub plugin_root: Option<Seq<char>>,
    pub project_dir: Option<Seq<char>>,
}

/// The type of a hook entry; `command` where it states none.
pub open spec fn hook_type(j: JsonValue) -> Seq<char> {
    match j.field("type"@).as_text() {
        Some(t) => t,
        None => "command"@,
    }
}

/// The timeout that a hook entry states. Codex takes `timeoutSec` where there
/// is no `timeout`.
pub open spec fn hook_timeout(d: BridgeDialect, j: JsonValue) -> Option<Number> {
    let stated = match j.get("timeout"@) {
        Some(t) => Some(t),
        None => if d == BridgeDialect::Codex {
            j.get("timeoutSec"@)
        } else {
            None
        },
    };
    match stated {
        Some(t) => t.as_number(),
        None => None,
    }
}

/// What one hook entry comes to.
pub open spec fn hook_entry(d: BridgeDialect, j: JsonValue, vars: Variables) -> HookEntry {
    if j.members() is None {
        HookEntry::Malformed
    } else if hook_type(j) != "command"@ {
        HookEntry::Skipped(
            "unsupported \""@ + hook_type(j) + "\" hook (only command hooks run)"@,
        )
    } else if d == BridgeDialect::Codex && j.field("async"@).as_flag() == Some(true) {
        HookEntry::Skipped("async hook"@)
    } else {
        match j.field("command"@).as_text() {
            None => HookEntry::Malformed,
            Some(c) => HookEntry::Command(
                CommandValue {
                    command: if d == BridgeDialect::ClaudeCode {
                        substituted(c, vars.plugin_root, vars.project_dir)
                    } else {
                        c
                    },
                    timeout_sec: hook_timeout(d, j),
                },
            ),
        }
    }
}

/// The commands among hook entries, in order.
pub open spec fn commands(d: BridgeDialect, items: Seq<JsonValue>, vars: Variables) -> Seq<
    CommandValue,
>
    decreases items.len(),
{
    if items.len() == 0 {
        Seq::empty()
    } else {
        let init = commands(d, items.drop_last(), vars);
        match hook_entry(d, items.last(), vars) {
            HookEntry::Command(c) => init.push(c),
            _ => init,
        }
    }
}

/// The skipped hooks among hook entries, in order.
pub open spec fn skips(
    d: BridgeDialect,
    event: Seq<char>,
    items: Seq<JsonValue>,
    vars: Variables,
) -> Seq<SkippedValue>
    decreases items.len(),
{
    if items.len() == 0 {
        Seq::empty()
    } else {
        let init = skips(d, event, items.drop_last(), vars);
        match hook_entry(d, items.last(), vars) {
            HookEntry::Skipped(reason) => init.push(SkippedValue { event, reason }),
            _ => init,
        }
    }
}

/// The hook entries of a group; none where it is malformed.
pub open spec fn group_items(j: JsonValue) -> Seq<JsonValue> {
    match j.field("hooks"@).as_items() {
        Some(v) => v,
        None => Seq::empty(),
    }
}

/// The group that an entry of an event comes to: one with at least one
/// command.
pub open spec fn group_of(
    d: BridgeDialect,
    event: Seq<char>,
    j: JsonValue,
    vars: Variables,
) -> Option<GroupValue> {
    let hooks = commands(d, group_items(j), vars);
    if hooks.len() == 0 {
        None
    } else {
        Some(
            GroupValue {
                matcher: if matcherless(event) {
                    None
                } else {
                    j.field("matcher"@).as_text()
                },
                hooks,
            },
        )
    }
}

/// The groups of an event, in order.
pub open spec fn groups(
    d: BridgeDialect,
    event: Seq<char>,
    items: Seq<JsonValue>,
    vars: Variables,
) -> Seq<GroupValue>
    decreases items.len(),
{
    if items.len() == 0 {
        Seq::empty()
    } else {
        let init = groups(d, event, items.drop_last(), vars);
        match group_of(d, event, items.last(), vars) {
            Some(g) => init.push(g),
            None => init,
        }
    }
}

/// The skipped hooks of an event, in order.
pub open spec fn event_skips(
    d: BridgeDialect,
    event: Seq<char>,
    items: Seq<JsonValue>,
    vars: Variables,
) -> Seq<SkippedValue>
    decreases items.len(),
{
    if items.len() == 0 {
        Seq::empty()
    } else {
        event_skips(d, event, items.drop_last(), vars) + skips(
            d,
            event,
            group_items(items.last()),
            vars,
        )
    }
}

/// The entries of an event in an event map.
pub open spec fn event_items(map: Seq<(Seq<char>, JsonValue)>, event: Seq<char>) -> Seq<JsonValue> {
    match lookup(map, event) {
        Some(JsonValue::Array(v)) => v,
        _ => Seq::empty(),
    }
}

/// The configuration that an event map holds for a list of events.
pub open spec fn config_of(
    d: BridgeDialect,
    map: Seq<(Seq<char>, JsonValue)>,
    events: Seq<Seq<char>>,
    vars: Variables,
) -> Seq<(Seq<char>, Seq<GroupValue>)>
    decreases events.len(),
{
    if events.len() == 0 {
        Seq::empty()
    } else {
        let init = config_of(d, map, events.drop_last(), vars);
        let g = groups(d, events.last(), event_items(map, events.last()), vars);
        if g.len() == 0 {
            init
        } else {
            init.push((events.last(), g))
        }
    }
}

/// The skipped hooks that an event map holds for a list of events.
pub open spec fn skipped_of(
    d: BridgeDialect,
    map: Seq<(Seq<char>, JsonValue)>,
    events: Seq<Seq<char>>,
    vars: Variables,
) -> Seq<SkippedValue>
    decreases events.len(),
{
    if events.len() == 0 {
        Seq::empty()
    } else {
        skipped_of(d, map, events.drop_last(), vars) + event_skips(
            d,
            events.last(),
            event_items(map, events.last()),
            vars,
        )
    }
}

/// The diagnostic of a matcher.
pub open spec fn diagnostic_of(
    table: Seq<(Seq<char>, Seq<char>)>,
    matcher: Option<Seq<char>>,
) -> Option<Seq<char>>
    decreases table.len(),
{
    if matcher is None || table.len() == 0 {
        None
    } else if table[0].0 == matcher->0 {
        Some(table[0].1)
    } else {
        diagnostic_of(table.drop_first(), matcher)
    }
}

/// The diagnostic of the first group whose matcher has one.
pub open spec fn first_diagnostic(
    table: Seq<(Seq<char>, Seq<char>)>,
    g: Seq<GroupValue>,
) -> Option<Seq<char>>
    decreases g.len(),
{
    if g.len() == 0 {
        None
    } else if first_diagnostic(table, g.drop_last()) is Some {
        first_diagnostic(table, g.drop_last())
    } else {
        diagnostic_of(table, g.last().matcher)
    }
}

/// Why an event map is rejected: the first diagnosed matcher of a group that
/// could run, with its event.
pub open spec fn rejection(
    d: BridgeDialect,
    map: Seq<(Seq<char>, JsonValue)>,
    events: Seq<Seq<char>>,
    vars: Variables,
    table: Seq<(Seq<char>, Seq<char>)>,
) -> Option<Seq<char>>
    decreases events.len(),
{
    if events.len() == 0 {
        None
    } else if rejection(d, map, events.drop_last(), vars, table) is Some {
        rejection(d, map, events.drop_last(), vars, table)
    } else {
        match first_diagnostic(
            table,
            groups(d, events.last(), event_items(map, events.last()), vars),
        ) {
            Some(text) => Some(text + " on event \""@ + events.last() + "\""@),
            None => None,
        }
    }
}

/// The event map of a document: its `hooks` member where that is an object,
/// else the document itself.
pub open spec fn event_map(raw: JsonValue) -> Seq<(Seq<char>, JsonValue)> {
    match raw.members() {
        None => Seq::empty(),
        Some(root) => match raw.field("hooks"@).members() {
            Some(m) => m,
            None => root,
        },
    }
}

/// What a document parses to.
pub open spec fn parsed(
    d: BridgeDialect,
    raw: JsonValue,
    vars: Variables,
    table: Seq<(Seq<char>, Seq<char>)>,
) -> Result<ParsedValue, Seq<char>> {
    let map = event_map(raw);
    match rejection(d, map, d.event_names(), vars, table) {
        Some(e) => Err(e),
        None => Ok(
            ParsedValue {
                config: config_of(d, map, d.event_names(), vars),
                skipped: skipped_of(d, map, d.event_names(), vars),
            },
        ),
    }
}

// ---------------------------------------------------------------------------
// Parsing
// ---------------------------------------------------------------------------
/// What one hook entry comes to, as it is read.
enum Entry {
    Malformed,
    Skipped(String),
    Command(CommandHook),
}

impl Entry {
    spec fn value(self) -> HookEntry {
        match self {
            Entry::Malformed => HookEntry::Malformed,
            Entry::Skipped(s) => HookEntry::Skipped(s@),
            Entry::Command(c) => HookEntry::Command(c@),
        }
    }
}

spec fn vars_of(plugin_root: Option<&str>, project_dir: Option<&str>) -> Variables {
    Variables { plugin_root: opt_str(plugin_root), project_dir: opt_str(project_dir) }
}

fn read_hook(
    dialect: BridgeDialect,
    raw: &Json,
    plugin_root: Option<&str>,
    project_dir: Option<&str>,
) -> (r: Entry)
    ensures
        r.value() == hook_entry(dialect, raw.value(), vars_of(plugin_root, project_dir)),
{
    if raw.as_object().is_none() {
        return Entry::Malformed;
    }
    let kind = match raw.text_at("type") {
        Some(t) => t,
        None => owned("command"),
    };
    if !str_eq(kind.as_str(), "command") {
        return Entry::Skipped(
            cat3("unsupported \"", kind.as_str(), "\" hook (only command hooks run)"),
        );
    }
    if dialect == BridgeDialect::Codex {
        if let Some(flag) = raw.get("async") {
            if let Some(true) = flag.as_bool() {
                return Entry::Skipped(owned("async hook"));
            }
        }
    }
    let command = match raw.text_at("command") {
        Some(c) => c,
        None => {
            return Entry::Malformed;
        },
    };
    let command = match dialect {
        BridgeDialect::ClaudeCode => substitute_command(
            command.as_str(),
            plugin_root,
            project_dir,
        ),
        BridgeDialect::Codex => command,
    };
    let stated = match raw.get("timeout") {
        Some(t) => Some(t),
        None => if dialect == BridgeDialect::Codex {
            raw.get("timeoutSec")
        } else {
            None
        },
    };
    let timeout_sec = match stated {
        Some(t) => t.as_number(),
        None => None,
    };
    Entry::Command(CommandHook { command, timeout_sec })
}

fn read_hooks(
    dialect: BridgeDialect,
    event: &str,
    raw_hooks: &Vec<Json>,
    plugin_root: Option<&str>,
    project_dir: Option<&str>,
    skipped: &mut Vec<SkippedHook>,
) -> (r: Vec<CommandHook>)
    ensures
        command_values(r@) == commands(
            dialect,
            values(raw_hooks@),
            vars_of(plugin_root, project_dir),
        ),
        skipped_values(final(skipped)@) == skipped_values(old(skipped)@) + skips(
            dialect,
            event@,
            values(raw_hooks@),
            vars_of(plugin_root, project_dir),
        ),
{
    let ghost items = values(raw_hooks@);
    let ghost vars = vars_of(plugin_root, project_dir);
    let mut out: Vec<CommandHook> = Vec::new();
    let mut i: usize = 0;
    proof {
        assert(items.take(0) =~= Seq::<JsonValue>::empty());
        assert(command_values(out@) =~= Seq::<CommandValue>::empty());
        assert(skipped_values(skipped@) + Seq::<SkippedValue>::empty() =~= skipped_values(
            skipped@,
        ));
    }
    while i < raw_hooks.len()
        invariant
            items == values(raw_hooks@),
            vars == vars_of(plugin_root, project_dir),
            i <= raw_hooks@.len(),
            command_values(out@) == commands(dialect, items.take(i as int), vars),
            skipped_values(skipped@) == skipped_values(old(skipped)@) + skips(
                dialect,
                event@,
                items.take(i as int),
                vars,
            ),
        decreases raw_hooks@.len() - i,
    {
        let ghost before = out@;
        let ghost before_skipped = skipped@;
        proof {
            assert(items.take(i + 1).drop_last() =~= items.take(i as int));
            assert(items.take(i + 1).last() == raw_hooks@[i as int].value());
        }
        match read_hook(dialect, &raw_hooks[i], plugin_root, project_dir) {
            Entry::Malformed => {},
            Entry::Skipped(reason) => {
                let s = SkippedHook { event: owned(event), reason };
                skipped.push(s);
                assert(skipped_values(skipped@) =~= skipped_values(before_skipped).push(s@));
                assert(skipped_values(skipped@) =~= skipped_values(old(skipped)@) + skips(
                    dialect,
                    event@,
                    items.take(i + 1),
                    vars,
                ));
            },
            Entry::Command(c) => {
                out.push(c);
                assert(command_values(out@) =~= command_values(before).push(c@));
            },
        }
        i = i + 1;
    }
    assert(items.take(i as int) =~= items);
    out
}

fn read_groups(
    dialect: BridgeDialect,
    event: &str,
    raw_groups: &Vec<Json>,
    plugin_root: Option<&str>,
    project_dir: Option<&str>,
    skipped: &mut Vec<SkippedHook>,
) -> (r: Vec<MatcherGroup>)
    ensures
        group_values(r@) == groups(
            dialect,
            event@,
            values(raw_groups@),
            vars_of(plugin_root, project_dir),
        ),
        skipped_values(final(skipped)@) == skipped_values(old(skipped)@) + event_skips(
            dialect,
            event@,
            values(raw_groups@),
            vars_of(plugin_root, project_dir),
        ),
{
    let ghost items = values(raw_groups@);
    let ghost vars = vars_of(plugin_root, project_dir);
    let mut out: Vec<MatcherGroup> = Vec::new();
    let mut i: usize = 0;
    proof {
        assert(items.take(0) =~= Seq::<JsonValue>::empty());
        assert(group_values(out@) =~= Seq::<GroupValue>::empty());
        assert(skipped_values(skipped@) + Seq::<SkippedValue>::empty() =~= skipped_values(
            skipped@,
        ));
    }
    while i < raw_groups.len()
        invariant
            items == values(raw_groups@),
            vars == vars_of(plugin_root, project_dir),
            i <= raw_groups@.len(),
            group_values(out@) == groups(dialect, event@, items.take(i as int), vars),
            skipped_values(skipped@) == skipped_values(old(skipped)@) + event_skips(
                dialect,
                event@,
                items.take(i as int),
                vars,
            ),
        decreases raw_groups@.len() - i,
    {
        let ghost before = out@;
        let ghost before_skipped = skipped@;
        let raw_group = &raw_groups[i];
        proof {
            assert(items.take(i + 1).drop_last() =~= items.take(i as int));
            assert(items.take(i + 1).last() == raw_group.value());
        }
        match raw_group.items_at("hooks") {
            None => {
                assert(group_items(raw_group.value()) =~= Seq::<JsonValue>::empty());
                assert(event_skips(dialect, event@, items.take(i + 1), vars) =~= event_skips(
                    dialect,
                    event@,
                    items.take(i as int),
                    vars,
                ));
            },
            Some(raw_hooks) => {
                let hooks = read_hooks(
                    dialect,
                    event,
                    raw_hooks,
                    plugin_root,
                    project_dir,
                    skipped,
                );
                assert(skipped_values(skipped@) =~= skipped_values(old(skipped)@) + event_skips(
                    dialect,
                    event@,
                    items.take(i + 1),
                    vars,
                ));
                assert(command_values(hooks@).len() == hooks@.len());
                if hooks.len() > 0 {
                    let matcher = if ignores_matchers(event) {
                        None
                    } else {
                        raw_group.text_at("matcher")
                    };
                    let g = MatcherGroup { matcher, hooks };
                    out.push(g);
                    assert(group_values(out@) =~= group_values(before).push(g@));
                }
            },
        }
        i = i + 1;
    }
    assert(items.take(i as int) =~= items);
    out
}

impl MatcherDiagnostics {
    /// The diagnostic of a matcher.
    pub fn diagnostic(&self, matcher: &Option<String>) -> (r: Option<String>)
        ensures
            opt_view(r) == diagnostic_of(self@, opt_view(*matcher)),
    {
        let m = match matcher {
            Some(m) => m,
            None => {
                return None;
            },
        };
        let mut i: usize = 0;
        assert(self@.skip(0) =~= self@);
        while i < self.entries.len()
            invariant
                opt_view(*matcher) == Some(m@),
                i <= self.entries@.len(),
                diagnostic_of(self@, Some(m@)) == diagnostic_of(self@.skip(i as int), Some(m@)),
            decreases self.entries@.len() - i,
        {
            assert(self@.skip(i as int)[0]
                == (self.entries@[i as int].0@, self.entries@[i as int].1@));
            if str_eq(self.entries[i].0.as_str(), m.as_str()) {
                return Some(self.entries[i].1.clone());
            }
            assert(self@.skip(i as int).drop_first() =~= self@.skip(i + 1));
            i = i + 1;
        }
        assert(self@.skip(i as int).len() == 0);
        None
    }

    /// The diagnostic of the first group whose matcher has one.
    fn first(&self, g: &Vec<MatcherGroup>) -> (r: Option<String>)
        ensures
            opt_view(r) == first_diagnostic(self@, group_values(g@)),
    {
        let ghost gv = group_values(g@);
        let mut i: usize = 0;
        assert(gv.take(0) =~= Seq::<GroupValue>::empty());
        while i < g.len()
            invariant
                gv == group_values(g@),
                i <= g@.len(),
                first_diagnostic(self@, gv.take(i as int)) is None,
            decreases g@.len() - i,
        {
            proof {
                assert(gv.take(i + 1).drop_last() =~= gv.take(i as int));
                assert(gv.take(i + 1).last() == g@[i as int]@);
            }
            let d = self.diagnostic(&g[i].matcher);
            if d.is_some() {
                proof {
                    lemma_diagnostic_stays(self@, gv, i + 1);
                }
                return d;
            }
            i = i + 1;
        }
        assert(gv.take(i as int) =~= gv);
        None
    }
}

proof fn lemma_diagnostic_stays(
    table: Seq<(Seq<char>, Seq<char>)>,
    g: Seq<GroupValue>,
    k: int,
)
    requires
        0 <= k <= g.len(),
        first_diagnostic(table, g.take(k)) is Some,
    ensures
        first_diagnostic(table, g) == first_diagnostic(table, g.take(k)),
    decreases g.len() - k,
{
    if k == g.len() {
        assert(g.take(k) =~= g);
    } else {
        assert(g.take(k + 1).drop_last() =~= g.take(k));
        lemma_diagnostic_stays(table, g, k + 1);
    }
}

proof fn lemma_rejection_stays(
    d: BridgeDialect,
    map: Seq<(Seq<char>, JsonValue)>,
    events: Seq<Seq<char>>,
    vars: Variables,
    table: Seq<(Seq<char>, Seq<char>)>,
    k: int,
)
    requires
        0 <= k <= events.len(),
        rejection(d, map, events.take(k), vars, table) is Some,
    ensures
        rejection(d, map, events, vars, table) == rejection(d, map, events.take(k), vars, table),
    decreases events.len() - k,
{
    if k == events.len() {
        assert(events.take(k) =~= events);
    } else {
        assert(events.take(k + 1).drop_last() =~= events.take(k));
        lemma_rejection_stays(d, map, events, vars, table, k + 1);
    }
}

proof fn lemma_empty_map(
    d: BridgeDialect,
    events: Seq<Seq<char>>,
    vars: Variables,
    table: Seq<(Seq<char>, Seq<char>)>,
)
    ensures
        rejection(d, Seq::empty(), events, vars, table) is None,
        config_of(d, Seq::empty(), events, vars) == Seq::<(Seq<char>, Seq<GroupValue>)>::empty(),
        skipped_of(d, Seq::empty(), events, vars) == Seq::<SkippedValue>::empty(),
    decreases events.len(),
{
    if events.len() > 0 {
        lemma_empty_map(d, events.drop_last(), vars, table);
        assert(event_items(Seq::empty(), events.last()) =~= Seq::<JsonValue>::empty());
    }
}

/// Parses a hook document.
///
/// `diagnostics` holds the matchers of the document that are not valid in the
/// dialect's [`MatcherMode`].
pub fn parse_hook_config(
    dialect: BridgeDialect,
    raw: &Json,
    plugin_root: Option<&str>,
    project_dir: Option<&str>,
    diagnostics: &MatcherDiagnostics,
) -> (r: Result<ParsedConfig, String>)
    ensures
        match r {
            Ok(p) => parsed(
                dialect,
                raw.value(),
                (Variables {
                    plugin_root: opt_str(plugin_root),
                    project_dir: opt_str(project_dir),
                }),
                diagnostics@,
            ) == Ok::<ParsedValue, Seq<char>>(p@),
            Err(e) => parsed(
                dialect,
                raw.value(),
                (Variables {
                    plugin_root: opt_str(plugin_root),
                    project_dir: opt_str(project_dir),
                }),
                diagnostics@,
            ) == Err::<ParsedValue, Seq<char>>(e@),
        },
{
    let ghost vars = vars_of(plugin_root, project_dir);
    let ghost map = event_map(raw.value());
    let mut entries: Vec<(String, Vec<MatcherGroup>)> = Vec::new();
    let mut skipped: Vec<SkippedHook> = Vec::new();
    let root = match raw.as_object() {
        Some(root) => root,
        None => {
            proof {
                lemma_empty_map(dialect, dialect.event_names(), vars, diagnostics@);
                assert(entry_values(entries@) =~= Seq::<(Seq<char>, Seq<GroupValue>)>::empty());
                assert(skipped_values(skipped@) =~= Seq::<SkippedValue>::empty());
            }
            return Ok(ParsedConfig { config: HookConfig { entries }, skipped });
        },
    };
    let hooks_map = match get_member(root, "hooks") {
        Some(inner) => match inner.as_object() {
            Some(m) => m,
            None => root,
        },
        None => root,
    };
    assert(member_values(hooks_map@) == map);
    let events = dialect.events();
    let ghost names = dialect.event_names();
    let mut i: usize = 0;
    proof {
        assert(names.take(0) =~= Seq::<Seq<char>>::empty());
        assert(entry_values(entries@) =~= Seq::<(Seq<char>, Seq<GroupValue>)>::empty());
        assert(skipped_values(skipped@) =~= Seq::<SkippedValue>::empty());
    }
    while i < events.len()
        invariant
            vars == vars_of(plugin_root, project_dir),
            map == event_map(raw.value()),
            member_values(hooks_map@) == map,
            names == dialect.event_names(),
            events@.map_values(|s: &str| s@) == names,
            i <= events@.len(),
            entry_values(entries@) == config_of(dialect, map, names.take(i as int), vars),
            skipped_values(skipped@) == skipped_of(dialect, map, names.take(i as int), vars),
            rejection(dialect, map, names.take(i as int), vars, diagnostics@) is None,
        decreases events@.len() - i,
    {
        let event = events[i];
        proof {
            assert(names[i as int] == event@);
            assert(names.take(i + 1).drop_last() =~= names.take(i as int));
            assert(names.take(i + 1).last() == event@);
        }
        let ghost before = entries@;
        let mut found = false;
        match get_member(hooks_map, event) {
            Some(raw_event) => match raw_event.as_array() {
                Some(raw_groups) => {
                    found = true;
                    let g = read_groups(
                        dialect,
                        event,
                        raw_groups,
                        plugin_root,
                        project_dir,
                        &mut skipped,
                    );
                    match diagnostics.first(&g) {
                        Some(d) => {
                            proof {
                                lemma_rejection_stays(
                                    dialect,
                                    map,
                                    names,
                                    vars,
                                    diagnostics@,
                                    i + 1,
                                );
                            }
                            return Err(cat4(d.as_str(), " on event \"", event, "\""));
                        },
                        None => {},
                    }
                    assert(group_values(g@).len() == g@.len());
                    if g.len() > 0 {
                        entries.push((owned(event), g));
                        assert(entry_values(entries@) =~= entry_values(before).push(
                            (event@, group_values(g@)),
                        ));
                    }
                },
                None => {},
            },
            None => {},
        }
        proof {
            if !found {
                assert(event_items(map, event@) =~= Seq::<JsonValue>::empty());
                assert(skipped_of(dialect, map, names.take(i + 1), vars) =~= skipped_of(
                    dialect,
                    map,
                    names.take(i as int),
                    vars,
                ));
            }
        }
        i = i + 1;
    }
    assert(names.take(i as int) =~= names);
    Ok(ParsedConfig { config: HookConfig { entries }, skipped })
}

/// Parses a hook document in the dialect of [`BridgeDialect::ClaudeCode`].
pub fn parse_claude_code_config(
    raw: &Json,
    plugin_root: Option<&str>,
    project_dir: Option<&str>,
    diagnostics: &MatcherDiagnostics,
) -> (r: Result<ParsedConfig, String>)
    ensures
        match r {
            Ok(p) => parsed(
                BridgeDialect::ClaudeCode,
                raw.value(),
                (Variables {
                    plugin_root: opt_str(plugin_root),
                    project_dir: opt_str(project_dir),
                }),
                diagnostics@,
            ) == Ok::<ParsedValue, Seq<char>>(p@),
            Err(e) => parsed(
                BridgeDialect::ClaudeCode,
                raw.value(),
                (Variables {
                    plugin_root: opt_str(plugin_root),
                    project_dir: opt_str(project_dir),
                }),
                diagnostics@,
            ) == Err::<ParsedValue, Seq<char>>(e@),
        },
{
    parse_hook_config(BridgeDialect::ClaudeCode, raw, plugin_root, project_dir, diagnostics)
}

/// Parses a hook document of Codex.
pub fn parse_codex_config(raw: &Json, diagnostics: &MatcherDiagnostics) -> (r: Result<
    ParsedConfig,
    String,
>)
    ensures
        match r {
            Ok(p) => parsed(
                BridgeDialect::Codex,
                raw.value(),
                (Variables { plugin_root: None, project_dir: None }),
                diagnostics@,
            ) == Ok::<ParsedValue, Seq<char>>(p@),
            Err(e) => parsed(
                BridgeDialect::Codex,
                raw.value(),
                (Variables { plugin_root: None, project_dir: None }),
                diagnostics@,
            ) == Err::<ParsedValue, Seq<char>>(e@),
        },
{
    parse_hook_config(BridgeDialect::Codex, raw, None, None, diagnostics)
}

// ---------------------------------------------------------------------------
// Reading a configuration
// ---------------------------------------------------------------------------
/// The groups of an event in a configuration.
pub open spec fn groups_for(
    config: Seq<(Seq<char>, Seq<GroupValue>)>,
    event: Seq<char>,
) -> Option<Seq<GroupValue>>
    decreases config.len(),
{
    if config.len() == 0 {
        None
    } else if config[0].0 == event {
        Some(config[0].1)
    } else {
        groups_for(config.drop_first(), event)
    }
}

/// The matchers of a list of groups, in order.
pub open spec fn matchers_in(g: Seq<GroupValue>) -> Seq<Seq<char>>
    decreases g.len(),
{
    if g.len() == 0 {
        Seq::empty()
    } else {
        match g.last().matcher {
            Some(m) => matchers_in(g.drop_last()).push(m),
            None => matchers_in(g.drop_last()),
        }
    }
}

/// The matchers of a configuration, in order.
pub open spec fn matchers_of(config: Seq<(Seq<char>, Seq<GroupValue>)>) -> Seq<Seq<char>>
    decreases config.len(),
{
    if config.len() == 0 {
        Seq::empty()
    } else {
        matchers_of(config.drop_last()) + matchers_in(config.last().1)
    }
}

impl HookConfig {
    /// The groups of an event.
    pub fn get(&self, event: &str) -> (r: Option<&Vec<MatcherGroup>>)
        ensures
            match r {
                Some(g) => groups_for(self@, event@) == Some(group_values(g@)),
                None => groups_for(self@, event@) is None,
            },
    {
        let mut i: usize = 0;
        assert(self@.skip(0) =~= self@);
        while i < self.entries.len()
            invariant
                i <= self.entries@.len(),
                groups_for(self@, event@) == groups_for(self@.skip(i as int), event@),
            decreases self.entries@.len() - i,
        {
            assert(self@.skip(i as int)[0] == self@[i as int]);
            if str_eq(self.entries[i].0.as_str(), event) {
                return Some(&self.entries[i].1);
            }
            assert(self@.skip(i as int).drop_first() =~= self@.skip(i + 1));
            i = i + 1;
        }
        assert(self@.skip(i as int).len() == 0);
        None
    }

    /// The matchers that a matcher engine has to judge, in order.
    pub fn matchers(&self) -> (r: Vec<String>)
        ensures
            views(r@) == matchers_of(self@),
    {
        let mut out: Vec<String> = Vec::new();
        let mut i: usize = 0;
        assert(self@.take(0) =~= Seq::<(Seq<char>, Seq<GroupValue>)>::empty());
        assert(views(out@) =~= Seq::<Seq<char>>::empty());
        while i < self.entries.len()
            invariant
                i <= self.entries@.len(),
                views(out@) == matchers_of(self@.take(i as int)),
            decreases self.entries@.len() - i,
        {
            let g = &self.entries[i].1;
            let ghost gv = group_values(g@);
            let ghost base = views(out@);
            assert(self@.take(i + 1).drop_last() =~= self@.take(i as int));
            assert(self@.take(i + 1).last() == self@[i as int]);
            let mut k: usize = 0;
            assert(gv.take(0) =~= Seq::<GroupValue>::empty());
            assert(base + matchers_in(gv.take(0)) =~= base);
            while k < g.len()
                invariant
                    gv == group_values(g@),
                    k <= g@.len(),
                    views(out@) == base + matchers_in(gv.take(k as int)),
                decreases g@.len() - k,
            {
                let ghost before = out@;
                assert(gv.take(k + 1).drop_last() =~= gv.take(k as int));
                assert(gv.take(k + 1).last() == g@[k as int]@);
                match &g[k].matcher {
                    Some(m) => {
                        out.push(m.clone());
                        assert(views(out@) =~= views(before).push(m@));
                        assert(views(out@) =~= base + matchers_in(gv.take(k + 1)));
                    },
                    None => {},
                }
                k = k + 1;
            }
            assert(gv.take(k as int) =~= gv);
            i = i + 1;
        }
        assert(self@.take(i as int) =~= self@);
        out
    }
}

// ---------------------------------------------------------------------------
// Laws
// ---------------------------------------------------------------------------
/// A bare event map and the same map under `hooks` parse to the same result.
pub proof fn law_bare_equals_wrapped(
    d: BridgeDialect,
    bare: Seq<(Seq<char>, JsonValue)>,
    vars: Variables,
    table: Seq<(Seq<char>, Seq<char>)>,
)
    requires
        JsonValue::Object(bare).field("hooks"@).members() is None,
    ensures
        parsed(d, JsonValue::Object(bare), vars, table) == parsed(
            d,
            JsonValue::Object(seq![("hooks"@, JsonValue::Object(bare))]),
            vars,
            table,
        ),
{
    let wrapped = seq![("hooks"@, JsonValue::Object(bare))];
    assert(lookup(wrapped, "hooks"@) == Some(JsonValue::Object(bare)));
}

/// Every entry of a parsed configuration belongs to an event of the dialect,
/// has at least one group, and each of its groups has at least one command;
/// no event has two entries.
pub proof fn law_config_is_normal(
    d: BridgeDialect,
    raw: JsonValue,
    vars: Variables,
    table: Seq<(Seq<char>, Seq<char>)>,
)
    ensures
        parsed(d, raw, vars, table) matches Ok(p) ==> {
            &&& forall|i: int|
                0 <= i < p.config.len() ==> {
                    &&& d.event_names().contains((#[trigger] p.config[i]).0)
                    &&& p.config[i].1.len() > 0
                    &&& forall|k: int|
                        0 <= k < p.config[i].1.len() ==> (#[trigger] p.config[i].1[k]).hooks.len()
                            > 0
                }
            &&& forall|i: int, j: int|
                0 <= i < j < p.config.len() ==> (#[trigger] p.config[i]).0 != (
                #[trigger] p.config[j]).0
        },
{
    lemma_event_names_distinct(d);
    lemma_config_normal(d, event_map(raw), d.event_names(), vars);
}

proof fn lemma_event_names_distinct(d: BridgeDialect)
    ensures
        forall|i: int, j: int|
            0 <= i < j < d.event_names().len() ==> (#[trigger] d.event_names()[i]) != (
            #[trigger] d.event_names()[j]),
{
    reveal_strlit("SessionStart");
    reveal_strlit("UserPromptSubmit");
    reveal_strlit("PreToolUse");
    reveal_strlit("PostToolUse");
    reveal_strlit("Stop");
    reveal_strlit("SubagentStart");
    reveal_strlit("SubagentStop");
    assert("SessionStart"@.len() == 12 && "UserPromptSubmit"@.len() == 16 && "PreToolUse"@.len()
        == 10 && "PostToolUse"@.len() == 11 && "Stop"@.len() == 4 && "SubagentStart"@.len() == 13
        && "SubagentStop"@.len() == 12);
    assert("SessionStart"@[1] == 'e' && "SubagentStop"@[1] == 'u');
}

proof fn lemma_groups_nonempty(
    d: BridgeDialect,
    event: Seq<char>,
    items: Seq<JsonValue>,
    vars: Variables,
)
    ensures
        forall|k: int|
            0 <= k < groups(d, event, items, vars).len() ==> (#[trigger] groups(
                d,
                event,
                items,
                vars,
            )[k]).hooks.len() > 0,
        matcherless(event) ==> forall|k: int|
            0 <= k < groups(d, event, items, vars).len() ==> (#[trigger] groups(
                d,
                event,
                items,
                vars,
            )[k]).matcher is None,
    decreases items.len(),
{
    if items.len() > 0 {
        lemma_groups_nonempty(d, event, items.drop_last(), vars);
    }
}

proof fn lemma_config_normal(
    d: BridgeDialect,
    map: Seq<(Seq<char>, JsonValue)>,
    events: Seq<Seq<char>>,
    vars: Variables,
)
    requires
        forall|i: int, j: int|
            0 <= i < j < events.len() ==> (#[trigger] events[i]) != (#[trigger] events[j]),
    ensures
        ({
            let c = config_of(d, map, events, vars);
            &&& forall|i: int|
                0 <= i < c.len() ==> {
                    &&& events.contains((#[trigger] c[i]).0)
                    &&& c[i].1.len() > 0
                    &&& forall|k: int| 0 <= k < c[i].1.len()
                        ==> (#[trigger] c[i].1[k]).hooks.len() > 0
                }
            &&& forall|i: int|
                0 <= i < c.len() ==> c[i].1 == groups(
                    d,
                    (#[trigger] c[i]).0,
                    event_items(map, c[i].0),
                    vars,
                )
            &&& forall|i: int, j: int|
                0 <= i < j < c.len() ==> (#[trigger] c[i]).0 != (#[trigger] c[j]).0
        }),
    decreases events.len(),
{
    if events.len() > 0 {
        let init = events.drop_last();
        lemma_config_normal(d, map, init, vars);
        lemma_groups_nonempty(d, events.last(), event_items(map, events.last()), vars);
        let ci = config_of(d, map, init, vars);
        let c = config_of(d, map, events, vars);
        assert(events.last() == events[events.len() - 1]);
        assert forall|i: int| 0 <= i < ci.len() implies events.contains(
            (#[trigger] ci[i]).0,
        ) && ci[i].0 != events.last() by {
            let w = choose|w: int| 0 <= w < init.len() && init[w] == ci[i].0;
            assert(events[w] == init[w]);
        }
        assert forall|i: int| 0 <= i < c.len() implies {
            &&& events.contains((#[trigger] c[i]).0)
            &&& c[i].1.len() > 0
            &&& forall|k: int| 0 <= k < c[i].1.len() ==> (#[trigger] c[i].1[k]).hooks.len() > 0
        } by {
            if i < ci.len() {
                assert(c[i] == ci[i]);
            }
        }
        assert forall|i: int, j: int| 0 <= i < j < c.len() implies (#[trigger] c[i]).0 != (
        #[trigger] c[j]).0 by {
            assert(c[i] == ci[i]);
            if j < ci.len() {
                assert(c[j] == ci[j]);
            }
        }
    }
}

/// The groups of an event without a matcher subject carry no matcher, so a
/// bad matcher there rejects nothing.
pub proof fn law_matcherless_events_drop_matchers(
    d: BridgeDialect,
    event: Seq<char>,
    items: Seq<JsonValue>,
    vars: Variables,
    table: Seq<(Seq<char>, Seq<char>)>,
)
    requires
        matcherless(event),
    ensures
        forall|k: int|
            0 <= k < groups(d, event, items, vars).len() ==> (#[trigger] groups(
                d,
                event,
                items,
                vars,
            )[k]).matcher is None,
        first_diagnostic(table, groups(d, event, items, vars)) is None,
{
    lemma_groups_nonempty(d, event, items, vars);
    lemma_no_matcher_no_diagnostic(table, groups(d, event, items, vars));
}

proof fn lemma_no_matcher_no_diagnostic(
    table: Seq<(Seq<char>, Seq<char>)>,
    g: Seq<GroupValue>,
)
    requires
        forall|k: int| 0 <= k < g.len() ==> (#[trigger] g[k]).matcher is None,
    ensures
        first_diagnostic(table, g) is None,
    decreases g.len(),
{
    if g.len() > 0 {
        lemma_no_matcher_no_diagnostic(table, g.drop_last());
        assert(g[g.len() - 1].matcher is None);
    }
}

/// Members of a document under other names than the dialect's events change
/// nothing: two event maps that agree on those events parse alike.
pub proof fn law_unsupported_events_are_ignored(
    d: BridgeDialect,
    a: Seq<(Seq<char>, JsonValue)>,
    b: Seq<(Seq<char>, JsonValue)>,
    vars: Variables,
    table: Seq<(Seq<char>, Seq<char>)>,
)
    requires
        JsonValue::Object(a).field("hooks"@).members() is None,
        JsonValue::Object(b).field("hooks"@).members() is None,
        forall|i: int|
            0 <= i < d.event_names().len() ==> lookup(a, #[trigger] d.event_names()[i]) == lookup(
                b,
                d.event_names()[i],
            ),
    ensures
        parsed(d, JsonValue::Object(a), vars, table)
            == parsed(d, JsonValue::Object(b), vars, table),
{
    lemma_agree(d, a, b, d.event_names(), vars, table);
}

proof fn lemma_agree(
    d: BridgeDialect,
    a: Seq<(Seq<char>, JsonValue)>,
    b: Seq<(Seq<char>, JsonValue)>,
    events: Seq<Seq<char>>,
    vars: Variables,
    table: Seq<(Seq<char>, Seq<char>)>,
)
    requires
        forall|i: int|
            0 <= i < events.len() ==> lookup(a, #[trigger] events[i]) == lookup(b, events[i]),
    ensures
        config_of(d, a, events, vars) == config_of(d, b, events, vars),
        skipped_of(d, a, events, vars) == skipped_of(d, b, events, vars),
        rejection(d, a, events, vars, table) == rejection(d, b, events, vars, table),
    decreases events.len(),
{
    if events.len() > 0 {
        assert(lookup(a, events[events.len() - 1]) == lookup(b, events[events.len() - 1]));
        lemma_agree(d, a, b, events.drop_last(), vars, table);
    }
}

/// Where no matcher has a diagnostic, every document parses.
pub proof fn law_without_diagnostics_parsing_succeeds(
    d: BridgeDialect,
    raw: JsonValue,
    vars: Variables,
)
    ensures
        parsed(d, raw, vars, Seq::empty()) is Ok,
{
    lemma_no_rejection(d, event_map(raw), d.event_names(), vars);
}

proof fn lemma_no_rejection(
    d: BridgeDialect,
    map: Seq<(Seq<char>, JsonValue)>,
    events: Seq<Seq<char>>,
    vars: Variables,
)
    ensures
        rejection(d, map, events, vars, Seq::empty()) is None,
    decreases events.len(),
{
    if events.len() > 0 {
        lemma_no_rejection(d, map, events.drop_last(), vars);
        lemma_empty_table(groups(d, events.last(), event_items(map, events.last()), vars));
    }
}

proof fn lemma_empty_table(g: Seq<GroupValue>)
    ensures
        first_diagnostic(Seq::empty(), g) is None,
    decreases g.len(),
{
    if g.len() > 0 {
        lemma_empty_table(g.drop_last());
    }
}

/// Whether a dialect runs hooks at an event: the first one at seven events,
/// Codex at the five that it shares with it.
pub open spec fn runs_at(d: BridgeDialect, event: Seq<char>) -> bool {
    ||| event == "SessionStart"@
    ||| event == "UserPromptSubmit"@
    ||| event == "PreToolUse"@
    ||| event == "PostToolUse"@
    ||| event == "Stop"@
    ||| d == BridgeDialect::ClaudeCode && (event == "SubagentStart"@ || event == "SubagentStop"@)
}

/// The events of a dialect are those at which it runs hooks.
pub proof fn law_events_of_a_dialect(d: BridgeDialect, event: Seq<char>)
    ensures
        d.event_names().contains(event) <==> runs_at(d, event),
{
    let names = d.event_names();
    if d == BridgeDialect::ClaudeCode {
        assert(names[0] == "SessionStart"@ && names[1] == "UserPromptSubmit"@ && names[2]
            == "PreToolUse"@ && names[3] == "PostToolUse"@ && names[4] == "Stop"@ && names[5]
            == "SubagentStart"@ && names[6] == "SubagentStop"@);
    } else {
        assert(names[0] == "PreToolUse"@ && names[1] == "PostToolUse"@ && names[2]
            == "SessionStart"@ && names[3] == "UserPromptSubmit"@ && names[4] == "Stop"@);
    }
}

/// Members of one event only: that event has its groups and its skipped hooks,
/// and no other event has any.
proof fn lemma_one_event(
    d: BridgeDialect,
    event: Seq<char>,
    items: Seq<JsonValue>,
    events: Seq<Seq<char>>,
    vars: Variables,
    table: Seq<(Seq<char>, Seq<char>)>,
)
    requires
        forall|i: int, j: int|
            0 <= i < j < events.len() ==> (#[trigger] events[i]) != (#[trigger] events[j]),
    ensures
        ({
            let map = seq![(event, JsonValue::Array(items))];
            let g = groups(d, event, items, vars);
            &&& config_of(d, map, events, vars) == (if events.contains(event) && g.len() > 0 {
                seq![(event, g)]
            } else {
                Seq::empty()
            })
            &&& skipped_of(d, map, events, vars) == (if events.contains(event) {
                event_skips(d, event, items, vars)
            } else {
                Seq::empty()
            })
            &&& rejection(d, map, events, vars, table) == (if events.contains(event) {
                match first_diagnostic(table, g) {
                    Some(text) => Some(text + " on event \""@ + event + "\""@),
                    None => None,
                }
            } else {
                None
            })
        }),
    decreases events.len(),
{
    let map = seq![(event, JsonValue::Array(items))];
    if events.len() > 0 {
        let init = events.drop_last();
        let last = events.last();
        assert(events[events.len() - 1] == last);
        lemma_one_event(d, event, items, init, vars, table);
        if last == event {
            assert(!init.contains(event)) by {
                if init.contains(event) {
                    let w = choose|w: int| 0 <= w < init.len() && init[w] == event;
                    assert(events[w] == event);
                }
            }
            assert(lookup(map, last) == Some(JsonValue::Array(items)));
            assert(Seq::<SkippedValue>::empty() + event_skips(d, event, items, vars)
                =~= event_skips(d, event, items, vars));
            assert(Seq::<(Seq<char>, Seq<GroupValue>)>::empty().push(
                (event, groups(d, event, items, vars)),
            ) =~= seq![(event, groups(d, event, items, vars))]);
        } else {
            assert(map.drop_first().len() == 0);
            assert(lookup(map.drop_first(), last) is None);
            assert(lookup(map, last) is None);
            assert(event_items(map, last) =~= Seq::<JsonValue>::empty());
            assert(groups(d, last, Seq::empty(), vars).len() == 0);
            assert(first_diagnostic(table, groups(d, last, Seq::empty(), vars)) is None);
            assert(init.contains(event) == events.contains(event)) by {
                if init.contains(event) {
                    let w = choose|w: int| 0 <= w < init.len() && init[w] == event;
                    assert(events[w] == event);
                }
                if events.contains(event) {
                    let w = choose|w: int| 0 <= w < events.len() && events[w] == event;
                    assert(init[w] == event);
                }
            }
            assert(skipped_of(d, map, events, vars) =~= skipped_of(d, map, init, vars));
        }
    }
}

/// The document with one hook entry in one group of one event.
pub open spec fn one_hook(
    event: Seq<char>,
    group: Seq<(Seq<char>, JsonValue)>,
) -> JsonValue {
    JsonValue::Object(seq![(event, JsonValue::Array(seq![JsonValue::Object(group)]))])
}

proof fn lemma_one_hook(
    d: BridgeDialect,
    event: Seq<char>,
    group: Seq<(Seq<char>, JsonValue)>,
    hook: JsonValue,
    vars: Variables,
    table: Seq<(Seq<char>, Seq<char>)>,
)
    requires
        event != "hooks"@,
        lookup(group, "hooks"@) == Some(JsonValue::Array(seq![hook])),
    ensures
        ({
            let items = seq![JsonValue::Object(group)];
            let matcher = if matcherless(event) {
                None
            } else {
                JsonValue::Object(group).field("matcher"@).as_text()
            };
            let here = d.event_names().contains(event);
            &&& event_map(one_hook(event, group)) == seq![(event, JsonValue::Array(items))]
            &&& match hook_entry(d, hook, vars) {
                HookEntry::Command(c) => {
                    &&& groups(d, event, items, vars) == seq![
                        GroupValue { matcher, hooks: seq![c] },
                    ]
                    &&& event_skips(d, event, items, vars) == Seq::<SkippedValue>::empty()
                    &&& first_diagnostic(table, groups(d, event, items, vars)) == diagnostic_of(
                        table,
                        matcher,
                    )
                },
                HookEntry::Skipped(reason) => {
                    &&& groups(d, event, items, vars) == Seq::<GroupValue>::empty()
                    &&& event_skips(d, event, items, vars) == seq![SkippedValue { event, reason }]
                    &&& first_diagnostic(table, groups(d, event, items, vars)) is None
                },
                HookEntry::Malformed => {
                    &&& groups(d, event, items, vars) == Seq::<GroupValue>::empty()
                    &&& event_skips(d, event, items, vars) == Seq::<SkippedValue>::empty()
                    &&& first_diagnostic(table, groups(d, event, items, vars)) is None
                },
            }
        }),
{
    let j = JsonValue::Object(group);
    let items = seq![j];
    let hooks = seq![hook];
    assert(hooks.drop_last() =~= Seq::<JsonValue>::empty());
    assert(items.drop_last() =~= Seq::<JsonValue>::empty());
    assert(group_items(j) == hooks);
    let map = seq![(event, JsonValue::Array(items))];
    assert(lookup(map.drop_first(), "hooks"@) is None);
    assert(lookup(map, "hooks"@) is None);
    assert(event_map(one_hook(event, group)) == map);
    reveal_with_fuel(commands, 2);
    reveal_with_fuel(skips, 2);
    reveal_with_fuel(groups, 2);
    reveal_with_fuel(event_skips, 2);
    assert(skips(d, event, Seq::empty(), vars) =~= Seq::<SkippedValue>::empty());
    let g = groups(d, event, items, vars);
    match hook_entry(d, hook, vars) {
        HookEntry::Command(c) => {
            assert(commands(d, hooks, vars) =~= seq![c]);
            assert(g.len() == 1);
            assert(g.drop_last().len() == 0);
            assert(first_diagnostic(table, g.drop_last()) is None);
            let matcher = if matcherless(event) {
                None
            } else {
                j.field("matcher"@).as_text()
            };
            assert(g =~= seq![GroupValue { matcher, hooks: seq![c] }]);
            assert(event_skips(d, event, items, vars) =~= Seq::<SkippedValue>::empty());
        },
        HookEntry::Skipped(reason) => {
            assert(commands(d, hooks, vars).len() == 0);
            assert(event_skips(d, event, items, vars) =~= seq![SkippedValue { event, reason }]);
        },
        HookEntry::Malformed => {
            assert(commands(d, hooks, vars).len() == 0);
            assert(event_skips(d, event, items, vars) =~= Seq::<SkippedValue>::empty());
        },
    }
}

proof fn lemma_events_are_not_hooks(d: BridgeDialect, event: Seq<char>)
    requires
        runs_at(d, event),
    ensures
        event != "hooks"@,
{
    reveal_strlit("hooks");
    reveal_strlit("SessionStart");
    reveal_strlit("UserPromptSubmit");
    reveal_strlit("PreToolUse");
    reveal_strlit("PostToolUse");
    reveal_strlit("Stop");
    reveal_strlit("SubagentStart");
    reveal_strlit("SubagentStop");
    assert("hooks"@.len() == 5 && "SessionStart"@.len() == 12 && "UserPromptSubmit"@.len() == 16
        && "PreToolUse"@.len() == 10 && "PostToolUse"@.len() == 11 && "Stop"@.len() == 4
        && "SubagentStart"@.len() == 13 && "SubagentStop"@.len() == 12);
}

/// A command hook runs its command at its event, behind the matcher of its
/// group. The first dialect fills the plugin root and the project directory, as
/// far as they are given, into the command; Codex takes it as it is. The timeout is
/// the stated one, for Codex also under its other name. Prompts and stops have
/// no matcher.
pub proof fn law_a_command_hook_runs(
    d: BridgeDialect,
    event: Seq<char>,
    group: Seq<(Seq<char>, JsonValue)>,
    hook: Seq<(Seq<char>, JsonValue)>,
    command: Seq<char>,
    vars: Variables,
)
    requires
        runs_at(d, event),
        lookup(group, "hooks"@) == Some(JsonValue::Array(seq![JsonValue::Object(hook)])),
        lookup(hook, "type"@) is None || lookup(hook, "type"@) == Some(
            JsonValue::Str("command"@),
        ),
        d == BridgeDialect::Codex ==> lookup(hook, "async"@) != Some(JsonValue::Bool(true)),
        lookup(hook, "command"@) == Some(JsonValue::Str(command)),
    ensures
        ({
            let rooted = match vars.plugin_root {
                Some(root) => replace(command, "${CLAUDE_PLUGIN_ROOT}"@, root),
                None => command,
            };
            let filled = match vars.project_dir {
                Some(dir) => replace(rooted, "${CLAUDE_PROJECT_DIR}"@, dir),
                None => rooted,
            };
            let run = CommandValue {
                command: if d == BridgeDialect::ClaudeCode {
                    filled
                } else {
                    command
                },
                timeout_sec: match (lookup(hook, "timeout"@), lookup(hook, "timeoutSec"@)) {
                    (Some(JsonValue::Number(n)), _) => Some(n),
                    (None, Some(JsonValue::Number(n))) => if d == BridgeDialect::Codex {
                        Some(n)
                    } else {
                        None
                    },
                    _ => None,
                },
            };
            let matcher = match lookup(group, "matcher"@) {
                Some(JsonValue::Str(m)) => if event == "UserPromptSubmit"@ || event == "Stop"@ {
                    None
                } else {
                    Some(m)
                },
                _ => None,
            };
            parsed(d, one_hook(event, group), vars, Seq::empty()) == Ok::<ParsedValue, Seq<char>>(
                ParsedValue {
                    config: seq![(event, seq![GroupValue { matcher, hooks: seq![run] }])],
                    skipped: Seq::empty(),
                },
            )
        }),
{
    let h = JsonValue::Object(hook);
    law_events_of_a_dialect(d, event);
    lemma_events_are_not_hooks(d, event);
    lemma_event_names_distinct(d);
    lemma_one_hook(d, event, group, h, vars, Seq::empty());
    lemma_one_event(
        d,
        event,
        seq![JsonValue::Object(group)],
        d.event_names(),
        vars,
        Seq::empty(),
    );
    assert(hook_type(h) == "command"@);
}

/// A hook of another type is not run but listed as skipped, with its type; and
/// so is an asynchronous hook of Codex.
pub proof fn law_other_hooks_are_skipped(
    d: BridgeDialect,
    event: Seq<char>,
    group: Seq<(Seq<char>, JsonValue)>,
    hook: Seq<(Seq<char>, JsonValue)>,
    kind: Seq<char>,
    vars: Variables,
    table: Seq<(Seq<char>, Seq<char>)>,
)
    requires
        runs_at(d, event),
        lookup(group, "hooks"@) == Some(JsonValue::Array(seq![JsonValue::Object(hook)])),
        lookup(hook, "type"@) == Some(JsonValue::Str(kind)) || (kind == "command"@ && lookup(
            hook,
            "type"@,
        ) is None),
        kind != "command"@ || (d == BridgeDialect::Codex && lookup(hook, "async"@) == Some(
            JsonValue::Bool(true),
        )),
    ensures
        parsed(d, one_hook(event, group), vars, table) == Ok::<ParsedValue, Seq<char>>(
            ParsedValue {
                config: Seq::empty(),
                skipped: seq![
                    SkippedValue {
                        event,
                        reason: if kind != "command"@ {
                            "unsupported \""@ + kind + "\" hook (only command hooks run)"@
                        } else {
                            "async hook"@
                        },
                    },
                ],
            },
        ),
{
    let h = JsonValue::Object(hook);
    law_events_of_a_dialect(d, event);
    lemma_events_are_not_hooks(d, event);
    lemma_event_names_distinct(d);
    lemma_one_hook(d, event, group, h, vars, table);
    lemma_one_event(d, event, seq![JsonValue::Object(group)], d.event_names(), vars, table);
    assert(hook_type(h) == kind);
}

/// A matcher with a diagnostic on a group that could run rejects the document;
/// the diagnostic and the event are told.
pub proof fn law_a_bad_matcher_rejects(
    d: BridgeDialect,
    event: Seq<char>,
    group: Seq<(Seq<char>, JsonValue)>,
    hook: Seq<(Seq<char>, JsonValue)>,
    command: Seq<char>,
    matcher: Seq<char>,
    diagnostic: Seq<char>,
    vars: Variables,
)
    requires
        runs_at(d, event),
        event != "UserPromptSubmit"@,
        event != "Stop"@,
        lookup(group, "hooks"@) == Some(JsonValue::Array(seq![JsonValue::Object(hook)])),
        lookup(group, "matcher"@) == Some(JsonValue::Str(matcher)),
        lookup(hook, "type"@) is None,
        lookup(hook, "async"@) is None,
        lookup(hook, "command"@) == Some(JsonValue::Str(command)),
    ensures
        parsed(d, one_hook(event, group), vars, seq![(matcher, diagnostic)]) == Err::<
            ParsedValue,
            Seq<char>,
        >(diagnostic + " on event \""@ + event + "\""@),
{
    let h = JsonValue::Object(hook);
    let table = seq![(matcher, diagnostic)];
    law_events_of_a_dialect(d, event);
    lemma_events_are_not_hooks(d, event);
    lemma_event_names_distinct(d);
    lemma_one_hook(d, event, group, h, vars, table);
    lemma_one_event(d, event, seq![JsonValue::Object(group)], d.event_names(), vars, table);
    assert(hook_type(h) == "command"@);
    assert(diagnostic_of(table, Some(matcher)) == Some(diagnostic));
}

/// A command that starts with the plugin root gets the plugin root, whatever the
/// project directory is, and one that starts with the project directory gets
/// that, whatever the plugin root is.
pub proof fn law_variables_are_not_mixed_up(
    rest: Seq<char>,
    value: Seq<char>,
    other: Option<Seq<char>>,
)
    requires
        !rest.contains('$'),
        !value.contains('$'),
    ensures
        substituted("${CLAUDE_PLUGIN_ROOT}"@ + rest, Some(value), other) == value + rest,
        substituted("${CLAUDE_PROJECT_DIR}"@ + rest, other, Some(value)) == value + rest,
{
    let root = "${CLAUDE_PLUGIN_ROOT}"@;
    let dir = "${CLAUDE_PROJECT_DIR}"@;
    let e = Seq::<char>::empty();
    reveal_strlit("${CLAUDE_PLUGIN_ROOT}");
    reveal_strlit("${CLAUDE_PROJECT_DIR}");
    assert(root.len() == 21 && dir.len() == 21 && root[0] == '$' && dir[0] == '$');
    assert(root[10] == 'L' && dir[10] == 'R');
    assert(e + root + rest =~= root + rest);
    assert(e + dir + rest =~= dir + rest);
    law_replace_fills_the_first_place(e, root, rest, value);
    law_replace_fills_the_first_place(e, dir, rest, value);
    lemma_no_dollar(rest, root, value);
    lemma_no_dollar(rest, dir, value);
    assert(e + value + rest =~= value + rest);
    assert forall|i: int| 0 <= i < (value + rest).len() implies #[trigger] (value + rest)[i]
        != '$' by {
        if i < value.len() {
            assert(value.contains(value[i]));
        } else {
            assert(rest.contains(rest[i - value.len()]));
        }
    }
    match other {
        Some(o) => {
            lemma_no_dollar(value + rest, dir, o);
            let s = dir + rest;
            assert forall|i: int| 0 <= i <= s.len() - root.len() implies #[trigger] s.subrange(
                i,
                i + root.len(),
            ) != root by {
                let w = s.subrange(i, i + root.len());
                if i == 0 {
                    assert(w[10] == s[10]);
                } else {
                    assert(w[0] == s[i]);
                    if i < dir.len() {
                        assert(s[i] == dir[i]);
                        assert(dir[i] != '$');
                    } else {
                        assert(rest.contains(rest[i - dir.len()]));
                    }
                }
            }
            law_replace_leaves_other_text(s, root, o);
        },
        None => {},
    }
}

proof fn lemma_no_dollar(s: Seq<char>, p: Seq<char>, with: Seq<char>)
    requires
        forall|i: int| 0 <= i < s.len() ==> #[trigger] s[i] != '$',
        p.len() > 0,
        p[0] == '$',
    ensures
        replace(s, p, with) == s,
{
    assert forall|i: int| 0 <= i <= s.len() - p.len() implies #[trigger] s.subrange(
        i,
        i + p.len(),
    ) != p by {
        assert(s.subrange(i, i + p.len())[0] == s[i]);
    }
    law_replace_leaves_other_text(s, p, with);
}

/// The hooks of a list of entries, and the groups of a list of groups, are those
/// of its parts in a row; so are the skipped ones.
pub proof fn law_entries_add_up(
    d: BridgeDialect,
    event: Seq<char>,
    a: Seq<JsonValue>,
    b: Seq<JsonValue>,
    vars: Variables,
)
    ensures
        commands(d, a + b, vars) == commands(d, a, vars) + commands(d, b, vars),
        skips(d, event, a + b, vars) == skips(d, event, a, vars) + skips(d, event, b, vars),
        groups(d, event, a + b, vars) == groups(d, event, a, vars) + groups(d, event, b, vars),
        event_skips(d, event, a + b, vars) == event_skips(d, event, a, vars) + event_skips(
            d,
            event,
            b,
            vars,
        ),
    decreases b.len(),
{
    if b.len() == 0 {
        assert(a + b =~= a);
        assert(commands(d, a, vars) + commands(d, b, vars) =~= commands(d, a, vars));
        assert(skips(d, event, a, vars) + skips(d, event, b, vars) =~= skips(d, event, a, vars));
        assert(groups(d, event, a, vars) + groups(d, event, b, vars) =~= groups(d, event, a, vars));
        assert(event_skips(d, event, a, vars) + event_skips(d, event, b, vars) =~= event_skips(
            d,
            event,
            a,
            vars,
        ));
    } else {
        law_entries_add_up(d, event, a, b.drop_last(), vars);
        assert((a + b).drop_last() =~= a + b.drop_last());
        assert((a + b).last() == b.last());
        assert(commands(d, a + b, vars) =~= commands(d, a, vars) + commands(d, b, vars));
        assert(skips(d, event, a + b, vars) =~= skips(d, event, a, vars) + skips(d, event, b, vars));
        assert(groups(d, event, a + b, vars) =~= groups(d, event, a, vars) + groups(
            d,
            event,
            b,
            vars,
        ));
        assert(event_skips(d, event, a + b, vars) =~= event_skips(d, event, a, vars)
            + event_skips(d, event, b, vars));
    }
}

/// Each event of a document keeps its own groups: a parsed configuration has
/// for an event the groups of its entries, and nothing where there are none.
pub proof fn law_every_event_keeps_its_groups(
    d: BridgeDialect,
    members: Seq<(Seq<char>, JsonValue)>,
    event: Seq<char>,
    vars: Variables,
    table: Seq<(Seq<char>, Seq<char>)>,
)
    requires
        JsonValue::Object(members).field("hooks"@).members() is None,
        runs_at(d, event),
    ensures
        parsed(d, JsonValue::Object(members), vars, table) matches Ok(p) ==> {
            let items = match lookup(members, event) {
                Some(JsonValue::Array(v)) => v,
                _ => Seq::empty(),
            };
            let g = groups(d, event, items, vars);
            groups_for(p.config, event) == (if g.len() > 0 {
                Some(g)
            } else {
                None
            })
        },
{
    law_events_of_a_dialect(d, event);
    lemma_event_names_distinct(d);
    lemma_groups_found(d, members, d.event_names(), event, vars);
}

proof fn lemma_groups_found(
    d: BridgeDialect,
    map: Seq<(Seq<char>, JsonValue)>,
    events: Seq<Seq<char>>,
    event: Seq<char>,
    vars: Variables,
)
    requires
        forall|i: int, j: int|
            0 <= i < j < events.len() ==> (#[trigger] events[i]) != (#[trigger] events[j]),
    ensures
        groups_for(config_of(d, map, events, vars), event) == (if events.contains(event) && groups(
            d,
            event,
            event_items(map, event),
            vars,
        ).len() > 0 {
            Some(groups(d, event, event_items(map, event), vars))
        } else {
            None
        }),
    decreases events.len(),
{
    if events.len() > 0 {
        let init = events.drop_last();
        let last = events.last();
        assert(events[events.len() - 1] == last);
        lemma_groups_found(d, map, init, event, vars);
        let c = config_of(d, map, init, vars);
        let g = groups(d, last, event_items(map, last), vars);
        if g.len() > 0 {
            lemma_groups_for_push(c, (last, g), event);
        }
        if init.contains(event) {
            let w = choose|w: int| 0 <= w < init.len() && init[w] == event;
            assert(events[w] == event);
        }
        if events.contains(event) && event != last {
            let w = choose|w: int| 0 <= w < events.len() && events[w] == event;
            assert(init[w] == event);
        }
        if event == last {
            assert(events.contains(event));
        }
    }
}

proof fn lemma_groups_for_push(
    c: Seq<(Seq<char>, Seq<GroupValue>)>,
    e: (Seq<char>, Seq<GroupValue>),
    event: Seq<char>,
)
    ensures
        groups_for(c.push(e), event) == (match groups_for(c, event) {
            Some(g) => Some(g),
            None => if e.0 == event {
                Some(e.1)
            } else {
                None
            },
        }),
    decreases c.len(),
{
    if c.len() == 0 {
        assert(c.push(e).drop_first() =~= c);
        reveal_with_fuel(groups_for, 2);
    } else {
        assert(c.push(e).drop_first() =~= c.drop_first().push(e));
        lemma_groups_for_push(c.drop_first(), e, event);
    }
}

/// A configuration is read with the plugin root as the plugin root and the
/// project directory as the project directory. The dialects' own readers do
/// the same; Codex knows neither.
pub proof fn law_variables_reach_the_reader(
    d: BridgeDialect,
    raw: &Json,
    root: &str,
    dir: &str,
    diagnostics: &MatcherDiagnostics,
    any: Result<ParsedConfig, String>,
    first: Result<ParsedConfig, String>,
    codex: Result<ParsedConfig, String>,
)
    requires
        call_ensures(parse_hook_config, (d, raw, Some(root), Some(dir), diagnostics), any),
        call_ensures(parse_claude_code_config, (raw, Some(root), Some(dir), diagnostics), first),
        call_ensures(parse_codex_config, (raw, diagnostics), codex),
    ensures
        ({
            let vars = Variables { plugin_root: Some(root@), project_dir: Some(dir@) };
            let none = Variables { plugin_root: None, project_dir: None };
            &&& any is Ok <==> parsed(d, raw.value(), vars, diagnostics@) is Ok
            &&& any matches Ok(p) ==> parsed(d, raw.value(), vars, diagnostics@)->Ok_0 == p@
            &&& any matches Err(e) ==> parsed(d, raw.value(), vars, diagnostics@)->Err_0 == e@
            &&& first is Ok <==> parsed(
                BridgeDialect::ClaudeCode,
                raw.value(),
                vars,
                diagnostics@,
            ) is Ok
            &&& first matches Ok(p) ==> parsed(
                BridgeDialect::ClaudeCode,
                raw.value(),
                vars,
                diagnostics@,
            )->Ok_0 == p@
            &&& codex is Ok <==> parsed(BridgeDialect::Codex, raw.value(), none, diagnostics@) is Ok
            &&& codex matches Ok(p) ==> parsed(
                BridgeDialect::Codex,
                raw.value(),
                none,
                diagnostics@,
            )->Ok_0 == p@
        }),
{
}

/// Each dialect matches in its own way.
pub proof fn law_dialects_match_in_their_own_way(d: BridgeDialect, r: MatcherMode)
    requires
        call_ensures(BridgeDialect::matcher_mode, (d,), r),
    ensures
        r == MatcherMode::Codex <==> d == BridgeDialect::Codex,
        r == MatcherMode::ClaudeCode <==> d == BridgeDialect::ClaudeCode,
{
}

} // verus!
