//! Payloads of the `hook/invoked` and `hook/result` records.

use crate::hooks::codec::{Decision, HookOutput};
use crate::json::{
    law_lookup_finds_the_first_member, lemma_lookup_at, object_of, push_member, signed_number, Json, JsonValue, Number, member_values,
};
use crate::markdown::{ascii_lower, to_lower};
use crate::scan::{trim, trimmed};
use crate::text::{chars_of, opt_view, string_of_range};
use vstd::prelude::*;
use vstd::string::*;

verus! {

/// The dialect of a hook record.
#[derive(Debug, Clone, Copy, PartialEq, Eq, Structural)]
pub enum HookDialect {
    ClaudeCode,
    Codex,
}

/// Whether a letter starts a word in a name of joined words.
pub open spec fn starts_word(c: char) -> bool {
    'A' <= c <= 'Z'
}

/// A name of joined words as words in lower case with hyphens between them.
pub open spec fn kebab(name: Seq<char>) -> Seq<char>
    decreases name.len(),
{
    if name.len() == 0 {
        Seq::empty()
    } else {
        let init = kebab(name.drop_last());
        let c = name.last();
        if starts_word(c) && name.len() > 1 {
            init.push('-').push(ascii_lower(c))
        } else {
            init.push(ascii_lower(c))
        }
    }
}

/// See [`kebab`].
fn kebab_text(name: &str) -> (r: String)
    ensures
        r@ == kebab(name@),
{
    let cs = chars_of(name);
    let mut out = String::new();
    let mut i: usize = 0;
    assert(cs@.take(0) =~= Seq::<char>::empty());
    assert(out@ =~= Seq::<char>::empty());
    while i < cs.len()
        invariant
            i <= cs@.len(),
            out@ == kebab(cs@.take(i as int)),
        decreases cs@.len() - i,
    {
        assert(cs@.take(i + 1).drop_last() =~= cs@.take(i as int));
        let c = cs[i];
        if 'A' <= c && c <= 'Z' && i > 0 {
            out.push('-');
        }
        out.push(to_lower(c));
        i = i + 1;
    }
    assert(cs@.take(i as int) =~= name@);
    out
}

impl HookDialect {
    /// The wire name of a dialect: its name in words with hyphens.
    pub open spec fn name(self) -> Seq<char> {
        match self {
            HookDialect::ClaudeCode => kebab("ClaudeCode"@),
            HookDialect::Codex => kebab("Codex"@),
        }
    }

    /// The wire name of a dialect.
    pub fn as_str(self) -> (r: String)
        ensures
            r@ == self.name(),
    {
        match self {
            HookDialect::ClaudeCode => kebab_text("ClaudeCode"),
            HookDialect::Codex => kebab_text("Codex"),
        }
    }
}

/// Default bound on the characters of a stderr summary.
pub const DEFAULT_STDERR_SUMMARY_MAX_CHARS: usize = 500;

/// One start of a hook.
#[derive(Debug, Clone, PartialEq, Eq)]
pub struct HookInvocation {
    pub turn: u64,
    pub point: String,
    pub dialect: HookDialect,
    /// Pairs the invoked and result records, such as `codex:PreToolUse:3`.
    pub handler_id: String,
    pub matcher: Option<String>,
}

/// The members of a `hook/invoked` payload; without a matcher there is no
/// such member.
pub open spec fn invoked_members(inv: HookInvocation) -> Seq<(Seq<char>, JsonValue)> {
    let base = seq![
        ("turn"@, JsonValue::Number(Number::Unsigned(inv.turn))),
        ("point"@, JsonValue::Str(inv.point@)),
        ("dialect"@, JsonValue::Str(inv.dialect.name())),
        ("handlerId"@, JsonValue::Str(inv.handler_id@)),
    ];
    match inv.matcher {
        Some(m) => base.push(("matcher"@, JsonValue::Str(m@))),
        None => base,
    }
}

/// The payload of a `hook/invoked` record.
pub fn hook_invoked_payload(inv: &HookInvocation) -> (r: Json)
    ensures
        r.value() == JsonValue::Object(invoked_members(*inv)),
{
    let mut v: Vec<(String, Json)> = Vec::new();
    push_member(&mut v, "turn", Json::Number(Number::Unsigned(inv.turn)));
    push_member(&mut v, "point", Json::text(inv.point.as_str()));
    let dialect = inv.dialect.as_str();
    push_member(&mut v, "dialect", Json::text(dialect.as_str()));
    push_member(&mut v, "handlerId", Json::text(inv.handler_id.as_str()));
    match &inv.matcher {
        Some(m) => {
            push_member(&mut v, "matcher", Json::text(m.as_str()));
        },
        None => {},
    }
    assert(member_values(v@) =~= invoked_members(*inv));
    object_of(v)
}

/// The summary of a stderr text: trimmed, absent where nothing is left, and
/// cut with an ellipsis where it has more than `max_chars` characters.
pub open spec fn stderr_summary(stderr: Seq<char>, max_chars: nat) -> Option<Seq<char>> {
    let t = trim(stderr);
    if t.len() == 0 {
        None
    } else if t.len() > max_chars {
        Some(t.take(max_chars as int).push('…'))
    } else {
        Some(t)
    }
}

/// The summary of a stderr text.
pub fn summarize_stderr(stderr: &str, max_chars: usize) -> (r: Option<String>)
    ensures
        opt_view(r) == stderr_summary(stderr@, max_chars as nat),
{
    let t = trimmed(stderr);
    let cs = chars_of(t.as_str());
    if cs.len() == 0 {
        return None;
    }
    if cs.len() > max_chars {
        let mut cut = string_of_range(cs.as_slice(), 0, max_chars);
        assert(cs@.subrange(0, max_chars as int) =~= cs@.take(max_chars as int));
        cut.push('…');
        Some(cut)
    } else {
        Some(t)
    }
}

/// The decision that a result record states: the hook's own, else `stop`
/// where it asked to halt, else `pass`.
pub open spec fn recorded_decision(output: HookOutput) -> Seq<char> {
    match output.decision {
        Some(d) => d.name(),
        None => if output.continue_ == Some(false) {
            "stop"@
        } else {
            "pass"@
        },
    }
}

/// The members of a `hook/result` payload; the exit code and the stderr
/// summary stand there only where they exist.
pub open spec fn result_members(
    turn: u64,
    point: Seq<char>,
    handler_id: Seq<char>,
    output: HookOutput,
    max_chars: nat,
    duration_ms: i64,
) -> Seq<(Seq<char>, JsonValue)> {
    let base = seq![
        ("turn"@, JsonValue::Number(Number::Unsigned(turn))),
        ("point"@, JsonValue::Str(point)),
        ("handlerId"@, JsonValue::Str(handler_id)),
        ("decision"@, JsonValue::Str(recorded_decision(output))),
    ];
    let with_code = match output.exit_code {
        Some(code) => base.push(("exitCode"@, JsonValue::Number(signed_number(code as i64)))),
        None => base,
    };
    let with_summary = match stderr_summary(output.stderr@, max_chars) {
        Some(s) => with_code.push(("stderrSummary"@, JsonValue::Str(s))),
        None => with_code,
    };
    with_summary.push(("durationMs"@, JsonValue::Number(signed_number(duration_ms))))
}

/// The payload of a `hook/result` record.
pub fn hook_result_payload(
    turn: u64,
    point: &str,
    handler_id: &str,
    output: &HookOutput,
    stderr_summary_max_chars: usize,
    duration_ms: i64,
) -> (r: Json)
    ensures
        r.value() == JsonValue::Object(
            result_members(
                turn,
                point@,
                handler_id@,
                *output,
                stderr_summary_max_chars as nat,
                duration_ms,
            ),
        ),
{
    let decision = match output.decision {
        Some(d) => d.as_str(),
        None => {
            if output.continue_.is_some() && !output.continue_.unwrap() {
                "stop"
            } else {
                "pass"
            }
        },
    };
    let mut v: Vec<(String, Json)> = Vec::new();
    push_member(&mut v, "turn", Json::Number(Number::Unsigned(turn)));
    push_member(&mut v, "point", Json::text(point));
    push_member(&mut v, "handlerId", Json::text(handler_id));
    push_member(&mut v, "decision", Json::text(decision));
    match output.exit_code {
        Some(code) => {
            push_member(&mut v, "exitCode", Json::signed(code as i64));
        },
        None => {},
    }
    match summarize_stderr(output.stderr.as_str(), stderr_summary_max_chars) {
        Some(summary) => {
            push_member(&mut v, "stderrSummary", Json::text(summary.as_str()));
        },
        None => {},
    }
    push_member(&mut v, "durationMs", Json::signed(duration_ms));
    assert(member_values(v@) =~= result_members(
        turn,
        point@,
        handler_id@,
        *output,
        stderr_summary_max_chars as nat,
        duration_ms,
    ));
    object_of(v)
}

/// A summary never has more than the allowed characters and the ellipsis, and
/// a text of exactly the allowed length is kept as it is.
pub proof fn law_summary_bound(stderr: Seq<char>, max_chars: nat)
    ensures
        stderr_summary(stderr, max_chars) matches Some(s) ==> 0 < s.len() <= max_chars + 1,
        trim(stderr).len() == max_chars && max_chars > 0 ==> stderr_summary(stderr, max_chars)
            == Some(trim(stderr)),
{
}

/// The dialects have their wire names: the words of the name in lower case, with
/// hyphens between them.
pub proof fn law_dialect_names()
    ensures
        ({
            let word = "ClaudeCode"@;
            let name = HookDialect::ClaudeCode.name();
            &&& word.len() == 10
            &&& name.len() == 11
            &&& name[6] == '-'
            &&& forall|i: int| 0 <= i < 6 ==> #[trigger] name[i] == ascii_lower(word[i])
            &&& forall|i: int| 7 <= i < 11 ==> #[trigger] name[i] == ascii_lower(word[i - 1])
        }),
        HookDialect::Codex.name() == "codex"@,
{
    reveal_strlit("codex");
    reveal_strlit("ClaudeCode");
    reveal_strlit("Codex");
    reveal_with_fuel(kebab, 11);
    let a = "ClaudeCode"@;
    let b = "Codex"@;
    assert(kebab(a.take(0)) =~= seq![]);
    assert forall|s: Seq<char>, k: int| 0 < k <= s.len() implies #[trigger] s.take(k).drop_last()
        =~= s.take(k - 1) by {}
    assert(a.take(10) =~= a && b.take(5) =~= b);
    lemma_kebab_step(a, 1);
    lemma_kebab_step(a, 2);
    lemma_kebab_step(a, 3);
    lemma_kebab_step(a, 4);
    lemma_kebab_step(a, 5);
    lemma_kebab_step(a, 6);
    lemma_kebab_step(a, 7);
    lemma_kebab_step(a, 8);
    lemma_kebab_step(a, 9);
    lemma_kebab_step(a, 10);
    lemma_kebab_step(b, 1);
    lemma_kebab_step(b, 2);
    lemma_kebab_step(b, 3);
    lemma_kebab_step(b, 4);
    lemma_kebab_step(b, 5);
    assert(kebab(b.take(0)) =~= seq![]);
    assert(kebab(b) =~= "codex"@);
}

proof fn lemma_kebab_step(s: Seq<char>, k: int)
    requires
        0 < k <= s.len(),
    ensures
        kebab(s.take(k)) == (if 'A' <= s[k - 1] <= 'Z' && k > 1 {
            kebab(s.take(k - 1)).push('-').push(ascii_lower(s[k - 1]))
        } else {
            kebab(s.take(k - 1)).push(ascii_lower(s[k - 1]))
        }),
{
    assert(s.take(k).drop_last() =~= s.take(k - 1));
    assert(s.take(k).last() == s[k - 1]);
}

/// The record of a result states the decision of the hook by its name; without
/// one it states `stop` where the hook asked to halt, else `pass`.
pub proof fn law_recorded_decisions(o: HookOutput)
    ensures
        o.decision == Some(Decision::Allow) ==> recorded_decision(o) == "allow"@,
        o.decision == Some(Decision::Approve) ==> recorded_decision(o) == "approve"@,
        o.decision == Some(Decision::Ask) ==> recorded_decision(o) == "ask"@,
        o.decision == Some(Decision::Deny) ==> recorded_decision(o) == "deny"@,
        o.decision == Some(Decision::Block) ==> recorded_decision(o) == "block"@,
        o.decision is None && o.continue_ == Some(false) ==> recorded_decision(o) == "stop"@,
        o.decision is None && o.continue_ != Some(false) ==> recorded_decision(o) == "pass"@,
{
}

/// The records of one start and its result carry the same turn, point and id;
/// the result says what was decided, how the process ended and how long it took.
pub proof fn law_records_pair_up(
    inv: HookInvocation,
    output: HookOutput,
    max_chars: nat,
    duration_ms: i64,
)
    ensures
        ({
            let a = JsonValue::Object(invoked_members(inv));
            let b = JsonValue::Object(
                result_members(
                    inv.turn,
                    inv.point@,
                    inv.handler_id@,
                    output,
                    max_chars,
                    duration_ms,
                ),
            );
            &&& a.get("turn"@) == Some(JsonValue::Number(Number::Unsigned(inv.turn)))
            &&& a.get("point"@) == Some(JsonValue::Str(inv.point@))
            &&& a.get("handlerId"@) == Some(JsonValue::Str(inv.handler_id@))
            &&& a.get("dialect"@) == Some(JsonValue::Str(inv.dialect.name()))
            &&& inv.matcher matches Some(m) ==> a.get("matcher"@) == Some(JsonValue::Str(m@))
            &&& inv.matcher is None ==> a.get("matcher"@) is None
            &&& b.get("turn"@) == a.get("turn"@)
            &&& b.get("point"@) == a.get("point"@)
            &&& b.get("handlerId"@) == a.get("handlerId"@)
            &&& b.get("decision"@) == Some(JsonValue::Str(recorded_decision(output)))
            &&& b.field("durationMs"@).as_signed() == Some(duration_ms)
            &&& output.exit_code matches Some(c) ==> b.field("exitCode"@).as_signed() == Some(
                c as i64,
            )
            &&& output.exit_code is None ==> b.get("exitCode"@) is None
            &&& b.get("stderrSummary"@) == (match stderr_summary(output.stderr@, max_chars) {
                Some(s) => Some(JsonValue::Str(s)),
                None => None,
            })
        }),
{
    lemma_record_keys();
    let a = invoked_members(inv);
    let b = result_members(
        inv.turn,
        inv.point@,
        inv.handler_id@,
        output,
        max_chars,
        duration_ms,
    );
    assert forall|k: int| 0 <= k < a.len() implies (#[trigger] a[k]).0 == invoked_keys()[k] by {}
    lemma_lookup_at(a, 0);
    lemma_lookup_at(a, 1);
    lemma_lookup_at(a, 2);
    lemma_lookup_at(a, 3);
    if inv.matcher is Some {
        lemma_lookup_at(a, 4);
    } else {
        law_lookup_finds_the_first_member(a, "matcher"@);
        assert(invoked_keys()[4] == "matcher"@);
    }
    let ks = result_keys();
    assert(b[0].0 == ks[0] && b[1].0 == ks[1] && b[2].0 == ks[2] && b[3].0 == ks[3]);
    assert(ks[4] == "exitCode"@ && ks[5] == "stderrSummary"@ && ks[6] == "durationMs"@);
    lemma_lookup_at(b, 0);
    lemma_lookup_at(b, 1);
    lemma_lookup_at(b, 2);
    lemma_lookup_at(b, 3);
    lemma_lookup_at(b, b.len() - 1);
    if output.exit_code is Some {
        lemma_lookup_at(b, 4);
        if stderr_summary(output.stderr@, max_chars) is Some {
            lemma_lookup_at(b, 5);
        }
    } else if stderr_summary(output.stderr@, max_chars) is Some {
        lemma_lookup_at(b, 4);
    }
    law_lookup_finds_the_first_member(b, "exitCode"@);
    law_lookup_finds_the_first_member(b, "stderrSummary"@);
}

spec fn invoked_keys() -> Seq<Seq<char>> {
    seq!["turn"@, "point"@, "dialect"@, "handlerId"@, "matcher"@]
}

spec fn result_keys() -> Seq<Seq<char>> {
    seq![
        "turn"@,
        "point"@,
        "handlerId"@,
        "decision"@,
        "exitCode"@,
        "stderrSummary"@,
        "durationMs"@,
    ]
}

proof fn lemma_record_keys()
    ensures
        forall|i: int, j: int|
            0 <= i < j < 5 ==> #[trigger] invoked_keys()[i] != #[trigger] invoked_keys()[j],
        forall|i: int, j: int|
            0 <= i < j < 7 ==> #[trigger] result_keys()[i] != #[trigger] result_keys()[j],
{
    reveal_strlit("turn");
    reveal_strlit("point");
    reveal_strlit("dialect");
    reveal_strlit("handlerId");
    reveal_strlit("matcher");
    reveal_strlit("decision");
    reveal_strlit("exitCode");
    reveal_strlit("stderrSummary");
    reveal_strlit("durationMs");
    assert("turn"@.len() == 4 && "point"@.len() == 5 && "dialect"@.len() == 7 && "handlerId"@.len()
        == 9 && "matcher"@.len() == 7 && "decision"@.len() == 8 && "exitCode"@.len() == 8
        && "stderrSummary"@.len() == 13 && "durationMs"@.len() == 10);
    assert("dialect"@[0] == 'd' && "matcher"@[0] == 'm' && "decision"@[0] == 'd' && "exitCode"@[0]
        == 'e');
}

} // verus!
