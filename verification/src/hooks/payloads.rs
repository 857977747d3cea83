//! What hook processes read on their standard input.
//!
//! In the dialect [`HookDialect::ClaudeCode`] payloads carry an empty
//! transcript path and end in a line feed; tool input is the raw arguments. In
//! the dialect [`HookDialect::Codex`] they carry the model, a permission mode
//! and, within a turn, the turn id; tool input is reduced to the command.

use crate::decimal::{dec, u64_text};
use crate::hooks::events::HookDialect;
use crate::json::{
    lemma_lookup_at, member_values, object_of, push_member, text_field, Json, JsonValue,
};
use vstd::prelude::*;
use vstd::string::*;
use vstd::utf8::encode_utf8;

verus! {

/// The members of a payload.
pub open spec fn obj(m: Seq<(Seq<char>, JsonValue)>) -> JsonValue {
    JsonValue::Object(m)
}

pub open spec fn text(s: Seq<char>) -> JsonValue {
    JsonValue::Str(s)
}

/// The members that every payload of [`HookDialect::ClaudeCode`] starts with.
pub open spec fn cc_members(session_id: Seq<char>, cwd: Seq<char>, event: Seq<char>) -> Seq<
    (Seq<char>, JsonValue),
> {
    seq![
        ("session_id"@, text(session_id)),
        ("transcript_path"@, text(""@)),
        ("cwd"@, text(cwd)),
        ("hook_event_name"@, text(event)),
    ]
}

/// The members that every Codex payload starts with.
pub open spec fn codex_members(
    session_id: Seq<char>,
    cwd: Seq<char>,
    event: Seq<char>,
    model: Seq<char>,
) -> Seq<(Seq<char>, JsonValue)> {
    seq![
        ("session_id"@, text(session_id)),
        ("transcript_path"@, JsonValue::Null),
        ("cwd"@, text(cwd)),
        ("hook_event_name"@, text(event)),
        ("model"@, text(model)),
        ("permission_mode"@, text("default"@)),
    ]
}

/// The members that every Codex payload of a turn starts with.
pub open spec fn codex_turn_members(
    session_id: Seq<char>,
    cwd: Seq<char>,
    event: Seq<char>,
    model: Seq<char>,
    turn: u64,
) -> Seq<(Seq<char>, JsonValue)> {
    codex_members(session_id, cwd, event, model).push(("turn_id"@, text(dec(turn as nat))))
}

/// The reduced tool input of Codex: the command text, empty where the
/// arguments have none.
pub open spec fn reduced_input(arguments: JsonValue) -> JsonValue {
    obj(seq![("command"@, text(text_field(arguments, "command"@)))])
}

/// The tool members of a payload.
pub open spec fn tool_members(
    dialect: HookDialect,
    session_id: Seq<char>,
    cwd: Seq<char>,
    event: Seq<char>,
    tool_name: Seq<char>,
    tool_use_id: Seq<char>,
    arguments: JsonValue,
    model: Seq<char>,
    turn: u64,
) -> Seq<(Seq<char>, JsonValue)> {
    match dialect {
        HookDialect::ClaudeCode => cc_members(session_id, cwd, event) + seq![
            ("tool_name"@, text(tool_name)),
            ("tool_input"@, arguments),
            ("tool_use_id"@, text(tool_use_id)),
        ],
        HookDialect::Codex => codex_turn_members(session_id, cwd, event, model, turn) + seq![
            ("tool_name"@, text(tool_name)),
            ("tool_input"@, reduced_input(arguments)),
            ("tool_use_id"@, text(tool_use_id)),
        ],
    }
}

fn cc_base(session_id: &str, cwd: &str, event: &str) -> (v: Vec<(String, Json)>)
    ensures
        member_values(v@) == cc_members(session_id@, cwd@, event@),
{
    let mut v: Vec<(String, Json)> = Vec::new();
    push_member(&mut v, "session_id", Json::text(session_id));
    push_member(&mut v, "transcript_path", Json::text(""));
    push_member(&mut v, "cwd", Json::text(cwd));
    push_member(&mut v, "hook_event_name", Json::text(event));
    assert(member_values(v@) =~= cc_members(session_id@, cwd@, event@));
    v
}

fn codex_base(session_id: &str, cwd: &str, event: &str, model: &str) -> (v: Vec<(String, Json)>)
    ensures
        member_values(v@) == codex_members(session_id@, cwd@, event@, model@),
{
    let mut v: Vec<(String, Json)> = Vec::new();
    push_member(&mut v, "session_id", Json::text(session_id));
    push_member(&mut v, "transcript_path", Json::Null);
    push_member(&mut v, "cwd", Json::text(cwd));
    push_member(&mut v, "hook_event_name", Json::text(event));
    push_member(&mut v, "model", Json::text(model));
    push_member(&mut v, "permission_mode", Json::text("default"));
    assert(member_values(v@) =~= codex_members(session_id@, cwd@, event@, model@));
    v
}

fn codex_turn_base(session_id: &str, cwd: &str, event: &str, model: &str, turn: u64) -> (v: Vec<
    (String, Json),
>)
    ensures
        member_values(v@) == codex_turn_members(session_id@, cwd@, event@, model@, turn),
{
    let mut v = codex_base(session_id, cwd, event, model);
    let id = u64_text(turn);
    push_member(&mut v, "turn_id", Json::text(id.as_str()));
    v
}

fn command_of(arguments: &Json) -> (r: Json)
    ensures
        r.value() == reduced_input(arguments.value()),
{
    let command = arguments.text_or_empty("command");
    let mut v: Vec<(String, Json)> = Vec::new();
    push_member(&mut v, "command", Json::text(command.as_str()));
    assert(member_values(v@) =~= seq![
        ("command"@, text(text_field(arguments.value(), "command"@))),
    ]);
    object_of(v)
}

/// The bytes that a hook process reads: the JSON text of its payload, with a
/// line feed in the dialect [`HookDialect::ClaudeCode`].
pub fn serialize_stdin(dialect: HookDialect, payload: &str) -> (r: Vec<u8>)
    ensures
        r@ == encode_utf8(payload@) + (if dialect == HookDialect::ClaudeCode {
            seq![10u8]
        } else {
            Seq::empty()
        }),
{
    let mut r: Vec<u8> = payload.as_bytes_vec();
    if dialect == HookDialect::ClaudeCode {
        r.push(10u8);
    }
    assert(r@ =~= encode_utf8(payload@) + (if dialect == HookDialect::ClaudeCode {
        seq![10u8]
    } else {
        Seq::empty()
    }));
    r
}

/// The payload of a session start.
pub fn session_start(
    dialect: HookDialect,
    session_id: &str,
    cwd: &str,
    source: &str,
    model: &str,
) -> (r: Json)
    ensures
        r.value() == obj(
            (match dialect {
                HookDialect::ClaudeCode => cc_members(session_id@, cwd@, "SessionStart"@),
                HookDialect::Codex => codex_members(session_id@, cwd@, "SessionStart"@, model@),
            }).push(("source"@, text(source@))),
        ),
{
    let mut v = match dialect {
        HookDialect::ClaudeCode => cc_base(session_id, cwd, "SessionStart"),
        HookDialect::Codex => codex_base(session_id, cwd, "SessionStart", model),
    };
    push_member(&mut v, "source", Json::text(source));
    object_of(v)
}

/// The payload of a prompt submission.
pub fn prompt_submit(
    dialect: HookDialect,
    session_id: &str,
    cwd: &str,
    prompt: &str,
    model: &str,
    turn: u64,
) -> (r: Json)
    ensures
        r.value() == obj(
            (match dialect {
                HookDialect::ClaudeCode => cc_members(session_id@, cwd@, "UserPromptSubmit"@),
                HookDialect::Codex => codex_turn_members(
                    session_id@,
                    cwd@,
                    "UserPromptSubmit"@,
                    model@,
                    turn,
                ),
            }).push(("prompt"@, text(prompt@))),
        ),
{
    let mut v = match dialect {
        HookDialect::ClaudeCode => cc_base(session_id, cwd, "UserPromptSubmit"),
        HookDialect::Codex => codex_turn_base(session_id, cwd, "UserPromptSubmit", model, turn),
    };
    push_member(&mut v, "prompt", Json::text(prompt));
    object_of(v)
}

fn tool_payload(
    dialect: HookDialect,
    session_id: &str,
    cwd: &str,
    event: &str,
    tool_name: &str,
    tool_use_id: &str,
    arguments: &Json,
    model: &str,
    turn: u64,
) -> (v: Vec<(String, Json)>)
    ensures
        member_values(v@) == tool_members(
            dialect,
            session_id@,
            cwd@,
            event@,
            tool_name@,
            tool_use_id@,
            arguments.value(),
            model@,
            turn,
        ),
{
    let mut v = match dialect {
        HookDialect::ClaudeCode => cc_base(session_id, cwd, event),
        HookDialect::Codex => codex_turn_base(session_id, cwd, event, model, turn),
    };
    push_member(&mut v, "tool_name", Json::text(tool_name));
    match dialect {
        HookDialect::ClaudeCode => {
            push_member(&mut v, "tool_input", arguments.copy());
        },
        HookDialect::Codex => {
            push_member(&mut v, "tool_input", command_of(arguments));
        },
    }
    push_member(&mut v, "tool_use_id", Json::text(tool_use_id));
    assert(member_values(v@) =~= tool_members(
        dialect,
        session_id@,
        cwd@,
        event@,
        tool_name@,
        tool_use_id@,
        arguments.value(),
        model@,
        turn,
    ));
    v
}

/// The payload before a tool runs.
pub fn pre_tool_use(
    dialect: HookDialect,
    session_id: &str,
    cwd: &str,
    tool_name: &str,
    tool_use_id: &str,
    arguments: &Json,
    model: &str,
    turn: u64,
) -> (r: Json)
    ensures
        r.value() == obj(
            tool_members(
                dialect,
                session_id@,
                cwd@,
                "PreToolUse"@,
                tool_name@,
                tool_use_id@,
                arguments.value(),
                model@,
                turn,
            ),
        ),
{
    object_of(
        tool_payload(
            dialect,
            session_id,
            cwd,
            "PreToolUse",
            tool_name,
            tool_use_id,
            arguments,
            model,
            turn,
        ),
    )
}

/// The payload after a tool ran.
pub fn post_tool_use(
    dialect: HookDialect,
    session_id: &str,
    cwd: &str,
    tool_name: &str,
    tool_use_id: &str,
    arguments: &Json,
    tool_response: &str,
    model: &str,
    turn: u64,
) -> (r: Json)
    ensures
        r.value() == obj(
            tool_members(
                dialect,
                session_id@,
                cwd@,
                "PostToolUse"@,
                tool_name@,
                tool_use_id@,
                arguments.value(),
                model@,
                turn,
            ).push(("tool_response"@, text(tool_response@))),
        ),
{
    let mut v = tool_payload(
        dialect,
        session_id,
        cwd,
        "PostToolUse",
        tool_name,
        tool_use_id,
        arguments,
        model,
        turn,
    );
    push_member(&mut v, "tool_response", Json::text(tool_response));
    object_of(v)
}

/// The payload of a stop.
pub fn stop(dialect: HookDialect, session_id: &str, cwd: &str, model: &str, turn: u64) -> (r: Json)
    ensures
        r.value() == obj(
            match dialect {
                HookDialect::ClaudeCode => cc_members(session_id@, cwd@, "Stop"@).push(
                    ("stop_hook_active"@, JsonValue::Bool(false)),
                ),
                HookDialect::Codex => codex_turn_members(
                    session_id@,
                    cwd@,
                    "Stop"@,
                    model@,
                    turn,
                ).push(("stop_hook_active"@, JsonValue::Bool(false))).push(
                    ("last_assistant_message"@, JsonValue::Null),
                ),
            },
        ),
{
    match dialect {
        HookDialect::ClaudeCode => {
            let mut v = cc_base(session_id, cwd, "Stop");
            push_member(&mut v, "stop_hook_active", Json::Bool(false));
            object_of(v)
        },
        HookDialect::Codex => {
            let mut v = codex_turn_base(session_id, cwd, "Stop", model, turn);
            push_member(&mut v, "stop_hook_active", Json::Bool(false));
            push_member(&mut v, "last_assistant_message", Json::Null);
            object_of(v)
        },
    }
}

// ---------------------------------------------------------------------------
// Laws
// ---------------------------------------------------------------------------
/// What every payload says: the session, its directory and the event.
pub open spec fn says_where(
    j: JsonValue,
    session_id: Seq<char>,
    cwd: Seq<char>,
    event: Seq<char>,
) -> bool {
    &&& j.get("session_id"@) == Some(JsonValue::Str(session_id))
    &&& j.get("cwd"@) == Some(JsonValue::Str(cwd))
    &&& j.get("hook_event_name"@) == Some(JsonValue::Str(event))
}

/// What a Codex payload says besides: the model and, within a turn, the turn.
pub open spec fn says_model(j: JsonValue, model: Seq<char>, turn: Option<u64>) -> bool {
    &&& j.get("transcript_path"@) == Some(JsonValue::Null)
    &&& j.get("model"@) == Some(JsonValue::Str(model))
    &&& j.get("permission_mode"@) == Some(JsonValue::Str("default"@))
    &&& turn matches Some(t) ==> j.get("turn_id"@) == Some(JsonValue::Str(dec(t as nat)))
}

/// What a payload says of a tool call. Codex is told the command only.
pub open spec fn says_tool(
    j: JsonValue,
    dialect: HookDialect,
    tool_name: Seq<char>,
    tool_use_id: Seq<char>,
    arguments: JsonValue,
) -> bool {
    &&& j.get("tool_name"@) == Some(JsonValue::Str(tool_name))
    &&& j.get("tool_use_id"@) == Some(JsonValue::Str(tool_use_id))
    &&& dialect == HookDialect::ClaudeCode ==> j.get("tool_input"@) == Some(arguments)
    &&& dialect == HookDialect::Codex && (arguments.get("command"@) matches Some(
        JsonValue::Str(_),
    )) ==> j.field("tool_input"@).get("command"@) == arguments.get("command"@)
}

spec fn payload_keys(codex: bool, turn: bool, tail: Seq<Seq<char>>) -> Seq<Seq<char>> {
    let base = seq!["session_id"@, "transcript_path"@, "cwd"@, "hook_event_name"@];
    let more = if codex {
        seq!["model"@, "permission_mode"@]
    } else {
        Seq::empty()
    };
    let turns = if turn {
        seq!["turn_id"@]
    } else {
        Seq::empty()
    };
    base + more + turns + tail
}

spec fn distinct(keys: Seq<Seq<char>>) -> bool {
    forall|i: int, j: int| 0 <= i < j < keys.len() ==> #[trigger] keys[i] != #[trigger] keys[j]
}

proof fn lemma_payload_keys(codex: bool, turn: bool)
    ensures
        distinct(payload_keys(codex, turn, seq!["source"@])),
        distinct(payload_keys(codex, turn, seq!["prompt"@])),
        distinct(payload_keys(codex, turn, seq!["stop_hook_active"@, "last_assistant_message"@])),
        distinct(
            payload_keys(
                codex,
                turn,
                seq!["tool_name"@, "tool_input"@, "tool_use_id"@, "tool_response"@],
            ),
        ),
{
    reveal_strlit("session_id");
    reveal_strlit("transcript_path");
    reveal_strlit("cwd");
    reveal_strlit("hook_event_name");
    reveal_strlit("model");
    reveal_strlit("permission_mode");
    reveal_strlit("turn_id");
    reveal_strlit("source");
    reveal_strlit("prompt");
    reveal_strlit("stop_hook_active");
    reveal_strlit("last_assistant_message");
    reveal_strlit("tool_name");
    reveal_strlit("tool_input");
    reveal_strlit("tool_use_id");
    reveal_strlit("tool_response");
    assert("session_id"@.len() == 10 && "transcript_path"@.len() == 15 && "cwd"@.len() == 3
        && "hook_event_name"@.len() == 15 && "model"@.len() == 5 && "permission_mode"@.len() == 15
        && "turn_id"@.len() == 7 && "source"@.len() == 6 && "prompt"@.len() == 6
        && "stop_hook_active"@.len() == 16 && "last_assistant_message"@.len() == 22
        && "tool_name"@.len() == 9 && "tool_input"@.len() == 10 && "tool_use_id"@.len() == 11
        && "tool_response"@.len() == 13);
    assert("transcript_path"@[0] == 't' && "hook_event_name"@[0] == 'h' && "permission_mode"@[0]
        == 'p' && "session_id"@[0] == 's' && "tool_input"@[0] == 't');
}

proof fn lemma_members(m: Seq<(Seq<char>, JsonValue)>, keys: Seq<Seq<char>>)
    requires
        distinct(keys),
        m.len() <= keys.len(),
        forall|i: int| 0 <= i < m.len() ==> (#[trigger] m[i]).0 == keys[i],
    ensures
        forall|i: int| 0 <= i < m.len() ==> obj(m).get(keys[i]) == Some((#[trigger] m[i]).1),
{
    assert forall|i: int| 0 <= i < m.len() implies obj(m).get(keys[i]) == Some((#[trigger] m[i]).1)
    by {
        assert forall|k: int| 0 <= k < i implies (#[trigger] m[k]).0 != m[i].0 by {
            assert(keys[k] != keys[i]);
        }
        lemma_lookup_at(m, i);
    }
}

/// The payload of a session start says what started it.
pub proof fn law_session_start_payload(
    dialect: HookDialect,
    session_id: &str,
    cwd: &str,
    source: &str,
    model: &str,
    r: Json,
)
    requires
        call_ensures(session_start, (dialect, session_id, cwd, source, model), r),
    ensures
        says_where(r.value(), session_id@, cwd@, "SessionStart"@),
        r.value().get("source"@) == Some(JsonValue::Str(source@)),
        dialect == HookDialect::Codex ==> says_model(r.value(), model@, None),
        dialect == HookDialect::ClaudeCode ==> r.value().get("transcript_path"@) == Some(
            JsonValue::Str(""@),
        ),
{
    let codex = dialect == HookDialect::Codex;
    lemma_payload_keys(codex, false);
    let keys = payload_keys(codex, false, seq!["source"@]);
    let m = r.value()->Object_0;
    lemma_members(m, keys);
    assert(keys[0] == "session_id"@ && keys[1] == "transcript_path"@ && keys[2] == "cwd"@ && keys[3]
        == "hook_event_name"@);
    assert(obj(m).get(keys[0]) == Some(m[0].1) && obj(m).get(keys[1]) == Some(m[1].1) && obj(
        m,
    ).get(keys[2]) == Some(m[2].1) && obj(m).get(keys[3]) == Some(m[3].1));
    let n = m.len() - 1;
    assert(keys[n] == "source"@);
    assert(obj(m).get(keys[n]) == Some(m[n].1));
    if codex {
        assert(keys[4] == "model"@ && keys[5] == "permission_mode"@);
        assert(obj(m).get(keys[4]) == Some(m[4].1) && obj(m).get(keys[5]) == Some(m[5].1));
    }
}

/// The payload of a prompt says the prompt.
pub proof fn law_prompt_payload(
    dialect: HookDialect,
    session_id: &str,
    cwd: &str,
    prompt: &str,
    model: &str,
    turn: u64,
    r: Json,
)
    requires
        call_ensures(prompt_submit, (dialect, session_id, cwd, prompt, model, turn), r),
    ensures
        says_where(r.value(), session_id@, cwd@, "UserPromptSubmit"@),
        r.value().get("prompt"@) == Some(JsonValue::Str(prompt@)),
        dialect == HookDialect::Codex ==> says_model(r.value(), model@, Some(turn)),
{
    let codex = dialect == HookDialect::Codex;
    lemma_payload_keys(codex, codex);
    let keys = payload_keys(codex, codex, seq!["prompt"@]);
    let m = r.value()->Object_0;
    lemma_members(m, keys);
    assert(keys[0] == "session_id"@ && keys[1] == "transcript_path"@ && keys[2] == "cwd"@ && keys[3]
        == "hook_event_name"@);
    assert(obj(m).get(keys[0]) == Some(m[0].1) && obj(m).get(keys[1]) == Some(m[1].1) && obj(
        m,
    ).get(keys[2]) == Some(m[2].1) && obj(m).get(keys[3]) == Some(m[3].1));
    let n = m.len() - 1;
    assert(keys[n] == "prompt"@);
    assert(obj(m).get(keys[n]) == Some(m[n].1));
    if codex {
        assert(keys[4] == "model"@ && keys[5] == "permission_mode"@ && keys[6] == "turn_id"@);
        assert(obj(m).get(keys[4]) == Some(m[4].1) && obj(m).get(keys[5]) == Some(m[5].1) && obj(
            m,
        ).get(keys[6]) == Some(m[6].1));
    }
}

/// The payload of a stop says that no stop hook is active.
pub proof fn law_stop_payload(
    dialect: HookDialect,
    session_id: &str,
    cwd: &str,
    model: &str,
    turn: u64,
    r: Json,
)
    requires
        call_ensures(stop, (dialect, session_id, cwd, model, turn), r),
    ensures
        says_where(r.value(), session_id@, cwd@, "Stop"@),
        r.value().get("stop_hook_active"@) == Some(JsonValue::Bool(false)),
        dialect == HookDialect::Codex ==> says_model(r.value(), model@, Some(turn)),
{
    let codex = dialect == HookDialect::Codex;
    lemma_payload_keys(codex, codex);
    let keys = payload_keys(codex, codex, seq!["stop_hook_active"@, "last_assistant_message"@]);
    let m = r.value()->Object_0;
    lemma_members(m, keys);
    assert(keys[0] == "session_id"@ && keys[1] == "transcript_path"@ && keys[2] == "cwd"@ && keys[3]
        == "hook_event_name"@);
    assert(obj(m).get(keys[0]) == Some(m[0].1) && obj(m).get(keys[1]) == Some(m[1].1) && obj(
        m,
    ).get(keys[2]) == Some(m[2].1) && obj(m).get(keys[3]) == Some(m[3].1));
    if codex {
        assert(keys[4] == "model"@ && keys[5] == "permission_mode"@ && keys[6] == "turn_id"@
            && keys[7] == "stop_hook_active"@);
        assert(obj(m).get(keys[4]) == Some(m[4].1) && obj(m).get(keys[5]) == Some(m[5].1) && obj(
            m,
        ).get(keys[6]) == Some(m[6].1) && obj(m).get(keys[7]) == Some(m[7].1));
    } else {
        assert(keys[4] == "stop_hook_active"@);
        assert(obj(m).get(keys[4]) == Some(m[4].1));
    }
}

/// The payloads before and after a tool call say the same of the call; the one
/// after it says the response too.
pub proof fn law_tool_payloads(
    dialect: HookDialect,
    session_id: &str,
    cwd: &str,
    tool_name: &str,
    tool_use_id: &str,
    arguments: &Json,
    tool_response: &str,
    model: &str,
    turn: u64,
    pre: Json,
    post: Json,
)
    requires
        call_ensures(
            pre_tool_use,
            (dialect, session_id, cwd, tool_name, tool_use_id, arguments, model, turn),
            pre,
        ),
        call_ensures(
            post_tool_use,
            (dialect, session_id, cwd, tool_name, tool_use_id, arguments, tool_response, model, turn),
            post,
        ),
    ensures
        says_where(pre.value(), session_id@, cwd@, "PreToolUse"@),
        says_where(post.value(), session_id@, cwd@, "PostToolUse"@),
        says_tool(pre.value(), dialect, tool_name@, tool_use_id@, arguments.value()),
        says_tool(post.value(), dialect, tool_name@, tool_use_id@, arguments.value()),
        post.value().get("tool_response"@) == Some(JsonValue::Str(tool_response@)),
        dialect == HookDialect::Codex ==> says_model(pre.value(), model@, Some(turn)) && says_model(
            post.value(),
            model@,
            Some(turn),
        ),
{
    let a = pre.value()->Object_0;
    let b = post.value()->Object_0;
    lemma_tool_payload(
        dialect,
        session_id@,
        cwd@,
        "PreToolUse"@,
        tool_name@,
        tool_use_id@,
        arguments.value(),
        model@,
        turn,
        a,
    );
    lemma_tool_payload(
        dialect,
        session_id@,
        cwd@,
        "PostToolUse"@,
        tool_name@,
        tool_use_id@,
        arguments.value(),
        model@,
        turn,
        b,
    );
    let codex = dialect == HookDialect::Codex;
    lemma_payload_keys(codex, codex);
    let keys = payload_keys(
        codex,
        codex,
        seq!["tool_name"@, "tool_input"@, "tool_use_id"@, "tool_response"@],
    );
    lemma_members(b, keys);
    let n = b.len() - 1;
    assert(keys[n] == "tool_response"@);
    assert(obj(b).get(keys[n]) == Some(b[n].1));
}

proof fn lemma_tool_payload(
    dialect: HookDialect,
    session_id: Seq<char>,
    cwd: Seq<char>,
    event: Seq<char>,
    tool_name: Seq<char>,
    tool_use_id: Seq<char>,
    arguments: JsonValue,
    model: Seq<char>,
    turn: u64,
    m: Seq<(Seq<char>, JsonValue)>,
)
    requires
        ({
            let t = tool_members(
                dialect,
                session_id,
                cwd,
                event,
                tool_name,
                tool_use_id,
                arguments,
                model,
                turn,
            );
            m == t || exists|x: JsonValue| m == #[trigger] t.push(("tool_response"@, x))
        }),
    ensures
        says_where(obj(m), session_id, cwd, event),
        says_tool(obj(m), dialect, tool_name, tool_use_id, arguments),
        dialect == HookDialect::Codex ==> says_model(obj(m), model, Some(turn)),
{
    let codex = dialect == HookDialect::Codex;
    lemma_payload_keys(codex, codex);
    let keys = payload_keys(
        codex,
        codex,
        seq!["tool_name"@, "tool_input"@, "tool_use_id"@, "tool_response"@],
    );
    lemma_members(m, keys);
    assert(keys[0] == "session_id"@ && keys[1] == "transcript_path"@ && keys[2] == "cwd"@ && keys[3]
        == "hook_event_name"@);
    assert(obj(m).get(keys[0]) == Some(m[0].1) && obj(m).get(keys[1]) == Some(m[1].1) && obj(
        m,
    ).get(keys[2]) == Some(m[2].1) && obj(m).get(keys[3]) == Some(m[3].1));
    if codex {
        assert(keys[4] == "model"@ && keys[5] == "permission_mode"@ && keys[6] == "turn_id"@
            && keys[7] == "tool_name"@ && keys[8] == "tool_input"@ && keys[9] == "tool_use_id"@);
        assert(obj(m).get(keys[4]) == Some(m[4].1) && obj(m).get(keys[5]) == Some(m[5].1) && obj(
            m,
        ).get(keys[6]) == Some(m[6].1) && obj(m).get(keys[7]) == Some(m[7].1) && obj(m).get(
            keys[8],
        ) == Some(m[8].1) && obj(m).get(keys[9]) == Some(m[9].1));
        let c = seq![("command"@, text(text_field(arguments, "command"@)))];
        lemma_lookup_at(c, 0);
    } else {
        assert(keys[4] == "tool_name"@ && keys[5] == "tool_input"@ && keys[6] == "tool_use_id"@);
        assert(obj(m).get(keys[4]) == Some(m[4].1) && obj(m).get(keys[5]) == Some(m[5].1) && obj(
            m,
        ).get(keys[6]) == Some(m[6].1));
    }
}

/// What a hook reads is the payload in UTF-8; the one dialect has an end of
/// line behind it, the other has not.
pub proof fn law_hooks_read_their_payload(payload: &str, claude: Vec<u8>, codex: Vec<u8>)
    requires
        call_ensures(serialize_stdin, (HookDialect::ClaudeCode, payload), claude),
        call_ensures(serialize_stdin, (HookDialect::Codex, payload), codex),
    ensures
        codex@ == encode_utf8(payload@),
        claude@ == codex@.push(10u8),
{
    assert(claude@ =~= codex@.push(10u8));
}

} // verus!
