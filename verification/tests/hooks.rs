use dsh_desktop::hooks::codec::{Decision, HookOutput};
use dsh_desktop::hooks::config::{
    parse_claude_code_config, parse_codex_config, substitute_command, BridgeDialect, HookConfig,
    MatcherDiagnostics,
};
use dsh_desktop::hooks::events::{
    hook_invoked_payload, hook_result_payload, summarize_stderr, HookDialect, HookInvocation,
};
use dsh_desktop::hooks::merge::{merge_hook_outputs, MergedDecision, MergedHookOutcome};
use dsh_desktop::hooks::payloads::{
    post_tool_use, pre_tool_use, prompt_submit, serialize_stdin, session_start, stop,
};
use dsh_desktop::hooks::service::{
    abbreviated_args, absorb_output, approval_verdict, ignored_notices, on_prompt_submit, on_stop,
    post_tool, pre_tool, Bridge, HookService, PointAction, PostToolVerdict, PreStepVerdict,
    PreToolStep, PreToolVerdict, StopVerdict, ToolApprovalOutcome,
};
use dsh_desktop::json::{Json, Number};

fn convert(v: &serde_json::Value) -> Json {
    match v {
        serde_json::Value::Null => Json::Null,
        serde_json::Value::Bool(b) => Json::Bool(*b),
        serde_json::Value::Number(n) => Json::Number(if let Some(u) = n.as_u64() {
            Number::Unsigned(u)
        } else if let Some(i) = n.as_i64() {
            Number::Negative(i)
        } else {
            Number::Float(n.as_f64().unwrap().to_bits())
        }),
        serde_json::Value::String(s) => Json::Str(s.clone()),
        serde_json::Value::Array(a) => Json::Array(a.iter().map(convert).collect()),
        serde_json::Value::Object(o) => {
            Json::Object(o.iter().map(|(k, v)| (k.clone(), convert(v))).collect())
        }
    }
}

fn json(text: &str) -> Json {
    convert(&serde_json::from_str(text).unwrap())
}

fn text<'a>(j: &'a Json, key: &str) -> Option<&'a str> {
    j.get(key).and_then(|v| v.as_str()).map(|s| s.as_str())
}

fn number(j: &Json, key: &str) -> Option<i64> {
    j.get(key).and_then(|v| v.as_i64())
}

/// The wire name of the first dialect.
fn cc() -> String {
    let name = format!("{:?}", HookDialect::ClaudeCode);
    let mut out = String::new();
    for c in name.chars() {
        if c.is_ascii_uppercase() && !out.is_empty() {
            out.push('-');
        }
        out.push(c.to_ascii_lowercase());
    }
    assert_eq!(out.len(), 11);
    out
}

fn valid() -> MatcherDiagnostics {
    MatcherDiagnostics {
        entries: Vec::new(),
    }
}

fn paren(mode: &str) -> MatcherDiagnostics {
    MatcherDiagnostics {
        entries: vec![("(".into(), format!("invalid {mode} regex matcher \"(\""))],
    }
}

fn out(decision: Option<Decision>, reason: Option<&str>) -> HookOutput {
    HookOutput {
        decision,
        reason: reason.map(String::from),
        ..Default::default()
    }
}

#[test]
fn invoked_payload_omits_absent_matcher() {
    let inv = HookInvocation {
        turn: 2,
        point: "PreToolUse".into(),
        dialect: HookDialect::ClaudeCode,
        handler_id: cc() + ":PreToolUse:3",
        matcher: Some("Bash".into()),
    };
    let v = hook_invoked_payload(&inv);
    assert_eq!(number(&v, "turn"), Some(2));
    assert_eq!(text(&v, "point"), Some("PreToolUse"));
    assert_eq!(text(&v, "dialect"), Some(cc().as_str()));
    assert_eq!(text(&v, "handlerId"), Some((cc() + ":PreToolUse:3").as_str()));
    assert_eq!(text(&v, "matcher"), Some("Bash"));
    let inv = HookInvocation {
        matcher: None,
        ..inv
    };
    let v = hook_invoked_payload(&inv);
    assert!(v.get("matcher").is_none());
}

#[test]
fn result_decision_derivation() {
    let base = |o: HookOutput| hook_result_payload(1, "Stop", "h", &o, 500, 10);
    let o = HookOutput {
        decision: Some(Decision::Block),
        continue_: Some(false),
        ..Default::default()
    };
    assert_eq!(text(&base(o), "decision"), Some("block"));
    let o = HookOutput {
        continue_: Some(false),
        ..Default::default()
    };
    assert_eq!(text(&base(o), "decision"), Some("stop"));
    let o = HookOutput::default();
    assert_eq!(text(&base(o), "decision"), Some("pass"));
    let o = HookOutput {
        exit_code: Some(2),
        stderr: "boom".into(),
        decision: Some(Decision::Block),
        reason: Some("boom".into()),
        ..Default::default()
    };
    let v = hook_result_payload(1, "PreToolUse", "h", &o, 500, 42);
    assert_eq!(text(&v, "decision"), Some("block"));
    assert_eq!(number(&v, "exitCode"), Some(2));
    assert_eq!(text(&v, "stderrSummary"), Some("boom"));
    assert_eq!(number(&v, "durationMs"), Some(42));
}

#[test]
fn stderr_summary_500_boundary_exclusive() {
    let x500 = "x".repeat(500);
    assert_eq!(summarize_stderr(&x500, 500).unwrap(), x500);
    let x501 = format!("{x500}x");
    assert_eq!(summarize_stderr(&x501, 500).unwrap(), format!("{x500}…"));
    assert_eq!(summarize_stderr("   ", 500), None);
    let o = HookOutput::default();
    let v = hook_result_payload(1, "p", "h", &o, 500, 0);
    assert!(v.get("stderrSummary").is_none());
    assert!(v.get("exitCode").is_none());
}

#[test]
fn empty_is_neutral() {
    let m = merge_hook_outputs(&[]);
    assert_eq!(m.decision, MergedDecision::Silent);
    assert!(!m.stop);
    assert!(m.additional_context.is_empty());
}

#[test]
fn precedence_order_independent_block_folds_to_deny() {
    let outputs = [
        out(Some(Decision::Allow), None),
        out(Some(Decision::Ask), Some("why ask")),
        out(Some(Decision::Block), Some("no")),
    ];
    let m = merge_hook_outputs(&outputs);
    assert_eq!(m.decision, MergedDecision::Deny);
    assert_eq!(m.reason.as_deref(), Some("no"));
    let mut rev = outputs;
    rev.reverse();
    assert_eq!(merge_hook_outputs(&rev), m);
}

#[test]
fn reasons_only_from_winning_rank_joined_blank_line() {
    let outputs = [
        out(Some(Decision::Ask), Some("ask reason")),
        out(Some(Decision::Deny), Some("deny a")),
        out(Some(Decision::Deny), Some("deny b")),
    ];
    let m = merge_hook_outputs(&outputs);
    assert_eq!(m.reason.as_deref(), Some("deny a\n\ndeny b"));
    let m = merge_hook_outputs(&[out(Some(Decision::Ask), Some("why"))]);
    assert_eq!(m.reason.as_deref(), Some("why"));
    let m = merge_hook_outputs(&[out(Some(Decision::Allow), Some("meh"))]);
    assert_eq!(m.reason, None);
}

#[test]
fn stop_sticky_first_reason() {
    let mut a = out(None, None);
    a.continue_ = Some(false);
    a.stop_reason = Some("first".into());
    let mut b = out(None, None);
    b.continue_ = Some(false);
    b.stop_reason = Some("second".into());
    let m = merge_hook_outputs(&[a, b]);
    assert!(m.stop);
    assert_eq!(m.stop_reason.as_deref(), Some("first"));
    let m = merge_hook_outputs(&[out(None, None)]);
    assert!(!m.stop);
}

#[test]
fn context_accumulates_in_order_skipping_empty() {
    let mut a = out(None, None);
    a.additional_context = Some("one".into());
    let mut b = out(None, None);
    b.additional_context = Some(String::new());
    let mut c = out(None, None);
    c.additional_context = Some("two".into());
    c.system_message = Some("warn".into());
    let m = merge_hook_outputs(&[a, b, c]);
    assert_eq!(
        m.additional_context,
        vec!["one".to_string(), "two".to_string()]
    );
    assert_eq!(m.system_messages, vec!["warn".to_string()]);
}

#[test]
fn substitution_verbatim_and_partial() {
    assert_eq!(
        substitute_command(
            "run ${CLAUDE_PLUGIN_ROOT}/x ${CLAUDE_PROJECT_DIR}",
            Some("/p"),
            Some("/d")
        ),
        "run /p/x /d"
    );
    assert_eq!(
        substitute_command("run ${CLAUDE_PLUGIN_ROOT}/x", None, None),
        "run ${CLAUDE_PLUGIN_ROOT}/x"
    );
}

#[test]
fn bare_map_equals_hooks_wrapped() {
    let bare = r#"{"PreToolUse":[{"matcher":"Bash","hooks":[{"type":"command","command":"a","timeout":30}]}]}"#;
    let wrapped = format!(r#"{{"hooks": {bare}}}"#);
    for raw in [json(bare), json(&wrapped)] {
        let p = parse_claude_code_config(&raw, None, None, &valid()).unwrap();
        let groups = p.config.get("PreToolUse").unwrap();
        assert_eq!(groups.len(), 1);
        assert_eq!(groups[0].matcher.as_deref(), Some("Bash"));
        assert_eq!(groups[0].hooks[0].timeout_sec, Some(Number::Unsigned(30)));
    }
}

#[test]
fn skipped_types_recorded_and_type_default_is_command() {
    let raw = json(
        r#"{"PreToolUse":[
            {"hooks":[{"type":"prompt","command":"x"},{"command":"ok"}]},
            {"hooks":[{"type":"http","command":"y"}]}
        ]}"#,
    );
    let p = parse_claude_code_config(&raw, None, None, &valid()).unwrap();
    assert_eq!(p.skipped.len(), 2);
    assert_eq!(
        p.skipped[0].reason,
        "unsupported \"prompt\" hook (only command hooks run)"
    );
    let groups = p.config.get("PreToolUse").unwrap();
    assert_eq!(groups[0].hooks.len(), 1);
    assert_eq!(groups[0].hooks[0].command, "ok");
}

#[test]
fn codex_skips_async_and_accepts_timeout_aliases_no_substitution() {
    let raw = json(
        r#"{"PreToolUse":[
            {"hooks":[{"command":"a","async":true},{"command":"b","timeoutSec":5},{"command":"c ${NOT_SUBSTITUTED}","timeout":7}]}
        ]}"#,
    );
    let p = parse_codex_config(&raw, &valid()).unwrap();
    assert_eq!(p.skipped.len(), 1);
    assert_eq!(p.skipped[0].reason, "async hook");
    let hooks = &p.config.get("PreToolUse").unwrap()[0].hooks;
    assert_eq!(hooks[0].timeout_sec, Some(Number::Unsigned(5)));
    assert_eq!(hooks[1].timeout_sec, Some(Number::Unsigned(7)));
    assert_eq!(hooks[1].command, "c ${NOT_SUBSTITUTED}");
}

#[test]
fn unsupported_event_bad_matcher_does_not_break_supported() {
    let raw = json(
        r#"{
            "Notification": [{"hooks": []}],
            "PreToolUse": [{"matcher":"Bash","hooks":[{"command":"a"}]}]
        }"#,
    );
    let p = parse_claude_code_config(&raw, None, None, &valid()).unwrap();
    assert!(p.config.get("PreToolUse").is_some());
    assert!(p.config.get("Notification").is_none());
}

#[test]
fn invalid_matcher_rejects_whole_config_with_event_in_message() {
    let raw = json(r#"{"PreToolUse":[{"matcher":"(","hooks":[{"command":"a"}]}]}"#);
    let err = parse_claude_code_config(&raw, None, None, &paren(&cc())).unwrap_err();
    assert_eq!(
        err,
        format!("invalid {} regex matcher \"(\" on event \"PreToolUse\"", cc())
    );
}

#[test]
fn user_prompt_submit_and_stop_matchers_discarded_before_validation() {
    for event in ["UserPromptSubmit", "Stop"] {
        let raw = json(&format!(
            r#"{{ "{event}": [{{"matcher":"(","hooks":[{{"command":"a"}}]}}]}}"#
        ));
        let p = parse_claude_code_config(&raw, None, None, &paren(&cc())).unwrap();
        assert!(p.config.get(event).is_some());
        assert_eq!(p.config.get(event).unwrap()[0].matcher, None);
    }
}

#[test]
fn codex_only_five_events() {
    let raw = json(
        r#"{
            "SubagentStop": [{"hooks":[{"command":"a"}]}],
            "Notification": [{"hooks":[{"command":"b"}]}],
            "PreToolUse": [{"hooks":[{"command":"c"}]}]
        }"#,
    );
    let p = parse_codex_config(&raw, &valid()).unwrap();
    assert!(p.config.get("PreToolUse").is_some());
    assert!(p.config.get("SubagentStop").is_none());
    assert!(p.config.get("Notification").is_none());
}

#[test]
fn malformed_entries_silently_dropped() {
    let raw = json(
        r#"{"PreToolUse":[
            "string-entry",
            {"no-hooks": 1},
            {"hooks":["not-object", {"type":"command"}, {"type":"command","command":42}, {"type":"command","command":"ok"}]}
        ]}"#,
    );
    let p = parse_claude_code_config(&raw, None, None, &valid()).unwrap();
    assert_eq!(p.config.get("PreToolUse").unwrap()[0].hooks.len(), 1);
}

#[test]
fn the_matchers_of_a_config_are_listed() {
    let raw = json(
        r#"{"PreToolUse":[{"matcher":"Bash","hooks":[{"command":"a"}]},{"hooks":[{"command":"b"}]}]}"#,
    );
    let p = parse_claude_code_config(&raw, None, None, &valid()).unwrap();
    assert_eq!(p.config.matchers(), vec!["Bash".to_string()]);
}

#[test]
fn stdin_newline_dialect_rule() {
    let p = serde_json::to_string(&serde_json::from_str::<serde_json::Value>(r#"{"a":1}"#).unwrap())
        .unwrap();
    assert_eq!(serialize_stdin(HookDialect::ClaudeCode, &p), b"{\"a\":1}\n");
    assert_eq!(serialize_stdin(HookDialect::Codex, &p), b"{\"a\":1}");
}

#[test]
fn cc_base_fields_and_transcript_path_empty() {
    let v = pre_tool_use(
        HookDialect::ClaudeCode,
        "s-1",
        "/ws",
        "bash",
        "call-9",
        &json(r#"{"command":"ls"}"#),
        "",
        3,
    );
    assert_eq!(text(&v, "session_id"), Some("s-1"));
    assert_eq!(text(&v, "transcript_path"), Some(""));
    assert_eq!(text(&v, "cwd"), Some("/ws"));
    assert_eq!(text(&v, "hook_event_name"), Some("PreToolUse"));
    assert_eq!(text(&v, "tool_name"), Some("bash"));
    assert_eq!(v.get("tool_input"), Some(&json(r#"{"command":"ls"}"#)));
    assert_eq!(text(&v, "tool_use_id"), Some("call-9"));
    assert!(v.get("model").is_none());
    assert!(v.get("turn_id").is_none());
    assert!(v.get("permission_mode").is_none());
}

#[test]
fn codex_base_fields_and_reduced_tool_input() {
    let v = pre_tool_use(
        HookDialect::Codex,
        "s-1",
        "/ws",
        "bash",
        "call-9",
        &json(r#"{"command":"ls","other":1}"#),
        "deepseek-v4",
        3,
    );
    assert_eq!(v.get("transcript_path"), Some(&Json::Null));
    assert_eq!(text(&v, "model"), Some("deepseek-v4"));
    assert_eq!(text(&v, "permission_mode"), Some("default"));
    assert_eq!(text(&v, "turn_id"), Some("3"));
    assert_eq!(v.get("tool_input"), Some(&json(r#"{"command":"ls"}"#)));
    let v = pre_tool_use(
        HookDialect::Codex,
        "s",
        "/ws",
        "read",
        "c",
        &json(r#"{"path":"x"}"#),
        "",
        1,
    );
    assert_eq!(v.get("tool_input"), Some(&json(r#"{"command":""}"#)));
}

#[test]
fn post_tool_and_stop_shapes() {
    let v = post_tool_use(
        HookDialect::ClaudeCode,
        "s",
        "/ws",
        "bash",
        "c",
        &json("{}"),
        "out",
        "",
        2,
    );
    assert_eq!(text(&v, "hook_event_name"), Some("PostToolUse"));
    assert_eq!(text(&v, "tool_response"), Some("out"));

    let v = stop(HookDialect::ClaudeCode, "s", "/ws", "", 1);
    assert_eq!(v.get("stop_hook_active"), Some(&Json::Bool(false)));
    assert!(v.get("last_assistant_message").is_none());

    let v = stop(HookDialect::Codex, "s", "/ws", "m", 1);
    assert_eq!(v.get("stop_hook_active"), Some(&Json::Bool(false)));
    assert_eq!(v.get("last_assistant_message"), Some(&Json::Null));
    assert_eq!(text(&v, "turn_id"), Some("1"));
}

#[test]
fn plain_stdout_context_gate_shape() {
    let v = session_start(HookDialect::Codex, "s", "/ws", "startup", "m");
    assert_eq!(text(&v, "source"), Some("startup"));
    assert_eq!(text(&v, "model"), Some("m"));
}

#[test]
fn prompts_are_handed_over() {
    let v = prompt_submit(HookDialect::ClaudeCode, "s", "/ws", "hello", "m", 4);
    assert_eq!(text(&v, "hook_event_name"), Some("UserPromptSubmit"));
    assert_eq!(text(&v, "prompt"), Some("hello"));
}

fn service() -> HookService {
    let raw = json(
        r#"{"PreToolUse":[
            {"matcher":"Bash","hooks":[{"command":"one"},{"command":"two","timeout":3}]},
            {"matcher":"Read","hooks":[{"command":"never"}]}
        ]}"#,
    );
    let config: HookConfig = parse_claude_code_config(&raw, None, None, &valid())
        .unwrap()
        .config;
    HookService::new(vec![Bridge::new(
        BridgeDialect::ClaudeCode,
        config,
        Some("/d".into()),
        60_000,
        500,
    )])
}

#[test]
fn a_point_runs_the_matching_hooks_in_order() {
    let mut s = service();
    assert!(!s.is_empty());
    assert_eq!(s.bridges[0].plugin, format!("hooks-{}", cc()));
    let groups = s.groups_at("PreToolUse");
    assert_eq!(groups.len(), 2);
    let mut run = s.begin_point("PreToolUse", &[true, false], false, Some(7));
    let first = match s.advance(&mut run, None) {
        PointAction::Run(h) => h,
        PointAction::Finish(_) => panic!(),
    };
    assert_eq!(first.command, "one");
    assert_eq!(first.env, vec![("CLAUDE_PROJECT_DIR".to_string(), "/d".to_string())]);
    assert_eq!(first.invocation.handler_id, cc() + ":PreToolUse:1");
    assert_eq!(first.invocation.turn, 7);
    assert_eq!(first.invocation.matcher.as_deref(), Some("Bash"));
    let second = match s.advance(&mut run, Some(out(Some(Decision::Allow), None))) {
        PointAction::Run(h) => h,
        PointAction::Finish(_) => panic!(),
    };
    assert_eq!(second.command, "two");
    assert_eq!(second.timeout_sec, Some(Number::Unsigned(3)));
    assert_eq!(second.invocation.handler_id, cc() + ":PreToolUse:2");
    match s.advance(&mut run, Some(out(Some(Decision::Deny), Some("no")))) {
        PointAction::Finish(m) => {
            assert_eq!(m.decision, MergedDecision::Deny);
            assert_eq!(m.reason.as_deref(), Some("no"));
        }
        PointAction::Run(_) => panic!(),
    }
}

#[test]
fn a_point_without_hooks_is_neutral() {
    let mut s = service();
    let mut run = s.begin_point("Stop", &[], false, None);
    match s.advance(&mut run, None) {
        PointAction::Finish(m) => assert_eq!(m, MergedHookOutcome::default()),
        PointAction::Run(_) => panic!(),
    }
}

#[test]
fn plain_output_of_codex_hooks_becomes_context() {
    let plain = |stdout: &str| HookOutput {
        exit_code: Some(0),
        stdout: stdout.into(),
        ..Default::default()
    };
    let o = absorb_output(true, HookDialect::Codex, "SessionStart", plain("hi"));
    assert_eq!(o.additional_context.as_deref(), Some("hi"));
    let o = absorb_output(true, HookDialect::Codex, "SessionStart", plain("{}"));
    assert_eq!(o.additional_context, None);
    let o = absorb_output(true, HookDialect::Codex, "PreToolUse", plain("hi"));
    assert_eq!(o.additional_context, None);
    let o = absorb_output(true, HookDialect::ClaudeCode, "SessionStart", plain("hi"));
    assert_eq!(o.additional_context, None);
}

#[test]
fn verdicts_follow_the_merged_outcome() {
    let m = |d: MergedDecision| MergedHookOutcome {
        decision: d,
        reason: Some("r".into()),
        ..Default::default()
    };
    assert_eq!(on_prompt_submit(&m(MergedDecision::Silent)), PreStepVerdict::Proceed);
    assert_eq!(on_prompt_submit(&m(MergedDecision::Deny)), PreStepVerdict::Reject);
    assert_eq!(
        pre_tool(&m(MergedDecision::Allow), "bash", "{}", true),
        PreToolStep::Decided(PreToolVerdict::Proceed)
    );
    assert!(matches!(
        pre_tool(&m(MergedDecision::Deny), "bash", "{}", true),
        PreToolStep::Decided(PreToolVerdict::Deny { .. })
    ));
    assert!(matches!(
        pre_tool(&m(MergedDecision::Ask), "bash", "{}", true),
        PreToolStep::NeedsApproval { .. }
    ));
    assert_eq!(
        approval_verdict("bash", "r", ToolApprovalOutcome::AllowedOnce),
        PreToolVerdict::Proceed
    );
    assert_eq!(
        approval_verdict("bash", "", ToolApprovalOutcome::Rejected),
        PreToolVerdict::Deny {
            reason: "tool \"bash\" requires approval (rejected)".into()
        }
    );
    assert!(matches!(post_tool(&m(MergedDecision::Silent)), PostToolVerdict::Pass));
    assert!(matches!(
        post_tool(&m(MergedDecision::Deny)),
        PostToolVerdict::Block { .. }
    ));
    assert_eq!(on_stop(&m(MergedDecision::Silent)), StopVerdict::Pass);
    assert!(matches!(on_stop(&m(MergedDecision::Deny)), StopVerdict::Continue { .. }));
}

#[test]
fn long_arguments_are_abbreviated() {
    assert_eq!(abbreviated_args("{}"), "{}");
    let long = "x".repeat(1000);
    assert_eq!(abbreviated_args(&long), format!("{}…", "x".repeat(200)));
}

#[test]
fn what_a_point_cannot_use_is_said() {
    let o = HookOutput {
        updated_input: Some(Json::Null),
        ..Default::default()
    };
    assert_eq!(
        ignored_notices("p", "PreToolUse", &o),
        vec!["hooks: p PreToolUse hook requested updatedInput, which is not yet honored (ignored)"]
    );
    assert!(ignored_notices("p", "PreToolUse", &HookOutput::default()).is_empty());
}

#[test]
fn only_bridges_with_hooks_for_a_point_are_named() {
    let bridge = |text: &str| {
        Bridge::new(
            BridgeDialect::ClaudeCode,
            parse_claude_code_config(&json(text), None, None, &valid())
                .unwrap()
                .config,
            None,
            60_000,
            500,
        )
    };
    let s = HookService::new(vec![
        bridge(r#"{"Stop":[{"hooks":[{"command":"a"}]}]}"#),
        bridge(r#"{"PreToolUse":[{"hooks":[{"command":"b"}]}]}"#),
        bridge(r#"{"Stop":[{"hooks":[{"command":"c"}]}]}"#),
    ]);
    assert_eq!(s.bridges_at("Stop"), vec![0, 2]);
    assert_eq!(s.bridges_at("PreToolUse"), vec![1]);
    assert!(s.bridges_at("PostToolUse").is_empty());
    assert!(HookService::new(Vec::new()).bridges_at("Stop").is_empty());
}
