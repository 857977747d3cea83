use dsh_desktop::attachments::ImageAttachmentLimits;
use dsh_desktop::json::{Json, Number};
use dsh_desktop::ask::ReplyResult;
use dsh_desktop::shell::bridge::{
    enter_pressed, pump_step, pumps_on, Entered, PumpStep, Received,
};
use dsh_desktop::shell::frames::{Effect, Frame, HostRead};
use dsh_desktop::shell::state::{
    ChatNode, ChatState, HostInfo, PendingApproval, PendingAsk, PendingPlan, Question, QuestionOption,
    SessionSummary,
};
use dsh_desktop::shell::store::{
    AppStore, CallOutcome, CfgChange, HeroMenu, PanelTab, SessionCfg,
};
use dsh_desktop::shell::statusbar::BillingBadge;
use dsh_desktop::subagents::JobDot;
use dsh_desktop::viewer::{
    plan_viewer, viewer_pointer, Shown, ViewerFacts, ViewerPlan, ViewerPointer,
};

fn convert(v: &serde_json::Value) -> Json {
    match v {
        serde_json::Value::Null => Json::Null,
        serde_json::Value::Bool(b) => Json::Bool(*b),
        serde_json::Value::Number(n) => Json::Number(if let Some(u) = n.as_u64() {
            Number::Unsigned(u)
        } else if let Some(i) = n.as_i64() {
            Number::Negative(i)
        } else {
            Number::Float(n.as_f64().unwrap().to_bits())
        }),
        serde_json::Value::String(s) => Json::Str(s.clone()),
        serde_json::Value::Array(a) => Json::Array(a.iter().map(convert).collect()),
        serde_json::Value::Object(o) => {
            Json::Object(o.iter().map(|(k, v)| (k.clone(), convert(v))).collect())
        }
    }
}

fn json(text: &str) -> Json {
    convert(&serde_json::from_str(text).unwrap())
}

fn session(id: &str, parent: Option<&str>, origin: Option<&str>) -> SessionSummary {
    SessionSummary {
        session_id: id.into(),
        parent_session_id: parent.map(String::from),
        origin: origin.map(String::from),
        running: false,
        updated_at: 0,
    }
}

fn store(sessions: Vec<SessionSummary>) -> AppStore {
    let info = HostInfo {
        version: "1".into(),
        model: None,
        presets: vec![json(r#"{"id":"standard","name":"标准"}"#)],
        workspaces: vec!["main".into(), "other".into()],
    };
    let limits = ImageAttachmentLimits {
        max_images_per_message: 20,
        max_message_image_bytes: 20 * 1_048_576,
        max_image_bytes: 3_670_016,
        max_image_dimension: 4096,
    };
    AppStore::new(info, sessions, limits, Json::Null)
}

fn current() -> AppStore {
    let mut s = store(vec![session("s1", None, None)]);
    s.state.current_id = Some("s1".into());
    s
}

fn question(id: &str, multi: bool) -> Question {
    let option = |label: &str| QuestionOption {
        label: label.into(),
        description: None,
    };
    Question {
        id: id.into(),
        header: None,
        question: format!("{id}?"),
        options: Some(vec![option("A"), option("B")]),
        multi_select: Some(multi),
    }
}

fn answer_of(r: &ReplyResult) -> &Json {
    match r {
        ReplyResult::Answer(j) => j,
        ReplyResult::Refusal { .. } => panic!(),
    }
}

#[test]
fn a_new_window_shows_the_first_workspace() {
    let s = store(vec![session("s1", None, None), session("s2", None, None)]);
    assert_eq!(s.state.active_workspace.as_deref(), Some("main"));
    assert_eq!(s.first_session().map(|x| x.as_str()), Some("s1"));
    assert!(s.hero());
    assert!(s.state.current_id.is_none());
}

#[test]
fn running_sessions_keep_the_clock_ticking() {
    let mut s = current();
    assert!(!s.is_running("s1"));
    assert!(!s.sync_run_tick());
    s.state.running_by_id.insert("s1", true);
    assert!(s.is_running("s1"));
    assert!(!s.hero());
    assert!(s.sync_run_tick());
    assert!(!s.sync_run_tick());
    s.state.running_by_id.insert("s1", false);
    assert!(!s.sync_run_tick());
    assert!(!s.run_ticking);
}

#[test]
fn settings_of_a_session_have_defaults() {
    let mut s = current();
    let d = s.current_cfg_or_default();
    assert_eq!(d.model, "deepseek-chat");
    assert_eq!(d.permission, "workspace-write");
    assert_eq!(d.effort.as_deref(), Some("high"));
    assert_eq!(d.preset, "standard");
    assert_eq!(s.preset_label("standard"), "标准");
    assert_eq!(s.preset_label("x"), "x");
    let cfg = SessionCfg {
        model: "m".into(),
        permission: "read-only".into(),
        effort: None,
        preset: "p".into(),
    };
    s.refresh_session_cfg("s1", cfg);
    assert_eq!(s.current_cfg_or_default().model, "m");
    let r = s.set_session_effort("low").unwrap();
    assert_eq!(r.session_id, "s1");
    assert_eq!(r.change, CfgChange::Effort("low".into()));
    assert_eq!(
        s.set_session_model("n").unwrap().change,
        CfgChange::Model("n".into())
    );
    assert_eq!(
        s.set_session_preset("n").unwrap().change,
        CfgChange::Preset("n".into())
    );
    let (ws, r) = s.set_session_provider_model("n", &vec!["main".to_string()]);
    assert_eq!(ws.as_deref(), Some("main"));
    assert!(r.is_some());
    assert!(store(Vec::new()).set_session_effort("low").is_none());
}

#[test]
fn a_refused_setting_becomes_a_notice() {
    let mut s = current();
    s.mutate_session_cfg(Err("busy".into()));
    let chat = s.state.chats.get("s1").unwrap();
    assert_eq!(
        chat.nodes,
        vec![ChatNode::Notice {
            key: "notice-local-1".into(),
            text: "切换失败:busy".into()
        }]
    );
    assert!(!s.is_blank("s1"));
    s.push_local_notice("again");
    assert_eq!(s.state.chats.get("s1").unwrap().nodes[1].key(), "notice-local-2");
}

#[test]
fn a_refused_permission_is_undone() {
    let mut s = current();
    let request = s.set_session_permission("full-access", "read-only").unwrap();
    assert_eq!(request.permission, "full-access");
    assert_eq!(s.current_cfg_or_default().permission, "full-access");
    let prior = request.prior.clone();
    s.permission_outcome(&request, CallOutcome::Failed("no".into()));
    assert_eq!(s.current_cfg_or_default().permission, prior);
    s.apply_permission_echo("workspace-write");
    assert_eq!(s.current_cfg_or_default().permission, "workspace-write");
}

#[test]
fn plan_mode_is_undone_where_the_host_refuses() {
    let mut s = current();
    assert!(store(Vec::new()).apply_plan_mode(true).is_none());
    s.state.chats.insert("s1", ChatState::new());
    let r = s.apply_plan_mode(true).unwrap();
    assert_eq!(r.mode, "plan");
    assert!(!r.prior);
    assert!(s.state.chats.get("s1").unwrap().plan_mode);
    s.plan_mode_outcome(&r, CallOutcome::Failed("no".into()));
    assert!(!s.state.chats.get("s1").unwrap().plan_mode);
    let r = s.apply_plan_mode(true).unwrap();
    s.plan_mode_outcome(&r, CallOutcome::Done);
    assert_eq!(s.exit_plan_mode().unwrap().mode, "standard");
}

#[test]
fn menus_exclude_each_other_and_close() {
    let mut s = current();
    s.set_hero_menu(HeroMenu::Preset);
    assert_eq!(s.hero_menu, HeroMenu::Preset);
    s.set_hero_menu(HeroMenu::Preset);
    assert_eq!(s.hero_menu, HeroMenu::Closed);
    s.set_hero_menu(HeroMenu::Workspace);
    s.open_billing_card();
    s.open_panel_plus_menu_at();
    s.close_all_menus();
    assert_eq!(s.hero_menu, HeroMenu::Closed);
    assert!(!s.billing_card_open);
    s.toggle_sidebar();
    assert!(s.sidebar_collapsed);
}

#[test]
fn panel_pages_open_once() {
    let mut s = current();
    assert!(s.open_panel_tab(PanelTab::Files, true).is_none());
    assert!(s.open_panel_tab(PanelTab::Trajectory, true).is_some());
    assert!(s.trajectory_visible());
    assert!(s.open_panel_tab(PanelTab::Trajectory, true).is_none());
    assert_eq!(s.panel_tabs, vec![PanelTab::Files, PanelTab::Trajectory]);
    s.close_panel_tab(PanelTab::Trajectory);
    assert_eq!(s.panel_tabs, vec![PanelTab::Files]);
    assert!(!s.trajectory_visible());
}

#[test]
fn frames_of_other_sessions_are_left_alone() {
    let mut s = current();
    let f = |id: &str, kind: &str| Frame {
        method: "session/event".into(),
        payload: json(&format!(
            r#"{{"sessionId":"{id}","event":{{"type":"{kind}","data":{{"mode":"read-only",
                "content":[{{"attachment":{{"attachmentId":"img"}}}}]}}}}}}"#
        )),
    };
    let p = s.apply_frame(&f("s2", "turn/end"), true).unwrap();
    assert!(!p.touches_current && !p.billing_due && p.images.is_empty());
    let p = s.apply_frame(&f("s1", "turn/end"), true).unwrap();
    assert!(p.touches_current && p.billing_due && !p.trajectory_live);
    assert_eq!(p.images, vec!["img".to_string()]);
    let version = s.chat.chat_version;
    let after = s.finish_frame(&p, true);
    assert!(after.billing && after.refresh.is_none());
    assert_eq!(s.chat.chat_version, version + 1);
    assert_eq!(s.current_cfg_or_default().permission, "workspace-write");
    s.apply_frame(&f("s2", "sandbox/mode"), true).unwrap();
    assert_eq!(s.current_cfg_or_default().permission, "workspace-write");
    s.apply_frame(&f("s1", "sandbox/mode"), true).unwrap();
    assert_eq!(s.current_cfg_or_default().permission, "read-only");
}

#[test]
fn reports_of_tool_servers_are_kept() {
    let mut s = current();
    let f = Frame {
        method: "mcp/status".into(),
        payload: json(r#"{"server":"x","status":"failed","error":"boom"}"#),
    };
    assert!(s.apply_frame(&f, true).is_none());
    assert_eq!(
        s.settings.settings_notice,
        Some((false, "MCP server「x」连接失败:boom".to_string()))
    );
    assert_eq!(s.settings.mcp_status_by_id.get("x").unwrap().0, "failed");
}

#[test]
fn effects_ask_the_host() {
    let mut s = current();
    assert_eq!(s.run_effect(Effect::Sessions), vec![HostRead::Sessions]);
    assert_eq!(
        s.run_effect(Effect::HostInfo),
        vec![HostRead::HostInfo, HostRead::Workspaces]
    );
    assert_eq!(
        s.run_effect(Effect::Stats("s1".into())),
        vec![HostRead::Stats("s1".into()), HostRead::Branches]
    );
    assert_eq!(
        s.run_effect(Effect::StatsUpsert("s1".into(), Json::Null)),
        vec![HostRead::Branches]
    );
    assert!(s.stats_by_id.contains_key("s1"));
    s.refresh_stats_sync("s2", Some(Json::Null));
    assert!(s.stats_by_id.contains_key("s2"));
}

#[test]
fn a_plan_is_answered_with_the_label_of_its_option() {
    let mut s = current();
    let plan = || PendingPlan {
        rpc_id: "r".into(),
        session_id: "s1".into(),
        question: question("q", false),
    };
    s.state.pending_plan = Some(plan());
    let r = s.answer_plan(true).unwrap();
    assert_eq!(r.rpc_id, "r");
    let doc = answer_of(&r.result);
    assert_eq!(doc.get("sessionId"), Some(&Json::Str("s1".into())));
    assert_eq!(
        doc.get("answer"),
        Some(&json(r#"{"answers":[{"id":"q","selected":["A"]}]}"#))
    );
    assert!(s.answer_plan(true).is_none());
    s.state.pending_plan = Some(plan());
    s.select_plan_option(false);
    s.ensure_plan_decline_input();
    s.ask.plan_decline_input = Some("  more tests ".into());
    let r = s.submit_plan_selection().unwrap();
    let a = answer_of(&r.result).get("answer").unwrap();
    let first = &a.items_at("answers").unwrap()[0];
    assert_eq!(first.get("custom"), Some(&Json::Str("more tests".into())));
    assert_eq!(
        first.items_at("selected"),
        Some(&vec![Json::Str("B".into())])
    );
    assert!(s.ask.plan_selection.is_none());
    s.state.pending_plan = Some(plan());
    let r = s.dismiss_plan().unwrap();
    assert!(matches!(r.result, ReplyResult::Refusal { .. }));
    assert!(s.submit_plan_selection().is_none());
}

#[test]
fn a_tool_call_is_allowed_or_rejected() {
    let mut s = current();
    assert!(s.answer_approval(true).is_none());
    let pending = || PendingApproval {
        rpc_id: "r".into(),
        session_id: "s1".into(),
    };
    s.state.pending_approval = Some(pending());
    let r = s.answer_approval(true).unwrap();
    let a = answer_of(&r.result).get("answer").unwrap();
    assert_eq!(a.get("approved"), Some(&Json::Bool(true)));
    s.state.pending_approval = Some(pending());
    assert!(matches!(
        s.dismiss_approval().unwrap().result,
        ReplyResult::Refusal { .. }
    ));
    assert!(s.state.pending_approval.is_none());
}

fn asking() -> AppStore {
    let mut s = current();
    s.enter_ask(PendingAsk {
        rpc_id: "r".into(),
        session_id: "s1".into(),
        questions: vec![question("one", false), question("many", true)],
    });
    s
}

#[test]
fn one_option_and_a_text_exclude_each_other() {
    let mut s = asking();
    s.toggle_ask_option("A");
    s.toggle_ask_option("B");
    let c = s.ask_card().unwrap();
    assert_eq!(c.question, "one?");
    assert!(!c.options[0].selected && c.options[1].selected);
    s.set_ask_custom("mine");
    let c = s.ask_card().unwrap();
    assert!(!c.options[1].selected);
    assert_eq!(c.custom, "mine");
    let p = c.pager.unwrap();
    assert_eq!(p.text, "1/2");
    assert_eq!((p.previous, p.following), (None, Some(1)));
}

#[test]
fn several_options_are_toggled() {
    let mut s = asking();
    s.set_ask_index(9);
    s.toggle_ask_option("A");
    s.toggle_ask_option("B");
    s.toggle_ask_option("A");
    let c = s.ask_card().unwrap();
    assert!(c.multi);
    assert!(!c.options[0].selected && c.options[1].selected);
    let mut last = None;
    for _ in 0..3 {
        if let Some(r) = s.submit_ask() {
            last = Some(r);
        }
    }
    let r = last.unwrap();
    let answers = answer_of(&r.result)
        .get("answer")
        .unwrap()
        .items_at("answers")
        .unwrap();
    assert_eq!(answers.len(), 2);
    assert_eq!(
        answers[1].items_at("selected"),
        Some(&vec![Json::Str("B".into())])
    );
    assert!(s.ask_card().is_none());
}

#[test]
fn questions_are_cancelled_and_skipped() {
    let mut s = asking();
    assert!(matches!(
        s.cancel_ask().unwrap().result,
        ReplyResult::Refusal { .. }
    ));
    assert!(s.cancel_ask().is_none());
    let mut s = asking();
    let mut sent = s.skip_ask();
    if sent.is_none() {
        sent = s.skip_ask();
    }
    assert!(matches!(sent.unwrap().result, ReplyResult::Answer(_)));
}

#[test]
fn subagents_are_listed_after_jobs() {
    let mut s = store(vec![
        session("s1", None, None),
        session("c1", Some("s1"), Some("subagent")),
        session("c2", Some("s1"), Some("subagent")),
    ]);
    s.state.current_id = Some("c1".into());
    s.state.titles.insert("c2", "two".into());
    s.state.jobs_by_id.insert(
        "s1",
        vec![json(
            r#"{"id":"c1","label":"one","status":"running","startedAt":5}"#,
        )],
    );
    assert!(s.current_is_subagent());
    assert_eq!(s.subagent_anchor_of("c1"), "s1");
    assert_eq!(s.subagent_children_of("s1").len(), 2);
    let rows = s.lineage_rows("s1");
    assert_eq!(rows.len(), 2);
    assert_eq!(rows[0].label, "one");
    assert_eq!(rows[0].dot, Some(JobDot::Running));
    assert_eq!(rows[0].started_at, Some(5));
    assert_eq!(rows[1].label, "two");
    assert_eq!(rows[1].dot, None);
    assert_eq!(s.running_subagent_count("s1"), 1);
    assert!(s.sync_lineage_tick());
    assert!(!s.sync_lineage_tick());
    let open = s.subagents.task_bar_open;
    s.toggle_task_bar();
    assert_ne!(s.subagents.task_bar_open, open);
    s.refresh_list(vec![session("s9", None, None)]);
    assert_eq!(s.first_session().map(|x| x.as_str()), Some("s9"));
}

#[test]
fn lost_frames_do_not_end_the_stream() {
    assert_eq!(pump_step(Received::Frame), PumpStep::Forward);
    assert_eq!(pump_step(Received::Lagged), PumpStep::Resync);
    assert_eq!(pump_step(Received::Closed), PumpStep::Stop);
    assert!(pumps_on(PumpStep::Forward, true));
    assert!(!pumps_on(PumpStep::Forward, false));
    assert!(pumps_on(PumpStep::Resync, false));
    assert!(!pumps_on(PumpStep::Stop, true));
}

#[test]
fn enter_sends_what_is_left_of_the_text() {
    assert_eq!(enter_pressed(true, "x"), Entered::Complete);
    assert_eq!(enter_pressed(false, " hi \n\n"), Entered::Send("hi".into()));
    assert_eq!(enter_pressed(false, " \n"), Entered::Nothing);
}

#[test]
fn status_bar_shows_what_is_known_of_the_session() {
    let mut s = current();
    s.settings.settings_snapshot = json(
        r#"{"defaultProvider":"p","providers":[{"id":"p","billing_cache":{"kind":"usage","pct_5h":6,"pct_7d":null}}]}"#,
    );
    let bar = s.status_bar();
    assert_eq!(bar.stats, "");
    assert_eq!(bar.mode.as_deref(), Some("标准"));
    assert_eq!(
        bar.badge,
        Some(BillingBadge::Usage { pct_5h: Some(6), pct_7d: None })
    );
    s.refresh_stats_sync("s1", Some(json(r#"{"turns":2,"steps":3,"llmMs":1500,"inputTokens":860}"#)));
    assert_eq!(
        s.status_bar().stats,
        "2 轮 · 3 步 · LLM 1.5s · 工具调用 — · 首 token 平均 — · 0 tok/s · 缓存命中 0% · 输入 0.9k · 输出 0.0k"
    );
    s.refresh_session_cfg(
        "s1",
        SessionCfg {
            model: "m".into(),
            permission: "read-only".into(),
            effort: None,
            preset: String::new(),
        },
    );
    assert_eq!(s.status_bar().mode, None);
}

#[test]
fn viewer_stands_in_with_the_picture_of_the_card() {
    let opened = ViewerFacts {
        zoomed: false,
        size_known: true,
        rendered: false,
        placeholder: true,
        asked: false,
    };
    assert_eq!(
        plan_viewer(opened),
        ViewerPlan { fits: true, keeps_fit: true, shown: Shown::Placeholder, asks: true }
    );
    let waiting = ViewerFacts { zoomed: true, asked: true, ..opened };
    assert_eq!(
        plan_viewer(waiting),
        ViewerPlan { fits: false, keeps_fit: false, shown: Shown::Placeholder, asks: false }
    );
    let unreadable = ViewerFacts { size_known: false, placeholder: false, ..opened };
    assert_eq!(
        plan_viewer(unreadable),
        ViewerPlan { fits: true, keeps_fit: false, shown: Shown::Blank, asks: true }
    );
    let done = ViewerFacts { rendered: true, ..waiting };
    assert_eq!(plan_viewer(done).shown, Shown::Rendering);
    assert!(!plan_viewer(ViewerFacts { asked: false, ..done }).asks);
    assert_eq!(viewer_pointer(true, true), ViewerPointer::ClosedHand);
    assert_eq!(viewer_pointer(true, false), ViewerPointer::OpenHand);
    assert_eq!(viewer_pointer(false, false), ViewerPointer::Arrow);
}

#[test]
fn leaving_the_plan_mode_tells_the_mode_before() {
    let mut s = current();
    assert!(s.exit_plan_mode().unwrap().prior);
    s.state.chats.insert("s1", ChatState::new());
    assert!(!s.exit_plan_mode().unwrap().prior);
    s.apply_plan_mode(true).unwrap();
    let r = s.exit_plan_mode().unwrap();
    assert!(r.prior);
    s.plan_mode_outcome(&r, CallOutcome::Lost);
    assert!(s.state.chats.get("s1").unwrap().plan_mode);
    assert!(store(Vec::new()).exit_plan_mode().is_none());
}

#[test]
fn a_new_window_has_nothing_open() {
    let s = store(Vec::new());
    assert!(s.attachments.draft_images.is_empty());
    assert!(s.attachments.lightbox.is_none());
    assert!(s.attachments.attachment_toast.is_none());
    assert!(s.ask.ask_state.is_none());
    assert!(s.ask.plan_selection.is_none());
    assert!(s.trajectory.trajectory.records.is_empty());
    assert!(s.trajectory.trajectory_follow);
    assert!(!s.settings.settings_open);
    assert!(s.settings.editing_provider.is_none());
    assert!(s.chat.pinned);
    assert!(!s.chat.composer_menu_open);
    assert!(s.sessions.menu_open_session.is_none());
    assert!(!s.sessions.workspace_menu_open);
    assert!(!s.panel_plus_menu_open);
    assert!(!s.billing_card_open);
    assert!(!s.run_ticking);
    assert!(!s.lineage_ticking);
}
