use dsh_desktop::attachments::ImageAttachmentLimits;
use dsh_desktop::json::{Json, Number};
use dsh_desktop::sessions::{
    group_sessions, row_menu_card, Group, RowAction, RowTail, SidebarView, TreeRow, WsAction,
};
use dsh_desktop::search::preview;
use dsh_desktop::settings::{
    appearance_group, avatar, billing_kind_chips, billing_value_line, dialect_chips,
    full_access_modal, general_section, menu, models_section, provider_delete_modal,
    provider_editor, provider_models_fetch_modal, provider_row_card, relative_time,
    snapshot_options, AddBlock, BillingLine, FullAccessAsk, ModelFetch, ProviderRow, SettingsNav,
    SettingsStore,
};
use dsh_desktop::shell::state::{HostInfo, SessionSummary};
use dsh_desktop::shell::store::{AppStore, PanelTab};
use dsh_desktop::trajectory::{
    InspectTarget, ScrollMove, TrajectoryPage, TrajectoryRecord, TrajectoryRequest,
};

fn convert(v: &serde_json::Value) -> Json {
    match v {
        serde_json::Value::Null => Json::Null,
        serde_json::Value::Bool(b) => Json::Bool(*b),
        serde_json::Value::Number(n) => Json::Number(if let Some(u) = n.as_u64() {
            Number::Unsigned(u)
        } else if let Some(i) = n.as_i64() {
            Number::Negative(i)
        } else {
            Number::Float(n.as_f64().unwrap().to_bits())
        }),
        serde_json::Value::String(s) => Json::Str(s.clone()),
        serde_json::Value::Array(a) => Json::Array(a.iter().map(convert).collect()),
        serde_json::Value::Object(o) => {
            Json::Object(o.iter().map(|(k, v)| (k.clone(), convert(v))).collect())
        }
    }
}

fn json(text: &str) -> Json {
    convert(&serde_json::from_str(text).unwrap())
}

fn session(id: &str, parent: Option<&str>, origin: Option<&str>) -> SessionSummary {
    SessionSummary {
        session_id: id.into(),
        parent_session_id: parent.map(String::from),
        origin: origin.map(String::from),
        running: false,
        updated_at: 0,
    }
}

fn store(sessions: Vec<SessionSummary>) -> AppStore {
    let info = HostInfo {
        version: "1".into(),
        model: None,
        presets: vec![json(r#"{"id":"standard","name":"标准"}"#)],
        workspaces: vec!["main".into(), "other".into()],
    };
    let limits = ImageAttachmentLimits {
        max_images_per_message: 20,
        max_message_image_bytes: 20 * 1_048_576,
        max_image_bytes: 3_670_016,
        max_image_dimension: 4096,
    };
    AppStore::new(info, sessions, limits, Json::Null)
}

fn texts(v: &[&str]) -> Vec<String> {
    v.iter().map(|s| s.to_string()).collect()
}

fn tree() -> AppStore {
    let mut s = store(vec![
        session("a", None, None),
        session("b", None, None),
        session("c", Some("a"), Some("subagent")),
    ]);
    s.state.titles.insert("a", "Alpha".into());
    s.state.titles.insert("b", "Beta".into());
    s.state.current_id = Some("b".into());
    s
}

fn labels(rows: &[TreeRow]) -> Vec<String> {
    rows.iter()
        .map(|r| match r {
            TreeRow::Header(h) => format!("#{}", h.title),
            TreeRow::Session(s) => s.title.clone(),
        })
        .collect()
}

#[test]
fn sessions_stand_under_their_workspaces() {
    let mut s = tree();
    let of = texts(&["main", "new", "main"]);
    let times = texts(&["1", "2", "3"]);
    let rows = s.session_list(&of, &times, "");
    assert_eq!(labels(&rows), texts(&["#main", "Alpha", "#other", "#new", "Beta"]));
    match &rows[4] {
        TreeRow::Session(r) => {
            assert!(r.active && !r.menu_open);
            assert_eq!(r.tail, RowTail::Time("2".into()));
        }
        TreeRow::Header(_) => panic!(),
    }
    s.sessions.collapsed_workspaces.toggle("main");
    s.sessions.workspace_titles.insert("main", "Main".into());
    let rows = s.session_list(&of, &times, "");
    assert_eq!(labels(&rows), texts(&["#Main", "#other", "#new", "Beta"]));
    let rows = s.session_list(&of, &times, "  ALP ");
    assert_eq!(labels(&rows), texts(&["#Main", "Alpha"]));
    let rows = s.session_list(&of, &times, "zzz");
    assert!(rows.is_empty());
}

#[test]
fn grouping_takes_lowered_titles() {
    let sessions = vec![session("a", None, None), session("b", None, None)];
    let groups = group_sessions(
        &texts(&["w"]),
        &sessions,
        &texts(&["w", "x"]),
        &texts(&["alpha", "beta"]),
        "a",
    );
    assert_eq!(
        groups,
        vec![
            Group {
                workspace: "w".into(),
                sessions: vec![0]
            },
            Group {
                workspace: "x".into(),
                sessions: vec![1]
            },
        ]
    );
}

#[test]
fn the_tail_of_a_row_says_what_runs() {
    let mut s = tree();
    s.state
        .jobs_by_id
        .insert("a", vec![json(r#"{"status":"running"}"#), json("{}")]);
    assert_eq!(s.session_row("a", "t").tail, RowTail::Subagents("1 个子代理".into()));
    s.state.running_by_id.insert("a", true);
    assert_eq!(s.session_row("a", "t").tail, RowTail::Running);
    assert!(s.group_header("main", false).active);
}

#[test]
fn menus_of_the_tree() {
    let mut s = tree();
    s.click_row_menu("a");
    assert_eq!(s.sessions.menu_open_session.as_deref(), Some("a"));
    s.click_row_menu("b");
    assert_eq!(s.sessions.menu_open_session.as_deref(), Some("b"));
    s.after_row_action(RowAction::Rename);
    assert!(s.sessions.menu_open_session.is_some());
    s.after_row_action(RowAction::Fork);
    assert!(s.sessions.menu_open_session.is_none());
    s.click_ws_menu("main");
    s.click_ws_menu("main");
    assert!(s.sessions.menu_open_ws.is_none());
    let labels: Vec<&str> = row_menu_card().iter().map(|a| a.label()).collect();
    assert_eq!(labels, ["重命名", "分叉", "归档", "删除", "导出日志"]);
    assert_eq!(s.ws_menu_card("main"), vec![WsAction::Rename, WsAction::MoveDown]);
    assert_eq!(
        s.ws_menu_card("other"),
        vec![WsAction::Rename, WsAction::MoveUp, WsAction::Remove]
    );
    assert_eq!(s.ws_menu_card("gone"), vec![WsAction::Rename, WsAction::Remove]);
    assert_eq!(WsAction::Remove.label(), "移除");
}

#[test]
fn the_sidebar_shows_one_thing() {
    let mut s = tree();
    assert_eq!(s.sidebar_view(false), SidebarView::Tree);
    assert_eq!(s.sidebar_view(true), SidebarView::Hits);
    s.settings.settings_open = true;
    assert_eq!(s.sidebar_view(true), SidebarView::Settings);
    s.toggle_sidebar();
    assert_eq!(s.sidebar_view(true), SidebarView::Hidden);
}

#[test]
fn search_results_have_a_preview() {
    let s = tree();
    let p = s.search_hits_panel(&Vec::new());
    assert_eq!(p.header, "全库检索 · 0 条命中");
    assert_eq!(p.hint.as_deref(), Some("无命中"));
    let hits = vec![json(
        r#"{"sessionId":"a","seq":7,"kind":"user","content":"\n  \nfirst\nsecond"}"#,
    )];
    let p = s.search_hits_panel(&hits);
    assert_eq!(p.header, "全库检索 · 1 条命中");
    assert!(p.hint.is_none());
    assert_eq!(p.rows[0].seq, 7);
    assert_eq!(p.rows[0].title, "Alpha");
    assert_eq!(p.rows[0].text, "[user] first");
    assert_eq!(preview(&"字".repeat(50)), "字".repeat(40));
    assert_eq!(preview(" \n"), "");
}

fn record(index: u64, seq: u64) -> TrajectoryRecord {
    TrajectoryRecord {
        index,
        seq,
        kind: "tool".into(),
        turn: Some(1),
    }
}

fn page(records: Vec<TrajectoryRecord>) -> TrajectoryPage {
    TrajectoryPage {
        records,
        requests: vec![TrajectoryRequest { number: 1 }],
        has_older: true,
        total: 9,
    }
}

#[test]
fn the_trajectory_is_fetched_once_at_a_time() {
    let mut s = tree();
    let r = s.refresh_trajectory(false).unwrap();
    assert_eq!(r.session_id, "b");
    assert_eq!(r.limit, 200);
    assert!(r.before.is_none() && r.session_changed);
    assert!(s.refresh_trajectory(false).is_none());
    s.trajectory_fetched(&r, Some(page(vec![record(5, 50), record(6, 60)])));
    assert!(!s.trajectory.trajectory.loading);
    assert_eq!(s.trajectory.trajectory.records.len(), 2);
    let r = s.load_earlier_trajectory().unwrap();
    assert_eq!(r.limit, 500);
    assert_eq!(r.before, Some(5));
    assert!(s.load_earlier_trajectory().is_none());
    s.earlier_fetched(&r, Some(page(vec![record(4, 40)])));
    let indices: Vec<u64> = s.trajectory.trajectory.records.iter().map(|x| x.index).collect();
    assert_eq!(indices, [4, 5, 6]);
    assert_eq!(s.flush_trajectory_scroll(false), ScrollMove::Stay);
    assert_eq!(s.flush_trajectory_scroll(true), ScrollMove::KeepView);
    assert_eq!(s.flush_trajectory_scroll(false), ScrollMove::ToEnd);
    assert_eq!(s.flush_trajectory_scroll(false), ScrollMove::Stay);
}

#[test]
fn a_tool_call_is_shown_when_it_is_loaded() {
    let mut s = tree();
    assert!(s.inspect_call("note:1", true).is_none());
    let r = s.inspect_call("call:60", true).unwrap();
    assert!(s.trajectory.inspector.is_none());
    s.trajectory_fetched(&r, Some(page(vec![record(5, 50), record(6, 60)])));
    assert_eq!(s.trajectory.inspector, Some(InspectTarget::Record(6)));
    assert!(s.trajectory.inspect_locate.is_none());
    s.set_inspector_tab("raw");
    assert_eq!(s.trajectory.inspector_tab.as_deref(), Some("raw"));
    s.select_trajectory_request(1);
    assert_eq!(s.trajectory.inspector, Some(InspectTarget::Request(1)));
    s.close_inspector();
    assert!(s.trajectory.inspector.is_none());
    s.select_trajectory_record(5);
    assert_eq!(s.trajectory.inspector, Some(InspectTarget::Record(5)));
}

#[test]
fn scrolling_fetches_near_the_top() {
    let mut s = tree();
    let r = s.refresh_trajectory(false).unwrap();
    s.trajectory_fetched(&r, Some(page(vec![record(5, 50)])));
    assert!(s.on_trajectory_scroll(true, false).is_none());
    assert!(s.trajectory.trajectory_follow);
    let r = s.on_trajectory_scroll(false, true).unwrap();
    assert_eq!(r.before, Some(5));
    assert!(!s.trajectory.trajectory_follow);
}

#[test]
fn panel_pages_are_activated_where_they_are_open() {
    let mut s = tree();
    assert!(s.activate_panel_tab(PanelTab::Trajectory, true).is_none());
    assert_eq!(s.panel_active_tab, None);
    let r = s.open_panel_tab(PanelTab::Trajectory, true).unwrap();
    s.trajectory_fetched(&r, Some(page(vec![record(5, 50)])));
    assert!(s.activate_panel_tab(PanelTab::Trajectory, true).is_some());
    assert_eq!(s.panel_active_tab, Some(PanelTab::Trajectory));
    assert!(s.panel_open);
    s.toggle_panel();
    assert!(!s.panel_open);
}

#[test]
fn the_inspector_folds_its_parts() {
    let mut s = tree();
    let thinking = s.trajectory.inspector_raw_thinking;
    s.toggle_inspector_thinking();
    assert_eq!(s.trajectory.inspector_raw_thinking, !thinking);
    s.toggle_inspector_tool("bash");
    assert!(s.trajectory.expanded_inspector_tools.contains("bash"));
    s.toggle_inspector_tool("bash");
    assert!(!s.trajectory.expanded_inspector_tools.contains("bash"));
    s.set_composer_submenu(true);
    assert!(s.chat.composer_submenu_open);
    s.close_composer_menu();
    assert!(!s.chat.composer_submenu_open && !s.chat.composer_menu_open);
}

#[test]
fn folding_and_the_timeline() {
    let mut s = tree();
    s.toggle_turn(3);
    assert!(s.trajectory.collapsed_turns.contains(3));
    s.toggle_turn(3);
    assert!(!s.trajectory.collapsed_turns.contains(3));
    s.toggle_call(4);
    assert!(s.trajectory.collapsed_calls.contains(4));
    s.toggle_all_turns();
    assert!(s.trajectory.all_turns_collapsed);
    s.toggle_json_node("k");
    assert!(s.trajectory.json_expanded.contains("k"));
    s.toggle_trajectory_duration();
    s.begin_timeline_drag(0.5f64.to_bits());
    s.move_timeline_drag(0.25f64.to_bits());
    let d = s.trajectory.timeline_draft.as_ref().unwrap();
    assert_eq!((f64::from_bits(d.from), f64::from_bits(d.to)), (0.25, 0.5));
    s.clear_timeline_drag();
    assert!(s.trajectory.timeline_draft.is_none());
    s.set_timeline_selection(Some((1.0f64.to_bits(), 2.0f64.to_bits())));
    assert!(s.trajectory.timeline_selection.is_some());
}

#[test]
fn times_are_relative() {
    assert_eq!(relative_time(120_000, 0), "2 分钟前");
    assert_eq!(relative_time(0, 5), "0 分钟前");
    assert_eq!(relative_time(2 * 3_600_000, 0), "2 小时前");
    assert_eq!(relative_time(3 * 86_400_000, 0), "3 天前");
}

#[test]
fn billing_lines_of_providers() {
    assert_eq!(
        billing_value_line(&json(r#"{"kind":"balance","amount":"1","currency":"CNY"}"#)),
        Some(BillingLine::Balance {
            amount: "1".into(),
            currency: "CNY".into()
        })
    );
    assert!(matches!(
        billing_value_line(&json(r#"{"kind":"usage","pct_5h":3}"#)),
        Some(BillingLine::Usage { pct_5h: Some(3), .. })
    ));
    assert_eq!(billing_value_line(&Json::Null), None);
    assert_eq!(avatar("deepseek"), "d");
    assert_eq!(avatar(""), "?");
}

fn settings() -> SettingsStore {
    SettingsStore::new(json(
        r#"{"defaultProvider":"p","busyEnter":"queue","appearance":"light",
            "providers":[{"id":"p","display_name":"Pro","base_url":"u","credentialReady":true}]}"#,
    ))
}

#[test]
fn the_models_page_lists_providers() {
    let mut s = settings();
    let page = models_section(&s, 0);
    assert_eq!(page.rows.len(), 1);
    assert!(page.hint.is_none());
    match &page.rows[0] {
        ProviderRow::Card(c) => {
            assert_eq!((c.name.as_str(), c.base_url.as_str()), ("Pro", "u"));
            assert!(c.credential_ready && c.is_default && !c.open);
        }
        ProviderRow::Setup(_) => panic!(),
    }
    assert_eq!(page.add_block, AddBlock::Button("添加 Provider".into()));
    s.adding_provider = true;
    match models_section(&s, 0).add_block {
        AddBlock::Card { id_label, editor } => {
            assert_eq!(id_label, "Provider ID(小写/连字符)");
            assert_eq!(editor, provider_editor(&s, "", false));
            assert_eq!(editor.selector, "provider-editor");
        }
        AddBlock::Button(_) => panic!(),
    }
    s.set_settings_notice(true, "done");
    assert_eq!(models_section(&s, 0).notice.as_deref(), Some("✓ done"));
    s.editing_provider = Some("p".into());
    let p = json(r#"{"id":"p"}"#);
    assert!(provider_row_card(&s, &p, 0).open);
    assert!(models_section(&SettingsStore::new(Json::Null), 0).hint.is_some());
}

#[test]
fn forms_and_dialogs_of_the_settings() {
    let mut s = settings();
    let editor = provider_editor(&s, "p", false);
    assert!(!editor.fields.is_empty());
    assert!(editor.billing.is_none());
    s.form.billing_enabled = true;
    assert!(provider_editor(&s, "p", false).billing.is_some());
    assert!(provider_models_fetch_modal(&s).is_none());
    s.model_fetch = Some(ModelFetch {
        candidates: texts(&["m", "n"]),
        picked: vec![true, false],
    });
    let modal = provider_models_fetch_modal(&s).unwrap();
    assert_eq!(
        modal.rows,
        vec![("m".to_string(), true), ("n".to_string(), false)]
    );
    assert!(provider_delete_modal(&s).is_none());
    s.delete_provider_target = Some("p".into());
    assert!(provider_delete_modal(&s).is_some());
    assert!(full_access_modal(&s).is_none());
    s.full_access_confirm = Some(FullAccessAsk::Session);
    assert!(!full_access_modal(&s).unwrap().risks.is_empty());
    let nav = menu(SettingsNav::General);
    assert_eq!(nav.iter().filter(|n| n.active).count(), 1);
}

#[test]
fn choices_mark_the_one_in_force() {
    for chips in [
        dialect_chips("openai"),
        billing_kind_chips("usage"),
        appearance_group("light"),
    ] {
        assert!(chips.len() > 1);
        assert!(chips.iter().filter(|c| c.active).count() <= 1);
    }
    assert!(appearance_group("light").iter().any(|c| c.active && c.value == "light"));
    let options = snapshot_options(Some(&json(r#"[{"id":"a","name":"A"},{"id":"b"}]"#)));
    assert_eq!(options[0], ("a".to_string(), "A".to_string()));
    assert!(snapshot_options(None).is_empty());
    let page = general_section(&settings().settings_snapshot);
    assert!(page.appearances.iter().any(|c| c.active && c.value == "light"));
}
