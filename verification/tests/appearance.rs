use dsh_desktop::icons::{
    all_icons, fixed, lowered_model_icon, model_icon, model_path, permission_icon, permission_path,
    tool_icon, tool_path, DshIcon, MergedAssets,
};
use dsh_desktop::state_dot::matrix_cells;
use dsh_desktop::theme::{
    component_colours, current_appearance, is_dark, palette_of, Appearance, Colour, Forced,
    ThemeState, BASE, CODE, INK, LABEL_2, TICK_IDLE, TRANSPARENT,
};

#[test]
fn dsh_icon_paths_all_embedded() {
    let all = [
        DshIcon::Sparkles,
        DshIcon::Zap,
        DshIcon::Brain,
        DshIcon::Gauge,
        DshIcon::Shield,
        DshIcon::ShieldAlert,
        DshIcon::ShieldCheck,
        DshIcon::Pencil,
        DshIcon::GitBranch,
        DshIcon::Archive,
        DshIcon::ListChecks,
        DshIcon::MessageSquare,
        DshIcon::Logo,
        DshIcon::Download,
        DshIcon::Clock,
        DshIcon::Code,
        DshIcon::CircleHelp,
        DshIcon::Target,
        DshIcon::Briefcase,
        DshIcon::Workflow,
        DshIcon::Infinity,
        DshIcon::Monitor,
        DshIcon::AgentPreset,
        DshIcon::RefreshCw,
        DshIcon::Wrench,
        DshIcon::Paperclip,
    ];
    let table = all_icons();
    for icon in all {
        let p = icon.path();
        assert!(table.iter().any(|i| i.path() == p), "{icon:?} {p:?}");
        assert_eq!(MergedAssets.load(&p), Some(icon));
    }
    for i in table {
        assert!(all.contains(&i), "{i:?}");
    }
}

#[test]
fn tool_icon_covers_all_spec_tools() {
    let expected: &[(&str, &str)] = &[
        ("bash", "icons/square-terminal.svg"),
        ("file_read", "icons/book-open.svg"),
        ("file_edit", "icons/_dsh/pencil.svg"),
        ("file_search", "icons/search.svg"),
        ("todo_write", "icons/_dsh/list-checks.svg"),
        ("exit_plan_mode", "icons/_dsh/list-checks.svg"),
        ("goal", "icons/_dsh/target.svg"),
        ("jobs", "icons/_dsh/briefcase.svg"),
        ("workflow", "icons/_dsh/workflow.svg"),
        ("ralph", "icons/_dsh/infinity.svg"),
        ("subagent", "icons/bot.svg"),
        ("subagent_list", "icons/gallery-vertical-end.svg"),
        ("read", "icons/book-open.svg"),
        ("web_fetch", "icons/book-open.svg"),
        ("edit", "icons/_dsh/pencil.svg"),
        ("write", "icons/_dsh/pencil.svg"),
        ("grep", "icons/search.svg"),
        ("glob", "icons/search.svg"),
        ("web_search", "icons/globe.svg"),
        ("ask", "icons/_dsh/circle-help.svg"),
        ("code", "icons/_dsh/code.svg"),
        ("mystery-tool", "icons/_dsh/sparkles.svg"),
    ];
    for (name, path) in expected {
        assert_eq!(tool_path(name), *path, "{name}");
    }
}

#[test]
fn merged_assets_fallback() {
    assert_eq!(
        MergedAssets.load("icons/_dsh/sparkles.svg"),
        Some(DshIcon::Sparkles)
    );
    assert_eq!(MergedAssets.load("icons/arrow-up.svg"), None);
    let names = MergedAssets.list("icons/_dsh/", Vec::new());
    assert_eq!(names.len(), all_icons().len());
    let names = MergedAssets.list("icons/", vec!["icons/arrow-up.svg".to_string()]);
    assert_eq!(names[0], "icons/arrow-up.svg");
    assert_eq!(names.len(), all_icons().len() + 1);
}

#[test]
fn preset_permission_model_mapping() {
    assert_eq!(permission_path("read-only"), "icons/_dsh/shield.svg");
    assert_eq!(permission_path("workspace-write"), "icons/_dsh/shield-check.svg");
    assert_eq!(permission_path("full-access"), "icons/_dsh/shield-alert.svg");
    assert_eq!(model_path("gemini-2.5-flash"), "icons/_dsh/zap.svg");
    assert_eq!(model_path("deepseek-reasoner"), "icons/_dsh/brain.svg");
    assert_eq!(model_path("DeepSeek-V4-Pro"), "icons/_dsh/brain.svg");
    assert_eq!(model_path("deepseek-v4"), "icons/_dsh/gauge.svg");
    assert_eq!(DshIcon::AgentPreset.path(), "icons/_dsh/agent-preset.svg");
    assert_eq!(lowered_model_icon("PRO"), DshIcon::Gauge);
}

#[test]
fn matrix_has_8_outer_cells() {
    let cells = matrix_cells();
    assert_eq!(cells.len(), 8);
    for (x, y) in cells {
        assert!([0, 4, 8].contains(&x));
        assert!([0, 4, 8].contains(&y));
    }
}

#[test]
fn palettes_distinct_and_anchored() {
    let l = palette_of(false);
    let d = palette_of(true);
    assert_eq!((d.base.rgb, d.base.percent), (0x141416, 100));
    assert_eq!((l.base.rgb, l.base.percent), (0xFFFFFF, 100));
    assert_ne!(d.label, l.label);
    assert_ne!(d.brand, l.brand);
    assert_ne!(d.code, l.code);
    assert_eq!(d.ink, l.ink);
    assert_eq!((d.ink.rgb, d.ink.percent), (0, 100));
}

#[test]
fn appearance_parse_matches_registry() {
    assert_eq!(Appearance::parse("light"), Appearance::Light);
    assert_eq!(Appearance::parse("dark"), Appearance::Dark);
    assert_eq!(Appearance::parse("system"), Appearance::System);
    assert_eq!(Appearance::parse("whatever"), Appearance::Dark);
}

#[test]
fn component_colours_follow_the_palette() {
    let t = component_colours(false);
    let p = palette_of(false);
    assert_eq!(t.background, p.base);
    assert_eq!(t.scrollbar_thumb, p.dock);
    assert_eq!((t.primary_foreground.rgb, t.primary_foreground.percent), (0xFFFFFF, 100));
    assert_eq!((t.selection.rgb, t.selection.percent), (p.brand.rgb, 30));
    assert_eq!(component_colours(true).primary_foreground, palette_of(true).label);
}

#[test]
fn a_choice_is_put_in_force_once() {
    let mut s = ThemeState::new();
    assert_eq!(s.force(Appearance::Light), Some(Forced::Light));
    assert!(s.apply(Appearance::Light, true));
    assert!(!is_dark(&s));
    assert_eq!(current_appearance(&s), Appearance::Light);
    assert_eq!(s.force(Appearance::Light), None);
    assert!(!s.apply(Appearance::Light, false));
    assert!(!s.follows_system());
    assert_eq!(s.force(Appearance::System), Some(Forced::Free));
    assert!(s.apply(Appearance::System, true));
    assert!(is_dark(&s));
    assert!(s.follows_system());
    assert!(s.apply(Appearance::System, false));
    assert!(!is_dark(&s));
}

#[test]
fn icons_have_their_sizes() {
    let t = tool_icon("bash");
    assert_eq!((t.path.as_str(), t.size), ("icons/square-terminal.svg", 14));
    let p = permission_icon("full-access");
    assert_eq!((p.path.as_str(), p.size), ("icons/_dsh/shield-alert.svg", 13));
    let m = model_icon("DeepSeek-FLASH");
    assert_eq!((m.path.as_str(), m.size), ("icons/_dsh/zap.svg", 13));
    let f = fixed(DshIcon::Brain, 20);
    assert_eq!((f.path.as_str(), f.size), ("icons/_dsh/brain.svg", 20));
}

#[test]
fn colours_follow_the_palette_in_force() {
    let mut state = ThemeState::new();
    assert_eq!(BASE(&state), Colour { rgb: 0x141416, percent: 100 });
    assert_eq!(LABEL_2(&state), Colour { rgb: 0xEBEBF5, percent: 72 });
    assert!(state.apply(Appearance::Light, true));
    assert!(!state.apply(Appearance::Light, false));
    assert_eq!(BASE(&state), Colour { rgb: 0xFFFFFF, percent: 100 });
    assert_eq!(CODE(&state), Colour { rgb: 0xF7F7F9, percent: 100 });
    assert_eq!(TICK_IDLE(&state), Colour { rgb: 0, percent: 22 });
    assert_eq!(INK(&state), Colour { rgb: 0, percent: 100 });
    assert_eq!(TRANSPARENT(), Colour { rgb: 0, percent: 0 });
}
