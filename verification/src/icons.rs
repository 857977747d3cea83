//! Icons: which one stands for what, and where their drawings are found.

use crate::scan::{contains_str, occurs, starts_with_str};
use crate::text::{cat3, lower, lowercase, owned, str_eq, views};
use vstd::prelude::*;
use vstd::string::*;

verus! {

/// The icons of the application; those of the component library go by their
/// paths.
#[derive(Debug, Clone, Copy, PartialEq, Eq, Structural)]
pub enum DshIcon {
    Sparkles,
    Zap,
    Brain,
    Gauge,
    Shield,
    ShieldAlert,
    ShieldCheck,
    Pencil,
    GitBranch,
    Archive,
    ListChecks,
    MessageSquare,
    Logo,
    Download,
    Clock,
    Code,
    CircleHelp,
    Target,
    Briefcase,
    Workflow,
    Infinity,
    Monitor,
    AgentPreset,
    RefreshCw,
    Wrench,
    Paperclip,
}

impl DshIcon {
    /// The name of an icon.
    pub open spec fn name(self) -> Seq<char> {
        match self {
            DshIcon::Sparkles => "sparkles"@,
            DshIcon::Zap => "zap"@,
            DshIcon::Brain => "brain"@,
            DshIcon::Gauge => "gauge"@,
            DshIcon::Shield => "shield"@,
            DshIcon::ShieldAlert => "shield-alert"@,
            DshIcon::ShieldCheck => "shield-check"@,
            DshIcon::Pencil => "pencil"@,
            DshIcon::GitBranch => "git-branch"@,
            DshIcon::Archive => "archive"@,
            DshIcon::ListChecks => "list-checks"@,
            DshIcon::MessageSquare => "message-square"@,
            DshIcon::Logo => "logo"@,
            DshIcon::Download => "download"@,
            DshIcon::Clock => "clock"@,
            DshIcon::Code => "code"@,
            DshIcon::CircleHelp => "circle-help"@,
            DshIcon::Target => "target"@,
            DshIcon::Briefcase => "briefcase"@,
            DshIcon::Workflow => "workflow"@,
            DshIcon::Infinity => "infinity"@,
            DshIcon::Monitor => "monitor"@,
            DshIcon::AgentPreset => "agent-preset"@,
            DshIcon::RefreshCw => "refresh-cw"@,
            DshIcon::Wrench => "wrench"@,
            DshIcon::Paperclip => "paperclip"@,
        }
    }

    /// Where the drawing of an icon is found.
    pub open spec fn asset(self) -> Seq<char> {
        "icons/_dsh/"@ + self.name() + ".svg"@
    }

    /// See [`DshIcon::asset`].
    pub fn path(self) -> (r: String)
        ensures
            r@ == self.asset(),
    {
        let name = match self {
            DshIcon::Sparkles => "sparkles",
            DshIcon::Zap => "zap",
            DshIcon::Brain => "brain",
            DshIcon::Gauge => "gauge",
            DshIcon::Shield => "shield",
            DshIcon::ShieldAlert => "shield-alert",
            DshIcon::ShieldCheck => "shield-check",
            DshIcon::Pencil => "pencil",
            DshIcon::GitBranch => "git-branch",
            DshIcon::Archive => "archive",
            DshIcon::ListChecks => "list-checks",
            DshIcon::MessageSquare => "message-square",
            DshIcon::Logo => "logo",
            DshIcon::Download => "download",
            DshIcon::Clock => "clock",
            DshIcon::Code => "code",
            DshIcon::CircleHelp => "circle-help",
            DshIcon::Target => "target",
            DshIcon::Briefcase => "briefcase",
            DshIcon::Workflow => "workflow",
            DshIcon::Infinity => "infinity",
            DshIcon::Monitor => "monitor",
            DshIcon::AgentPreset => "agent-preset",
            DshIcon::RefreshCw => "refresh-cw",
            DshIcon::Wrench => "wrench",
            DshIcon::Paperclip => "paperclip",
        };
        cat3("icons/_dsh/", name, ".svg")
    }
}

/// All icons.
pub open spec fn icons() -> Seq<DshIcon> {
    seq![
        DshIcon::Sparkles,
        DshIcon::Zap,
        DshIcon::Brain,
        DshIcon::Gauge,
        DshIcon::Shield,
        DshIcon::ShieldAlert,
        DshIcon::ShieldCheck,
        DshIcon::Pencil,
        DshIcon::GitBranch,
        DshIcon::Archive,
        DshIcon::ListChecks,
        DshIcon::MessageSquare,
        DshIcon::Logo,
        DshIcon::Download,
        DshIcon::Clock,
        DshIcon::Code,
        DshIcon::CircleHelp,
        DshIcon::Target,
        DshIcon::Briefcase,
        DshIcon::Workflow,
        DshIcon::Infinity,
        DshIcon::Monitor,
        DshIcon::AgentPreset,
        DshIcon::RefreshCw,
        DshIcon::Wrench,
        DshIcon::Paperclip,
    ]
}

/// See [`icons`].
pub fn all_icons() -> (r: Vec<DshIcon>)
    ensures
        r@ == icons(),
{
    let mut v: Vec<DshIcon> = Vec::new();
    v.push(DshIcon::Sparkles);
    v.push(DshIcon::Zap);
    v.push(DshIcon::Brain);
    v.push(DshIcon::Gauge);
    v.push(DshIcon::Shield);
    v.push(DshIcon::ShieldAlert);
    v.push(DshIcon::ShieldCheck);
    v.push(DshIcon::Pencil);
    v.push(DshIcon::GitBranch);
    v.push(DshIcon::Archive);
    v.push(DshIcon::ListChecks);
    v.push(DshIcon::MessageSquare);
    v.push(DshIcon::Logo);
    v.push(DshIcon::Download);
    v.push(DshIcon::Clock);
    v.push(DshIcon::Code);
    v.push(DshIcon::CircleHelp);
    v.push(DshIcon::Target);
    v.push(DshIcon::Briefcase);
    v.push(DshIcon::Workflow);
    v.push(DshIcon::Infinity);
    v.push(DshIcon::Monitor);
    v.push(DshIcon::AgentPreset);
    v.push(DshIcon::RefreshCw);
    v.push(DshIcon::Wrench);
    v.push(DshIcon::Paperclip);
    assert(v@ =~= icons());
    v
}

/// The drawings: those of the application, then those of the component
/// library.
#[derive(Debug, Clone, Copy, PartialEq, Eq, Structural)]
pub struct MergedAssets;

/// The paths of icons that start with a prefix.
pub open spec fn paths_under(icons: Seq<DshIcon>, prefix: Seq<char>) -> Seq<Seq<char>>
    decreases icons.len(),
{
    if icons.len() == 0 {
        Seq::empty()
    } else {
        let init = paths_under(icons.drop_last(), prefix);
        let p = icons.last().asset();
        if prefix.len() <= p.len() && p.take(prefix.len() as int) == prefix {
            init.push(p)
        } else {
            init
        }
    }
}

impl MergedAssets {
    /// The icon whose drawing is found under a path; none where the component
    /// library has to be asked.
    pub fn load(&self, path: &str) -> (r: Option<DshIcon>)
        ensures
            match r {
                Some(i) => icons().contains(i) && i.asset() == path@,
                None => forall|i: DshIcon|
                    #![trigger icons().contains(i)]
                    icons().contains(i) ==> i.asset() != path@,
            },
    {
        let all = all_icons();
        let mut k: usize = 0;
        while k < all.len()
            invariant
                all@ == icons(),
                k <= all@.len(),
                forall|j: int| 0 <= j < k ==> (#[trigger] icons()[j]).asset() != path@,
            decreases all@.len() - k,
        {
            let p = all[k].path();
            if str_eq(p.as_str(), path) {
                assert(icons()[k as int] == all@[k as int]);
                return Some(all[k]);
            }
            k = k + 1;
        }
        assert forall|i: DshIcon| #[trigger] icons().contains(i) implies i.asset() != path@ by {
            let j = choose|j: int| 0 <= j < icons().len() && icons()[j] == i;
            assert(icons()[j].asset() != path@);
        }
        None
    }

    /// The drawings under a prefix: those that the component library lists,
    /// then those of the application.
    pub fn list(&self, path: &str, builtin: Vec<String>) -> (r: Vec<String>)
        ensures
            views(r@) == views(builtin@) + paths_under(icons(), path@),
    {
        let all = all_icons();
        let mut out = builtin;
        let mut k: usize = 0;
        assert(icons().take(0) =~= Seq::<DshIcon>::empty());
        assert(views(out@) =~= views(builtin@) + Seq::<Seq<char>>::empty());
        while k < all.len()
            invariant
                all@ == icons(),
                k <= all@.len(),
                views(out@) == views(builtin@) + paths_under(icons().take(k as int), path@),
            decreases all@.len() - k,
        {
            let ghost before = out@;
            assert(icons().take(k + 1).drop_last() =~= icons().take(k as int));
            assert(icons().take(k + 1).last() == all@[k as int]);
            let p = all[k].path();
            if starts_with_str(p.as_str(), path) {
                out.push(p);
                assert(views(out@) =~= views(before).push(p@));
                assert((views(builtin@) + paths_under(icons().take(k as int), path@)).push(p@)
                    =~= views(builtin@) + paths_under(icons().take(k as int), path@).push(p@));
            }
            k = k + 1;
        }
        assert(icons().take(k as int) =~= icons());
        out
    }
}

/// Where the drawing of a tool's icon is found.
pub open spec fn tool_asset(name: Seq<char>) -> Seq<char> {
    if name == "bash"@ {
        "icons/square-terminal.svg"@
    } else if name == "file_read"@ || name == "read"@ || name == "web_fetch"@ {
        "icons/book-open.svg"@
    } else if name == "file_edit"@ || name == "edit"@ || name == "write"@ {
        DshIcon::Pencil.asset()
    } else if name == "file_search"@ || name == "grep"@ || name == "glob"@ {
        "icons/search.svg"@
    } else if name == "web_search"@ {
        "icons/globe.svg"@
    } else if name == "todo_write"@ || name == "exit_plan_mode"@ {
        DshIcon::ListChecks.asset()
    } else if name == "ask"@ {
        DshIcon::CircleHelp.asset()
    } else if name == "code"@ {
        DshIcon::Code.asset()
    } else if name == "goal"@ {
        DshIcon::Target.asset()
    } else if name == "jobs"@ {
        DshIcon::Briefcase.asset()
    } else if name == "workflow"@ {
        DshIcon::Workflow.asset()
    } else if name == "ralph"@ {
        DshIcon::Infinity.asset()
    } else if name == "subagent"@ {
        "icons/bot.svg"@
    } else if name == "subagent_list"@ {
        "icons/gallery-vertical-end.svg"@
    } else {
        DshIcon::Sparkles.asset()
    }
}

/// See [`tool_asset`].
pub fn tool_path(name: &str) -> (r: String)
    ensures
        r@ == tool_asset(name@),
{
    if str_eq(name, "bash") {
        owned("icons/square-terminal.svg")
    } else if str_eq(name, "file_read") || str_eq(name, "read") || str_eq(name, "web_fetch") {
        owned("icons/book-open.svg")
    } else if str_eq(name, "file_edit") || str_eq(name, "edit") || str_eq(name, "write") {
        DshIcon::Pencil.path()
    } else if str_eq(name, "file_search") || str_eq(name, "grep") || str_eq(name, "glob") {
        owned("icons/search.svg")
    } else if str_eq(name, "web_search") {
        owned("icons/globe.svg")
    } else if str_eq(name, "todo_write") || str_eq(name, "exit_plan_mode") {
        DshIcon::ListChecks.path()
    } else if str_eq(name, "ask") {
        DshIcon::CircleHelp.path()
    } else if str_eq(name, "code") {
        DshIcon::Code.path()
    } else if str_eq(name, "goal") {
        DshIcon::Target.path()
    } else if str_eq(name, "jobs") {
        DshIcon::Briefcase.path()
    } else if str_eq(name, "workflow") {
        DshIcon::Workflow.path()
    } else if str_eq(name, "ralph") {
        DshIcon::Infinity.path()
    } else if str_eq(name, "subagent") {
        owned("icons/bot.svg")
    } else if str_eq(name, "subagent_list") {
        owned("icons/gallery-vertical-end.svg")
    } else {
        DshIcon::Sparkles.path()
    }
}

/// The icon of a permission.
pub open spec fn permission_icon_of(mode: Seq<char>) -> DshIcon {
    if mode == "read-only"@ {
        DshIcon::Shield
    } else if mode == "full-access"@ {
        DshIcon::ShieldAlert
    } else {
        DshIcon::ShieldCheck
    }
}

/// Where the drawing of a permission's icon is found.
pub fn permission_path(mode: &str) -> (r: String)
    ensures
        r@ == permission_icon_of(mode@).asset(),
{
    if str_eq(mode, "read-only") {
        DshIcon::Shield.path()
    } else if str_eq(mode, "full-access") {
        DshIcon::ShieldAlert.path()
    } else {
        DshIcon::ShieldCheck.path()
    }
}

/// The icon of a model, from its name in lower case.
pub open spec fn model_icon_of(name: Seq<char>) -> DshIcon {
    if occurs(name, "flash"@) {
        DshIcon::Zap
    } else if occurs(name, "pro"@) || occurs(name, "reasoner"@) {
        DshIcon::Brain
    } else {
        DshIcon::Gauge
    }
}

/// The icon of a model, from its name in lower case.
pub fn lowered_model_icon(name: &str) -> (r: DshIcon)
    ensures
        r == model_icon_of(name@),
{
    if contains_str(name, "flash") {
        DshIcon::Zap
    } else if contains_str(name, "pro") || contains_str(name, "reasoner") {
        DshIcon::Brain
    } else {
        DshIcon::Gauge
    }
}

/// Where the drawing of a model's icon is found.
pub fn model_path(model: &str) -> (r: String)
    ensures
        r@ == model_icon_of(lowercase(model@)).asset(),
{
    let name = lower(model);
    lowered_model_icon(name.as_str()).path()
}

/// A drawing at a fixed size in pixels.
#[derive(Debug, Clone, PartialEq, Eq)]
pub struct Icon {
    pub path: String,
    pub size: u32,
}

/// An icon of the application at a fixed size.
pub fn fixed(icon: DshIcon, size: u32) -> (r: Icon)
    ensures
        r.path@ == icon.asset(),
        r.size == size,
{
    Icon { path: icon.path(), size }
}

/// The icon of a tool's line, at 14 pixels.
pub fn tool_icon(name: &str) -> (r: Icon)
    ensures
        r.path@ == tool_asset(name@),
        r.size == 14,
{
    Icon { path: tool_path(name), size: 14 }
}

/// The icon of a permission, at 13 pixels.
pub fn permission_icon(mode: &str) -> (r: Icon)
    ensures
        r.path@ == permission_icon_of(mode@).asset(),
        r.size == 13,
{
    Icon { path: permission_path(mode), size: 13 }
}

/// The icon of a model, at 13 pixels.
pub fn model_icon(model: &str) -> (r: Icon)
    ensures
        r.path@ == model_icon_of(lowercase(model@)).asset(),
        r.size == 13,
{
    Icon { path: model_path(model), size: 13 }
}

/// What tells the name of an icon from the others: its length and its first and
/// last character.
spec fn mark_of(i: DshIcon) -> (nat, char, char) {
    match i {
        DshIcon::Sparkles => (8, 's', 's'),
        DshIcon::Zap => (3, 'z', 'p'),
        DshIcon::Brain => (5, 'b', 'n'),
        DshIcon::Gauge => (5, 'g', 'e'),
        DshIcon::Shield => (6, 's', 'd'),
        DshIcon::ShieldAlert => (12, 's', 't'),
        DshIcon::ShieldCheck => (12, 's', 'k'),
        DshIcon::Pencil => (6, 'p', 'l'),
        DshIcon::GitBranch => (10, 'g', 'h'),
        DshIcon::Archive => (7, 'a', 'e'),
        DshIcon::ListChecks => (11, 'l', 's'),
        DshIcon::MessageSquare => (14, 'm', 'e'),
        DshIcon::Logo => (4, 'l', 'o'),
        DshIcon::Download => (8, 'd', 'd'),
        DshIcon::Clock => (5, 'c', 'k'),
        DshIcon::Code => (4, 'c', 'e'),
        DshIcon::CircleHelp => (11, 'c', 'p'),
        DshIcon::Target => (6, 't', 't'),
        DshIcon::Briefcase => (9, 'b', 'e'),
        DshIcon::Workflow => (8, 'w', 'w'),
        DshIcon::Infinity => (8, 'i', 'y'),
        DshIcon::Monitor => (7, 'm', 'r'),
        DshIcon::AgentPreset => (12, 'a', 't'),
        DshIcon::RefreshCw => (10, 'r', 'w'),
        DshIcon::Wrench => (6, 'w', 'h'),
        DshIcon::Paperclip => (9, 'p', 'p'),
    }
}

proof fn lemma_first_names(i: DshIcon)
    requires
        i == DshIcon::Sparkles || i == DshIcon::Zap || i == DshIcon::Brain || i
            == DshIcon::Gauge || i == DshIcon::Shield || i == DshIcon::ShieldAlert || i
            == DshIcon::ShieldCheck,
    ensures
        i.name().len() == mark_of(i).0,
        i.name()[0] == mark_of(i).1,
        i.name().last() == mark_of(i).2,
{
    reveal_strlit("sparkles");
    reveal_strlit("zap");
    reveal_strlit("brain");
    reveal_strlit("gauge");
    reveal_strlit("shield");
    reveal_strlit("shield-alert");
    reveal_strlit("shield-check");
}

proof fn lemma_second_names(i: DshIcon)
    requires
        i == DshIcon::Pencil || i == DshIcon::GitBranch || i == DshIcon::Archive || i
            == DshIcon::ListChecks || i == DshIcon::MessageSquare || i == DshIcon::Logo || i
            == DshIcon::Download,
    ensures
        i.name().len() == mark_of(i).0,
        i.name()[0] == mark_of(i).1,
        i.name().last() == mark_of(i).2,
{
    reveal_strlit("pencil");
    reveal_strlit("git-branch");
    reveal_strlit("archive");
    reveal_strlit("list-checks");
    reveal_strlit("message-square");
    reveal_strlit("logo");
    reveal_strlit("download");
}

proof fn lemma_third_names(i: DshIcon)
    requires
        i == DshIcon::Clock || i == DshIcon::Code || i == DshIcon::CircleHelp || i
            == DshIcon::Target || i == DshIcon::Briefcase || i == DshIcon::Workflow || i
            == DshIcon::Infinity,
    ensures
        i.name().len() == mark_of(i).0,
        i.name()[0] == mark_of(i).1,
        i.name().last() == mark_of(i).2,
{
    reveal_strlit("clock");
    reveal_strlit("code");
    reveal_strlit("circle-help");
    reveal_strlit("target");
    reveal_strlit("briefcase");
    reveal_strlit("workflow");
    reveal_strlit("infinity");
}

proof fn lemma_last_names(i: DshIcon)
    requires
        i == DshIcon::Monitor || i == DshIcon::AgentPreset || i == DshIcon::RefreshCw || i
            == DshIcon::Wrench || i == DshIcon::Paperclip,
    ensures
        i.name().len() == mark_of(i).0,
        i.name()[0] == mark_of(i).1,
        i.name().last() == mark_of(i).2,
{
    reveal_strlit("monitor");
    reveal_strlit("agent-preset");
    reveal_strlit("refresh-cw");
    reveal_strlit("wrench");
    reveal_strlit("paperclip");
}

proof fn lemma_names_differ(i: DshIcon, j: DshIcon)
    requires
        i != j,
    ensures
        i.name() != j.name(),
{
    lemma_name(i);
    lemma_name(j);
    assert(mark_of(i) != mark_of(j));
}

proof fn lemma_name(i: DshIcon)
    ensures
        i.name().len() == mark_of(i).0,
        i.name()[0] == mark_of(i).1,
        i.name().last() == mark_of(i).2,
{
    if i == DshIcon::Sparkles || i == DshIcon::Zap || i == DshIcon::Brain || i
        == DshIcon::Gauge || i == DshIcon::Shield || i == DshIcon::ShieldAlert || i
        == DshIcon::ShieldCheck {
        lemma_first_names(i);
    } else if i == DshIcon::Pencil || i == DshIcon::GitBranch || i == DshIcon::Archive || i
        == DshIcon::ListChecks || i == DshIcon::MessageSquare || i == DshIcon::Logo || i
        == DshIcon::Download {
        lemma_second_names(i);
    } else if i == DshIcon::Clock || i == DshIcon::Code || i == DshIcon::CircleHelp || i
        == DshIcon::Target || i == DshIcon::Briefcase || i == DshIcon::Workflow || i
        == DshIcon::Infinity {
        lemma_third_names(i);
    } else {
        lemma_last_names(i);
    }
}

proof fn lemma_every_icon(i: DshIcon)
    ensures
        icons().contains(i),
{
    let v = icons();
    assert(v[0] == DshIcon::Sparkles);
    assert(v[1] == DshIcon::Zap);
    assert(v[2] == DshIcon::Brain);
    assert(v[3] == DshIcon::Gauge);
    assert(v[4] == DshIcon::Shield);
    assert(v[5] == DshIcon::ShieldAlert);
    assert(v[6] == DshIcon::ShieldCheck);
    assert(v[7] == DshIcon::Pencil);
    assert(v[8] == DshIcon::GitBranch);
    assert(v[9] == DshIcon::Archive);
    assert(v[10] == DshIcon::ListChecks);
    assert(v[11] == DshIcon::MessageSquare);
    assert(v[12] == DshIcon::Logo);
    assert(v[13] == DshIcon::Download);
    assert(v[14] == DshIcon::Clock);
    assert(v[15] == DshIcon::Code);
    assert(v[16] == DshIcon::CircleHelp);
    assert(v[17] == DshIcon::Target);
    assert(v[18] == DshIcon::Briefcase);
    assert(v[19] == DshIcon::Workflow);
    assert(v[20] == DshIcon::Infinity);
    assert(v[21] == DshIcon::Monitor);
    assert(v[22] == DshIcon::AgentPreset);
    assert(v[23] == DshIcon::RefreshCw);
    assert(v[24] == DshIcon::Wrench);
    assert(v[25] == DshIcon::Paperclip);
}

/// Each icon has a drawing of its own: what is loaded from its place is that
/// icon, and no two share a place.
pub proof fn law_icons_have_their_own_drawings(
    i: DshIcon,
    j: DshIcon,
    place: String,
    other: String,
    path: &str,
    r: Option<DshIcon>,
)
    requires
        call_ensures(DshIcon::path, (i,), place),
        call_ensures(DshIcon::path, (j,), other),
        call_ensures(MergedAssets::load, (&MergedAssets, path), r),
        path@ == place@,
    ensures
        r == Some(i),
        i != j ==> place@ != other@,
{
    lemma_every_icon(i);
    match r {
        Some(k) => {
            if k != i {
                lemma_names_differ(i, k);
                lemma_assets(i, k);
            }
        },
        None => {},
    }
    if i != j {
        lemma_names_differ(i, j);
        if place@ == other@ {
            lemma_assets(i, j);
        }
    }
}

proof fn lemma_assets(i: DshIcon, j: DshIcon)
    requires
        i.asset() == j.asset(),
    ensures
        i.name() == j.name(),
{
    let p = "icons/_dsh/"@;
    let e = ".svg"@;
    let a = i.asset();
    let n = p.len() as int;
    assert(a.len() == n + i.name().len() + e.len());
    assert(a.len() == n + j.name().len() + e.len());
    assert(a.subrange(n, a.len() - e.len()) =~= i.name());
    assert(a.subrange(n, a.len() - e.len()) =~= j.name());
}

/// Where the drawing of an icon is found: under its name.
pub proof fn law_icons_are_found_under_their_names(i: DshIcon, r: String)
    requires
        call_ensures(DshIcon::path, (i,), r),
    ensures
        i == DshIcon::Sparkles ==> r@ == "icons/_dsh/"@ + "sparkles"@ + ".svg"@,
        i == DshIcon::Zap ==> r@ == "icons/_dsh/"@ + "zap"@ + ".svg"@,
        i == DshIcon::Brain ==> r@ == "icons/_dsh/"@ + "brain"@ + ".svg"@,
        i == DshIcon::Gauge ==> r@ == "icons/_dsh/"@ + "gauge"@ + ".svg"@,
        i == DshIcon::Shield ==> r@ == "icons/_dsh/"@ + "shield"@ + ".svg"@,
        i == DshIcon::ShieldAlert ==> r@ == "icons/_dsh/"@ + "shield-alert"@ + ".svg"@,
        i == DshIcon::ShieldCheck ==> r@ == "icons/_dsh/"@ + "shield-check"@ + ".svg"@,
        i == DshIcon::Pencil ==> r@ == "icons/_dsh/"@ + "pencil"@ + ".svg"@,
        i == DshIcon::GitBranch ==> r@ == "icons/_dsh/"@ + "git-branch"@ + ".svg"@,
        i == DshIcon::Archive ==> r@ == "icons/_dsh/"@ + "archive"@ + ".svg"@,
        i == DshIcon::ListChecks ==> r@ == "icons/_dsh/"@ + "list-checks"@ + ".svg"@,
        i == DshIcon::MessageSquare ==> r@ == "icons/_dsh/"@ + "message-square"@ + ".svg"@,
        i == DshIcon::Logo ==> r@ == "icons/_dsh/"@ + "logo"@ + ".svg"@,
        i == DshIcon::Download ==> r@ == "icons/_dsh/"@ + "download"@ + ".svg"@,
        i == DshIcon::Clock ==> r@ == "icons/_dsh/"@ + "clock"@ + ".svg"@,
        i == DshIcon::Code ==> r@ == "icons/_dsh/"@ + "code"@ + ".svg"@,
        i == DshIcon::CircleHelp ==> r@ == "icons/_dsh/"@ + "circle-help"@ + ".svg"@,
        i == DshIcon::Target ==> r@ == "icons/_dsh/"@ + "target"@ + ".svg"@,
        i == DshIcon::Briefcase ==> r@ == "icons/_dsh/"@ + "briefcase"@ + ".svg"@,
        i == DshIcon::Workflow ==> r@ == "icons/_dsh/"@ + "workflow"@ + ".svg"@,
        i == DshIcon::Infinity ==> r@ == "icons/_dsh/"@ + "infinity"@ + ".svg"@,
        i == DshIcon::Monitor ==> r@ == "icons/_dsh/"@ + "monitor"@ + ".svg"@,
        i == DshIcon::AgentPreset ==> r@ == "icons/_dsh/"@ + "agent-preset"@ + ".svg"@,
        i == DshIcon::RefreshCw ==> r@ == "icons/_dsh/"@ + "refresh-cw"@ + ".svg"@,
        i == DshIcon::Wrench ==> r@ == "icons/_dsh/"@ + "wrench"@ + ".svg"@,
        i == DshIcon::Paperclip ==> r@ == "icons/_dsh/"@ + "paperclip"@ + ".svg"@,
{
}

/// The places under a path are those of the icons whose place begins with it,
/// behind those that were there.
pub proof fn law_places_under_a_path_are_listed(
    m: &MergedAssets,
    path: &str,
    builtin: Vec<String>,
    i: DshIcon,
    place: String,
    r: Vec<String>,
)
    requires
        call_ensures(MergedAssets::list, (m, path, builtin), r),
        call_ensures(DshIcon::path, (i,), place),
    ensures
        forall|k: int| 0 <= k < builtin@.len() ==> (#[trigger] r@[k])@ == builtin@[k]@,
        views(r@).skip(builtin@.len() as int).contains(place@) <==> (path@.len() <= place@.len()
            && place@.take(path@.len() as int) == path@),
{
    lemma_every_icon(i);
    let u = paths_under(icons(), path@);
    assert(views(r@).skip(builtin@.len() as int) =~= u);
    if path@.len() <= place@.len() && place@.take(path@.len() as int) == path@ {
        lemma_paths_under(icons(), path@, i);
    }
    assert forall|k: int| 0 <= k < builtin@.len() implies (#[trigger] r@[k])@ == builtin@[k]@ by {
        assert(views(r@)[k] == views(builtin@)[k]);
    }
    if u.contains(i.asset()) {
        lemma_only_under(icons(), path@, i.asset());
    }
}

proof fn lemma_only_under(v: Seq<DshIcon>, prefix: Seq<char>, p: Seq<char>)
    requires
        paths_under(v, prefix).contains(p),
    ensures
        prefix.len() <= p.len() && p.take(prefix.len() as int) == prefix,
    decreases v.len(),
{
    let all = paths_under(v, prefix);
    let k = choose|k: int| 0 <= k < all.len() && all[k] == p;
    let init = paths_under(v.drop_last(), prefix);
    if k < init.len() {
        assert(init[k] == p);
        lemma_only_under(v.drop_last(), prefix, p);
    }
}

proof fn lemma_paths_under(v: Seq<DshIcon>, prefix: Seq<char>, i: DshIcon)
    requires
        v.contains(i),
        prefix.len() <= i.asset().len() && i.asset().take(prefix.len() as int) == prefix,
    ensures
        paths_under(v, prefix).contains(i.asset()),
    decreases v.len(),
{
    let k = choose|k: int| 0 <= k < v.len() && v[k] == i;
    let init = paths_under(v.drop_last(), prefix);
    let all = paths_under(v, prefix);
    if k < v.len() - 1 {
        assert(v.drop_last()[k] == i);
        lemma_paths_under(v.drop_last(), prefix, i);
        let m = choose|m: int| 0 <= m < init.len() && init[m] == i.asset();
        assert(all[m] == i.asset());
    } else {
        assert(all.last() == i.asset());
    }
}

/// Read-only access has a shield, full access a warning, and any other mode a
/// shield with a mark.
pub proof fn law_permissions_have_their_shields(
    mode: &str,
    r: String,
    shield: String,
    alert: String,
    check: String,
)
    requires
        call_ensures(permission_path, (mode,), r),
        call_ensures(DshIcon::path, (DshIcon::Shield,), shield),
        call_ensures(DshIcon::path, (DshIcon::ShieldAlert,), alert),
        call_ensures(DshIcon::path, (DshIcon::ShieldCheck,), check),
    ensures
        mode@ == "read-only"@ ==> r@ == shield@,
        mode@ == "full-access"@ ==> r@ == alert@,
        mode@ != "read-only"@ && mode@ != "full-access"@ ==> r@ == check@,
{
    reveal_strlit("read-only");
    reveal_strlit("full-access");
    assert("read-only"@.len() != "full-access"@.len());
}

/// A model that is fast by its name has a flash, one that thinks a brain, and
/// any other a gauge.
pub proof fn law_models_have_their_icons(name: &str, r: DshIcon)
    requires
        call_ensures(lowered_model_icon, (name,), r),
    ensures
        occurs(name@, "flash"@) ==> r == DshIcon::Zap,
        !occurs(name@, "flash"@) && (occurs(name@, "pro"@) || occurs(name@, "reasoner"@)) ==> r
            == DshIcon::Brain,
        !occurs(name@, "flash"@) && !occurs(name@, "pro"@) && !occurs(name@, "reasoner"@) ==> r
            == DshIcon::Gauge,
{
}

/// The icons in lines of text have the place of their drawing and their size.
pub proof fn law_icons_have_their_sizes(
    icon: DshIcon,
    size: u32,
    name: &str,
    place: String,
    f: Icon,
    t: Icon,
    p: Icon,
    m: Icon,
    tool: String,
    permission: String,
    model: String,
)
    requires
        call_ensures(DshIcon::path, (icon,), place),
        call_ensures(fixed, (icon, size), f),
        call_ensures(tool_icon, (name,), t),
        call_ensures(tool_path, (name,), tool),
        call_ensures(permission_icon, (name,), p),
        call_ensures(permission_path, (name,), permission),
        call_ensures(model_icon, (name,), m),
        call_ensures(model_path, (name,), model),
    ensures
        f.path@ == place@ && f.size == size,
        t.path@ == tool@ && t.size == 14,
        p.path@ == permission@ && p.size == 13,
        m.path@ == model@ && m.size == 13,
{
}

proof fn lemma_some_tools()
    ensures
        "bash"@.len() == 4 && "bash"@[0] == 'b' && "bash"@[1] == 'a',
        "file_read"@.len() == 9 && "file_read"@[0] == 'f' && "file_read"@[1] == 'i'
            && "file_read"@[5] == 'r',
        "read"@.len() == 4 && "read"@[0] == 'r' && "read"@[1] == 'e',
        "web_fetch"@.len() == 9 && "web_fetch"@[0] == 'w' && "web_fetch"@[1] == 'e'
            && "web_fetch"@[5] == 'e',
        "file_edit"@.len() == 9 && "file_edit"@[0] == 'f' && "file_edit"@[1] == 'i'
            && "file_edit"@[5] == 'e',
        "edit"@.len() == 4 && "edit"@[0] == 'e' && "edit"@[1] == 'd',
        "write"@.len() == 5 && "write"@[0] == 'w' && "write"@[1] == 'r',
{
    reveal_strlit("bash");
    reveal_strlit("file_read");
    reveal_strlit("read");
    reveal_strlit("web_fetch");
    reveal_strlit("file_edit");
    reveal_strlit("edit");
    reveal_strlit("write");
}

proof fn lemma_more_tools()
    ensures
        "file_search"@.len() == 11 && "file_search"@[0] == 'f' && "file_search"@[1] == 'i'
            && "file_search"@[5] == 's',
        "grep"@.len() == 4 && "grep"@[0] == 'g' && "grep"@[1] == 'r',
        "glob"@.len() == 4 && "glob"@[0] == 'g' && "glob"@[1] == 'l',
        "web_search"@.len() == 10 && "web_search"@[0] == 'w' && "web_search"@[1] == 'e'
            && "web_search"@[5] == 'e',
        "todo_write"@.len() == 10 && "todo_write"@[0] == 't' && "todo_write"@[1] == 'o'
            && "todo_write"@[5] == 'w',
        "exit_plan_mode"@.len() == 14 && "exit_plan_mode"@[0] == 'e'
            && "exit_plan_mode"@[1] == 'x' && "exit_plan_mode"@[5] == 'p',
        "ask"@.len() == 3 && "ask"@[0] == 'a' && "ask"@[1] == 's',
{
    reveal_strlit("file_search");
    reveal_strlit("grep");
    reveal_strlit("glob");
    reveal_strlit("web_search");
    reveal_strlit("todo_write");
    reveal_strlit("exit_plan_mode");
    reveal_strlit("ask");
}

proof fn lemma_other_tools()
    ensures
        "code"@.len() == 4 && "code"@[0] == 'c' && "code"@[1] == 'o',
        "goal"@.len() == 4 && "goal"@[0] == 'g' && "goal"@[1] == 'o',
        "jobs"@.len() == 4 && "jobs"@[0] == 'j' && "jobs"@[1] == 'o',
        "workflow"@.len() == 8 && "workflow"@[0] == 'w' && "workflow"@[1] == 'o'
            && "workflow"@[5] == 'l',
        "ralph"@.len() == 5 && "ralph"@[0] == 'r' && "ralph"@[1] == 'a',
        "subagent"@.len() == 8 && "subagent"@[0] == 's' && "subagent"@[1] == 'u'
            && "subagent"@[5] == 'e',
        "subagent_list"@.len() == 13 && "subagent_list"@[0] == 's' && "subagent_list"@[1] == 'u'
            && "subagent_list"@[5] == 'e',
{
    reveal_strlit("code");
    reveal_strlit("goal");
    reveal_strlit("jobs");
    reveal_strlit("workflow");
    reveal_strlit("ralph");
    reveal_strlit("subagent");
    reveal_strlit("subagent_list");
}

/// Tools that do alike share an icon: those that read, those that write and
/// those that search; the other ones that are known have their own, and any
/// tool has one.
#[verifier::rlimit(40)]
pub proof fn law_tools_that_do_alike_share_an_icon(name: &str, r: String)
    requires
        call_ensures(tool_path, (name,), r),
    ensures
        name@ == "bash"@ ==> r@ == "icons/square-terminal.svg"@,
        name@ == "file_read"@ || name@ == "read"@ || name@ == "web_fetch"@
            ==> r@ == "icons/book-open.svg"@,
        name@ == "file_edit"@ || name@ == "edit"@ || name@ == "write"@
            ==> r@ == DshIcon::Pencil.asset(),
        name@ == "file_search"@ || name@ == "grep"@ || name@ == "glob"@
            ==> r@ == "icons/search.svg"@,
        name@ == "web_search"@ ==> r@ == "icons/globe.svg"@,
        name@ == "todo_write"@ || name@ == "exit_plan_mode"@ ==> r@ == DshIcon::ListChecks.asset(),
        name@ == "ask"@ ==> r@ == DshIcon::CircleHelp.asset(),
        name@ == "code"@ ==> r@ == DshIcon::Code.asset(),
        name@ == "goal"@ ==> r@ == DshIcon::Target.asset(),
        name@ == "jobs"@ ==> r@ == DshIcon::Briefcase.asset(),
        name@ == "workflow"@ ==> r@ == DshIcon::Workflow.asset(),
        name@ == "ralph"@ ==> r@ == DshIcon::Infinity.asset(),
        name@ == "subagent"@ ==> r@ == "icons/bot.svg"@,
        name@ == "subagent_list"@ ==> r@ == "icons/gallery-vertical-end.svg"@,
        name@ != "bash"@ && name@ != "file_read"@ && name@ != "read"@ && name@ != "web_fetch"@
            && name@ != "file_edit"@ && name@ != "edit"@ && name@ != "write"@
            && name@ != "file_search"@ && name@ != "grep"@ && name@ != "glob"@
            && name@ != "web_search"@ && name@ != "todo_write"@ && name@ != "exit_plan_mode"@
            && name@ != "ask"@ && name@ != "code"@ && name@ != "goal"@ && name@ != "jobs"@
            && name@ != "workflow"@ && name@ != "ralph"@ && name@ != "subagent"@
            && name@ != "subagent_list"@ ==> r@ == DshIcon::Sparkles.asset(),
{
    lemma_some_tools();
    lemma_more_tools();
    lemma_other_tools();
}

} // verus!
