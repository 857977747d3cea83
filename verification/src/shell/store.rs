//! The state of the window and what its handlers do to it.
//!
//! A handler changes the state at once and returns what is left to be done
//! outside: a request for the host, an answer to one of its requests, a page
//! to fetch. What comes of it is handed back to a second function.

use crate::ask::AskStore;
use crate::attachments::{AttachmentsStore, ImageAttachmentLimits};
use crate::decimal::{dec, u64_text};
use crate::json::Json;
use crate::settings::{FullAccessAsk, SettingsStore};
use crate::shell::state::{
    chat_values, find_session, no_chat, session_with, summary_values, with_node, ChatNode,
    ChatState, ChatValue, HostInfo, NodeValue, SessionSummary, StoreState,
};
use crate::shell::statusbar::with_id;
use crate::subagents::SubagentsStore;
use crate::table::Table;
use crate::text::{cat2, opt_view, owned, owned_opt, str_eq};
use crate::trajectory::{PageRequest, TrajectoryStore};
use vstd::prelude::*;
use vstd::string::*;

verus! {

/// The menus of the empty window; at most one is open.
#[derive(Debug, Clone, Copy, PartialEq, Eq, Structural)]
pub enum HeroMenu {
    /// None is open.
    Closed,
    /// The choice of the workspace.
    Workspace,
    /// The choice of the preset.
    Preset,
}

/// The pages of the right panel.
#[derive(Debug, Clone, Copy, PartialEq, Eq, Structural)]
pub enum PanelTab {
    Trajectory,
    Files,
    Changes,
    Terminal,
}

/// What is set for a session.
#[derive(Debug, PartialEq, Eq)]
pub struct SessionCfg {
    pub model: String,
    /// "read-only", "workspace-write" or "full-access".
    pub permission: String,
    /// "low", "high" or "max".
    pub effort: Option<String>,
    pub preset: String,
}

/// The content of a session's settings.
#[verifier::ext_equal]
pub struct CfgValue {
    pub model: Seq<char>,
    pub permission: Seq<char>,
    pub effort: Option<Seq<char>>,
    pub preset: Seq<char>,
}

impl View for SessionCfg {
    type V = CfgValue;

    open spec fn view(&self) -> CfgValue {
        CfgValue {
            model: self.model@,
            permission: self.permission@,
            effort: opt_view(self.effort),
            preset: self.preset@,
        }
    }
}

impl SessionCfg {
    /// A copy.
    pub fn copy(&self) -> (r: SessionCfg)
        ensures
            r@ == self@,
    {
        SessionCfg {
            model: owned(self.model.as_str()),
            permission: owned(self.permission.as_str()),
            effort: owned_opt(&self.effort),
            preset: owned(self.preset.as_str()),
        }
    }
}

/// The settings by session.
pub open spec fn cfg_values(m: Map<Seq<char>, SessionCfg>) -> Map<Seq<char>, CfgValue> {
    m.map_values(|c: SessionCfg| c@)
}

/// The settings with another permission.
pub open spec fn permitted(c: CfgValue, permission: Seq<char>) -> CfgValue {
    CfgValue { model: c.model, permission, effort: c.effort, preset: c.preset }
}

/// The chat with another mode.
pub open spec fn planning(c: ChatValue, plan_mode: bool) -> ChatValue {
    ChatValue { plan_mode, nodes: c.nodes }
}

/// The chat pane.
pub struct ChatPane {
    pub composer_menu_open: bool,
    pub composer_submenu_open: bool,
    /// Whether the pane follows the end of the chat.
    pub pinned: bool,
    /// Counts the changes of the chat that is shown.
    pub chat_version: u64,
}

/// The session tree.
pub struct SessionsPane {
    pub menu_open_session: Option<String>,
    pub menu_open_ws: Option<String>,
    pub workspace_menu_open: bool,
    /// The workspaces whose sessions are hidden.
    pub collapsed_workspaces: crate::table::NameSet,
    /// The names that workspaces are shown under.
    pub workspace_titles: Table<String>,
}

/// The state of the window.
pub struct AppStore {
    pub attachments: AttachmentsStore,
    pub ask: AskStore,
    pub state: StoreState,
    /// What the host accepts as images.
    pub image_limits: ImageAttachmentLimits,
    pub stats_by_id: Table<Json>,
    /// Whether the clock of the running session ticks.
    pub run_ticking: bool,
    /// Whether the clock of the running subagents ticks.
    pub lineage_ticking: bool,
    pub chat: ChatPane,
    pub settings: SettingsStore,
    pub sidebar_collapsed: bool,
    pub panel_open: bool,
    /// The open pages of the panel, in the order in which they were opened.
    pub panel_tabs: Vec<PanelTab>,
    pub panel_active_tab: Option<PanelTab>,
    pub panel_plus_menu_open: bool,
    pub sessions: SessionsPane,
    pub hero_menu: HeroMenu,
    pub billing_card_open: bool,
    pub session_cfg_by_id: Table<SessionCfg>,
    pub subagents: SubagentsStore,
    pub trajectory: TrajectoryStore,
    /// How many notices the window itself has put into chats.
    pub local_notice_seq: u64,
}

/// What came of a call to the host.
#[derive(Debug, PartialEq, Eq)]
pub enum CallOutcome {
    Done,
    /// The host refused, with a message.
    Failed(String),
    /// The host did not answer.
    Lost,
}

/// A mode to be set for a session.
#[derive(Debug, PartialEq, Eq)]
pub struct ModeRequest {
    pub session_id: String,
    /// "plan" or "standard".
    pub mode: String,
    /// Whether the session planned before.
    pub prior: bool,
}

/// A permission to be set for a session.
#[derive(Debug, PartialEq, Eq)]
pub struct PermissionRequest {
    pub session_id: String,
    pub permission: String,
    /// The permission before.
    pub prior: String,
}

/// A setting of a session.
#[derive(Debug, PartialEq, Eq)]
pub enum CfgChange {
    Model(String),
    Effort(String),
    Preset(String),
}

/// A setting to be changed for a session.
#[derive(Debug, PartialEq, Eq)]
pub struct CfgRequest {
    pub session_id: String,
    pub change: CfgChange,
}

/// Whether no page is open twice and the active one is open.
pub open spec fn tabs_ok(tabs: Seq<PanelTab>, active: Option<PanelTab>) -> bool {
    &&& tabs.no_duplicates()
    &&& active matches Some(t) ==> tabs.contains(t)
}

impl AppStore {
    /// No table has a key twice, no set a member, and the parts fit together.
    pub open spec fn wf(self) -> bool {
        &&& self.state.wf()
        &&& self.stats_by_id.wf()
        &&& self.session_cfg_by_id.wf()
        &&& self.attachments.wf()
        &&& self.ask.wf(self.state.pending_ask)
        &&& self.trajectory.wf()
        &&& self.settings.wf()
        &&& self.sessions.collapsed_workspaces.wf()
        &&& self.sessions.workspace_titles.wf()
        &&& tabs_ok(self.panel_tabs@, self.panel_active_tab)
    }

    /// The counters have room for one more.
    pub open spec fn has_room(self) -> bool {
        &&& self.chat.chat_version < u64::MAX
        &&& self.local_notice_seq < u64::MAX
        &&& self.trajectory.trajectory_version < u64::MAX
    }

    /// The id of the current session.
    pub open spec fn current(self) -> Option<Seq<char>> {
        opt_view(self.state.current_id)
    }

    // -----------------------------------------------------------------------
    // Start
    // -----------------------------------------------------------------------
    /// The state at the start: the first workspace is active, nothing is open.
    pub fn new(
        host_info: HostInfo,
        sessions: Vec<SessionSummary>,
        image_limits: ImageAttachmentLimits,
        settings_snapshot: Json,
    ) -> (r: AppStore)
        ensures
            r.wf(),
            r.has_room(),
            r.state.host_info == host_info,
            r.state.sessions == sessions,
            r.image_limits == image_limits,
            r.settings.settings_snapshot == settings_snapshot,
            r.current() is None,
            opt_view(r.state.active_workspace) == (if host_info.workspaces@.len() > 0 {
                Some(host_info.workspaces@[0]@)
            } else {
                None
            }),
            r.state.titles@ == Map::<Seq<char>, String>::empty(),
            r.state.running_by_id@ == Map::<Seq<char>, bool>::empty(),
            r.state.chats@ == Map::<Seq<char>, ChatState>::empty(),
            r.state.jobs_by_id@ == Map::<Seq<char>, Vec<Json>>::empty(),
            r.stats_by_id@ == Map::<Seq<char>, Json>::empty(),
            r.session_cfg_by_id@ == Map::<Seq<char>, SessionCfg>::empty(),
            r.state.pending_plan is None,
            r.state.pending_ask is None,
            r.state.pending_approval is None,
            r.panel_tabs@.len() == 0,
            r.panel_active_tab is None,
            !r.panel_open,
            !r.sidebar_collapsed,
            r.hero_menu == HeroMenu::Closed,
            r.subagents.task_bar_open,
            r.local_notice_seq == 0,
            r.hero_state(),
            r.attachments.is_fresh(),
            r.ask.is_fresh(),
            r.trajectory.is_fresh(),
            r.settings.is_fresh(),
            r.chat == (ChatPane {
                composer_menu_open: false,
                composer_submenu_open: false,
                pinned: true,
                chat_version: 0,
            }),
            r.sessions.menu_open_session is None,
            r.sessions.menu_open_ws is None,
            !r.sessions.workspace_menu_open,
            r.sessions.collapsed_workspaces@ == Set::<Seq<char>>::empty(),
            r.sessions.workspace_titles@ == Map::<Seq<char>, String>::empty(),
            !r.panel_plus_menu_open,
            !r.billing_card_open,
            !r.run_ticking,
            !r.lineage_ticking,
    {
        let active_workspace = if host_info.workspaces.len() > 0 {
            Some(owned(host_info.workspaces[0].as_str()))
        } else {
            None
        };
        let titles: Table<String> = Table::new();
        let running_by_id: Table<bool> = Table::new();
        let chats: Table<ChatState> = Table::new();
        let jobs_by_id: Table<Vec<Json>> = Table::new();
        let stats_by_id: Table<Json> = Table::new();
        let session_cfg_by_id: Table<SessionCfg> = Table::new();
        let workspace_titles: Table<String> = Table::new();
        AppStore {
            attachments: AttachmentsStore::new(),
            ask: AskStore::new(),
            state: StoreState {
                sessions,
                titles,
                current_id: None,
                running_by_id,
                host_info,
                active_workspace,
                chats,
                jobs_by_id,
                pending_plan: None,
                pending_ask: None,
                pending_approval: None,
            },
            image_limits,
            stats_by_id,
            run_ticking: false,
            lineage_ticking: false,
            chat: ChatPane {
                composer_menu_open: false,
                composer_submenu_open: false,
                pinned: true,
                chat_version: 0,
            },
            settings: SettingsStore::new(settings_snapshot),
            sidebar_collapsed: false,
            panel_open: false,
            panel_tabs: Vec::new(),
            panel_active_tab: None,
            panel_plus_menu_open: false,
            sessions: SessionsPane {
                menu_open_session: None,
                menu_open_ws: None,
                workspace_menu_open: false,
                collapsed_workspaces: crate::table::NameSet::new(),
                workspace_titles,
            },
            hero_menu: HeroMenu::Closed,
            billing_card_open: false,
            session_cfg_by_id,
            subagents: SubagentsStore::new(),
            trajectory: TrajectoryStore::new(),
            local_notice_seq: 0,
        }
    }

    /// The session to be opened at the start: the first one; none where the
    /// host has to create one first.
    pub fn first_session(&self) -> (r: Option<&String>)
        ensures
            match r {
                Some(id) => self.state.sessions@.len() > 0 && *id
                    == self.state.sessions@[0].session_id,
                None => self.state.sessions@.len() == 0,
            },
    {
        if self.state.sessions.len() > 0 {
            Some(&self.state.sessions[0].session_id)
        } else {
            None
        }
    }

    /// Takes over the sessions that the host lists.
    pub fn refresh_list(&mut self, sessions: Vec<SessionSummary>)
        requires
            old(self).wf(),
        ensures
            final(self).wf(),
            final(self).state == (StoreState { sessions, ..old(self).state }),
            *final(self) == (AppStore { state: final(self).state, ..*old(self) }),
    {
        self.state.sessions = sessions;
    }

    /// Takes over the statistics of a session; without any, the old ones stay.
    pub fn refresh_stats_sync(&mut self, id: &str, stats: Option<Json>)
        requires
            old(self).wf(),
        ensures
            final(self).wf(),
            final(self).stats_by_id@ == (match stats {
                Some(s) => old(self).stats_by_id@.insert(id@, s),
                None => old(self).stats_by_id@,
            }),
            *final(self) == (AppStore { stats_by_id: final(self).stats_by_id, ..*old(self) }),
    {
        if let Some(s) = stats {
            self.stats_by_id.insert(id, s);
        }
    }

    // -----------------------------------------------------------------------
    // Running
    // -----------------------------------------------------------------------
    /// Whether a session runs: the frames say so, else the list.
    pub open spec fn runs(self, id: Seq<char>) -> bool {
        if self.state.running_by_id@.dom().contains(id) {
            self.state.running_by_id@[id]
        } else {
            match session_with(summary_values(self.state.sessions@), id) {
                Some(s) => s.running,
                None => false,
            }
        }
    }

    /// See [`AppStore::runs`].
    pub fn is_running(&self, id: &str) -> (r: bool)
        requires
            self.wf(),
        ensures
            r == self.runs(id@),
    {
        match self.state.running_by_id.get(id) {
            Some(b) => *b,
            None => match find_session(&self.state.sessions, id) {
                Some(s) => s.running,
                None => false,
            },
        }
    }

    /// Whether the chat of a session has no node.
    pub open spec fn blank(self, id: Seq<char>) -> bool {
        self.state.chats@.dom().contains(id) ==> self.state.chats@[id].nodes@.len() == 0
    }

    /// See [`AppStore::blank`].
    pub fn is_blank(&self, id: &str) -> (r: bool)
        requires
            self.wf(),
        ensures
            r == self.blank(id@),
    {
        match self.state.chats.get(id) {
            Some(c) => c.nodes.len() == 0,
            None => true,
        }
    }

    /// Whether the window is empty: no session, or one with a blank chat that
    /// does not run.
    pub open spec fn hero_state(self) -> bool {
        match self.current() {
            Some(id) => self.blank(id) && !self.runs(id),
            None => true,
        }
    }

    /// See [`AppStore::hero_state`].
    pub fn hero(&self) -> (r: bool)
        requires
            self.wf(),
        ensures
            r == self.hero_state(),
    {
        match &self.state.current_id {
            Some(id) => self.is_blank(id.as_str()) && !self.is_running(id.as_str()),
            None => true,
        }
    }

    /// Whether the clock of the current session is due: the frames say that
    /// it runs.
    pub open spec fn run_tick_due(self) -> bool {
        match self.current() {
            Some(id) => self.state.running_by_id@.dom().contains(id)
                && self.state.running_by_id@[id],
            None => false,
        }
    }

    fn run_due(&self) -> (r: bool)
        requires
            self.wf(),
        ensures
            r == self.run_tick_due(),
    {
        match &self.state.current_id {
            Some(id) => match self.state.running_by_id.get(id.as_str()) {
                Some(b) => *b,
                None => false,
            },
            None => false,
        }
    }

    /// Starts or stops the clock of the current session; returns whether a
    /// tick has to be scheduled anew.
    pub fn sync_run_tick(&mut self) -> (started: bool)
        requires
            old(self).wf(),
        ensures
            final(self).wf(),
            final(self).run_ticking == old(self).run_tick_due(),
            started == (old(self).run_tick_due() && !old(self).run_ticking),
            *final(self) == (AppStore { run_ticking: final(self).run_ticking, ..*old(self) }),
    {
        let due = self.run_due();
        let started = due && !self.run_ticking;
        self.run_ticking = due;
        started
    }

    // -----------------------------------------------------------------------
    // Settings of the session
    // -----------------------------------------------------------------------
    /// The settings that are shown for the current session: those known, or
    /// the defaults of the host.
    pub open spec fn shown_cfg(self) -> CfgValue {
        match self.current() {
            Some(id) if self.session_cfg_by_id@.dom().contains(
                id,
            ) => self.session_cfg_by_id@[id]@,
            _ => CfgValue {
                model: match self.state.host_info.model {
                    Some(m) => m@,
                    None => "deepseek-chat"@,
                },
                permission: "workspace-write"@,
                effort: Some("high"@),
                preset: "standard"@,
            },
        }
    }

    /// See [`AppStore::shown_cfg`].
    pub fn current_cfg_or_default(&self) -> (r: SessionCfg)
        requires
            self.wf(),
        ensures
            r@ == self.shown_cfg(),
    {
        if let Some(id) = &self.state.current_id {
            if let Some(c) = self.session_cfg_by_id.get(id.as_str()) {
                return c.copy();
            }
        }
        SessionCfg {
            model: match &self.state.host_info.model {
                Some(m) => owned(m.as_str()),
                None => owned("deepseek-chat"),
            },
            permission: owned("workspace-write"),
            effort: Some(owned("high")),
            preset: owned("standard"),
        }
    }

    /// The name of a preset: that of the first preset with the id; the id
    /// where there is none or it has no name.
    pub open spec fn preset_name(self, id: Seq<char>) -> Seq<char> {
        match with_id(crate::json::values(self.state.host_info.presets@), id) {
            Some(p) => match p.field("name"@).as_text() {
                Some(n) => n,
                None => id,
            },
            None => id,
        }
    }

    /// See [`AppStore::preset_name`].
    pub fn preset_label(&self, id: &str) -> (r: String)
        ensures
            r@ == self.preset_name(id@),
    {
        match crate::shell::statusbar::find_with_id(&self.state.host_info.presets, id) {
            Some(p) => match p.text_at("name") {
                Some(n) => n,
                None => owned(id),
            },
            None => owned(id),
        }
    }

    /// What a change of settings asks the host for.
    pub open spec fn asks(self, r: Option<CfgRequest>, change: CfgChange) -> bool {
        match r {
            Some(q) => self.current() == Some(q.session_id@) && q.change == change,
            None => self.current() is None,
        }
    }

    fn cfg_request(&self, change: CfgChange) -> (r: Option<CfgRequest>)
        ensures
            self.asks(r, change),
    {
        match &self.state.current_id {
            Some(id) => Some(CfgRequest { session_id: owned(id.as_str()), change }),
            None => None,
        }
    }

    /// The model of the current session is to change.
    pub fn set_session_model(&self, model: &str) -> (r: Option<CfgRequest>)
        ensures
            r is Some <==> self.current() is Some,
            r matches Some(q) ==> q.change matches CfgChange::Model(m) && m@ == model@
                && self.current() == Some(q.session_id@),
    {
        self.cfg_request(CfgChange::Model(owned(model)))
    }

    /// The effort of the current session is to change.
    pub fn set_session_effort(&self, effort: &str) -> (r: Option<CfgRequest>)
        ensures
            r is Some <==> self.current() is Some,
            r matches Some(q) ==> q.change matches CfgChange::Effort(e) && e@ == effort@
                && self.current() == Some(q.session_id@),
    {
        self.cfg_request(CfgChange::Effort(owned(effort)))
    }

    /// The preset of the current session is to change.
    pub fn set_session_preset(&self, preset: &str) -> (r: Option<CfgRequest>)
        ensures
            r is Some <==> self.current() is Some,
            r matches Some(q) ==> q.change matches CfgChange::Preset(p) && p@ == preset@
                && self.current() == Some(q.session_id@),
    {
        self.cfg_request(CfgChange::Preset(owned(preset)))
    }

    /// The workspace whose provider is set before a model of another provider:
    /// the active one, else the first that the host names.
    pub open spec fn provider_workspace(self, names: Seq<String>) -> Option<Seq<char>> {
        match opt_view(self.state.active_workspace) {
            Some(w) => Some(w),
            None => if names.len() > 0 {
                Some(names[0]@)
            } else {
                None
            },
        }
    }

    /// The workspace whose provider has to be set first, and the change of the
    /// model that follows.
    pub fn set_session_provider_model(&self, model: &str, workspace_names: &Vec<String>) -> (r: (
        Option<String>,
        Option<CfgRequest>,
    ))
        ensures
            opt_view(r.0) == self.provider_workspace(workspace_names@),
            r.1 is Some <==> self.current() is Some,
            r.1 matches Some(q) ==> q.change matches CfgChange::Model(m) && m@ == model@
                && self.current() == Some(q.session_id@),
    {
        let ws = match &self.state.active_workspace {
            Some(w) => Some(owned(w.as_str())),
            None => if workspace_names.len() > 0 {
                Some(owned(workspace_names[0].as_str()))
            } else {
                None
            },
        };
        (ws, self.set_session_model(model))
    }

    /// Puts a notice into the current chat and scrolls to it; without a
    /// session nothing happens. Each notice has a key of its own.
    pub fn push_local_notice(&mut self, text: &str)
        requires
            old(self).wf(),
            old(self).has_room(),
        ensures
            final(self).wf(),
            noticed(*old(self), *final(self), text@),
    {
        let id = match &self.state.current_id {
            Some(id) => owned(id.as_str()),
            None => {
                return ;
            },
        };
        self.local_notice_seq = self.local_notice_seq + 1;
        let number = u64_text(self.local_notice_seq);
        let key = cat2("notice-local-", number.as_str());
        let mut chat = match self.state.chats.get(id.as_str()) {
            Some(c) => c.copy(),
            None => ChatState::new(),
        };
        chat.push_node(ChatNode::Notice { key, text: owned(text) });
        self.state.chats.insert(id.as_str(), chat);
        self.chat.pinned = true;
        self.chat.chat_version = self.chat.chat_version + 1;
        assert(chat_values(self.state.chats@) =~= chat_values(old(self).state.chats@).insert(
            id@,
            chat@,
        ));
    }

    /// Keeps the settings of a session as the host gives them.
    pub fn refresh_session_cfg(&mut self, id: &str, cfg: SessionCfg)
        requires
            old(self).wf(),
        ensures
            final(self).wf(),
            final(self).session_cfg_by_id@ == old(self).session_cfg_by_id@.insert(id@, cfg),
            *final(self) == (AppStore {
                session_cfg_by_id: final(self).session_cfg_by_id,
                ..*old(self)
            }),
    {
        self.session_cfg_by_id.insert(id, cfg);
    }

    /// What came of a change of settings: the new settings are kept, a refusal
    /// becomes a notice. The menus close.
    pub fn mutate_session_cfg(&mut self, outcome: Result<SessionCfg, String>)
        requires
            old(self).wf(),
            old(self).has_room(),
        ensures
            final(self).wf(),
            old(self).current() is None ==> *final(self) == *old(self),
            old(self).current() matches Some(id) ==> {
                let mid = AppStore {
                    chat: ChatPane { composer_menu_open: old(self).chat.composer_menu_open, ..final(self).chat },
                    hero_menu: old(self).hero_menu,
                    ..*final(self)
                };
                &&& !final(self).chat.composer_menu_open
                &&& final(self).hero_menu == HeroMenu::Closed
                &&& match outcome {
                    Ok(c) => {
                        &&& mid.session_cfg_by_id@ == old(self).session_cfg_by_id@.insert(id, c)
                        &&& mid == (AppStore {
                            session_cfg_by_id: mid.session_cfg_by_id,
                            ..*old(self)
                        })
                    },
                    Err(e) => noticed(*old(self), mid, "切换失败:"@ + e@),
                }
            },
    {
        let id = match &self.state.current_id {
            Some(id) => owned(id.as_str()),
            None => {
                return ;
            },
        };
        match outcome {
            Ok(c) => {
                self.session_cfg_by_id.insert(id.as_str(), c);
            },
            Err(e) => {
                let text = cat2("切换失败:", e.as_str());
                self.push_local_notice(text.as_str());
            },
        }
        self.chat.composer_menu_open = false;
        self.hero_menu = HeroMenu::Closed;
    }

    // -----------------------------------------------------------------------
    // Permission
    // -----------------------------------------------------------------------
    /// Switches the permission of the current session at once and returns what
    /// the host has to be asked for; `host_permission` is what it says of the
    /// session now.
    pub fn set_session_permission(&mut self, permission: &str, host_permission: &str) -> (r: Option<
        PermissionRequest,
    >)
        requires
            old(self).wf(),
        ensures
            final(self).wf(),
            r is Some <==> old(self).current() is Some,
            r is None ==> *final(self) == *old(self),
            r matches Some(q) ==> {
                let known = old(self).session_cfg_by_id@.dom().contains(q.session_id@);
                &&& old(self).current() == Some(q.session_id@)
                &&& q.permission@ == permission@
                &&& q.prior@ == (if known {
                    old(self).session_cfg_by_id@[q.session_id@].permission@
                } else {
                    host_permission@
                })
                &&& cfg_values(final(self).session_cfg_by_id@) == cfg_values(
                    old(self).session_cfg_by_id@,
                ).insert(q.session_id@, permitted(old(self).shown_cfg(), permission@))
                &&& !final(self).chat.composer_menu_open
                &&& final(self).hero_menu == HeroMenu::Closed
                &&& *final(self) == (AppStore {
                    session_cfg_by_id: final(self).session_cfg_by_id,
                    chat: ChatPane { composer_menu_open: false, ..old(self).chat },
                    hero_menu: HeroMenu::Closed,
                    ..*old(self)
                })
            },
    {
        let id = match &self.state.current_id {
            Some(id) => owned(id.as_str()),
            None => {
                return None;
            },
        };
        self.chat.composer_menu_open = false;
        self.hero_menu = HeroMenu::Closed;
        let prior = match self.session_cfg_by_id.get(id.as_str()) {
            Some(c) => owned(c.permission.as_str()),
            None => owned(host_permission),
        };
        let mut cfg = self.current_cfg_or_default();
        cfg.permission = owned(permission);
        self.session_cfg_by_id.insert(id.as_str(), cfg);
        assert(cfg_values(self.session_cfg_by_id@) =~= cfg_values(
            old(self).session_cfg_by_id@,
        ).insert(id@, cfg@));
        Some(PermissionRequest { session_id: id, permission: owned(permission), prior })
    }

    /// Writes a permission into the settings of a session, where they are
    /// known.
    pub fn set_cfg_permission(&mut self, id: &str, permission: &str)
        requires
            old(self).wf(),
        ensures
            final(self).wf(),
            *final(self) == (AppStore {
                session_cfg_by_id: final(self).session_cfg_by_id,
                ..*old(self)
            }),
            cfg_values(final(self).session_cfg_by_id@)
                == (if old(self).session_cfg_by_id@.dom().contains(id@) {
                cfg_values(old(self).session_cfg_by_id@).insert(
                    id@,
                    permitted(old(self).session_cfg_by_id@[id@]@, permission@),
                )
            } else {
                cfg_values(old(self).session_cfg_by_id@)
            }),
    {
        let next = match self.session_cfg_by_id.get(id) {
            Some(c) => {
                let mut n = c.copy();
                n.permission = owned(permission);
                Some(n)
            },
            None => None,
        };
        if let Some(n) = next {
            self.session_cfg_by_id.insert(id, n);
            assert(cfg_values(self.session_cfg_by_id@) =~= cfg_values(
                old(self).session_cfg_by_id@,
            ).insert(id@, n@));
        }
    }

    /// What came of a switch of the permission: done, it stays as it was
    /// written; else the permission before comes back and a notice says why.
    pub fn permission_outcome(&mut self, request: &PermissionRequest, outcome: CallOutcome)
        requires
            old(self).wf(),
            old(self).has_room(),
        ensures
            final(self).wf(),
            outcome is Done ==> *final(self) == *old(self),
            !(outcome is Done) ==> exists|mid: AppStore| #[trigger]
                rolled_back(*old(self), mid, *request) && noticed(
                    mid,
                    *final(self),
                    match outcome {
                        CallOutcome::Failed(e) => "切换失败:"@ + e@,
                        _ => "权限切换:通道失败"@,
                    },
                ),
    {
        match outcome {
            CallOutcome::Done => {},
            CallOutcome::Failed(e) => {
                self.set_cfg_permission(request.session_id.as_str(), request.prior.as_str());
                assert(rolled_back(*old(self), *self, *request));
                let text = cat2("切换失败:", e.as_str());
                self.push_local_notice(text.as_str());
            },
            CallOutcome::Lost => {
                self.set_cfg_permission(request.session_id.as_str(), request.prior.as_str());
                assert(rolled_back(*old(self), *self, *request));
                self.push_local_notice("权限切换:通道失败");
            },
        }
    }

    /// The settings after the current session reported its permission.
    pub open spec fn echoed(self, mode: Seq<char>) -> Map<Seq<char>, CfgValue> {
        match self.current() {
            Some(id) if self.shown_cfg().permission != mode => cfg_values(
                self.session_cfg_by_id@,
            ).insert(id, permitted(self.shown_cfg(), mode)),
            _ => cfg_values(self.session_cfg_by_id@),
        }
    }

    /// Takes over the permission that the session itself reports: it is the
    /// one in force.
    pub fn apply_permission_echo(&mut self, mode: &str)
        requires
            old(self).wf(),
        ensures
            final(self).wf(),
            *final(self) == (AppStore {
                session_cfg_by_id: final(self).session_cfg_by_id,
                ..*old(self)
            }),
            cfg_values(final(self).session_cfg_by_id@) == old(self).echoed(mode@),
    {
        let id = match &self.state.current_id {
            Some(id) => owned(id.as_str()),
            None => {
                return ;
            },
        };
        let mut cfg = self.current_cfg_or_default();
        if str_eq(cfg.permission.as_str(), mode) {
            return ;
        }
        cfg.permission = owned(mode);
        self.session_cfg_by_id.insert(id.as_str(), cfg);
        assert(cfg_values(self.session_cfg_by_id@) =~= cfg_values(
            old(self).session_cfg_by_id@,
        ).insert(id@, cfg@));
    }

    // -----------------------------------------------------------------------
    // Plan mode
    // -----------------------------------------------------------------------
    /// Switches the plan mode of the current session at once, in the direction
    /// given and never by what it is now, and returns what the host has to be
    /// asked for.
    pub fn apply_plan_mode(&mut self, target: bool) -> (r: Option<ModeRequest>)
        requires
            old(self).wf(),
        ensures
            final(self).wf(),
            r is Some <==> old(self).current() is Some,
            r is None ==> *final(self) == *old(self),
            r matches Some(q) ==> {
                let chats = chat_values(old(self).state.chats@);
                let known = chats.dom().contains(q.session_id@);
                &&& old(self).current() == Some(q.session_id@)
                &&& q.mode@ == (if target {
                    "plan"@
                } else {
                    "standard"@
                })
                &&& q.prior == (if known {
                    chats[q.session_id@].plan_mode
                } else {
                    !target
                })
                &&& replanned(*old(self), *final(self), q.session_id@, target)
            },
    {
        let id = match &self.state.current_id {
            Some(id) => owned(id.as_str()),
            None => {
                return None;
            },
        };
        let mode = if target {
            owned("plan")
        } else {
            owned("standard")
        };
        let prior = match self.state.chats.get(id.as_str()) {
            Some(c) => c.plan_mode,
            None => !target,
        };
        self.set_plan_mode(id.as_str(), target);
        Some(ModeRequest { session_id: id, mode, prior })
    }

    fn set_plan_mode(&mut self, id: &str, plan_mode: bool)
        requires
            old(self).wf(),
        ensures
            final(self).wf(),
            replanned(*old(self), *final(self), id@, plan_mode),
            final(self).has_room() == old(self).has_room(),
    {
        let next = match self.state.chats.get(id) {
            Some(c) => {
                let mut n = c.copy();
                n.plan_mode = plan_mode;
                Some(n)
            },
            None => None,
        };
        if let Some(n) = next {
            self.state.chats.insert(id, n);
            assert(chat_values(self.state.chats@) =~= chat_values(old(self).state.chats@).insert(
                id@,
                n@,
            ));
        }
    }

    /// Leaves the plan mode.
    pub fn exit_plan_mode(&mut self) -> (r: Option<ModeRequest>)
        requires
            old(self).wf(),
        ensures
            final(self).wf(),
            r is Some <==> old(self).current() is Some,
            r is None ==> *final(self) == *old(self),
            r matches Some(q) ==> {
                &&& old(self).current() == Some(q.session_id@)
                &&& q.mode@ == "standard"@
                &&& q.prior == (if chat_values(old(self).state.chats@).dom().contains(
                    q.session_id@,
                ) {
                    chat_values(old(self).state.chats@)[q.session_id@].plan_mode
                } else {
                    true
                })
                &&& replanned(*old(self), *final(self), q.session_id@, false)
            },
    {
        self.apply_plan_mode(false)
    }

    /// What came of a switch of the mode: done, it stays; else the mode before
    /// comes back and a notice says why.
    pub fn plan_mode_outcome(&mut self, request: &ModeRequest, outcome: CallOutcome)
        requires
            old(self).wf(),
            old(self).has_room(),
        ensures
            final(self).wf(),
            outcome is Done ==> *final(self) == *old(self),
            !(outcome is Done) ==> exists|mid: AppStore| #[trigger]
                replanned(*old(self), mid, request.session_id@, request.prior) && noticed(
                    mid,
                    *final(self),
                    match outcome {
                        CallOutcome::Failed(e) => "模式切换失败:"@ + e@,
                        _ => "模式切换:通道失败"@,
                    },
                ),
    {
        match outcome {
            CallOutcome::Done => {},
            CallOutcome::Failed(e) => {
                self.set_plan_mode(request.session_id.as_str(), request.prior);
                assert(replanned(*old(self), *self, request.session_id@, request.prior));
                let text = cat2("模式切换失败:", e.as_str());
                self.push_local_notice(text.as_str());
            },
            CallOutcome::Lost => {
                self.set_plan_mode(request.session_id.as_str(), request.prior);
                assert(replanned(*old(self), *self, request.session_id@, request.prior));
                self.push_local_notice("模式切换:通道失败");
            },
        }
    }

    // -----------------------------------------------------------------------
    // Menus
    // -----------------------------------------------------------------------
    /// Opens a menu of the empty window; the one that is open closes.
    pub fn set_hero_menu(&mut self, menu: HeroMenu)
        requires
            old(self).wf(),
        ensures
            final(self).wf(),
            *final(self) == (AppStore {
                hero_menu: if old(self).hero_menu == menu {
                    HeroMenu::Closed
                } else {
                    menu
                },
                ..*old(self)
            }),
    {
        self.hero_menu = if self.hero_menu == menu {
            HeroMenu::Closed
        } else {
            menu
        };
    }

    /// Opens or closes the second level of the composer's menu.
    pub fn set_composer_submenu(&mut self, open: bool)
        requires
            old(self).wf(),
        ensures
            final(self).wf(),
            *final(self) == (AppStore {
                chat: ChatPane { composer_submenu_open: open, ..old(self).chat },
                ..*old(self)
            }),
    {
        self.chat.composer_submenu_open = open;
    }

    /// Closes the composer's menu with its second level.
    pub fn close_composer_menu(&mut self)
        requires
            old(self).wf(),
        ensures
            final(self).wf(),
            *final(self) == (AppStore {
                chat: ChatPane {
                    composer_menu_open: false,
                    composer_submenu_open: false,
                    ..old(self).chat
                },
                ..*old(self)
            }),
    {
        self.chat.composer_menu_open = false;
        self.chat.composer_submenu_open = false;
    }

    /// Asks before full access is given to the session; the menus close.
    pub fn ask_full_access_session(&mut self)
        requires
            old(self).wf(),
        ensures
            final(self).wf(),
            *final(self) == (AppStore {
                chat: ChatPane { composer_menu_open: false, ..old(self).chat },
                hero_menu: HeroMenu::Closed,
                settings: SettingsStore {
                    full_access_confirm: Some(FullAccessAsk::Session),
                    ..old(self).settings
                },
                ..*old(self)
            }),
    {
        self.chat.composer_menu_open = false;
        self.hero_menu = HeroMenu::Closed;
        self.settings.full_access_confirm = Some(FullAccessAsk::Session);
    }

    /// Opens the billing card; it never closes by the same way.
    pub fn open_billing_card(&mut self)
        requires
            old(self).wf(),
        ensures
            final(self).wf(),
            *final(self) == (AppStore { billing_card_open: true, ..*old(self) }),
    {
        self.billing_card_open = true;
    }

    /// Closes every menu and the billing card, and brings the clock of the subagents up to date;
    /// returns whether a tick has to be scheduled anew.
    pub fn close_all_menus(&mut self) -> (started: bool)
        requires
            old(self).wf(),
        ensures
            final(self).wf(),
            started == (old(self).lineage_tick_due() && !old(self).lineage_ticking),
            *final(self) == (AppStore {
                chat: ChatPane { composer_menu_open: false, ..old(self).chat },
                hero_menu: HeroMenu::Closed,
                billing_card_open: false,
                sessions: SessionsPane {
                    menu_open_session: None,
                    menu_open_ws: None,
                    workspace_menu_open: false,
                    ..old(self).sessions
                },
                settings: SettingsStore { full_access_confirm: None, ..old(self).settings },
                panel_plus_menu_open: false,
                lineage_ticking: old(self).lineage_tick_due(),
                ..*old(self)
            }),
    {
        self.chat.composer_menu_open = false;
        self.hero_menu = HeroMenu::Closed;
        self.billing_card_open = false;
        self.sessions.menu_open_session = None;
        self.sessions.menu_open_ws = None;
        self.sessions.workspace_menu_open = false;
        self.settings.full_access_confirm = None;
        self.panel_plus_menu_open = false;
        self.sync_lineage_tick()
    }

    // -----------------------------------------------------------------------
    // Sidebar and panel
    // -----------------------------------------------------------------------
    /// Folds or unfolds the sidebar.
    pub fn toggle_sidebar(&mut self)
        requires
            old(self).wf(),
        ensures
            final(self).wf(),
            *final(self) == (AppStore {
                sidebar_collapsed: !old(self).sidebar_collapsed,
                ..*old(self)
            }),
    {
        self.sidebar_collapsed = !self.sidebar_collapsed;
    }

    /// Opens or closes the panel.
    pub fn toggle_panel(&mut self)
        requires
            old(self).wf(),
        ensures
            final(self).wf(),
            *final(self) == (AppStore { panel_open: !old(self).panel_open, ..*old(self) }),
    {
        self.panel_open = !self.panel_open;
    }

    /// Opens the menu of the panel's pages.
    pub fn open_panel_plus_menu_at(&mut self)
        requires
            old(self).wf(),
        ensures
            final(self).wf(),
            *final(self) == (AppStore { panel_plus_menu_open: true, ..*old(self) }),
    {
        self.panel_plus_menu_open = true;
    }

    /// Whether the trajectory is the active page.
    pub open spec fn trajectory_shown(self) -> bool {
        self.panel_active_tab == Some(PanelTab::Trajectory)
    }

    /// See [`AppStore::trajectory_shown`].
    pub fn trajectory_visible(&self) -> (r: bool)
        ensures
            r == self.trajectory_shown(),
    {
        match self.panel_active_tab {
            Some(t) => t == PanelTab::Trajectory,
            None => false,
        }
    }

    fn has_tab(&self, tab: PanelTab) -> (r: bool)
        ensures
            r == self.panel_tabs@.contains(tab),
    {
        let mut i: usize = 0;
        while i < self.panel_tabs.len()
            invariant
                i <= self.panel_tabs@.len(),
                forall|k: int| 0 <= k < i ==> self.panel_tabs@[k] != tab,
            decreases self.panel_tabs@.len() - i,
        {
            if self.panel_tabs[i] == tab {
                return true;
            }
            i = i + 1;
        }
        false
    }

    /// Opens a page of the panel, or makes an open one active; the panel opens
    /// with it. The trajectory is fetched anew each time it comes into view:
    /// the result is the page to fetch.
    pub fn open_panel_tab(&mut self, tab: PanelTab, at_bottom: bool) -> (r: Option<PageRequest>)
        requires
            old(self).wf(),
        ensures
            final(self).wf(),
            final(self).panel_open,
            final(self).panel_active_tab == Some(tab),
            !final(self).panel_plus_menu_open,
            final(self).panel_tabs@ == opened(old(self).panel_tabs@, tab),
            ({
                let mid = AppStore {
                    panel_open: true,
                    panel_tabs: final(self).panel_tabs,
                    panel_active_tab: Some(tab),
                    panel_plus_menu_open: false,
                    ..*old(self)
                };
                if tab == PanelTab::Trajectory {
                    crate::trajectory::refresh_begun(mid, *final(self), r, at_bottom)
                } else {
                    r is None && *final(self) == mid
                }
            }),
    {
        self.panel_open = true;
        if !self.has_tab(tab) {
            let ghost before = self.panel_tabs@;
            self.panel_tabs.push(tab);
            proof {
                lemma_push_keeps(before, tab);
            }
        }
        self.panel_active_tab = Some(tab);
        self.panel_plus_menu_open = false;
        assert(self.panel_tabs@.contains(tab)) by {
            if !old(self).panel_tabs@.contains(tab) {
                assert(self.panel_tabs@.last() == tab);
            }
        }
        if tab == PanelTab::Trajectory {
            self.refresh_trajectory(at_bottom)
        } else {
            None
        }
    }

    /// Closes a page. Was it the active one, the last of the others becomes
    /// active; the panel itself stays as it is.
    pub fn close_panel_tab(&mut self, tab: PanelTab)
        requires
            old(self).wf(),
        ensures
            final(self).wf(),
            final(self).panel_tabs@ == without(old(self).panel_tabs@, tab),
            final(self).panel_active_tab == (if old(self).panel_active_tab == Some(tab) {
                if final(self).panel_tabs@.len() > 0 {
                    Some(final(self).panel_tabs@.last())
                } else {
                    None
                }
            } else {
                old(self).panel_active_tab
            }),
            *final(self) == (AppStore {
                panel_tabs: final(self).panel_tabs,
                panel_active_tab: final(self).panel_active_tab,
                ..*old(self)
            }),
    {
        let mut kept: Vec<PanelTab> = Vec::new();
        let mut i: usize = 0;
        while i < self.panel_tabs.len()
            invariant
                i <= self.panel_tabs@.len(),
                kept@ == without(self.panel_tabs@.take(i as int), tab),
            decreases self.panel_tabs@.len() - i,
        {
            let t = self.panel_tabs[i];
            assert(self.panel_tabs@.take(i + 1).drop_last() =~= self.panel_tabs@.take(i as int));
            if t != tab {
                kept.push(t);
            }
            i = i + 1;
        }
        assert(self.panel_tabs@.take(i as int) =~= self.panel_tabs@);
        proof {
            lemma_without(self.panel_tabs@, tab);
        }
        self.panel_tabs = kept;
        let was_active = match self.panel_active_tab {
            Some(t) => t == tab,
            None => false,
        };
        if was_active {
            self.panel_active_tab = if self.panel_tabs.len() > 0 {
                let last = self.panel_tabs[self.panel_tabs.len() - 1];
                Some(last)
            } else {
                None
            };
        }
    }

    /// Makes an open page active; the trajectory is fetched anew. A page that
    /// is not open changes nothing.
    pub fn activate_panel_tab(&mut self, tab: PanelTab, at_bottom: bool) -> (r: Option<PageRequest>)
        requires
            old(self).wf(),
        ensures
            final(self).wf(),
            !old(self).panel_tabs@.contains(tab) ==> r is None && *final(self) == *old(self),
            old(self).panel_tabs@.contains(tab) ==> {
                let mid = AppStore { panel_active_tab: Some(tab), ..*old(self) };
                if tab == PanelTab::Trajectory {
                    crate::trajectory::refresh_begun(mid, *final(self), r, at_bottom)
                } else {
                    r is None && *final(self) == mid
                }
            },
    {
        if self.has_tab(tab) {
            self.panel_active_tab = Some(tab);
            if tab == PanelTab::Trajectory {
                return self.refresh_trajectory(at_bottom);
            }
        }
        None
    }
}

/// The pages with one opened.
pub open spec fn opened(tabs: Seq<PanelTab>, tab: PanelTab) -> Seq<PanelTab> {
    if tabs.contains(tab) {
        tabs
    } else {
        tabs.push(tab)
    }
}

/// The pages without one.
pub open spec fn without(tabs: Seq<PanelTab>, tab: PanelTab) -> Seq<PanelTab>
    decreases tabs.len(),
{
    if tabs.len() == 0 {
        tabs
    } else if tabs.last() == tab {
        without(tabs.drop_last(), tab)
    } else {
        without(tabs.drop_last(), tab).push(tabs.last())
    }
}

proof fn lemma_push_keeps(tabs: Seq<PanelTab>, tab: PanelTab)
    requires
        tabs.no_duplicates(),
        !tabs.contains(tab),
    ensures
        tabs.push(tab).no_duplicates(),
        forall|t: PanelTab| tabs.contains(t) ==> #[trigger] tabs.push(tab).contains(t),
        tabs.push(tab).contains(tab),
{
    assert(tabs.push(tab).last() == tab);
    assert forall|t: PanelTab| tabs.contains(t) implies #[trigger] tabs.push(tab).contains(t) by {
        let i = choose|i: int| 0 <= i < tabs.len() && tabs[i] == t;
        assert(tabs.push(tab)[i] == t);
    }
}

proof fn lemma_without(tabs: Seq<PanelTab>, tab: PanelTab)
    requires
        tabs.no_duplicates(),
    ensures
        without(tabs, tab).no_duplicates(),
        forall|t: PanelTab| #[trigger]
            without(tabs, tab).contains(t) <==> tabs.contains(t) && t != tab,
    decreases tabs.len(),
{
    if tabs.len() > 0 {
        let init = tabs.drop_last();
        lemma_without(init, tab);
        let w = without(init, tab);
        assert forall|t: PanelTab| #[trigger]
            without(tabs, tab).contains(t) <==> tabs.contains(t) && t != tab by {
            assert(tabs =~= init.push(tabs.last()));
            if tabs.contains(t) {
                let i = choose|i: int| 0 <= i < tabs.len() && tabs[i] == t;
                if i < init.len() {
                    assert(init[i] == t);
                }
            }
            if init.contains(t) {
                let i = choose|i: int| 0 <= i < init.len() && init[i] == t;
                assert(tabs[i] == t);
            }
            if tabs.last() != tab {
                if w.contains(t) {
                    let i = choose|i: int| 0 <= i < w.len() && w[i] == t;
                    assert(w.push(tabs.last())[i] == t);
                }
                assert(w.push(tabs.last()).last() == tabs.last());
                if w.push(tabs.last()).contains(t) && t != tabs.last() {
                    let i = choose|i: int|
                        0 <= i < w.push(tabs.last()).len() && w.push(tabs.last())[i] == t;
                    assert(w[i] == t);
                }
            }
            assert(tabs[tabs.len() - 1] == tabs.last());
        }
        if tabs.last() != tab {
            assert(!w.contains(tabs.last())) by {
                if init.contains(tabs.last()) {
                    let i = choose|i: int| 0 <= i < init.len() && init[i] == tabs.last();
                    assert(tabs[i] == tabs[tabs.len() - 1]);
                }
            }
            assert(w.push(tabs.last()).no_duplicates());
        }
    }
}

/// What a notice does: the current chat has one more node, under the next
/// key, and is scrolled to its end.
pub open spec fn noticed(a: AppStore, b: AppStore, text: Seq<char>) -> bool {
    match a.current() {
        None => b == a,
        Some(id) => {
            let chats = chat_values(a.state.chats@);
            let before = if chats.dom().contains(id) {
                chats[id]
            } else {
                no_chat()
            };
            let node = NodeValue::Notice {
                key: "notice-local-"@ + dec((a.local_notice_seq + 1) as nat),
                text,
            };
            &&& chat_values(b.state.chats@) == chats.insert(id, with_node(before, node))
            &&& b.local_notice_seq == a.local_notice_seq + 1
            &&& b == (AppStore {
                state: StoreState { chats: b.state.chats, ..a.state },
                chat: ChatPane {
                    pinned: true,
                    chat_version: (a.chat.chat_version + 1) as u64,
                    ..a.chat
                },
                local_notice_seq: b.local_notice_seq,
                ..a
            })
        },
    }
}

/// What the return to the permission before does.
pub open spec fn rolled_back(a: AppStore, b: AppStore, request: PermissionRequest) -> bool {
    let id = request.session_id@;
    &&& b == (AppStore { session_cfg_by_id: b.session_cfg_by_id, ..a })
    &&& cfg_values(b.session_cfg_by_id@) == (if a.session_cfg_by_id@.dom().contains(id) {
        cfg_values(a.session_cfg_by_id@).insert(
            id,
            permitted(a.session_cfg_by_id@[id]@, request.prior@),
        )
    } else {
        cfg_values(a.session_cfg_by_id@)
    })
}

/// What a switch of the plan mode does: the chat of the session, where there
/// is one, gets the mode.
pub open spec fn replanned(a: AppStore, b: AppStore, id: Seq<char>, plan_mode: bool) -> bool {
    let chats = chat_values(a.state.chats@);
    &&& b == (AppStore { state: StoreState { chats: b.state.chats, ..a.state }, ..a })
    &&& chat_values(b.state.chats@) == (if chats.dom().contains(id) {
        chats.insert(id, planning(chats[id], plan_mode))
    } else {
        chats
    })
}

/// A switch of the plan mode in a direction, repeated, leaves what the first
/// one left.
pub proof fn law_plan_mode_is_idempotent(
    a: AppStore,
    b: AppStore,
    c: AppStore,
    id: Seq<char>,
    plan_mode: bool,
)
    requires
        replanned(a, b, id, plan_mode),
        replanned(b, c, id, plan_mode),
    ensures
        chat_values(c.state.chats@) == chat_values(b.state.chats@),
{
    assert(chat_values(c.state.chats@) =~= chat_values(b.state.chats@));
}

/// A switch of the plan mode that the host refuses leaves the chats as they
/// were.
pub proof fn law_refused_plan_mode_is_undone(
    a: AppStore,
    b: AppStore,
    c: AppStore,
    id: Seq<char>,
    target: bool,
)
    requires
        replanned(a, b, id, target),
        chat_values(a.state.chats@).dom().contains(id),
        replanned(b, c, id, chat_values(a.state.chats@)[id].plan_mode),
    ensures
        chat_values(c.state.chats@) == chat_values(a.state.chats@),
{
    let chats = chat_values(a.state.chats@);
    assert(planning(planning(chats[id], target), chats[id].plan_mode) =~= chats[id]);
    assert(chat_values(c.state.chats@) =~= chats);
}

/// A switch of the permission that the host refuses leaves the settings as
/// they were, where they were known.
pub proof fn law_refused_permission_is_undone(
    a: AppStore,
    b: AppStore,
    c: AppStore,
    permission: Seq<char>,
    request: PermissionRequest,
)
    requires
        a.current() == Some(request.session_id@),
        a.session_cfg_by_id@.dom().contains(request.session_id@),
        request.prior@ == a.session_cfg_by_id@[request.session_id@].permission@,
        cfg_values(b.session_cfg_by_id@) == cfg_values(a.session_cfg_by_id@).insert(
            request.session_id@,
            permitted(a.shown_cfg(), permission),
        ),
        rolled_back(b, c, request),
    ensures
        cfg_values(c.session_cfg_by_id@) == cfg_values(a.session_cfg_by_id@),
{
    let id = request.session_id@;
    let before = cfg_values(a.session_cfg_by_id@);
    assert(cfg_values(b.session_cfg_by_id@).dom().contains(id));
    assert(b.session_cfg_by_id@.dom().contains(id));
    assert(cfg_values(b.session_cfg_by_id@)[id] == b.session_cfg_by_id@[id]@);
    assert(permitted(permitted(before[id], permission), request.prior@) =~= before[id]);
    assert(cfg_values(c.session_cfg_by_id@) =~= before);
}

/// The notices of the window are never dropped: each key is new to a chat
/// that only has notices with lower numbers.
pub proof fn law_notice_keys_are_distinct(a: u64, b: u64)
    requires
        a != b,
    ensures
        "notice-local-"@ + dec(a as nat) != "notice-local-"@ + dec(b as nat),
{
    let p = "notice-local-"@;
    if p + dec(a as nat) == p + dec(b as nat) {
        assert((p + dec(a as nat)).skip(p.len() as int) =~= dec(a as nat));
        assert((p + dec(b as nat)).skip(p.len() as int) =~= dec(b as nat));
        crate::decimal::law_decimal_is_injective(a as nat, b as nat);
    }
}

/// A page that was not open and is closed again is not open; the others are
/// as before.
pub proof fn law_closing_undoes_opening(tabs: Seq<PanelTab>, tab: PanelTab)
    requires
        tabs.no_duplicates(),
        !tabs.contains(tab),
    ensures
        without(opened(tabs, tab), tab) == tabs,
{
    assert(opened(tabs, tab).drop_last() =~= tabs);
    lemma_without_absent(tabs, tab);
}

proof fn lemma_without_absent(tabs: Seq<PanelTab>, tab: PanelTab)
    requires
        !tabs.contains(tab),
    ensures
        without(tabs, tab) == tabs,
    decreases tabs.len(),
{
    if tabs.len() > 0 {
        let init = tabs.drop_last();
        assert(!init.contains(tab)) by {
            if init.contains(tab) {
                let i = choose|i: int| 0 <= i < init.len() && init[i] == tab;
                assert(tabs[i] == tab);
            }
        }
        assert(tabs[tabs.len() - 1] == tabs.last());
        lemma_without_absent(init, tab);
        assert(init.push(tabs.last()) =~= tabs);
    }
}

/// What a session reports of its running counts for more than the list.
pub proof fn law_reports_count_for_more_than_the_list(s: &AppStore, id: &str, r: bool)
    requires
        call_ensures(AppStore::is_running, (s, id), r),
    ensures
        s.state.running_by_id@.contains_key(id@) ==> r == s.state.running_by_id@[id@],
        forall|i: int|
            !s.state.running_by_id@.contains_key(id@) && 0 <= i < s.state.sessions@.len() && (
            #[trigger] s.state.sessions@[i]).session_id@ == id@ && (forall|j: int|
                0 <= j < i ==> (#[trigger] s.state.sessions@[j]).session_id@ != id@) ==> r
                == s.state.sessions@[i].running,
        !s.state.running_by_id@.contains_key(id@) && (forall|i: int|
            0 <= i < s.state.sessions@.len() ==> (#[trigger] s.state.sessions@[i]).session_id@
                != id@) ==> !r,
{
    let v = summary_values(s.state.sessions@);
    assert forall|i: int|
        !s.state.running_by_id@.contains_key(id@) && 0 <= i < s.state.sessions@.len() && (
        #[trigger] s.state.sessions@[i]).session_id@ == id@ && (forall|j: int|
            0 <= j < i ==> (#[trigger] s.state.sessions@[j]).session_id@ != id@) implies r
        == s.state.sessions@[i].running by {
        assert forall|j: int| 0 <= j < i implies (#[trigger] v[j]).session_id != id@ by {
            assert(v[j].session_id == s.state.sessions@[j].session_id@);
        }
        crate::shell::state::law_first_session_with_an_id(v, id@, i);
    }
    if forall|i: int|
        0 <= i < s.state.sessions@.len() ==> (#[trigger] s.state.sessions@[i]).session_id@ != id@ {
        assert forall|j: int| 0 <= j < v.len() implies (#[trigger] v[j]).session_id != id@ by {
            assert(v[j].session_id == s.state.sessions@[j].session_id@);
        }
        crate::shell::state::law_first_session_with_an_id(v, id@, v.len() as int);
    }
}

/// A session is blank while its chat holds nothing. The greeting is shown
/// without a session, and in a blank one that does not run.
pub proof fn law_greeting_is_shown_in_blank_sessions(
    s: &AppStore,
    id: &str,
    blank: bool,
    running: bool,
    hero: bool,
)
    requires
        call_ensures(AppStore::is_blank, (s, id), blank),
        call_ensures(AppStore::is_running, (s, id), running),
        call_ensures(AppStore::hero, (s,), hero),
    ensures
        !s.state.chats@.contains_key(id@) ==> blank,
        s.state.chats@.contains_key(id@) ==> (blank <==> s.state.chats@[id@].nodes@.len() == 0),
        s.state.current_id is None ==> hero,
        opt_view(s.state.current_id) == Some(id@) ==> (hero <==> blank && !running),
{
}

/// The clock of the current session ticks while it reports that it runs, and
/// is started once.
pub proof fn law_run_clock_ticks_while_a_session_runs(
    s: &mut AppStore,
    id: Seq<char>,
    started: bool,
)
    requires
        call_ensures(AppStore::sync_run_tick, (s,), started),
        opt_view(s.state.current_id) == Some(id),
    ensures
        final(s).run_ticking
            <==> old(s).state.running_by_id@.contains_key(id) && old(s).state.running_by_id@[id],
        started <==> final(s).run_ticking && !old(s).run_ticking,
{
}

/// A session is shown with its own settings, where they are known. Else the
/// host's model is shown, and the settings that a new session starts with.
pub proof fn law_settings_of_the_current_session_are_shown(
    s: &AppStore,
    r: SessionCfg,
)
    requires
        call_ensures(AppStore::current_cfg_or_default, (s,), r),
    ensures
        s.state.current_id matches Some(id) ==> s.session_cfg_by_id@.contains_key(id@) ==> {
            &&& r.model@ == s.session_cfg_by_id@[id@].model@
            &&& r.permission@ == s.session_cfg_by_id@[id@].permission@
            &&& opt_view(r.effort) == opt_view(s.session_cfg_by_id@[id@].effort)
            &&& r.preset@ == s.session_cfg_by_id@[id@].preset@
        },
        s.state.current_id is None ==> {
            &&& r.permission@ == "workspace-write"@
            &&& opt_view(r.effort) == Some("high"@)
            &&& r.preset@ == "standard"@
            &&& s.state.host_info.model matches Some(m) ==> r.model@ == m@
            &&& s.state.host_info.model is None ==> r.model@ == "deepseek-chat"@
        },
{
    assert(r@.effort == opt_view(r.effort));
    match s.state.current_id {
        Some(id) => {
            if s.session_cfg_by_id@.contains_key(id@) {
                assert(s.session_cfg_by_id@[id@]@.effort == opt_view(
                    s.session_cfg_by_id@[id@].effort,
                ));
            }
        },
        None => {},
    }
}

/// A change of the settings is asked of the current session, as it was
/// chosen; without a session nothing is asked.
pub proof fn law_changes_are_asked_of_the_current_session(
    s: &AppStore,
    text: &str,
    names: &Vec<String>,
    a: Option<CfgRequest>,
    b: Option<CfgRequest>,
    c: Option<CfgRequest>,
    d: (Option<String>, Option<CfgRequest>),
)
    requires
        call_ensures(AppStore::set_session_model, (s, text), a),
        call_ensures(AppStore::set_session_effort, (s, text), b),
        call_ensures(AppStore::set_session_preset, (s, text), c),
        call_ensures(AppStore::set_session_provider_model, (s, text, names), d),
    ensures
        s.state.current_id is None ==> a is None && b is None && c is None && d.1 is None,
        s.state.current_id matches Some(id) ==> {
            &&& a matches Some(q) && q.session_id@ == id@ && (q.change matches CfgChange::Model(m)
                && m@ == text@)
            &&& b matches Some(q) && q.session_id@ == id@ && (q.change matches CfgChange::Effort(m)
                && m@ == text@)
            &&& c matches Some(q) && q.session_id@ == id@ && (q.change matches CfgChange::Preset(m)
                && m@ == text@)
            &&& d.1 matches Some(q) && q.session_id@ == id@ && (q.change matches CfgChange::Model(
                m,
            ) && m@ == text@)
        },
        s.state.active_workspace matches Some(w) ==> opt_view(d.0) == Some(w@),
        s.state.active_workspace is None && names@.len() > 0 ==> opt_view(d.0) == Some(names@[0]@),
        s.state.active_workspace is None && names@.len() == 0 ==> d.0 is None,
{
}

/// A notice stands at the end of the current chat, with a key of its own, and
/// the chat is scrolled to it. The other chats stay as they were.
pub proof fn law_notices_stand_at_the_end(
    s: &mut AppStore,
    text: &str,
    id: Seq<char>,
    other: Seq<char>,
)
    requires
        call_ensures(AppStore::push_local_notice, (s, text), ()),
        opt_view(s.state.current_id) == Some(id),
        s.state.chats@.contains_key(id),
        other != id,
        forall|i: int|
            0 <= i < s.state.chats@[id]@.nodes.len() ==> (
            #[trigger] s.state.chats@[id]@.nodes[i]).key() != "notice-local-"@ + dec(
                (s.local_notice_seq + 1) as nat,
            ),
    ensures
        final(s).state.chats@.contains_key(id),
        ({
            let before = old(s).state.chats@[id]@.nodes;
            let after = final(s).state.chats@[id]@.nodes;
            &&& after.len() == before.len() + 1
            &&& forall|i: int| 0 <= i < before.len() ==> #[trigger] after[i] == before[i]
            &&& after.last() == (NodeValue::Notice {
                key: "notice-local-"@ + dec((old(s).local_notice_seq + 1) as nat),
                text: text@,
            })
        }),
        final(s).chat.pinned,
        final(s).local_notice_seq == old(s).local_notice_seq + 1,
        final(s).chat.chat_version == old(s).chat.chat_version + 1 || !old(s).has_room(),
        final(s).state.chats@.contains_key(other) <==> old(s).state.chats@.contains_key(other),
{
    let a = chat_values(s.state.chats@);
    let b = chat_values(final(s).state.chats@);
    assert(a[id] == s.state.chats@[id]@);
    assert(b.contains_key(id));
    assert(b[id] == final(s).state.chats@[id]@);
    assert(b.contains_key(other) == a.contains_key(other));
    assert(b.contains_key(other) == final(s).state.chats@.contains_key(other));
    assert(a.contains_key(other) == s.state.chats@.contains_key(other));
}

/// The answer to a change of settings closes the menus. New settings are those
/// of the current session from then on; a refusal leaves them as they were.
pub proof fn law_changed_settings_are_kept(
    s: &mut AppStore,
    outcome: Result<SessionCfg, String>,
    id: Seq<char>,
    other: Seq<char>,
)
    requires
        call_ensures(AppStore::mutate_session_cfg, (s, outcome), ()),
        opt_view(s.state.current_id) == Some(id),
        other != id,
    ensures
        !final(s).chat.composer_menu_open,
        final(s).hero_menu == HeroMenu::Closed,
        outcome matches Ok(c) ==> {
            &&& final(s).session_cfg_by_id@.contains_key(id)
            &&& final(s).session_cfg_by_id@[id] == c
            &&& final(s).state == old(s).state
            &&& old(s).session_cfg_by_id@.contains_key(other)
                ==> final(s).session_cfg_by_id@.contains_key(other)
                && final(s).session_cfg_by_id@[other] == old(s).session_cfg_by_id@[other]
        },
        outcome is Err ==> final(s).session_cfg_by_id == old(s).session_cfg_by_id,
        outcome is Err ==> final(s).local_notice_seq == old(s).local_notice_seq + 1,
{
}

/// A permission that was chosen is the session's at once, and the host is
/// asked for it; the request says what to go back to.
pub proof fn law_a_permission_holds_at_once(
    s: &mut AppStore,
    permission: &str,
    host_permission: &str,
    r: Option<PermissionRequest>,
    id: Seq<char>,
)
    requires
        call_ensures(AppStore::set_session_permission, (s, permission, host_permission), r),
        opt_view(s.state.current_id) == Some(id),
    ensures
        r matches Some(q) && {
            &&& q.session_id@ == id
            &&& q.permission@ == permission@
            &&& old(s).session_cfg_by_id@.contains_key(id)
                ==> q.prior@ == old(s).session_cfg_by_id@[id].permission@
            &&& !old(s).session_cfg_by_id@.contains_key(id) ==> q.prior@ == host_permission@
        },
        final(s).session_cfg_by_id@.contains_key(id),
        final(s).session_cfg_by_id@[id].permission@ == permission@,
        old(s).session_cfg_by_id@.contains_key(id) ==> final(s).session_cfg_by_id@[id].model@
            == old(s).session_cfg_by_id@[id].model@,
        old(s).session_cfg_by_id@.contains_key(id) ==> final(s).session_cfg_by_id@[id].preset@
            == old(s).session_cfg_by_id@[id].preset@,
        !final(s).chat.composer_menu_open,
        final(s).hero_menu == HeroMenu::Closed,
{
    lemma_cfg_at(final(s).session_cfg_by_id@, id);
    assert(cfg_values(final(s).session_cfg_by_id@).contains_key(id));
}

proof fn lemma_cfg_at(m: Map<Seq<char>, SessionCfg>, id: Seq<char>)
    ensures
        cfg_values(m).contains_key(id) == m.contains_key(id),
        m.contains_key(id) ==> cfg_values(m)[id].permission == m[id].permission@,
        m.contains_key(id) ==> cfg_values(m)[id].model == m[id].model@,
        m.contains_key(id) ==> cfg_values(m)[id].preset == m[id].preset@,
{
}

/// A permission that the host refuses is taken back: the session has what it
/// had before, and a notice says so. One that it grants changes nothing more.
pub proof fn law_a_refused_permission_is_taken_back(
    s: &mut AppStore,
    request: &PermissionRequest,
    outcome: CallOutcome,
)
    requires
        call_ensures(AppStore::permission_outcome, (s, request, outcome), ()),
        s.session_cfg_by_id@.contains_key(request.session_id@),
    ensures
        outcome is Done ==> *final(s) == *old(s),
        !(outcome is Done) ==> final(s).session_cfg_by_id@.contains_key(request.session_id@),
        !(outcome is Done) ==> final(s).session_cfg_by_id@[request.session_id@].permission@
            == request.prior@,
        !(outcome is Done) && old(s).state.current_id is Some
            ==> final(s).local_notice_seq == old(s).local_notice_seq + 1,
{
    lemma_cfg_at(final(s).session_cfg_by_id@, request.session_id@);
    lemma_cfg_at(s.session_cfg_by_id@, request.session_id@);
    if !(outcome is Done) {
        let text = match outcome {
            CallOutcome::Failed(e) => "切换失败:"@ + e@,
            _ => "权限切换:通道失败"@,
        };
        let mid = choose|mid: AppStore| #[trigger]
            rolled_back(*s, mid, *request) && noticed(mid, *final(s), text);
        assert(mid.session_cfg_by_id == final(s).session_cfg_by_id);
        assert(mid.state == s.state);
    }
}

/// A permission that the host reports is the current session's from then on.
pub proof fn law_reported_permissions_are_shown(s: &mut AppStore, mode: &str, id: Seq<char>)
    requires
        call_ensures(AppStore::apply_permission_echo, (s, mode), ()),
        opt_view(s.state.current_id) == Some(id),
        s.session_cfg_by_id@.contains_key(id),
    ensures
        final(s).session_cfg_by_id@.contains_key(id),
        final(s).session_cfg_by_id@[id].permission@ == mode@,
        final(s).session_cfg_by_id@[id].model@ == old(s).session_cfg_by_id@[id].model@,
{
    lemma_cfg_at(final(s).session_cfg_by_id@, id);
    lemma_cfg_at(s.session_cfg_by_id@, id);
}

proof fn lemma_chat_at(m: Map<Seq<char>, ChatState>, id: Seq<char>)
    ensures
        chat_values(m).contains_key(id) == m.contains_key(id),
        m.contains_key(id) ==> chat_values(m)[id] == m[id]@,
{
}

/// The plan mode that was chosen holds at once, and the host is asked for it;
/// leaving it asks for the usual mode.
pub proof fn law_plan_mode_holds_at_once(
    s: &mut AppStore,
    t: &mut AppStore,
    target: bool,
    r: Option<ModeRequest>,
    q: Option<ModeRequest>,
    id: Seq<char>,
)
    requires
        call_ensures(AppStore::apply_plan_mode, (s, target), r),
        call_ensures(AppStore::exit_plan_mode, (t,), q),
        opt_view(s.state.current_id) == Some(id),
        s.state.chats@.contains_key(id),
        opt_view(t.state.current_id) == Some(id),
        t.state.chats@.contains_key(id),
    ensures
        r matches Some(m) && {
            &&& m.session_id@ == id
            &&& target ==> m.mode@ == "plan"@
            &&& !target ==> m.mode@ == "standard"@
            &&& m.prior == old(s).state.chats@[id]@.plan_mode
        },
        q matches Some(m) && {
            &&& m.session_id@ == id
            &&& m.mode@ == "standard"@
            &&& m.prior == old(t).state.chats@[id]@.plan_mode
        },
        final(s).state.chats@.contains_key(id),
        final(s).state.chats@[id]@.plan_mode == target,
        final(s).state.chats@[id]@.nodes == old(s).state.chats@[id]@.nodes,
        final(t).state.chats@.contains_key(id),
        !final(t).state.chats@[id]@.plan_mode,
        final(t).state.chats@[id]@.nodes == old(t).state.chats@[id]@.nodes,
{
    lemma_chat_at(s.state.chats@, id);
    lemma_chat_at(final(s).state.chats@, id);
    lemma_chat_at(t.state.chats@, id);
    lemma_chat_at(final(t).state.chats@, id);
}

/// A menu that is chosen again is closed; any other one takes its place.
pub proof fn law_one_menu_is_open(s: &mut AppStore, menu: HeroMenu)
    requires
        call_ensures(AppStore::set_hero_menu, (s, menu), ()),
    ensures
        old(s).hero_menu == menu ==> final(s).hero_menu == HeroMenu::Closed,
        old(s).hero_menu != menu ==> final(s).hero_menu == menu,
{
}

/// Nothing is open once all menus are closed.
pub proof fn law_all_menus_are_closed(s: &mut AppStore, t: &mut AppStore, started: bool)
    requires
        call_ensures(AppStore::close_all_menus, (s,), started),
        call_ensures(AppStore::close_composer_menu, (t,), ()),
    ensures
        !final(s).chat.composer_menu_open,
        final(s).hero_menu == HeroMenu::Closed,
        !final(s).billing_card_open,
        final(s).sessions.menu_open_session is None,
        final(s).sessions.menu_open_ws is None,
        !final(s).sessions.workspace_menu_open,
        final(s).settings.full_access_confirm is None,
        !final(s).panel_plus_menu_open,
        !final(t).chat.composer_menu_open,
        !final(t).chat.composer_submenu_open,
{
}

/// Full access is asked for before it is given: the question is shown, and no
/// permission changes.
pub proof fn law_full_access_is_asked_for(s: &mut AppStore)
    requires
        call_ensures(AppStore::ask_full_access_session, (s,), ()),
    ensures
        final(s).settings.full_access_confirm == Some(FullAccessAsk::Session),
        !final(s).chat.composer_menu_open,
        final(s).hero_menu == HeroMenu::Closed,
        final(s).session_cfg_by_id == old(s).session_cfg_by_id,
{
}

/// The sidebar and the panel are shown where they were not, and the other way
/// round; the card and the menu are opened.
pub proof fn law_sides_are_toggled(
    s: &mut AppStore,
    t: &mut AppStore,
    u: &mut AppStore,
    v: &mut AppStore,
    w: &mut AppStore,
    open: bool,
)
    requires
        call_ensures(AppStore::toggle_sidebar, (s,), ()),
        call_ensures(AppStore::toggle_panel, (t,), ()),
        call_ensures(AppStore::open_billing_card, (u,), ()),
        call_ensures(AppStore::open_panel_plus_menu_at, (v,), ()),
        call_ensures(AppStore::set_composer_submenu, (w, open), ()),
    ensures
        final(s).sidebar_collapsed != old(s).sidebar_collapsed,
        final(t).panel_open != old(t).panel_open,
        final(u).billing_card_open,
        final(v).panel_plus_menu_open,
        final(w).chat.composer_submenu_open == open,
{
}

/// A tab that is opened is there once and in front, and the panel is shown. The
/// tabs that were there keep their order.
pub proof fn law_tabs_are_opened_once(
    s: &mut AppStore,
    tab: PanelTab,
    at_bottom: bool,
    r: Option<PageRequest>,
)
    requires
        call_ensures(AppStore::open_panel_tab, (s, tab, at_bottom), r),
        s.panel_tabs@.no_duplicates(),
    ensures
        final(s).panel_open,
        final(s).panel_active_tab == Some(tab),
        final(s).panel_tabs@.contains(tab),
        final(s).panel_tabs@.no_duplicates(),
        old(s).panel_tabs@.contains(tab) ==> final(s).panel_tabs@ == old(s).panel_tabs@,
        forall|i: int|
            0 <= i < old(s).panel_tabs@.len()
                ==> final(s).panel_tabs@[i] == #[trigger] old(s).panel_tabs@[i],
        !(tab == PanelTab::Trajectory) ==> r is None,
{
    if !s.panel_tabs@.contains(tab) {
        lemma_push_keeps(s.panel_tabs@, tab);
    }
}

/// A tab that is closed is gone and the others stay. Where it was in front,
/// the last of the others takes its place.
pub proof fn law_closed_tabs_are_gone(s: &mut AppStore, tab: PanelTab, other: PanelTab)
    requires
        call_ensures(AppStore::close_panel_tab, (s, tab), ()),
        s.panel_tabs@.no_duplicates(),
        other != tab,
    ensures
        !final(s).panel_tabs@.contains(tab),
        final(s).panel_tabs@.contains(other) <==> old(s).panel_tabs@.contains(other),
        final(s).panel_active_tab != Some(tab),
        old(s).panel_active_tab != Some(tab)
            ==> final(s).panel_active_tab == old(s).panel_active_tab,
        old(s).panel_active_tab == Some(tab) && old(s).panel_tabs@.contains(other)
            ==> final(s).panel_active_tab == Some(final(s).panel_tabs@.last()),
{
    lemma_without(s.panel_tabs@, tab);
}

/// Only a tab that is there can be put in front.
pub proof fn law_tabs_come_to_the_front(
    s: &mut AppStore,
    tab: PanelTab,
    at_bottom: bool,
    r: Option<PageRequest>,
)
    requires
        call_ensures(AppStore::activate_panel_tab, (s, tab, at_bottom), r),
    ensures
        old(s).panel_tabs@.contains(tab) ==> final(s).panel_active_tab == Some(tab),
        !old(s).panel_tabs@.contains(tab) ==> *final(s) == *old(s),
        final(s).panel_tabs == old(s).panel_tabs,
{
}

/// A preset is called by its name where the host gives one, else by its id.
pub proof fn law_presets_are_called_by_their_names(s: &AppStore, id: &str, r: String, i: int)
    requires
        call_ensures(AppStore::preset_label, (s, id), r),
        0 <= i <= s.state.host_info.presets@.len(),
        forall|j: int|
            0 <= j < i ==> (#[trigger] s.state.host_info.presets@[j]).value().field("id"@).as_text()
                != Some(id@),
        i < s.state.host_info.presets@.len() ==> s.state.host_info.presets@[i].value().field(
            "id"@,
        ).as_text() == Some(id@),
    ensures
        i == s.state.host_info.presets@.len() ==> r@ == id@,
        i < s.state.host_info.presets@.len() ==> {
            let name = s.state.host_info.presets@[i].value().field("name"@).as_text();
            r@ == (if name is Some {
                name->0
            } else {
                id@
            })
        },
{
    let v = crate::json::values(s.state.host_info.presets@);
    assert forall|j: int| 0 <= j < i implies (#[trigger] v[j]).field("id"@).as_text() != Some(
        id@,
    ) by {
        assert(v[j] == s.state.host_info.presets@[j].value());
    }
    crate::shell::statusbar::law_first_with_an_id(v, id@, i);
}

/// A window starts with the first workspace of the host and without a session.
pub proof fn law_windows_start_without_a_session(
    host_info: HostInfo,
    sessions: Vec<SessionSummary>,
    image_limits: ImageAttachmentLimits,
    settings_snapshot: Json,
    r: AppStore,
)
    requires
        call_ensures(AppStore::new, (host_info, sessions, image_limits, settings_snapshot), r),
    ensures
        r.state.current_id is None,
        r.state.sessions == sessions,
        r.image_limits == image_limits,
        r.settings.settings_snapshot == settings_snapshot,
        host_info.workspaces@.len() > 0 ==> opt_view(r.state.active_workspace) == Some(
            host_info.workspaces@[0]@,
        ),
        host_info.workspaces@.len() == 0 ==> r.state.active_workspace is None,
        r.chat.pinned && r.chat.chat_version == 0,
        !r.panel_open && !r.sidebar_collapsed && r.panel_tabs@.len() == 0,
{
}

/// What comes from the host takes the place of what was there.
pub proof fn law_what_comes_takes_its_place(
    s: &mut AppStore,
    t: &mut AppStore,
    u: &mut AppStore,
    v: &AppStore,
    sessions: Vec<SessionSummary>,
    id: &str,
    stats: Json,
    cfg: SessionCfg,
    first: Option<&String>,
)
    requires
        call_ensures(AppStore::refresh_list, (s, sessions), ()),
        call_ensures(AppStore::refresh_stats_sync, (t, id, Some(stats)), ()),
        call_ensures(AppStore::refresh_session_cfg, (u, id, cfg), ()),
        call_ensures(AppStore::first_session, (v,), first),
    ensures
        final(s).state.sessions == sessions,
        final(t).stats_by_id@.contains_key(id@) && final(t).stats_by_id@[id@] == stats,
        final(u).session_cfg_by_id@.contains_key(id@) && final(u).session_cfg_by_id@[id@] == cfg,
        v.state.sessions@.len() > 0 ==> first == Some(&v.state.sessions@[0].session_id),
        v.state.sessions@.len() == 0 ==> first is None,
{
}

/// A mode that the host refuses is taken back, and a notice says so; one that
/// it takes changes nothing more.
pub proof fn law_a_refused_mode_is_taken_back(
    s: &mut AppStore,
    request: &ModeRequest,
    outcome: CallOutcome,
    id: Seq<char>,
)
    requires
        call_ensures(AppStore::plan_mode_outcome, (s, request, outcome), ()),
        request.session_id@ == id,
        s.state.chats@.contains_key(id),
    ensures
        outcome is Done ==> *final(s) == *old(s),
        !(outcome is Done) ==> final(s).state.chats@.contains_key(id),
        !(outcome is Done) ==> final(s).state.chats@[id]@.plan_mode == request.prior,
        !(outcome is Done) && old(s).state.current_id is Some
            ==> final(s).local_notice_seq == old(s).local_notice_seq
            + 1,
{
    if !(outcome is Done) {
        let text = match outcome {
            CallOutcome::Failed(e) => "模式切换失败:"@ + e@,
            _ => "模式切换:通道失败"@,
        };
        let mid = choose|mid: AppStore| #[trigger]
            replanned(*s, mid, id, request.prior) && noticed(mid, *final(s), text);
        lemma_chat_at(s.state.chats@, id);
        lemma_chat_at(mid.state.chats@, id);
        lemma_chat_at(final(s).state.chats@, id);
    }
}

/// A permission is set in the settings of a session that has some, and in no
/// other's.
pub proof fn law_a_permission_is_set_in_one_session(
    s: &mut AppStore,
    id: &str,
    permission: &str,
    other: Seq<char>,
    v: &AppStore,
    shown: bool,
)
    requires
        call_ensures(AppStore::set_cfg_permission, (s, id, permission), ()),
        call_ensures(AppStore::trajectory_visible, (v,), shown),
        other != id@,
    ensures
        final(s).session_cfg_by_id@.contains_key(id@) <==> old(s).session_cfg_by_id@.contains_key(
            id@,
        ),
        old(s).session_cfg_by_id@.contains_key(id@) ==> final(s).session_cfg_by_id@[id@].permission@
            == permission@,
        old(s).session_cfg_by_id@.contains_key(other) ==> final(s).session_cfg_by_id@.contains_key(
            other,
        ) && final(s).session_cfg_by_id@[other].permission@
            == old(s).session_cfg_by_id@[other].permission@,
        shown <==> v.panel_active_tab == Some(PanelTab::Trajectory),
{
    lemma_cfg_at(s.session_cfg_by_id@, id@);
    lemma_cfg_at(final(s).session_cfg_by_id@, id@);
    lemma_cfg_at(s.session_cfg_by_id@, other);
    lemma_cfg_at(final(s).session_cfg_by_id@, other);
}

} // verus!
