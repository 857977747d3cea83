//! What the frame reducer keeps: sessions, chats, jobs and pending requests.

use crate::json::Json;
use crate::table::Table;
use crate::text::{opt_view, owned, owned_opt, str_eq};
use vstd::prelude::*;
use vstd::string::*;

verus! {

/// A session as the host lists it.
#[derive(Debug, PartialEq, Eq)]
pub struct SessionSummary {
    pub session_id: String,
    pub parent_session_id: Option<String>,
    /// Where the session comes from; "subagent" for a delegated one.
    pub origin: Option<String>,
    pub running: bool,
    /// The last change, in milliseconds since the epoch.
    pub updated_at: u64,
}

/// The content of a session summary.
#[verifier::ext_equal]
pub struct SummaryValue {
    pub session_id: Seq<char>,
    pub parent_session_id: Option<Seq<char>>,
    pub origin: Option<Seq<char>>,
    pub running: bool,
    pub updated_at: u64,
}

impl View for SessionSummary {
    type V = SummaryValue;

    open spec fn view(&self) -> SummaryValue {
        SummaryValue {
            session_id: self.session_id@,
            parent_session_id: opt_view(self.parent_session_id),
            origin: opt_view(self.origin),
            running: self.running,
            updated_at: self.updated_at,
        }
    }
}

impl SummaryValue {
    /// Whether the session was delegated by another one.
    pub open spec fn is_subagent(self) -> bool {
        self.origin == Some("subagent"@)
    }
}

pub open spec fn summary_values(v: Seq<SessionSummary>) -> Seq<SummaryValue> {
    v.map_values(|s: SessionSummary| s@)
}

/// The first session with an id.
pub open spec fn session_with(v: Seq<SummaryValue>, id: Seq<char>) -> Option<SummaryValue>
    decreases v.len(),
{
    if v.len() == 0 {
        None
    } else if v[0].session_id == id {
        Some(v[0])
    } else {
        session_with(v.skip(1), id)
    }
}

impl SessionSummary {
    /// A copy.
    pub fn copy(&self) -> (r: SessionSummary)
        ensures
            r@ == self@,
    {
        SessionSummary {
            session_id: owned(self.session_id.as_str()),
            parent_session_id: owned_opt(&self.parent_session_id),
            origin: owned_opt(&self.origin),
            running: self.running,
            updated_at: self.updated_at,
        }
    }

    /// Whether the session was delegated by another one.
    pub fn is_subagent(&self) -> (r: bool)
        ensures
            r == self@.is_subagent(),
    {
        match &self.origin {
            Some(o) => str_eq(o.as_str(), "subagent"),
            None => false,
        }
    }
}

/// The first session with an id.
pub fn find_session<'a>(sessions: &'a Vec<SessionSummary>, id: &str) -> (r: Option<
    &'a SessionSummary,
>)
    ensures
        match r {
            Some(s) => session_with(summary_values(sessions@), id@) == Some(s@),
            None => session_with(summary_values(sessions@), id@) is None,
        },
{
    let ghost all = summary_values(sessions@);
    let mut i: usize = 0;
    assert(all.skip(0) =~= all);
    while i < sessions.len()
        invariant
            i <= sessions@.len(),
            all == summary_values(sessions@),
            session_with(all, id@) == session_with(all.skip(i as int), id@),
        decreases sessions@.len() - i,
    {
        assert(all.skip(i as int)[0] == sessions@[i as int]@);
        assert(all.skip(i as int).skip(1) =~= all.skip(i + 1));
        if str_eq(sessions[i].session_id.as_str(), id) {
            return Some(&sessions[i]);
        }
        i = i + 1;
    }
    None
}

/// What the host says of itself.
#[derive(Debug, PartialEq, Eq)]
pub struct HostInfo {
    pub version: String,
    pub model: Option<String>,
    /// The presets: objects with an id and a name.
    pub presets: Vec<Json>,
    /// The names of the workspaces, the default one first.
    pub workspaces: Vec<String>,
}

/// A node of a chat.
#[derive(Debug, PartialEq, Eq)]
pub enum ChatNode {
    /// A line that the window itself put there.
    Notice { key: String, text: String },
    /// Anything else, known by its key.
    Entry { key: String },
}

/// The content of a chat node.
#[verifier::ext_equal]
pub enum NodeValue {
    Notice { key: Seq<char>, text: Seq<char> },
    Entry { key: Seq<char> },
}

impl NodeValue {
    pub open spec fn key(self) -> Seq<char> {
        match self {
            NodeValue::Notice { key, text: _ } => key,
            NodeValue::Entry { key } => key,
        }
    }
}

impl View for ChatNode {
    type V = NodeValue;

    open spec fn view(&self) -> NodeValue {
        match *self {
            ChatNode::Notice { key, text } => NodeValue::Notice { key: key@, text: text@ },
            ChatNode::Entry { key } => NodeValue::Entry { key: key@ },
        }
    }
}

pub open spec fn node_values(v: Seq<ChatNode>) -> Seq<NodeValue> {
    v.map_values(|n: ChatNode| n@)
}

/// The chat of a session.
#[derive(Debug, PartialEq, Eq)]
pub struct ChatState {
    /// Whether the session plans before it acts.
    pub plan_mode: bool,
    pub nodes: Vec<ChatNode>,
}

/// The content of a chat.
#[verifier::ext_equal]
pub struct ChatValue {
    pub plan_mode: bool,
    pub nodes: Seq<NodeValue>,
}

impl View for ChatState {
    type V = ChatValue;

    open spec fn view(&self) -> ChatValue {
        ChatValue { plan_mode: self.plan_mode, nodes: node_values(self.nodes@) }
    }
}

/// The chat of a session that nothing is known of.
pub open spec fn no_chat() -> ChatValue {
    ChatValue { plan_mode: false, nodes: Seq::empty() }
}

/// Whether a node has a key.
pub open spec fn has_key(nodes: Seq<NodeValue>, key: Seq<char>) -> bool {
    exists|i: int| 0 <= i < nodes.len() && (#[trigger] nodes[i]).key() == key
}

/// A chat with one more node; a key that is there already changes nothing.
pub open spec fn with_node(c: ChatValue, n: NodeValue) -> ChatValue {
    if has_key(c.nodes, n.key()) {
        c
    } else {
        ChatValue { plan_mode: c.plan_mode, nodes: c.nodes.push(n) }
    }
}

impl ChatNode {
    /// The key of the node.
    pub fn key(&self) -> (r: &String)
        ensures
            r@ == self@.key(),
    {
        match self {
            ChatNode::Notice { key, text: _ } => key,
            ChatNode::Entry { key } => key,
        }
    }

    fn copy(&self) -> (r: ChatNode)
        ensures
            r@ == self@,
    {
        match self {
            ChatNode::Notice { key, text } => ChatNode::Notice {
                key: owned(key.as_str()),
                text: owned(text.as_str()),
            },
            ChatNode::Entry { key } => ChatNode::Entry { key: owned(key.as_str()) },
        }
    }
}

impl ChatState {
    /// An empty chat.
    pub fn new() -> (r: ChatState)
        ensures
            r@ == no_chat(),
    {
        let r = ChatState { plan_mode: false, nodes: Vec::new() };
        assert(r@.nodes =~= Seq::<NodeValue>::empty());
        r
    }

    /// A copy.
    pub fn copy(&self) -> (r: ChatState)
        ensures
            r@ == self@,
    {
        let mut nodes: Vec<ChatNode> = Vec::new();
        let mut i: usize = 0;
        while i < self.nodes.len()
            invariant
                i <= self.nodes@.len(),
                nodes@.len() == i,
                forall|k: int| 0 <= k < i ==> (#[trigger] nodes@[k])@ == self.nodes@[k]@,
            decreases self.nodes@.len() - i,
        {
            nodes.push(self.nodes[i].copy());
            i = i + 1;
        }
        let r = ChatState { plan_mode: self.plan_mode, nodes };
        assert(r@.nodes =~= self@.nodes);
        r
    }

    /// Adds a node unless one with its key is there.
    pub fn push_node(&mut self, node: ChatNode)
        ensures
            final(self)@ == with_node(old(self)@, node@),
    {
        let ghost before = self@;
        let mut i: usize = 0;
        while i < self.nodes.len()
            invariant
                i <= self.nodes@.len(),
                self@ == before,
                before.nodes == node_values(self.nodes@),
                forall|k: int| 0 <= k < i ==> (#[trigger] before.nodes[k]).key() != node@.key(),
            decreases self.nodes@.len() - i,
        {
            assert(before.nodes[i as int] == self.nodes@[i as int]@);
            if str_eq(self.nodes[i].key().as_str(), node.key().as_str()) {
                return ;
            }
            i = i + 1;
        }
        self.nodes.push(node);
        assert(self@.nodes =~= before.nodes.push(node@));
    }
}

/// One option of a question.
#[derive(Debug, PartialEq, Eq)]
pub struct QuestionOption {
    pub label: String,
    pub description: Option<String>,
}

/// A question that the model put to the user.
#[derive(Debug, PartialEq, Eq)]
pub struct Question {
    pub id: String,
    pub header: Option<String>,
    pub question: String,
    pub options: Option<Vec<QuestionOption>>,
    pub multi_select: Option<bool>,
}

impl Question {
    /// Whether several options can be chosen.
    pub open spec fn is_multi(self) -> bool {
        self.multi_select == Some(true)
    }

    pub fn multi(&self) -> (r: bool)
        ensures
            r == self.is_multi(),
    {
        match self.multi_select {
            Some(m) => m,
            None => false,
        }
    }

    /// The label of an option, or a fallback where there is no such option.
    pub open spec fn label_or(self, i: int, fallback: Seq<char>) -> Seq<char> {
        match self.options {
            Some(o) if 0 <= i < o@.len() => o@[i].label@,
            _ => fallback,
        }
    }

    pub fn option_label(&self, i: usize, fallback: &str) -> (r: String)
        ensures
            r@ == self.label_or(i as int, fallback@),
    {
        if let Some(o) = &self.options {
            if i < o.len() {
                return owned(o[i].label.as_str());
            }
        }
        owned(fallback)
    }
}

/// A plan that waits for approval.
#[derive(Debug, PartialEq, Eq)]
pub struct PendingPlan {
    pub rpc_id: String,
    pub session_id: String,
    pub question: Question,
}

/// Questions that wait for answers.
#[derive(Debug, PartialEq, Eq)]
pub struct PendingAsk {
    pub rpc_id: String,
    pub session_id: String,
    pub questions: Vec<Question>,
}

/// A tool call that waits for approval.
#[derive(Debug, PartialEq, Eq)]
pub struct PendingApproval {
    pub rpc_id: String,
    pub session_id: String,
}

/// The state that frames change.
pub struct StoreState {
    pub sessions: Vec<SessionSummary>,
    pub titles: Table<String>,
    pub current_id: Option<String>,
    pub running_by_id: Table<bool>,
    pub host_info: HostInfo,
    pub active_workspace: Option<String>,
    pub chats: Table<ChatState>,
    /// The background jobs of each session.
    pub jobs_by_id: Table<Vec<Json>>,
    pub pending_plan: Option<PendingPlan>,
    pub pending_ask: Option<PendingAsk>,
    pub pending_approval: Option<PendingApproval>,
}

impl StoreState {
    /// No table has a key twice.
    pub open spec fn wf(self) -> bool {
        &&& self.titles.wf()
        &&& self.running_by_id.wf()
        &&& self.chats.wf()
        &&& self.jobs_by_id.wf()
    }
}

/// The chats by session.
pub open spec fn chat_values(m: Map<Seq<char>, ChatState>) -> Map<Seq<char>, ChatValue> {
    m.map_values(|c: ChatState| c@)
}

/// Of several sessions with an id the first one is meant.
pub proof fn law_first_session_with_an_id(v: Seq<SummaryValue>, id: Seq<char>, k: int)
    requires
        0 <= k <= v.len(),
        forall|i: int| 0 <= i < k ==> (#[trigger] v[i]).session_id != id,
        k < v.len() ==> v[k].session_id == id,
    ensures
        session_with(v, id) == (if k < v.len() {
            Some(v[k])
        } else {
            None
        }),
    decreases k,
{
    if k > 0 {
        assert(v[0].session_id != id);
        let rest = v.skip(1);
        assert forall|i: int| 0 <= i < k - 1 implies (#[trigger] rest[i]).session_id != id by {
            assert(rest[i] == v[i + 1]);
        }
        law_first_session_with_an_id(rest, id, k - 1);
    }
}

/// A node comes last in its chat, unless one with its key is there, and changes
/// nothing else.
pub proof fn law_nodes_are_added_once(c: ChatValue, n: NodeValue)
    ensures
        with_node(c, n).plan_mode == c.plan_mode,
        (exists|i: int| 0 <= i < c.nodes.len() && (#[trigger] c.nodes[i]).key() == n.key())
            ==> with_node(c, n) == c,
        (forall|i: int| 0 <= i < c.nodes.len() ==> (#[trigger] c.nodes[i]).key() != n.key())
            ==> with_node(c, n).nodes == c.nodes.push(n),
        with_node(with_node(c, n), n) == with_node(c, n),
{
    let d = with_node(c, n);
    if !has_key(c.nodes, n.key()) {
        assert(d.nodes[c.nodes.len() as int] == n);
        assert(has_key(d.nodes, n.key()));
    }
}

/// Several options can be chosen only where the question says so, and an option is
/// known by its place.
pub proof fn law_questions_say_what_can_be_chosen(q: Question, i: int, fallback: Seq<char>)
    ensures
        q.is_multi() <==> q.multi_select == Some(true),
        q.options matches Some(o) ==> (0 <= i < o@.len() ==> q.label_or(i, fallback)
            == o@[i].label@),
        q.options is None ==> q.label_or(i, fallback) == fallback,
{
}

} // verus!
