//! Requests that wait for the user: plans to be approved, questions to be
//! answered, tool calls to be allowed.

use crate::decimal::{dec, usize_text};
use crate::json::{
    array_of, law_lookup_finds_the_first_member, lemma_lookup_at, member_values, object_of, push_member, values, Json, JsonValue,
};
use crate::scan::{trim, trimmed};
use crate::shell::state::{PendingAsk, PendingPlan, Question, StoreState};
use crate::shell::store::AppStore;
use crate::text::{cat3, opt_view, owned, owned_opt, str_eq, views};
use vstd::prelude::*;
use vstd::string::*;

verus! {

// ---------------------------------------------------------------------------
// Replies
// ---------------------------------------------------------------------------
/// How a request of the host is answered.
#[derive(Debug, PartialEq, Eq)]
pub enum ReplyResult {
    Answer(Json),
    Refusal { code: String, message: String },
}

/// An answer to a request of the host.
#[derive(Debug, PartialEq, Eq)]
pub struct Reply {
    pub rpc_id: String,
    pub result: ReplyResult,
}

/// The content of a reply.
#[verifier::ext_equal]
pub enum ReplyValue {
    Answer { rpc_id: Seq<char>, value: JsonValue },
    Refusal { rpc_id: Seq<char>, code: Seq<char>, message: Seq<char> },
}

impl View for Reply {
    type V = ReplyValue;

    open spec fn view(&self) -> ReplyValue {
        match self.result {
            ReplyResult::Answer(j) => ReplyValue::Answer { rpc_id: self.rpc_id@, value: j.value() },
            ReplyResult::Refusal { code, message } => ReplyValue::Refusal {
                rpc_id: self.rpc_id@,
                code: code@,
                message: message@,
            },
        }
    }
}

/// The reply that may have been given.
pub open spec fn opt_reply(r: Option<Reply>) -> Option<ReplyValue> {
    match r {
        Some(x) => Some(x@),
        None => None,
    }
}

/// The document that answers a request of a session.
pub open spec fn answer_doc(session_id: Seq<char>, answer: JsonValue) -> JsonValue {
    JsonValue::Object(seq![("sessionId"@, JsonValue::Str(session_id)), ("answer"@, answer)])
}

/// The answers of a group of questions.
pub open spec fn answers_doc(answers: Seq<JsonValue>) -> JsonValue {
    JsonValue::Object(seq![("answers"@, JsonValue::Array(answers))])
}

pub open spec fn texts(s: Seq<Seq<char>>) -> JsonValue {
    JsonValue::Array(s.map_values(|t: Seq<char>| JsonValue::Str(t)))
}

/// An answer to one question: the chosen labels, and what the user wrote.
pub open spec fn answer_with(
    id: Seq<char>,
    selected: Seq<Seq<char>>,
    custom: Option<Seq<char>>,
) -> JsonValue {
    let base = seq![("id"@, JsonValue::Str(id)), ("selected"@, texts(selected))];
    JsonValue::Object(
        match custom {
            None => base,
            Some(c) => base.push(("custom"@, JsonValue::Str(c))),
        },
    )
}

/// What was written, where anything was.
pub open spec fn written(text: Seq<char>) -> Option<Seq<char>> {
    if text.len() == 0 {
        None
    } else {
        Some(text)
    }
}

fn texts_json(v: &Vec<String>) -> (r: Json)
    ensures
        r.value() == texts(views(v@)),
{
    let mut out: Vec<Json> = Vec::new();
    let mut i: usize = 0;
    while i < v.len()
        invariant
            i <= v@.len(),
            out@.len() == i,
            forall|k: int| 0 <= k < i ==> (#[trigger] out@[k]).value() == JsonValue::Str(v@[k]@),
        decreases v@.len() - i,
    {
        out.push(Json::text(v[i].as_str()));
        i = i + 1;
    }
    assert(values(out@) =~= views(v@).map_values(|t: Seq<char>| JsonValue::Str(t)));
    array_of(out)
}

fn answer_json(id: &str, selected: &Vec<String>, custom: Option<&str>) -> (r: Json)
    ensures
        r.value() == answer_with(
            id@,
            views(selected@),
            match custom {
                Some(c) => Some(c@),
                None => None,
            },
        ),
{
    let mut v: Vec<(String, Json)> = Vec::new();
    push_member(&mut v, "id", Json::text(id));
    push_member(&mut v, "selected", texts_json(selected));
    assert(member_values(v@) =~= seq![
        ("id"@, JsonValue::Str(id@)),
        ("selected"@, texts(views(selected@))),
    ]);
    if let Some(c) = custom {
        push_member(&mut v, "custom", Json::text(c));
    }
    object_of(v)
}

fn doc_json(session_id: &str, answer: Json) -> (r: Json)
    ensures
        r.value() == answer_doc(session_id@, answer.value()),
{
    let mut v: Vec<(String, Json)> = Vec::new();
    push_member(&mut v, "sessionId", Json::text(session_id));
    push_member(&mut v, "answer", answer);
    assert(member_values(v@) =~= seq![
        ("sessionId"@, JsonValue::Str(session_id@)),
        ("answer"@, answer.value()),
    ]);
    object_of(v)
}

fn answers_json(answers: Vec<Json>) -> (r: Json)
    ensures
        r.value() == answers_doc(values(answers@)),
{
    let mut v: Vec<(String, Json)> = Vec::new();
    let a = array_of(answers);
    push_member(&mut v, "answers", a);
    assert(member_values(v@) =~= seq![("answers"@, JsonValue::Array(values(answers@)))]);
    object_of(v)
}

// ---------------------------------------------------------------------------
// The state of the cards
// ---------------------------------------------------------------------------
/// How far the user is with a group of questions.
#[derive(Debug, PartialEq, Eq)]
pub struct AskUiState {
    /// The question that is shown.
    pub index: usize,
    /// The chosen labels of each question.
    pub selected: Vec<Vec<String>>,
    /// What the user wrote for each question.
    pub custom: Vec<String>,
}

/// The content of that state.
#[verifier::ext_equal]
pub struct AskValue {
    pub index: int,
    pub selected: Seq<Seq<Seq<char>>>,
    pub custom: Seq<Seq<char>>,
}

pub open spec fn label_lists(v: Seq<Vec<String>>) -> Seq<Seq<Seq<char>>> {
    v.map_values(|l: Vec<String>| views(l@))
}

impl View for AskUiState {
    type V = AskValue;

    open spec fn view(&self) -> AskValue {
        AskValue {
            index: self.index as int,
            selected: label_lists(self.selected@),
            custom: views(self.custom@),
        }
    }
}

/// Nothing chosen and nothing written for any question, the first one shown.
pub open spec fn untouched(questions: nat) -> AskValue {
    AskValue {
        index: 0,
        selected: Seq::new(questions, |i: int| Seq::<Seq<char>>::empty()),
        custom: Seq::new(questions, |i: int| Seq::<char>::empty()),
    }
}

/// The state of the cards of pending requests.
pub struct AskStore {
    pub ask_state: Option<AskUiState>,
    /// What the user wrote against a plan; there while the field is shown.
    pub plan_decline_input: Option<String>,
    /// What is marked on the card of a plan: to carry it out, or to change it.
    pub plan_selection: Option<bool>,
}

/// Whether a state fits a group of questions.
pub open spec fn fits(v: AskValue, questions: nat) -> bool {
    &&& v.selected.len() == questions
    &&& v.custom.len() == questions
    &&& 0 <= v.index
    &&& v.index < questions || v.index == 0
}

impl AskStore {
    /// A state only stands beside a group of questions that it fits.
    pub open spec fn wf(self, pending: Option<PendingAsk>) -> bool {
        match self.ask_state {
            Some(s) => pending matches Some(a) && fits(s@, a.questions@.len()),
            None => true,
        }
    }

    /// Nothing is chosen or written.
    pub open spec fn is_fresh(self) -> bool {
        &&& self.ask_state is None
        &&& self.plan_decline_input is None
        &&& self.plan_selection is None
    }

    /// No card is touched.
    pub fn new() -> (r: AskStore)
        ensures
            r.is_fresh(),
    {
        AskStore { ask_state: None, plan_decline_input: None, plan_selection: None }
    }
}

fn fresh_state(questions: usize) -> (r: AskUiState)
    ensures
        r@ == untouched(questions as nat),
{
    let mut selected: Vec<Vec<String>> = Vec::new();
    let mut custom: Vec<String> = Vec::new();
    let mut i: usize = 0;
    while i < questions
        invariant
            i <= questions,
            selected@.len() == i,
            custom@.len() == i,
            forall|k: int| 0 <= k < i ==> (#[trigger] selected@[k])@.len() == 0,
            forall|k: int| 0 <= k < i ==> (#[trigger] custom@[k])@.len() == 0,
        decreases questions - i,
    {
        selected.push(Vec::new());
        custom.push(String::new());
        i = i + 1;
    }
    let r = AskUiState { index: 0, selected, custom };
    proof {
        let u = untouched(questions as nat);
        assert(r@.selected =~= u.selected) by {
            assert forall|k: int| 0 <= k < questions implies r@.selected[k] == u.selected[k] by {
                assert(selected@[k]@.len() == 0);
                assert(r@.selected[k] =~= Seq::<Seq<char>>::empty());
            }
        }
        assert(r@.custom =~= u.custom) by {
            assert forall|k: int| 0 <= k < questions implies r@.custom[k] == u.custom[k] by {
                assert(custom@[k]@.len() == 0);
                assert(r@.custom[k] =~= Seq::<char>::empty());
            }
        }
    }
    r
}

/// The labels with one toggled: the first of its kind goes, or it comes last.
pub open spec fn label_toggled(labels: Seq<Seq<char>>, label: Seq<char>) -> Seq<Seq<char>> {
    if labels.contains(label) {
        labels.remove(labels.index_of_first(label).unwrap())
    } else {
        labels.push(label)
    }
}

/// What a click on an option does: of several, it is toggled; of one, it takes
/// the place of any other and of what was written.
pub open spec fn option_clicked(v: AskValue, multi: bool, label: Seq<char>) -> AskValue {
    if multi {
        AskValue {
            selected: v.selected.update(v.index, label_toggled(v.selected[v.index], label)),
            ..v
        }
    } else {
        AskValue {
            selected: v.selected.update(v.index, seq![label]),
            custom: v.custom.update(v.index, Seq::empty()),
            ..v
        }
    }
}

/// What writing does: where one option can be chosen, a text takes its place.
pub open spec fn text_written(v: AskValue, multi: bool, text: Seq<char>) -> AskValue {
    if v.custom.len() == 0 {
        v
    } else {
        AskValue {
            selected: if !multi && text.len() > 0 {
                v.selected.update(v.index, Seq::empty())
            } else {
                v.selected
            },
            custom: v.custom.update(v.index, text),
            ..v
        }
    }
}

/// Paging: to the last question at most.
pub open spec fn paged(v: AskValue, index: int, questions: nat) -> AskValue {
    AskValue {
        index: if index < questions {
            index
        } else if questions > 0 {
            questions - 1
        } else {
            0
        },
        ..v
    }
}

/// The answers to a group of questions.
pub open spec fn group_answers(questions: Seq<Question>, v: AskValue) -> Seq<JsonValue> {
    Seq::new(
        questions.len(),
        |i: int| answer_with(questions[i].id@, v.selected[i], written(v.custom[i])),
    )
}

fn toggle_label(labels: &Vec<String>, label: &str) -> (r: Vec<String>)
    ensures
        views(r@) == label_toggled(views(labels@), label@),
{
    let ghost all = views(labels@);
    let mut out: Vec<String> = Vec::new();
    let mut found: bool = false;
    let mut i: usize = 0;
    while i < labels.len()
        invariant
            i <= labels@.len(),
            all == views(labels@),
            found ==> all.contains(label@) && {
                let k = all.index_of_first(label@).unwrap();
                0 <= k < i && all[k] == label@ && views(out@) == all.take(i as int).remove(k)
            },
            !found ==> views(out@) == all.take(i as int) && (forall|k: int|
                0 <= k < i ==> all[k] != label@),
        decreases labels@.len() - i,
    {
        let ghost before = out@;
        assert(all[i as int] == labels@[i as int]@);
        assert(all.take(i + 1) =~= all.take(i as int).push(all[i as int]));
        if !found && str_eq(labels[i].as_str(), label) {
            found = true;
            proof {
                assert(all.contains(label@));
                all.index_of_first_ensures(label@);
                let k = all.index_of_first(label@).unwrap();
                assert(k == i) by {
                    if k < i {
                        assert(all[k] != label@);
                    }
                }
                assert(all.take(i + 1).remove(k) =~= all.take(i as int));
            }
        } else {
            out.push(owned(labels[i].as_str()));
            assert(views(out@) =~= views(before).push(all[i as int]));
            proof {
                if found {
                    let k = all.index_of_first(label@).unwrap();
                    assert(all.take(i + 1).remove(k) =~= all.take(i as int).remove(k).push(
                        all[i as int],
                    ));
                }
            }
        }
        i = i + 1;
    }
    assert(all.take(i as int) =~= all);
    if !found {
        let ghost before = out@;
        assert(!all.contains(label@));
        out.push(owned(label));
        assert(views(out@) =~= all.push(label@));
    }
    out
}

/// The state after a change of the pending questions only.
pub open spec fn asking(a: AppStore, b: AppStore) -> bool {
    b == (AppStore { ask: AskStore { ask_state: b.ask.ask_state, ..a.ask }, ..a })
}

impl AppStore {
    // -----------------------------------------------------------------------
    // Plans
    // -----------------------------------------------------------------------
    /// What is left of a plan that was answered: nothing is pending, written or
    /// marked.
    pub open spec fn plan_closed(self) -> AppStore {
        AppStore {
            ask: AskStore { plan_decline_input: None, plan_selection: None, ..self.ask },
            state: StoreState { pending_plan: None, ..self.state },
            ..self
        }
    }

    /// The reply to a plan.
    pub open spec fn plan_reply(p: PendingPlan, approve: bool, custom: Option<Seq<char>>) -> ReplyValue {
        let label = if approve {
            p.question.label_or(0, "批准"@)
        } else {
            p.question.label_or(1, "拒绝"@)
        };
        ReplyValue::Answer {
            rpc_id: p.rpc_id@,
            value: answer_doc(
                p.session_id@,
                answers_doc(seq![answer_with(p.question.id@, seq![label], custom)]),
            ),
        }
    }

    fn close_plan(&mut self) -> (r: Option<PendingPlan>)
        requires
            old(self).wf(),
        ensures
            final(self).wf(),
            r == old(self).state.pending_plan,
            r is Some ==> *final(self) == old(self).plan_closed(),
            r is None ==> *final(self) == *old(self),
    {
        let plan = self.state.pending_plan.take();
        if plan.is_some() {
            self.ask.plan_decline_input = None;
            self.ask.plan_selection = None;
        }
        plan
    }

    /// Approves or declines the pending plan, with the label of the option
    /// that says so.
    pub fn answer_plan(&mut self, approve: bool) -> (r: Option<Reply>)
        requires
            old(self).wf(),
        ensures
            final(self).wf(),
            match old(self).state.pending_plan {
                Some(p) => *final(self) == old(self).plan_closed() && opt_reply(r) == Some(
                    AppStore::plan_reply(p, approve, None),
                ),
                None => r is None && *final(self) == *old(self),
            },
    {
        match self.close_plan() {
            Some(p) => {
                let label = if approve {
                    p.question.option_label(0, "批准")
                } else {
                    p.question.option_label(1, "拒绝")
                };
                Some(plan_answer(&p, label, None))
            },
            None => None,
        }
    }

    /// Goes back to the chat: the request of the plan is cancelled.
    pub fn dismiss_plan(&mut self) -> (r: Option<Reply>)
        requires
            old(self).wf(),
        ensures
            final(self).wf(),
            match old(self).state.pending_plan {
                Some(p) => *final(self) == old(self).plan_closed() && opt_reply(r) == Some(
                    cancelled(p.rpc_id@, "用户取消,回到对话"@),
                ),
                None => r is None && *final(self) == *old(self),
            },
    {
        match self.close_plan() {
            Some(p) => Some(cancel(p.rpc_id, "用户取消,回到对话")),
            None => None,
        }
    }

    /// Declines the pending plan and says what should be done instead.
    pub fn decline_plan_with_feedback(&mut self, feedback: &str) -> (r: Option<Reply>)
        requires
            old(self).wf(),
        ensures
            final(self).wf(),
            match old(self).state.pending_plan {
                Some(p) => *final(self) == old(self).plan_closed() && opt_reply(r) == Some(
                    AppStore::plan_reply(p, false, Some(feedback@)),
                ),
                None => r is None && *final(self) == *old(self),
            },
    {
        match self.close_plan() {
            Some(p) => {
                let label = p.question.option_label(1, "拒绝");
                Some(plan_answer(&p, label, Some(feedback)))
            },
            None => None,
        }
    }

    /// Marks an option of the plan's card; nothing is sent.
    pub fn select_plan_option(&mut self, approve: bool)
        requires
            old(self).wf(),
        ensures
            final(self).wf(),
            *final(self) == (AppStore {
                ask: AskStore { plan_selection: Some(approve), ..old(self).ask },
                ..*old(self)
            }),
    {
        self.ask.plan_selection = Some(approve);
    }

    /// What the user wrote against the plan, without white space around it.
    pub open spec fn feedback(self) -> Seq<char> {
        match self.ask.plan_decline_input {
            Some(t) => trim(t@),
            None => Seq::empty(),
        }
    }

    /// Sends what is marked: approval, or refusal with what was written, if
    /// anything was. With nothing marked nothing happens.
    pub fn submit_plan_selection(&mut self) -> (r: Option<Reply>)
        requires
            old(self).wf(),
        ensures
            final(self).wf(),
            match (old(self).ask.plan_selection, old(self).state.pending_plan) {
                (Some(approve), Some(p)) => *final(self) == old(self).plan_closed() && opt_reply(r)
                    == Some(
                    AppStore::plan_reply(
                        p,
                        approve,
                        if approve {
                            None
                        } else {
                            written(old(self).feedback())
                        },
                    ),
                ),
                _ => r is None && *final(self) == *old(self),
            },
    {
        let approve = match self.ask.plan_selection {
            Some(a) => a,
            None => {
                return None;
            },
        };
        if approve {
            return self.answer_plan(true);
        }
        let feedback = match &self.ask.plan_decline_input {
            Some(t) => trimmed(t.as_str()),
            None => String::new(),
        };
        if feedback.as_str().is_empty() {
            self.answer_plan(false)
        } else {
            self.decline_plan_with_feedback(feedback.as_str())
        }
    }

    /// Shows the field for what should be done instead.
    pub fn ensure_plan_decline_input(&mut self)
        requires
            old(self).wf(),
        ensures
            final(self).wf(),
            final(self).ask.plan_decline_input matches Some(t)
                && t@ == (match old(self).ask.plan_decline_input {
                Some(u) => u@,
                None => Seq::empty(),
            }),
            *final(self) == (AppStore {
                ask: AskStore {
                    plan_decline_input: final(self).ask.plan_decline_input,
                    ..old(self).ask
                },
                ..*old(self)
            }),
    {
        if self.ask.plan_decline_input.is_none() {
            self.ask.plan_decline_input = Some(String::new());
            assert(self.ask.plan_decline_input.unwrap()@ =~= Seq::<char>::empty());
        }
    }

    // -----------------------------------------------------------------------
    // Tool calls
    // -----------------------------------------------------------------------
    /// Allows the pending tool call once, or rejects it.
    pub fn answer_approval(&mut self, approve: bool) -> (r: Option<Reply>)
        requires
            old(self).wf(),
        ensures
            final(self).wf(),
            *final(self) == (AppStore {
                state: StoreState { pending_approval: None, ..old(self).state },
                ..*old(self)
            }),
            opt_reply(r) == (match old(self).state.pending_approval {
                Some(p) => Some(
                    ReplyValue::Answer {
                        rpc_id: p.rpc_id@,
                        value: answer_doc(
                            p.session_id@,
                            JsonValue::Object(seq![("approved"@, JsonValue::Bool(approve))]),
                        ),
                    },
                ),
                None => None,
            }),
    {
        match self.state.pending_approval.take() {
            Some(p) => {
                let mut v: Vec<(String, Json)> = Vec::new();
                push_member(&mut v, "approved", Json::Bool(approve));
                assert(member_values(v@) =~= seq![("approved"@, JsonValue::Bool(approve))]);
                let doc = doc_json(p.session_id.as_str(), object_of(v));
                Some(Reply { rpc_id: p.rpc_id, result: ReplyResult::Answer(doc) })
            },
            None => None,
        }
    }

    /// Cancels the request of the tool call.
    pub fn dismiss_approval(&mut self) -> (r: Option<Reply>)
        requires
            old(self).wf(),
        ensures
            final(self).wf(),
            *final(self) == (AppStore {
                state: StoreState { pending_approval: None, ..old(self).state },
                ..*old(self)
            }),
            opt_reply(r) == (match old(self).state.pending_approval {
                Some(p) => Some(cancelled(p.rpc_id@, "用户取消,回到对话"@)),
                None => None,
            }),
    {
        match self.state.pending_approval.take() {
            Some(p) => Some(cancel(p.rpc_id, "用户取消,回到对话")),
            None => None,
        }
    }

    // -----------------------------------------------------------------------
    // Questions
    // -----------------------------------------------------------------------
    /// A group of questions arrives. Nothing is chosen or written for it yet,
    /// unless it is the one that is already there.
    pub fn enter_ask(&mut self, ask: PendingAsk)
        requires
            old(self).wf(),
        ensures
            final(self).wf(),
            final(self).state.pending_ask == Some(ask),
            final(self).ask.ask_state == (match old(self).state.pending_ask {
                Some(a) if a.rpc_id@ == ask.rpc_id@ && a.questions@.len() == ask.questions@.len()
                    => old(self).ask.ask_state,
                _ => None,
            }),
            *final(self) == (AppStore {
                ask: AskStore { ask_state: final(self).ask.ask_state, ..old(self).ask },
                state: StoreState { pending_ask: Some(ask), ..old(self).state },
                ..*old(self)
            }),
    {
        let same = match &self.state.pending_ask {
            Some(a) => str_eq(a.rpc_id.as_str(), ask.rpc_id.as_str()) && a.questions.len()
                == ask.questions.len(),
            None => false,
        };
        if !same {
            self.ask.ask_state = None;
        }
        self.state.pending_ask = Some(ask);
    }

    /// The state of the card that is shown: an untouched one where the user
    /// has done nothing yet.
    pub open spec fn ask_value(self) -> Option<AskValue> {
        match self.ask.ask_state {
            Some(s) => Some(s@),
            None => match self.state.pending_ask {
                Some(a) => Some(untouched(a.questions@.len())),
                None => None,
            },
        }
    }

    fn ensure_ask_state(&mut self)
        requires
            old(self).wf(),
        ensures
            final(self).wf(),
            asking(*old(self), *final(self)),
            final(self).ask_value() == old(self).ask_value(),
            final(self).ask.ask_state is Some <==> final(self).state.pending_ask is Some,
            final(self).ask.ask_state matches Some(s) ==> old(self).ask_value() == Some(s@),
    {
        if self.ask.ask_state.is_none() {
            if let Some(a) = &self.state.pending_ask {
                self.ask.ask_state = Some(fresh_state(a.questions.len()));
            }
        }
    }

    /// Whether several options of the question that is shown can be chosen.
    pub open spec fn shows_multi(self) -> bool {
        match (self.state.pending_ask, self.ask_value()) {
            (Some(a), Some(v)) => v.index < a.questions@.len() && a.questions@[v.index].is_multi(),
            _ => false,
        }
    }

    fn multi_shown(&self) -> (r: bool)
        requires
            self.wf(),
        ensures
            r == self.shows_multi(),
    {
        match &self.state.pending_ask {
            Some(a) => {
                let index: usize = match &self.ask.ask_state {
                    Some(s) => s.index,
                    None => 0,
                };
                if index < a.questions.len() {
                    a.questions[index].multi()
                } else {
                    false
                }
            },
            None => false,
        }
    }

    /// A click on an option of the question that is shown.
    pub fn toggle_ask_option(&mut self, label: &str)
        requires
            old(self).wf(),
            old(self).state.pending_ask matches Some(a) ==> a.questions@.len() > 0,
        ensures
            final(self).wf(),
            asking(*old(self), *final(self)),
            final(self).ask_value() == (match old(self).ask_value() {
                Some(v) => Some(option_clicked(v, old(self).shows_multi(), label@)),
                None => None,
            }),
    {
        let multi = self.multi_shown();
        self.ensure_ask_state();
        let mut s = match self.ask.ask_state.take() {
            Some(s) => s,
            None => {
                return ;
            },
        };
        let ghost v = s@;
        let i: usize = s.index;
        assert(v.selected[i as int] == views(s.selected@[i as int]@));
        if multi {
            let cell = toggle_label(&s.selected[i], label);
            s.selected.set(i, cell);
            assert(s@.selected =~= v.selected.update(i as int, views(cell@)));
        } else {
            let mut cell: Vec<String> = Vec::new();
            cell.push(owned(label));
            assert(views(cell@) =~= seq![label@]);
            s.selected.set(i, cell);
            let empty = String::new();
            assert(empty@ =~= Seq::<char>::empty());
            s.custom.set(i, empty);
            assert(s@.selected =~= v.selected.update(i as int, seq![label@]));
            assert(s@.custom =~= v.custom.update(i as int, Seq::empty()));
        }
        self.ask.ask_state = Some(s);
    }

    /// Takes over what the user writes for the question that is shown.
    pub fn set_ask_custom(&mut self, text: &str)
        requires
            old(self).wf(),
            old(self).state.pending_ask matches Some(a) ==> a.questions@.len() > 0 || text@.len()
                == 0,
        ensures
            final(self).wf(),
            asking(*old(self), *final(self)),
            final(self).ask_value() == (match old(self).ask_value() {
                Some(v) => Some(text_written(v, old(self).shows_multi(), text@)),
                None => None,
            }),
    {
        let multi = self.multi_shown();
        self.ensure_ask_state();
        let mut s = match self.ask.ask_state.take() {
            Some(s) => s,
            None => {
                return ;
            },
        };
        let ghost v = s@;
        let i: usize = s.index;
        if i < s.custom.len() {
            if !multi && !text.is_empty() {
                let cell: Vec<String> = Vec::new();
                assert(views(cell@) =~= Seq::<Seq<char>>::empty());
                s.selected.set(i, cell);
                assert(s@.selected =~= v.selected.update(i as int, Seq::empty()));
            }
            let own = owned(text);
            s.custom.set(i, own);
            assert(s@.custom =~= v.custom.update(i as int, text@));
        }
        self.ask.ask_state = Some(s);
    }

    /// Shows another question.
    pub fn set_ask_index(&mut self, idx: usize)
        requires
            old(self).wf(),
        ensures
            final(self).wf(),
            asking(*old(self), *final(self)),
            final(self).ask_value() == (match (old(self).ask_value(), old(self).state.pending_ask) {
                (Some(v), Some(a)) => Some(paged(v, idx as int, a.questions@.len())),
                _ => None,
            }),
    {
        self.ensure_ask_state();
        let total: usize = match &self.state.pending_ask {
            Some(a) => a.questions.len(),
            None => 0,
        };
        let mut s = match self.ask.ask_state.take() {
            Some(s) => s,
            None => {
                return ;
            },
        };
        s.index = if idx < total {
            idx
        } else if total > 0 {
            total - 1
        } else {
            0
        };
        self.ask.ask_state = Some(s);
    }

    /// The pending questions are answered or given up: nothing is left of
    /// them.
    pub open spec fn ask_closed(self) -> AppStore {
        AppStore {
            ask: AskStore { ask_state: None, ..self.ask },
            state: StoreState { pending_ask: None, ..self.state },
            ..self
        }
    }

    /// Sends answers to the pending questions.
    pub fn answer_ask(&mut self, answers: Vec<Json>) -> (r: Option<Reply>)
        requires
            old(self).wf(),
        ensures
            final(self).wf(),
            match old(self).state.pending_ask {
                Some(a) => *final(self) == old(self).ask_closed() && opt_reply(r) == Some(
                    ReplyValue::Answer {
                        rpc_id: a.rpc_id@,
                        value: answer_doc(a.session_id@, answers_doc(values(answers@))),
                    },
                ),
                None => r is None && *final(self) == *old(self),
            },
    {
        match self.state.pending_ask.take() {
            Some(a) => {
                self.ask.ask_state = None;
                let doc = doc_json(a.session_id.as_str(), answers_json(answers));
                Some(Reply { rpc_id: a.rpc_id, result: ReplyResult::Answer(doc) })
            },
            None => None,
        }
    }

    /// Gives the pending questions up.
    pub fn cancel_ask(&mut self) -> (r: Option<Reply>)
        requires
            old(self).wf(),
        ensures
            final(self).wf(),
            match old(self).state.pending_ask {
                Some(a) => *final(self) == old(self).ask_closed() && opt_reply(r) == Some(
                    cancelled(a.rpc_id@, "user cancelled the question"@),
                ),
                None => r is None && *final(self) == *old(self),
            },
    {
        match self.state.pending_ask.take() {
            Some(a) => {
                self.ask.ask_state = None;
                Some(cancel(a.rpc_id, "user cancelled the question"))
            },
            None => None,
        }
    }

    /// Sends the whole group, with empty answers where nothing was chosen or
    /// written.
    pub fn submit_ask(&mut self) -> (r: Option<Reply>)
        requires
            old(self).wf(),
        ensures
            final(self).wf(),
            submitted(*old(self), *final(self), r),
    {
        self.ensure_ask_state();
        let answers = match (&self.state.pending_ask, &self.ask.ask_state) {
            (Some(a), Some(s)) => collect_answers(&a.questions, s),
            _ => {
                return None;
            },
        };
        self.answer_ask(answers)
    }

    /// Skips the question that is shown: the next one is shown, and behind the
    /// last one the group is sent.
    pub fn skip_ask(&mut self) -> (r: Option<Reply>)
        requires
            old(self).wf(),
        ensures
            final(self).wf(),
            match (old(self).ask_value(), old(self).state.pending_ask) {
                (Some(v), Some(a)) => if v.index + 1 < a.questions@.len() {
                    &&& r is None
                    &&& asking(*old(self), *final(self))
                    &&& final(self).ask_value() == Some(AskValue { index: v.index + 1, ..v })
                } else {
                    submitted(*old(self), *final(self), r)
                },
                _ => r is None && *final(self) == *old(self),
            },
    {
        let total: usize = match &self.state.pending_ask {
            Some(a) => a.questions.len(),
            None => {
                return None;
            },
        };
        let idx: usize = match &self.ask.ask_state {
            Some(s) => s.index,
            None => 0,
        };
        if idx < total && total - idx > 1 {
            self.set_ask_index(idx + 1);
            None
        } else {
            self.submit_ask()
        }
    }
}

/// What sending a group of questions does.
pub open spec fn submitted(a: AppStore, b: AppStore, r: Option<Reply>) -> bool {
    match (a.state.pending_ask, a.ask_value()) {
        (Some(p), Some(v)) => b == a.ask_closed() && opt_reply(r) == Some(
            ReplyValue::Answer {
                rpc_id: p.rpc_id@,
                value: answer_doc(p.session_id@, answers_doc(group_answers(p.questions@, v))),
            },
        ),
        _ => r is None && b == a,
    }
}

/// The refusal of a request that the user cancelled.
pub open spec fn cancelled(rpc_id: Seq<char>, message: Seq<char>) -> ReplyValue {
    ReplyValue::Refusal { rpc_id, code: "cancelled"@, message }
}

fn cancel(rpc_id: String, message: &str) -> (r: Reply)
    ensures
        r@ == cancelled(rpc_id@, message@),
{
    Reply {
        rpc_id,
        result: ReplyResult::Refusal { code: owned("cancelled"), message: owned(message) },
    }
}

fn plan_answer(p: &PendingPlan, label: String, custom: Option<&str>) -> (r: Reply)
    ensures
        r@ == (ReplyValue::Answer {
            rpc_id: p.rpc_id@,
            value: answer_doc(
                p.session_id@,
                answers_doc(
                    seq![
                        answer_with(
                            p.question.id@,
                            seq![label@],
                            match custom {
                                Some(c) => Some(c@),
                                None => None,
                            },
                        ),
                    ],
                ),
            ),
        }),
{
    let mut selected: Vec<String> = Vec::new();
    selected.push(label);
    assert(views(selected@) =~= seq![label@]);
    let one = answer_json(p.question.id.as_str(), &selected, custom);
    let mut answers: Vec<Json> = Vec::new();
    answers.push(one);
    assert(values(answers@) =~= seq![one.value()]);
    let doc = doc_json(p.session_id.as_str(), answers_json(answers));
    Reply { rpc_id: owned(p.rpc_id.as_str()), result: ReplyResult::Answer(doc) }
}

fn collect_answers(questions: &Vec<Question>, s: &AskUiState) -> (r: Vec<Json>)
    requires
        fits(s@, questions@.len()),
    ensures
        values(r@) == group_answers(questions@, s@),
{
    let mut out: Vec<Json> = Vec::new();
    let mut i: usize = 0;
    while i < questions.len()
        invariant
            i <= questions@.len(),
            fits(s@, questions@.len()),
            out@.len() == i,
            forall|k: int|
                0 <= k < i ==> (#[trigger] out@[k]).value() == answer_with(
                    questions@[k].id@,
                    s@.selected[k],
                    written(s@.custom[k]),
                ),
        decreases questions@.len() - i,
    {
        assert(s@.selected[i as int] == views(s.selected@[i as int]@));
        assert(s@.custom[i as int] == s.custom@[i as int]@);
        let text = s.custom[i].as_str();
        let custom = if text.is_empty() {
            None
        } else {
            Some(text)
        };
        let a = answer_json(questions[i].id.as_str(), &s.selected[i], custom);
        out.push(a);
        i = i + 1;
    }
    assert(values(out@) =~= group_answers(questions@, s@));
    out
}

// ---------------------------------------------------------------------------
// The card of a question
// ---------------------------------------------------------------------------
/// An option on the card.
#[derive(Debug, PartialEq, Eq)]
pub struct OptionRow {
    pub label: String,
    pub description: Option<String>,
    pub selected: bool,
}

/// The content of an option.
#[verifier::ext_equal]
pub struct OptionValue {
    pub label: Seq<char>,
    pub description: Option<Seq<char>>,
    pub selected: bool,
}

impl View for OptionRow {
    type V = OptionValue;

    open spec fn view(&self) -> OptionValue {
        OptionValue {
            label: self.label@,
            description: opt_view(self.description),
            selected: self.selected,
        }
    }
}

/// The buttons that page through the questions.
#[derive(Debug, PartialEq, Eq)]
pub struct Pager {
    /// Which question is shown, of how many.
    pub text: String,
    /// The question before, where there is one.
    pub previous: Option<usize>,
    /// The question behind, where there is one.
    pub following: Option<usize>,
}

/// The card of a question.
#[derive(Debug, PartialEq, Eq)]
pub struct AskCard {
    pub title: String,
    pub question: String,
    pub options: Vec<OptionRow>,
    /// Whether several options can be chosen.
    pub multi: bool,
    /// What the user wrote.
    pub custom: String,
    /// There where the group has more than one question.
    pub pager: Option<Pager>,
}

/// The options of a question beside what is chosen.
pub open spec fn option_rows(q: Question, chosen: Seq<Seq<char>>) -> Seq<OptionValue> {
    match q.options {
        Some(o) => Seq::new(
            o@.len(),
            |i: int|
                OptionValue {
                    label: o@[i].label@,
                    description: opt_view(o@[i].description),
                    selected: chosen.contains(o@[i].label@),
                },
        ),
        None => Seq::empty(),
    }
}

/// What the card of the question that is shown says.
pub open spec fn card_fits(q: Question, v: AskValue, total: nat, c: AskCard) -> bool {
    &&& c.title@ == (match q.header {
        Some(h) => h@,
        None => q.question@,
    })
    &&& c.question@ == q.question@
    &&& c.options@.map_values(|o: OptionRow| o@) == option_rows(q, v.selected[v.index])
    &&& c.multi == q.is_multi()
    &&& c.custom@ == v.custom[v.index]
    &&& c.pager is Some <==> total > 1
    &&& c.pager matches Some(p) ==> {
        &&& p.text@ == dec((v.index + 1) as nat) + "/"@ + dec(total)
        &&& p.previous is Some <==> v.index > 0
        &&& p.previous matches Some(i) ==> i == v.index - 1
        &&& p.following is Some <==> v.index + 1 < total
        &&& p.following matches Some(i) ==> i == v.index + 1
    }
}

fn among(labels: &Vec<String>, label: &str) -> (r: bool)
    ensures
        r == views(labels@).contains(label@),
{
    let ghost all = views(labels@);
    let mut i: usize = 0;
    while i < labels.len()
        invariant
            i <= labels@.len(),
            all == views(labels@),
            forall|k: int| 0 <= k < i ==> #[trigger] all[k] != label@,
        decreases labels@.len() - i,
    {
        if str_eq(labels[i].as_str(), label) {
            assert(all[i as int] == label@);
            return true;
        }
        i = i + 1;
    }
    false
}

fn rows_of(q: &Question, chosen: &Vec<String>) -> (r: Vec<OptionRow>)
    ensures
        r@.map_values(|o: OptionRow| o@) == option_rows(*q, views(chosen@)),
{
    let mut out: Vec<OptionRow> = Vec::new();
    if let Some(o) = &q.options {
        let mut i: usize = 0;
        while i < o.len()
            invariant
                i <= o@.len(),
                out@.len() == i,
                forall|k: int|
                    0 <= k < i ==> (#[trigger] out@[k])@ == (OptionValue {
                        label: o@[k].label@,
                        description: opt_view(o@[k].description),
                        selected: views(chosen@).contains(o@[k].label@),
                    }),
            decreases o@.len() - i,
        {
            out.push(
                OptionRow {
                    label: owned(o[i].label.as_str()),
                    description: owned_opt(&o[i].description),
                    selected: among(chosen, o[i].label.as_str()),
                },
            );
            i = i + 1;
        }
    }
    assert(out@.map_values(|x: OptionRow| x@) =~= option_rows(*q, views(chosen@)));
    out
}

impl AppStore {
    /// Whether a card is shown: a group of questions of the current session is
    /// pending and not empty.
    pub open spec fn asks_now(self) -> bool {
        self.state.pending_ask matches Some(a) && self.current() == Some(a.session_id@)
            && a.questions@.len() > 0
    }

    /// The card of the question that is shown.
    pub fn ask_card(&self) -> (r: Option<AskCard>)
        requires
            self.wf(),
        ensures
            r is Some <==> self.asks_now(),
            r matches Some(c) ==> {
                let a = self.state.pending_ask.unwrap();
                let v = self.ask_value().unwrap();
                card_fits(a.questions@[v.index], v, a.questions@.len(), c)
            },
    {
        let a = match (&self.state.pending_ask, &self.state.current_id) {
            (Some(a), Some(id)) => if str_eq(a.session_id.as_str(), id.as_str()) {
                a
            } else {
                return None;
            },
            _ => {
                return None;
            },
        };
        let total = a.questions.len();
        if total == 0 {
            return None;
        }
        let index: usize = match &self.ask.ask_state {
            Some(s) => s.index,
            None => 0,
        };
        let nothing: Vec<String> = Vec::new();
        let chosen = match &self.ask.ask_state {
            Some(s) => &s.selected[index],
            None => &nothing,
        };
        let custom = match &self.ask.ask_state {
            Some(s) => owned(s.custom[index].as_str()),
            None => String::new(),
        };
        proof {
            let v = self.ask_value().unwrap();
            assert(views(nothing@) =~= Seq::<Seq<char>>::empty());
            assert(views(chosen@) == v.selected[v.index]);
            assert(custom@ =~= v.custom[v.index]);
        }
        let q = &a.questions[index];
        let title = match &q.header {
            Some(h) => owned(h.as_str()),
            None => owned(q.question.as_str()),
        };
        let pager = if total > 1 {
            let here = usize_text(index + 1);
            let all = usize_text(total);
            let text = cat3(here.as_str(), "/", all.as_str());
            let previous = if index > 0 {
                Some(index - 1)
            } else {
                None
            };
            let following = if index + 1 < total {
                Some(index + 1)
            } else {
                None
            };
            Some(Pager { text, previous, following })
        } else {
            None
        };
        Some(
            AskCard {
                title,
                question: owned(q.question.as_str()),
                options: rows_of(q, chosen),
                multi: q.multi(),
                custom,
                pager,
            },
        )
    }
}

// ---------------------------------------------------------------------------
// Laws
// ---------------------------------------------------------------------------
/// A state that fits a group of questions fits it after every step.
pub proof fn law_steps_keep_the_fit(
    v: AskValue,
    multi: bool,
    text: Seq<char>,
    index: int,
    questions: nat,
)
    requires
        fits(v, questions),
        0 <= index,
    ensures
        questions > 0 ==> fits(option_clicked(v, multi, text), questions),
        fits(text_written(v, multi, text), questions),
        fits(paged(v, index, questions), questions),
        fits(untouched(questions), questions),
{
}

/// Where one option can be chosen, an option and a text exclude each other.
pub proof fn law_option_and_text_exclude_each_other(v: AskValue, label: Seq<char>, text: Seq<char>)
    requires
        0 <= v.index < v.selected.len(),
        v.custom.len() == v.selected.len(),
        text.len() > 0,
    ensures
        option_clicked(v, false, label).selected[v.index] == seq![label],
        option_clicked(v, false, label).custom[v.index].len() == 0,
        text_written(v, false, text).selected[v.index].len() == 0,
        text_written(v, false, text).custom[v.index] == text,
{
}

/// Where several can be chosen, a second click on an option that was not
/// chosen undoes the first.
pub proof fn law_second_click_undoes_the_first(labels: Seq<Seq<char>>, label: Seq<char>)
    requires
        !labels.contains(label),
    ensures
        label_toggled(label_toggled(labels, label), label) == labels,
{
    let once = labels.push(label);
    assert(once[labels.len() as int] == label);
    assert(once.contains(label));
    once.index_of_first_ensures(label);
    let k = once.index_of_first(label).unwrap();
    assert(k == labels.len()) by {
        if k < labels.len() {
            assert(labels[k] == label);
        }
    }
    assert(once.remove(k) =~= labels);
}

/// Every question of a group is answered, in order, whatever was skipped.
pub proof fn law_every_question_is_answered(questions: Seq<Question>, v: AskValue, i: int)
    requires
        0 <= i < questions.len(),
    ensures
        group_answers(questions, v).len() == questions.len(),
        group_answers(questions, v)[i] == answer_with(
            questions[i].id@,
            v.selected[i],
            written(v.custom[i]),
        ),
{
}

/// Whether a reply answers a request of a session.
pub open spec fn is_answer_to(r: Option<Reply>, rpc_id: Seq<char>, session_id: Seq<char>) -> bool {
    r matches Some(x) && x.rpc_id@ == rpc_id && (x.result matches ReplyResult::Answer(j)
        && j.value().get("sessionId"@) == Some(JsonValue::Str(session_id)))
}

/// The answer that a reply holds.
pub open spec fn answer_in(r: Option<Reply>) -> JsonValue {
    match r {
        Some(x) => match x.result {
            ReplyResult::Answer(j) => j.value().field("answer"@),
            _ => JsonValue::Null,
        },
        None => JsonValue::Null,
    }
}

/// Whether a value answers one question: with its id, the chosen labels, and what
/// was written, where anything was.
pub open spec fn answers_question(
    j: JsonValue,
    id: Seq<char>,
    selected: Seq<Seq<char>>,
    custom: Option<Seq<char>>,
) -> bool {
    &&& j.get("id"@) == Some(JsonValue::Str(id))
    &&& j.get("selected"@) == Some(
        JsonValue::Array(selected.map_values(|t: Seq<char>| JsonValue::Str(t))),
    )
    &&& j.get("custom"@) == (match custom {
        Some(c) => Some(JsonValue::Str(c)),
        None => None,
    })
}

proof fn lemma_answers(
    session_id: Seq<char>,
    answer: JsonValue,
    answers: Seq<JsonValue>,
    id: Seq<char>,
    selected: Seq<Seq<char>>,
    custom: Option<Seq<char>>,
)
    ensures
        answer_doc(session_id, answer).get("sessionId"@) == Some(JsonValue::Str(session_id)),
        answer_doc(session_id, answer).field("answer"@) == answer,
        answers_doc(answers).field("answers"@) == JsonValue::Array(answers),
        answers_question(answer_with(id, selected, custom), id, selected, custom),
{
    reveal_strlit("sessionId");
    reveal_strlit("answer");
    reveal_strlit("id");
    reveal_strlit("selected");
    reveal_strlit("custom");
    assert("sessionId"@.len() == 9 && "answer"@.len() == 6 && "id"@.len() == 2 && "selected"@.len()
        == 8 && "custom"@.len() == 6);
    let d = seq![("sessionId"@, JsonValue::Str(session_id)), ("answer"@, answer)];
    lemma_lookup_at(d, 0);
    lemma_lookup_at(d, 1);
    let e = seq![("answers"@, JsonValue::Array(answers))];
    lemma_lookup_at(e, 0);
    let a = answer_with(id, selected, custom)->Object_0;
    lemma_lookup_at(a, 0);
    lemma_lookup_at(a, 1);
    if custom is Some {
        lemma_lookup_at(a, 2);
    } else {
        law_lookup_finds_the_first_member(a, "custom"@);
    }
}

/// An answer to a tool call says whether it is allowed, to the request that was
/// pending, which is then gone. Without one nothing is said.
pub proof fn law_approval_says_what_the_user_said(
    s: &mut AppStore,
    approve: bool,
    r: Option<Reply>,
)
    requires
        call_ensures(AppStore::answer_approval, (s, approve), r),
    ensures
        final(s).state.pending_approval is None,
        match old(s).state.pending_approval {
            Some(p) => is_answer_to(r, p.rpc_id@, p.session_id@) && answer_in(r).get("approved"@)
                == Some(JsonValue::Bool(approve)),
            None => r is None,
        },
{
    let j = JsonValue::Object(seq![("approved"@, JsonValue::Bool(approve))]);
    lemma_lookup_at(seq![("approved"@, JsonValue::Bool(approve))], 0);
    match s.state.pending_approval {
        Some(p) => {
            lemma_answers(p.session_id@, j, Seq::empty(), Seq::empty(), Seq::empty(), None);
        },
        None => {},
    }
}

/// The label that answers a plan: the first option carries it out and the second
/// one declines it, with fixed words where there is no such option.
pub open spec fn plan_label(p: PendingPlan, approve: bool) -> Seq<char> {
    match p.question.options {
        Some(o) => if approve {
            if o@.len() > 0 {
                o@[0].label@
            } else {
                "批准"@
            }
        } else {
            if o@.len() > 1 {
                o@[1].label@
            } else {
                "拒绝"@
            }
        },
        None => if approve {
            "批准"@
        } else {
            "拒绝"@
        },
    }
}

/// Whether a reply answers a plan by the label of one of its options.
pub open spec fn answers_plan(
    r: Option<Reply>,
    p: PendingPlan,
    approve: bool,
    custom: Option<Seq<char>>,
) -> bool {
    &&& is_answer_to(r, p.rpc_id@, p.session_id@)
    &&& answer_in(r).field("answers"@) matches JsonValue::Array(answers) && answers.len() == 1
        && answers_question(
        answers[0],
        p.question.id@,
        seq![plan_label(p, approve)],
        custom,
    )
}

proof fn lemma_answers_plan(
    r: Option<Reply>,
    p: PendingPlan,
    approve: bool,
    custom: Option<Seq<char>>,
)
    requires
        opt_reply(r) == Some(AppStore::plan_reply(p, approve, custom)),
    ensures
        answers_plan(r, p, approve, custom),
{
    let label = plan_label(p, approve);
    let answers = seq![answer_with(p.question.id@, seq![label], custom)];
    lemma_answers(
        p.session_id@,
        answers_doc(answers),
        answers,
        p.question.id@,
        seq![label],
        custom,
    );
}

/// A plan is approved by its first option and declined by its second, with what
/// the user wrote; then it is no longer pending.
pub proof fn law_plans_are_answered(
    s: &mut AppStore,
    approve: bool,
    r: Option<Reply>,
    t: &mut AppStore,
    feedback: &str,
    q: Option<Reply>,
)
    requires
        call_ensures(AppStore::answer_plan, (s, approve), r),
        call_ensures(AppStore::decline_plan_with_feedback, (t, feedback), q),
    ensures
        final(s).state.pending_plan is None,
        final(t).state.pending_plan is None,
        match old(s).state.pending_plan {
            Some(p) => answers_plan(r, p, approve, None),
            None => r is None,
        },
        match old(t).state.pending_plan {
            Some(p) => answers_plan(q, p, false, Some(feedback@)),
            None => q is None,
        },
{
    if let Some(p) = s.state.pending_plan {
        lemma_answers_plan(r, p, approve, None);
    }
    if let Some(p) = t.state.pending_plan {
        lemma_answers_plan(q, p, false, Some(feedback@));
    }
}

/// What is marked on the card of a plan is what is sent; a refusal goes with what
/// was written, unless that is blank. With nothing marked nothing is sent and the
/// plan stays.
pub proof fn law_marked_answers_are_sent(s: &mut AppStore, r: Option<Reply>)
    requires
        call_ensures(AppStore::submit_plan_selection, (s,), r),
    ensures
        match (old(s).ask.plan_selection, old(s).state.pending_plan) {
            (Some(true), Some(p)) => answers_plan(r, p, true, None)
                && final(s).state.pending_plan is None,
            (Some(false), Some(p)) => {
                let note = match old(s).ask.plan_decline_input {
                    Some(t) => trim(t@),
                    None => Seq::empty(),
                };
                &&& final(s).state.pending_plan is None
                &&& answers_plan(
                    r,
                    p,
                    false,
                    if note.len() == 0 {
                        None
                    } else {
                        Some(note)
                    },
                )
            },
            _ => r is None && final(s).state.pending_plan == old(s).state.pending_plan,
        },
{
    if let (Some(approve), Some(p)) = (s.ask.plan_selection, s.state.pending_plan) {
        lemma_answers_plan(
            r,
            p,
            approve,
            if approve {
                None
            } else {
                written(s.feedback())
            },
        );
    }
}

/// A request that the user gives up is refused as cancelled, and is gone.
pub proof fn law_cancelled_requests_are_refused(
    a: &mut AppStore,
    b: &mut AppStore,
    c: &mut AppStore,
    ra: Option<Reply>,
    rb: Option<Reply>,
    rc: Option<Reply>,
)
    requires
        call_ensures(AppStore::dismiss_plan, (a,), ra),
        call_ensures(AppStore::dismiss_approval, (b,), rb),
        call_ensures(AppStore::cancel_ask, (c,), rc),
    ensures
        final(a).state.pending_plan is None,
        final(b).state.pending_approval is None,
        final(c).state.pending_ask is None,
        old(a).state.pending_plan matches Some(p) ==> is_cancellation(ra, p.rpc_id@),
        old(b).state.pending_approval matches Some(p) ==> is_cancellation(rb, p.rpc_id@),
        old(c).state.pending_ask matches Some(p) ==> is_cancellation(rc, p.rpc_id@),
        old(a).state.pending_plan is None ==> ra is None,
        old(b).state.pending_approval is None ==> rb is None,
        old(c).state.pending_ask is None ==> rc is None,
{
}

/// Whether a reply refuses a request as cancelled.
pub open spec fn is_cancellation(r: Option<Reply>, rpc_id: Seq<char>) -> bool {
    r matches Some(x) && x.rpc_id@ == rpc_id && (x.result matches ReplyResult::Refusal { code, .. }
        && code@ == "cancelled"@)
}

/// Sending a group of questions answers each of them, in order, with the labels
/// that were chosen and the text that was written for it.
pub proof fn law_sent_answers_are_those_given(
    s: &mut AppStore,
    r: Option<Reply>,
    a: PendingAsk,
    v: AskValue,
    i: int,
)
    requires
        call_ensures(AppStore::submit_ask, (s,), r),
        s.state.pending_ask == Some(a),
        s.ask_value() == Some(v),
        0 <= i < a.questions@.len(),
    ensures
        final(s).state.pending_ask is None,
        is_answer_to(r, a.rpc_id@, a.session_id@),
        answer_in(r).field("answers"@) matches JsonValue::Array(answers) && answers.len()
            == a.questions@.len() && answers_question(
            answers[i],
            a.questions@[i].id@,
            v.selected[i],
            if v.custom[i].len() == 0 {
                None
            } else {
                Some(v.custom[i])
            },
        ),
{
    let answers = group_answers(a.questions@, v);
    lemma_answers(
        a.session_id@,
        answers_doc(answers),
        answers,
        a.questions@[i].id@,
        v.selected[i],
        written(v.custom[i]),
    );
}

/// A click on an option concerns the question that is shown and no other. Where
/// one option can be chosen it is then the only one; where several can, it is
/// added to those that were chosen, or taken from them.
pub proof fn law_a_click_concerns_the_question_shown(
    s: &mut AppStore,
    label: &str,
    v: AskValue,
    a: PendingAsk,
    k: int,
)
    requires
        call_ensures(AppStore::toggle_ask_option, (s, label), ()),
        s.ask_value() == Some(v),
        s.state.pending_ask == Some(a),
        fits(v, a.questions@.len()),
        a.questions@.len() > 0,
    ensures
        final(s).ask_value() matches Some(w) && {
            let was = v.selected[v.index];
            let now = w.selected[v.index];
            let multi = a.questions@[v.index].multi_select == Some(true);
            &&& w.index == v.index
            &&& 0 <= k < v.selected.len() && k != v.index ==> w.selected[k] == v.selected[k]
                && w.custom[k] == v.custom[k]
            &&& !multi ==> now == seq![label@] && w.custom[v.index].len() == 0
            &&& multi ==> w.custom == v.custom
            &&& multi && !was.contains(label@) ==> now == was.push(label@)
            &&& multi && was.contains(label@) ==> now.len() == was.len() - 1 && exists|d: int|
                0 <= d < was.len() && was[d] == label@ && now == #[trigger] was.remove(d)
        },
{
    let was = v.selected[v.index];
    if was.contains(label@) {
        was.index_of_first_ensures(label@);
        let d = was.index_of_first(label@).unwrap();
        assert(was.remove(d).len() == was.len() - 1);
    }
}

/// What is written concerns the question that is shown and no other; where one
/// option can be chosen it takes the place of the option.
pub proof fn law_a_text_concerns_the_question_shown(
    s: &mut AppStore,
    text: &str,
    v: AskValue,
    a: PendingAsk,
    k: int,
)
    requires
        call_ensures(AppStore::set_ask_custom, (s, text), ()),
        s.ask_value() == Some(v),
        s.state.pending_ask == Some(a),
        fits(v, a.questions@.len()),
        a.questions@.len() > 0,
    ensures
        final(s).ask_value() matches Some(w) && {
            let multi = a.questions@[v.index].multi_select == Some(true);
            &&& w.index == v.index
            &&& w.custom[v.index] == text@
            &&& 0 <= k < v.selected.len() && k != v.index ==> w.selected[k] == v.selected[k]
                && w.custom[k] == v.custom[k]
            &&& multi || text@.len() == 0 ==> w.selected == v.selected
            &&& !multi && text@.len() > 0 ==> w.selected[v.index].len() == 0
        },
{
}

/// Paging shows the question that was asked for, or the last one, and changes no
/// answer; skipping shows the next one, and behind the last one sends the group.
pub proof fn law_paging_changes_no_answer(
    s: &mut AppStore,
    t: &mut AppStore,
    idx: usize,
    v: AskValue,
    a: PendingAsk,
    r: Option<Reply>,
)
    requires
        call_ensures(AppStore::set_ask_index, (s, idx), ()),
        call_ensures(AppStore::skip_ask, (t,), r),
        s.ask_value() == Some(v),
        s.state.pending_ask == Some(a),
        t.ask_value() == Some(v),
        t.state.pending_ask == Some(a),
        a.questions@.len() > 0,
        fits(v, a.questions@.len()),
    ensures
        final(s).ask_value() matches Some(w) && w.selected == v.selected && w.custom == v.custom
            && w.index == (if idx < a.questions@.len() {
            idx as int
        } else {
            a.questions@.len() - 1
        }),
        v.index + 1 < a.questions@.len() ==> r is None && (final(t).ask_value() matches Some(w)
            && w.index == v.index + 1 && w.selected == v.selected && w.custom == v.custom),
        v.index + 1 == a.questions@.len()
            ==> is_answer_to(r, a.rpc_id@, a.session_id@) && final(t).state.pending_ask is None,
{
    let answers = group_answers(a.questions@, v);
    lemma_answers(
        a.session_id@,
        answers_doc(answers),
        answers,
        Seq::empty(),
        Seq::empty(),
        None,
    );
}

/// The card shows the question with its options in order, marks those that are
/// chosen, and has what was written. It pages where there is more than one
/// question.
pub proof fn law_card_shows_the_question(
    s: &AppStore,
    c: AskCard,
    a: PendingAsk,
    v: AskValue,
    k: int,
)
    requires
        call_ensures(AppStore::ask_card, (s,), Some(c)),
        s.state.pending_ask == Some(a),
        s.ask_value() == Some(v),
        fits(v, a.questions@.len()),
        a.questions@[v.index].options matches Some(o) && 0 <= k < o@.len(),
    ensures
        ({
            let q = a.questions@[v.index];
            let o = q.options->0@;
            &&& c.question@ == q.question@
            &&& c.custom@ == v.custom[v.index]
            &&& c.multi == (q.multi_select == Some(true))
            &&& q.header matches Some(h) ==> c.title@ == h@
            &&& c.options@.len() == o.len()
            &&& c.options@[k].label@ == o[k].label@
            &&& c.options@[k].selected == v.selected[v.index].contains(o[k].label@)
            &&& a.questions@.len() == 1 ==> c.pager is None
            &&& a.questions@.len() > 1 ==> (c.pager matches Some(p) && p.text@ == dec(
                (v.index + 1) as nat,
            ) + "/"@ + dec(a.questions@.len()))
        }),
{
    let q = a.questions@[v.index];
    let rows = option_rows(q, v.selected[v.index]);
    let shown = c.options@.map_values(|o: OptionRow| o@);
    assert(card_fits(q, v, a.questions@.len(), c));
    assert(shown == rows);
    assert(shown.len() == c.options@.len());
    assert(shown[k] == rows[k]);
    assert(shown[k] == c.options@[k]@);
}

/// A question that comes again keeps what was entered; another one starts
/// anew.
pub proof fn law_questions_that_come_again_keep_their_answers(s: &mut AppStore, ask: PendingAsk)
    requires
        call_ensures(AppStore::enter_ask, (s, ask), ()),
    ensures
        final(s).state.pending_ask == Some(ask),
        old(s).state.pending_ask matches Some(a) ==> (a.rpc_id@ == ask.rpc_id@
            && a.questions@.len() == ask.questions@.len() ==> final(s).ask.ask_state
            == old(s).ask.ask_state),
        old(s).state.pending_ask matches Some(a) ==> (a.rpc_id@ != ask.rpc_id@
            ==> final(s).ask.ask_state is None),
        old(s).state.pending_ask is None ==> final(s).ask.ask_state is None,
{
}

/// The choice on a plan is the one that was made, and the field for what is
/// wrong with it keeps its text.
pub proof fn law_choices_on_a_plan_are_kept(s: &mut AppStore, t: &mut AppStore, approve: bool)
    requires
        call_ensures(AppStore::select_plan_option, (s, approve), ()),
        call_ensures(AppStore::ensure_plan_decline_input, (t,), ()),
    ensures
        final(s).ask.plan_selection == Some(approve),
        final(s).state == old(s).state,
        final(t).ask.plan_decline_input is Some,
        old(t).ask.plan_decline_input matches Some(u) ==> (
        final(t).ask.plan_decline_input matches Some(v) && v@ == u@),
        old(t).ask.plan_decline_input is None ==> (
        final(t).ask.plan_decline_input matches Some(v) && v@.len() == 0),
{
}

/// Answers go to the question that is asked, and without one nowhere.
pub proof fn law_answers_go_to_their_question(
    s: &mut AppStore,
    answers: Vec<Json>,
    r: Option<Reply>,
)
    requires
        call_ensures(AppStore::answer_ask, (s, answers), r),
    ensures
        r is Some <==> old(s).state.pending_ask is Some,
        old(s).state.pending_ask matches Some(a) ==> opt_reply(r) == Some(
            ReplyValue::Answer {
                rpc_id: a.rpc_id@,
                value: answer_doc(a.session_id@, answers_doc(values(answers@))),
            },
        ),
        r is Some ==> final(s).state.pending_ask is None,
        r is None ==> *final(s) == *old(s),
{
}

} // verus!
