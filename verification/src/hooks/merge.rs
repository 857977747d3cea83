//! Folding all hook answers of one point into the strictest result.
//!
//! Deny and block outrank ask, ask outranks allow and approve, and those
//! outrank silence. Reasons come only from the winning rank.

use crate::hooks::codec::{Decision, HookOutput};
use crate::text::{join, join_strings, opt_view, owned_opt, views};
use vstd::prelude::*;

verus! {

/// The merged decision of one point; `Silent` where no hook took a stand.
#[derive(Debug, Clone, Copy, PartialEq, Eq, Structural)]
pub enum MergedDecision {
    Allow,
    Ask,
    Deny,
    Silent,
}

impl Default for MergedDecision {
    fn default() -> (r: MergedDecision)
        ensures
            r == MergedDecision::Silent,
    {
        MergedDecision::Silent
    }
}

/// The merged result of one point.
#[derive(Debug, Clone, PartialEq, Eq)]
pub struct MergedHookOutcome {
    pub decision: MergedDecision,
    /// Reasons of the winning rank, separated by blank lines.
    pub reason: Option<String>,
    /// Whether some hook asked to halt.
    pub stop: bool,
    /// The stop reason of the first hook that asked to halt.
    pub stop_reason: Option<String>,
    /// The additional contexts, in hook order.
    pub additional_context: Vec<String>,
    /// The system messages, in hook order.
    pub system_messages: Vec<String>,
}

/// The mathematical value of a merged result.
#[verifier::ext_equal]
pub struct MergedValue {
    pub decision: MergedDecision,
    pub reason: Option<Seq<char>>,
    pub stop: bool,
    pub stop_reason: Option<Seq<char>>,
    pub additional_context: Seq<Seq<char>>,
    pub system_messages: Seq<Seq<char>>,
}

impl View for MergedHookOutcome {
    type V = MergedValue;

    open spec fn view(&self) -> MergedValue {
        MergedValue {
            decision: self.decision,
            reason: opt_view(self.reason),
            stop: self.stop,
            stop_reason: opt_view(self.stop_reason),
            additional_context: views(self.additional_context@),
            system_messages: views(self.system_messages@),
        }
    }
}

impl Default for MergedHookOutcome {
    fn default() -> (r: MergedHookOutcome)
        ensures
            r@ == merged(Seq::<HookOutput>::empty()),
    {
        let r = MergedHookOutcome {
            decision: MergedDecision::Silent,
            reason: None,
            stop: false,
            stop_reason: None,
            additional_context: Vec::new(),
            system_messages: Vec::new(),
        };
        assert(r@ =~= merged(Seq::<HookOutput>::empty()));
        r
    }
}

/// How strict a decision is.
pub open spec fn rank_of(decision: Option<Decision>) -> u8 {
    match decision {
        Some(Decision::Deny) | Some(Decision::Block) => 3,
        Some(Decision::Ask) => 2,
        Some(Decision::Allow) | Some(Decision::Approve) => 1,
        None => 0,
    }
}

/// The strictest rank among the answers, 0 for none.
pub open spec fn top_rank(outs: Seq<HookOutput>) -> u8
    decreases outs.len(),
{
    if outs.len() == 0 {
        0
    } else if rank_of(outs.last().decision) > top_rank(outs.drop_last()) {
        rank_of(outs.last().decision)
    } else {
        top_rank(outs.drop_last())
    }
}

/// The merged decision for a rank.
pub open spec fn decision_of_rank(r: u8) -> MergedDecision {
    if r == 3 {
        MergedDecision::Deny
    } else if r == 2 {
        MergedDecision::Ask
    } else if r == 1 {
        MergedDecision::Allow
    } else {
        MergedDecision::Silent
    }
}

/// `s` with `o` appended, where there is a text and it is not empty.
pub open spec fn push_text(s: Seq<Seq<char>>, o: Option<String>) -> Seq<Seq<char>> {
    match o {
        Some(t) => if t@.len() > 0 {
            s.push(t@)
        } else {
            s
        },
        None => s,
    }
}

/// The reasons given with decisions of one rank, in hook order.
pub open spec fn reasons_at(outs: Seq<HookOutput>, r: u8) -> Seq<Seq<char>>
    decreases outs.len(),
{
    if outs.len() == 0 {
        Seq::empty()
    } else if rank_of(outs.last().decision) == r {
        push_text(reasons_at(outs.drop_last(), r), outs.last().reason)
    } else {
        reasons_at(outs.drop_last(), r)
    }
}

/// The additional contexts, in hook order, without empty ones.
pub open spec fn contexts(outs: Seq<HookOutput>) -> Seq<Seq<char>>
    decreases outs.len(),
{
    if outs.len() == 0 {
        Seq::empty()
    } else {
        push_text(contexts(outs.drop_last()), outs.last().additional_context)
    }
}

/// The system messages, in hook order, without empty ones.
pub open spec fn messages(outs: Seq<HookOutput>) -> Seq<Seq<char>>
    decreases outs.len(),
{
    if outs.len() == 0 {
        Seq::empty()
    } else {
        push_text(messages(outs.drop_last()), outs.last().system_message)
    }
}

/// Whether an answer asks the turn to halt.
pub open spec fn halts(out: HookOutput) -> bool {
    out.continue_ == Some(false)
}

/// Whether some answer asks the turn to halt, and the stop reason of the
/// first that does.
pub open spec fn halt_of(outs: Seq<HookOutput>) -> (bool, Option<Seq<char>>)
    decreases outs.len(),
{
    if outs.len() == 0 {
        (false, None)
    } else if halts(outs[0]) {
        (true, opt_view(outs[0].stop_reason))
    } else {
        halt_of(outs.drop_first())
    }
}

/// The merged result of the answers of one point.
pub open spec fn merged(outs: Seq<HookOutput>) -> MergedValue {
    let top = top_rank(outs);
    let reasons = if top >= 2 {
        reasons_at(outs, top)
    } else {
        Seq::empty()
    };
    MergedValue {
        decision: decision_of_rank(top),
        reason: if reasons.len() == 0 {
            None
        } else {
            Some(join(reasons, "\n\n"@))
        },
        stop: halt_of(outs).0,
        stop_reason: halt_of(outs).1,
        additional_context: contexts(outs),
        system_messages: messages(outs),
    }
}

fn rank(decision: Option<Decision>) -> (r: u8)
    ensures
        r == rank_of(decision),
{
    match decision {
        Some(Decision::Deny) | Some(Decision::Block) => 3,
        Some(Decision::Ask) => 2,
        Some(Decision::Allow) | Some(Decision::Approve) => 1,
        None => 0,
    }
}

fn decision_for_rank(max: u8) -> (r: MergedDecision)
    ensures
        r == decision_of_rank(max),
{
    match max {
        3 => MergedDecision::Deny,
        2 => MergedDecision::Ask,
        1 => MergedDecision::Allow,
        _ => MergedDecision::Silent,
    }
}

fn collect(out: &mut Vec<String>, text: &Option<String>)
    ensures
        views(final(out)@) == push_text(views(old(out)@), *text),
{
    match text {
        Some(t) => {
            if !t.as_str().is_empty() {
                let ghost before = out@;
                out.push(t.clone());
                assert(views(out@) =~= views(before).push(t@));
            }
        },
        None => {},
    }
}

proof fn lemma_halt_push(outs: Seq<HookOutput>, next: HookOutput)
    ensures
        halt_of(outs.push(next)) == (if halt_of(outs).0 {
            halt_of(outs)
        } else if halts(next) {
            (true, opt_view(next.stop_reason))
        } else {
            halt_of(outs)
        }),
    decreases outs.len(),
{
    reveal_with_fuel(halt_of, 2);
    if outs.len() == 0 {
        assert(outs.push(next).drop_first() =~= Seq::<HookOutput>::empty());
    } else {
        assert(outs.push(next).drop_first() =~= outs.drop_first().push(next));
        lemma_halt_push(outs.drop_first(), next);
    }
}

/// Folds the answers of all hooks that matched one point.
pub fn merge_hook_outputs(outputs: &[HookOutput]) -> (r: MergedHookOutcome)
    ensures
        r@ == merged(outputs@),
{
    let mut max_rank: u8 = 0;
    let mut deny_reasons: Vec<String> = Vec::new();
    let mut ask_reasons: Vec<String> = Vec::new();
    let mut stop = false;
    let mut stop_reason: Option<String> = None;
    let mut additional_context: Vec<String> = Vec::new();
    let mut system_messages: Vec<String> = Vec::new();
    let mut i: usize = 0;
    proof {
        let none = outputs@.take(0);
        assert(none =~= Seq::<HookOutput>::empty());
        assert(views(deny_reasons@) =~= reasons_at(none, 3));
        assert(views(ask_reasons@) =~= reasons_at(none, 2));
        assert(views(additional_context@) =~= contexts(none));
        assert(views(system_messages@) =~= messages(none));
    }
    while i < outputs.len()
        invariant
            i <= outputs@.len(),
            max_rank == top_rank(outputs@.take(i as int)),
            views(deny_reasons@) == reasons_at(outputs@.take(i as int), 3),
            views(ask_reasons@) == reasons_at(outputs@.take(i as int), 2),
            (stop, opt_view(stop_reason)) == halt_of(outputs@.take(i as int)),
            views(additional_context@) == contexts(outputs@.take(i as int)),
            views(system_messages@) == messages(outputs@.take(i as int)),
        decreases outputs@.len() - i,
    {
        let out = &outputs[i];
        proof {
            let next = outputs@.take(i + 1);
            assert(next.drop_last() =~= outputs@.take(i as int));
            assert(next.last() == *out);
            assert(next =~= outputs@.take(i as int).push(*out));
            lemma_halt_push(outputs@.take(i as int), *out);
        }
        let r: u8 = rank(out.decision);
        if r > max_rank {
            max_rank = r;
        }
        if r == 3 {
            collect(&mut deny_reasons, &out.reason);
        } else if r == 2 {
            collect(&mut ask_reasons, &out.reason);
        }
        if out.continue_.is_some() && !out.continue_.unwrap() && !stop {
            stop = true;
            stop_reason = owned_opt(&out.stop_reason);
        }
        collect(&mut additional_context, &out.additional_context);
        collect(&mut system_messages, &out.system_message);
        i = i + 1;
    }
    assert(outputs@.take(i as int) =~= outputs@);
    let reason = if max_rank == 3 && deny_reasons.len() > 0 {
        Some(join_strings(deny_reasons.as_slice(), "\n\n"))
    } else if max_rank == 2 && ask_reasons.len() > 0 {
        Some(join_strings(ask_reasons.as_slice(), "\n\n"))
    } else {
        None
    };
    proof {
        lemma_top_rank(outputs@);
    }
    MergedHookOutcome {
        decision: decision_for_rank(max_rank),
        reason,
        stop,
        stop_reason,
        additional_context,
        system_messages,
    }
}

// ---------------------------------------------------------------------------
// Laws
// ---------------------------------------------------------------------------
/// The top rank bounds every rank and, unless 0, is reached.
proof fn lemma_top_rank(outs: Seq<HookOutput>)
    ensures
        top_rank(outs) <= 3,
        forall|i: int| 0 <= i < outs.len()
            ==> rank_of((#[trigger] outs[i]).decision) <= top_rank(outs),
        top_rank(outs) > 0 ==> exists|i: int|
            0 <= i < outs.len() && rank_of((#[trigger] outs[i]).decision) == top_rank(outs),
    decreases outs.len(),
{
    if outs.len() > 0 {
        let init = outs.drop_last();
        lemma_top_rank(init);
        assert forall|i: int| 0 <= i < outs.len() implies rank_of((#[trigger] outs[i]).decision)
            <= top_rank(outs) by {
            if i < init.len() {
                assert(init[i] == outs[i]);
            }
        }
        if top_rank(outs) > 0 {
            if top_rank(outs) == top_rank(init) {
                let w = choose|w: int|
                    0 <= w < init.len() && rank_of((#[trigger] init[w]).decision) == top_rank(init);
                assert(outs[w] == init[w]);
            } else {
                assert(rank_of(outs[outs.len() - 1].decision) == top_rank(outs));
            }
        }
    }
}

/// No answers merge to the neutral result.
pub proof fn law_empty_is_neutral()
    ensures
        merged(Seq::<HookOutput>::empty()) == (MergedValue {
            decision: MergedDecision::Silent,
            reason: None,
            stop: false,
            stop_reason: None,
            additional_context: Seq::empty(),
            system_messages: Seq::empty(),
        }),
{
}

/// The strictest decision wins: deny where some answer says deny or block,
/// else ask where some answer says ask, else allow where some answer says
/// allow or approve, and silence where no answer takes a stand.
pub proof fn law_strictest_decision_wins(outs: Seq<HookOutput>)
    ensures
        merged(outs).decision == MergedDecision::Deny <==> exists|i: int|
            0 <= i < outs.len() && ((#[trigger] outs[i]).decision == Some(Decision::Deny)
                || outs[i].decision == Some(Decision::Block)),
        merged(outs).decision == MergedDecision::Ask <==> (exists|i: int|
            0 <= i < outs.len() && (#[trigger] outs[i]).decision == Some(Decision::Ask)) && (forall|
            i: int,
        |
            0 <= i < outs.len() ==> (#[trigger] outs[i]).decision != Some(Decision::Deny)
                && outs[i].decision != Some(Decision::Block)),
        merged(outs).decision == MergedDecision::Allow <==> (exists|i: int|
            0 <= i < outs.len() && ((#[trigger] outs[i]).decision == Some(Decision::Allow)
                || outs[i].decision == Some(Decision::Approve))) && (forall|i: int|
            0 <= i < outs.len() ==> (#[trigger] outs[i]).decision != Some(Decision::Deny)
                && outs[i].decision != Some(Decision::Block) && outs[i].decision != Some(
                Decision::Ask,
            )),
        merged(outs).decision == MergedDecision::Silent <==> forall|i: int|
            0 <= i < outs.len() ==> (#[trigger] outs[i]).decision is None,
{
    lemma_top_rank(outs);
    if top_rank(outs) > 0 {
        let w = choose|w: int|
            0 <= w < outs.len() && rank_of((#[trigger] outs[w]).decision) == top_rank(outs);
        assert(outs[w].decision is Some);
    }
    assert forall|i: int| 0 <= i < outs.len() implies rank_of((#[trigger] outs[i]).decision)
        <= top_rank(outs) by {}
}

/// The texts that some answers give, in hook order, without empty ones.
pub open spec fn texts_given(
    outs: Seq<HookOutput>,
    text: spec_fn(HookOutput) -> Option<String>,
) -> Seq<Seq<char>> {
    outs.filter(|o: HookOutput| text(o) is Some && text(o)->0@.len() > 0).map_values(
        |o: HookOutput| text(o)->0@,
    )
}

/// A denial gives the reasons of the answers that deny or block, a question
/// those of the answers that ask, in hook order and separated by blank lines;
/// reasons of answers that lost, and reasons to allow, are not given.
pub proof fn law_reasons_come_from_the_winners(outs: Seq<HookOutput>)
    ensures
        ({
            let winners = match merged(outs).decision {
                MergedDecision::Deny => outs.filter(
                    |o: HookOutput|
                        o.decision == Some(Decision::Deny) || o.decision == Some(Decision::Block),
                ),
                MergedDecision::Ask => outs.filter(
                    |o: HookOutput| o.decision == Some(Decision::Ask),
                ),
                _ => Seq::empty(),
            };
            let given = texts_given(winners, |o: HookOutput| o.reason);
            merged(outs).reason == (if given.len() == 0 {
                None
            } else {
                Some(join(given, "\n\n"@))
            })
        }),
{
    let deny = |o: HookOutput|
        o.decision == Some(Decision::Deny) || o.decision == Some(Decision::Block);
    let ask = |o: HookOutput| o.decision == Some(Decision::Ask);
    lemma_top_rank(outs);
    lemma_reasons(outs, deny, 3);
    lemma_reasons(outs, ask, 2);
    let none = texts_given(Seq::<HookOutput>::empty(), |o: HookOutput| o.reason);
    reveal(Seq::filter);
    assert(none.len() == 0);
}

proof fn lemma_reasons(outs: Seq<HookOutput>, wins: spec_fn(HookOutput) -> bool, r: u8)
    requires
        forall|o: HookOutput| #[trigger] wins(o) == (rank_of(o.decision) == r),
    ensures
        reasons_at(outs, r) == texts_given(outs.filter(wins), |o: HookOutput| o.reason),
    decreases outs.len(),
{
    reveal(Seq::filter);
    let text = |o: HookOutput| o.reason;
    if outs.len() > 0 {
        lemma_reasons(outs.drop_last(), wins, r);
        let init = outs.drop_last().filter(wins);
        if wins(outs.last()) {
            assert(outs.filter(wins) =~= init.push(outs.last()));
            lemma_texts_push(init, outs.last(), text);
        }
    } else {
        assert(reasons_at(outs, r) =~= texts_given(outs.filter(wins), text));
    }
}

proof fn lemma_texts_push(
    outs: Seq<HookOutput>,
    next: HookOutput,
    text: spec_fn(HookOutput) -> Option<String>,
)
    ensures
        texts_given(outs.push(next), text) == push_text(texts_given(outs, text), text(next)),
{
    reveal(Seq::filter);
    assert(outs.push(next).drop_last() =~= outs);
    assert(texts_given(outs.push(next), text) =~= push_text(texts_given(outs, text), text(next)));
}

/// The additional contexts and the system messages are those of the answers,
/// in hook order, without empty ones.
pub proof fn law_contexts_and_messages_are_kept(outs: Seq<HookOutput>)
    ensures
        merged(outs).additional_context == texts_given(
            outs,
            |o: HookOutput| o.additional_context,
        ),
        merged(outs).system_messages == texts_given(outs, |o: HookOutput| o.system_message),
    decreases outs.len(),
{
    reveal(Seq::filter);
    let context = |o: HookOutput| o.additional_context;
    let message = |o: HookOutput| o.system_message;
    if outs.len() > 0 {
        law_contexts_and_messages_are_kept(outs.drop_last());
        assert(outs.drop_last().push(outs.last()) =~= outs);
        lemma_texts_push(outs.drop_last(), outs.last(), context);
        lemma_texts_push(outs.drop_last(), outs.last(), message);
    } else {
        assert(contexts(outs) =~= texts_given(outs, context));
        assert(messages(outs) =~= texts_given(outs, message));
    }
}

/// The turn halts exactly where some answer says not to continue, with the
/// stop reason of the first that does.
pub proof fn law_halts_where_an_answer_does_not_continue(outs: Seq<HookOutput>)
    ensures
        merged(outs).stop <==> exists|i: int|
            0 <= i < outs.len() && (#[trigger] outs[i]).continue_ == Some(false),
        !merged(outs).stop ==> merged(outs).stop_reason is None,
        forall|i: int|
            #![trigger outs[i]]
            0 <= i < outs.len() && outs[i].continue_ == Some(false) && (forall|k: int|
                0 <= k < i ==> (#[trigger] outs[k]).continue_ != Some(false))
                ==> merged(outs).stop_reason == opt_view(outs[i].stop_reason),
{
    lemma_halt(outs);
    lemma_no_halt(outs);
    if merged(outs).stop {
        let w = choose|w: int| 0 <= w < outs.len() && halts(#[trigger] outs[w]);
        assert(outs[w].continue_ == Some(false));
    }
    assert forall|i: int|
        #![trigger outs[i]]
        0 <= i < outs.len() && outs[i].continue_ == Some(false) && (forall|k: int|
            0 <= k < i ==> (#[trigger] outs[k]).continue_ != Some(false)) implies merged(
        outs,
    ).stop_reason == opt_view(outs[i].stop_reason) by {
        assert(halts(outs[i]));
        assert forall|k: int| 0 <= k < i implies !halts(#[trigger] outs[k]) by {}
        law_first_stop_reason_sticks(outs, i);
    }
}

proof fn lemma_no_halt(outs: Seq<HookOutput>)
    ensures
        !halt_of(outs).0 ==> halt_of(outs).1 is None,
    decreases outs.len(),
{
    if outs.len() > 0 {
        lemma_no_halt(outs.drop_first());
    }
}

/// The merged decision and the halt flag do not depend on the order of the
/// answers.
pub proof fn law_decision_ignores_order(a: Seq<HookOutput>, b: Seq<HookOutput>)
    requires
        a.to_multiset() == b.to_multiset(),
    ensures
        merged(a).decision == merged(b).decision,
        merged(a).stop == merged(b).stop,
{
    a.to_multiset_ensures();
    b.to_multiset_ensures();
    lemma_same_members(a, b);
    lemma_same_members(b, a);
    lemma_top_rank(a);
    lemma_top_rank(b);
    lemma_halt(a);
    lemma_halt(b);
    if top_rank(a) > 0 {
        let w = choose|w: int|
            0 <= w < a.len() && rank_of((#[trigger] a[w]).decision) == top_rank(a);
        assert(b.contains(a[w]));
    }
    if top_rank(b) > 0 {
        let w = choose|w: int|
            0 <= w < b.len() && rank_of((#[trigger] b[w]).decision) == top_rank(b);
        assert(a.contains(b[w]));
    }
    if halt_of(a).0 {
        let w = choose|w: int| 0 <= w < a.len() && halts(#[trigger] a[w]);
        assert(b.contains(a[w]));
    }
    if halt_of(b).0 {
        let w = choose|w: int| 0 <= w < b.len() && halts(#[trigger] b[w]);
        assert(a.contains(b[w]));
    }
}

proof fn lemma_same_members(a: Seq<HookOutput>, b: Seq<HookOutput>)
    requires
        a.to_multiset() == b.to_multiset(),
    ensures
        forall|i: int| 0 <= i < a.len() ==> b.contains(#[trigger] a[i]),
{
    a.to_multiset_ensures();
    b.to_multiset_ensures();
    assert forall|i: int| 0 <= i < a.len() implies b.contains(#[trigger] a[i]) by {
        assert(a.contains(a[i]));
        assert(a.to_multiset().count(a[i]) > 0);
        assert(b.to_multiset().count(a[i]) > 0);
    }
}

proof fn lemma_halt(outs: Seq<HookOutput>)
    ensures
        halt_of(outs).0 <==> exists|i: int| 0 <= i < outs.len() && halts(#[trigger] outs[i]),
    decreases outs.len(),
{
    if outs.len() > 0 {
        let rest = outs.drop_first();
        lemma_halt(rest);
        if halts(outs[0]) {
        } else if halt_of(rest).0 {
            let w = choose|w: int| 0 <= w < rest.len() && halts(#[trigger] rest[w]);
            assert(outs[w + 1] == rest[w]);
        } else {
            assert forall|i: int| 0 <= i < outs.len() implies !halts(#[trigger] outs[i]) by {
                if i > 0 {
                    assert(rest[i - 1] == outs[i]);
                }
            }
        }
    }
}

/// Halting is sticky: the stop reason is that of the first answer that halts,
/// whatever comes behind it.
pub proof fn law_first_stop_reason_sticks(outs: Seq<HookOutput>, i: int)
    requires
        0 <= i < outs.len(),
        halts(outs[i]),
        forall|k: int| 0 <= k < i ==> !halts(#[trigger] outs[k]),
    ensures
        merged(outs).stop,
        merged(outs).stop_reason == opt_view(outs[i].stop_reason),
    decreases i,
{
    if i > 0 {
        assert(!halts(outs[0]));
        let rest = outs.drop_first();
        assert forall|k: int| 0 <= k < i - 1 implies !halts(#[trigger] rest[k]) by {
            assert(rest[k] == outs[k + 1]);
        }
        law_first_stop_reason_sticks(rest, i - 1);
    }
}

/// Contexts and messages accumulate in hook order: those of two runs in a row
/// are those of the first followed by those of the second.
pub proof fn law_contexts_accumulate_in_order(a: Seq<HookOutput>, b: Seq<HookOutput>)
    ensures
        merged(a + b).additional_context == merged(a).additional_context + merged(
            b,
        ).additional_context,
        merged(a + b).system_messages == merged(a).system_messages + merged(b).system_messages,
    decreases b.len(),
{
    if b.len() == 0 {
        assert(a + b =~= a);
        assert(contexts(a) + contexts(b) =~= contexts(a));
        assert(messages(a) + messages(b) =~= messages(a));
    } else {
        law_contexts_accumulate_in_order(a, b.drop_last());
        assert((a + b).drop_last() =~= a + b.drop_last());
        assert((a + b).last() == b.last());
        assert(contexts(a + b) =~= contexts(a) + contexts(b));
        assert(messages(a + b) =~= messages(a) + messages(b));
    }
}

} // verus!
