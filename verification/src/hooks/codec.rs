//! What one hook process answered.

use crate::json::Json;
use vstd::prelude::*;

verus! {

/// The decision that a hook stated.
#[derive(Debug, Clone, Copy, PartialEq, Eq, Structural)]
pub enum Decision {
    Allow,
    Approve,
    Ask,
    Deny,
    Block,
}

impl Decision {
    /// The wire name of a decision.
    pub open spec fn name(self) -> Seq<char> {
        match self {
            Decision::Allow => "allow"@,
            Decision::Approve => "approve"@,
            Decision::Ask => "ask"@,
            Decision::Deny => "deny"@,
            Decision::Block => "block"@,
        }
    }

    /// The wire name of a decision.
    pub fn as_str(self) -> (r: &'static str)
        ensures
            r@ == self.name(),
    {
        match self {
            Decision::Allow => "allow",
            Decision::Approve => "approve",
            Decision::Ask => "ask",
            Decision::Deny => "deny",
            Decision::Block => "block",
        }
    }
}

/// The answer of one hook process.
#[derive(Debug, PartialEq, Eq)]
pub struct HookOutput {
    /// Exit code; `None` where the process did not exit by itself.
    pub exit_code: Option<i32>,
    pub stdout: String,
    pub stderr: String,
    /// `Some(false)` asks the turn to halt.
    pub continue_: Option<bool>,
    pub stop_reason: Option<String>,
    pub decision: Option<Decision>,
    pub reason: Option<String>,
    pub additional_context: Option<String>,
    pub system_message: Option<String>,
    pub updated_input: Option<Json>,
}

impl Default for HookOutput {
    fn default() -> (r: HookOutput)
        ensures
            r.exit_code is None,
            r.stdout@ == Seq::<char>::empty(),
            r.stderr@ == Seq::<char>::empty(),
            r.continue_ is None,
            r.stop_reason is None,
            r.decision is None,
            r.reason is None,
            r.additional_context is None,
            r.system_message is None,
            r.updated_input is None,
    {
        HookOutput {
            exit_code: None,
            stdout: String::new(),
            stderr: String::new(),
            continue_: None,
            stop_reason: None,
            decision: None,
            reason: None,
            additional_context: None,
            system_message: None,
            updated_input: None,
        }
    }
}

/// Decisions are known by their words.
pub proof fn law_decisions_are_known_by_their_words(d: Decision, r: &str)
    requires
        call_ensures(Decision::as_str, (d,), r),
    ensures
        d == Decision::Allow ==> r@ == "allow"@,
        d == Decision::Approve ==> r@ == "approve"@,
        d == Decision::Ask ==> r@ == "ask"@,
        d == Decision::Deny ==> r@ == "deny"@,
        d == Decision::Block ==> r@ == "block"@,
{
}

} // verus!
