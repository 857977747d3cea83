//! What is done with what the host sends, and with what the user enters.

use crate::scan::{trim, trimmed};
use vstd::prelude::*;
use vstd::string::*;

verus! {

/// What came from the stream of frames.
#[derive(Debug, Clone, Copy, PartialEq, Eq, Structural)]
pub enum Received {
    Frame,
    /// Frames were lost because they came too fast.
    Lagged,
    /// The stream has ended.
    Closed,
}

/// What is done next.
#[derive(Debug, Clone, Copy, PartialEq, Eq, Structural)]
pub enum PumpStep {
    /// The frame goes to the window.
    Forward,
    /// What is pending goes to the window, in place of what was lost.
    Resync,
    Stop,
}

/// What is done with what came. A loss does not end the stream: what is pending
/// is sent anew.
pub fn pump_step(received: Received) -> (r: PumpStep)
    ensures
        r == (match received {
            Received::Frame => PumpStep::Forward,
            Received::Lagged => PumpStep::Resync,
            Received::Closed => PumpStep::Stop,
        }),
{
    match received {
        Received::Frame => PumpStep::Forward,
        Received::Lagged => PumpStep::Resync,
        Received::Closed => PumpStep::Stop,
    }
}

/// Whether the stream is read on after a step: not where it has ended, nor
/// where the window did not take the frame.
pub fn pumps_on(step: PumpStep, taken: bool) -> (r: bool)
    ensures
        r == (step == PumpStep::Resync || (step == PumpStep::Forward && taken)),
{
    match step {
        PumpStep::Forward => taken,
        PumpStep::Resync => true,
        PumpStep::Stop => false,
    }
}

/// What the Enter key does in the field for messages.
#[derive(Debug, PartialEq, Eq)]
pub enum Entered {
    /// The marked completion is taken.
    Complete,
    /// A message is sent, and the field is cleared.
    Send(String),
    Nothing,
}

/// The text that is sent.
pub open spec fn sent_text(e: Entered) -> Option<Seq<char>> {
    match e {
        Entered::Send(t) => Some(t@),
        _ => None,
    }
}

/// What the Enter key does: while completions are shown it takes the marked
/// one; else the text is sent without the white space around it, if anything
/// is left of it.
pub fn enter_pressed(completing: bool, raw: &str) -> (r: Entered)
    ensures
        r is Complete <==> completing,
        sent_text(r) == (if completing || trim(raw@).len() == 0 {
            None
        } else {
            Some(trim(raw@))
        }),
{
    if completing {
        return Entered::Complete;
    }
    let text = trimmed(raw);
    if text.as_str().is_empty() {
        Entered::Nothing
    } else {
        Entered::Send(text)
    }
}

/// A frame goes to the window, a loss is made up for, and the end of the
/// stream stops the reading.
pub proof fn law_frames_are_pumped(received: Received, r: PumpStep)
    requires
        call_ensures(pump_step, (received,), r),
    ensures
        received == Received::Frame <==> r == PumpStep::Forward,
        received == Received::Lagged <==> r == PumpStep::Resync,
        received == Received::Closed <==> r == PumpStep::Stop,
{
}

/// The stream is read on unless it has ended or the window is gone; a loss
/// alone never ends the reading.
pub proof fn law_pump_stops_at_the_end(step: PumpStep, taken: bool, r: bool)
    requires
        call_ensures(pumps_on, (step, taken), r),
    ensures
        step == PumpStep::Stop ==> !r,
        step == PumpStep::Resync ==> r,
        step == PumpStep::Forward ==> r == taken,
{
}

/// Enter takes the completion that is shown. Else it sends a text that has
/// more than white space in it, without the white space around it.
pub proof fn law_enter_sends_what_was_written(
    completing: bool,
    before: Seq<char>,
    text: Seq<char>,
    after: Seq<char>,
    raw: &str,
    r: Entered,
)
    requires
        call_ensures(enter_pressed, (completing, raw), r),
        raw@ == before + text + after,
        forall|i: int| 0 <= i < before.len() ==> crate::text::is_white(#[trigger] before[i]),
        forall|i: int| 0 <= i < after.len() ==> crate::text::is_white(#[trigger] after[i]),
        text.len() > 0 ==> !crate::text::is_white(text[0]) && !crate::text::is_white(text.last()),
    ensures
        completing ==> r is Complete,
        !completing && text.len() == 0 ==> r is Nothing,
        !completing && text.len() > 0 ==> (r matches Entered::Send(t) && t@ == text),
{
    crate::scan::law_trim_takes_white_space_off_the_ends(raw@);
    let s = raw@;
    let (a, b) = choose|a: int, b: int|
        0 <= a <= b <= s.len() && trim(s) == #[trigger] s.subrange(a, b) && (forall|i: int|
            0 <= i < a || b <= i < s.len() ==> crate::text::is_white(#[trigger] s[i]));
    let m = before.len() as int;
    let n = m + text.len();
    assert forall|i: int| 0 <= i < m || n <= i < s.len() implies crate::text::is_white(
        #[trigger] s[i],
    ) by {
        if i < m {
            assert(s[i] == before[i]);
        } else {
            assert(s[i] == after[i - n]);
        }
    }
    if text.len() > 0 {
        assert(s[m] == text[0]);
        assert(s[n - 1] == text.last());
        assert(a <= m && n <= b);
        assert(trim(s).len() == b - a);
        assert(trim(s)[0] == s[a]);
        assert(trim(s).last() == s[b - 1]);
        assert(a == m && b == n);
        assert(s.subrange(m, n) =~= text);
    } else if trim(s).len() > 0 {
        assert(trim(s)[0] == s[a]);
        assert(crate::text::is_white(s[a]));
    }
}

} // verus!
