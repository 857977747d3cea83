//! Texts that grow while they are shown: what a rich text view has to be told
//! so that it shows the present text.

use crate::table::Table;
use crate::text::{chars_of, owned, str_eq, string_of_range};
use vstd::prelude::*;
use vstd::string::*;

verus! {

/// What a view has to be told.
#[derive(Debug, PartialEq, Eq)]
pub enum StreamStep {
    /// There is no view yet: make one with the text.
    Create,
    /// This is appended.
    Append(String),
    /// The text takes the place of the old one.
    Replace,
    Nothing,
}

/// The texts that the views have, by their keys.
pub struct TvStreamRegistry {
    texts: Table<String>,
}

/// What a view shows after a step, from what it showed and the present text.
pub open spec fn shown(before: Seq<char>, step: StreamStep, text: Seq<char>) -> Seq<char> {
    match step {
        StreamStep::Create => text,
        StreamStep::Append(delta) => before + delta@,
        StreamStep::Replace => text,
        StreamStep::Nothing => before,
    }
}

/// Whether a text continues another one.
pub open spec fn continues(before: Seq<char>, text: Seq<char>) -> bool {
    text.len() > before.len() && text.take(before.len() as int) == before
}

/// The step from one text to another.
pub open spec fn step_fits(before: Option<Seq<char>>, text: Seq<char>, step: StreamStep) -> bool {
    match before {
        None => step is Create,
        Some(b) => if continues(b, text) {
            step matches StreamStep::Append(d) && d@ == text.skip(b.len() as int)
        } else if text != b {
            step is Replace
        } else {
            step is Nothing
        },
    }
}

impl TvStreamRegistry {
    /// The text of each view.
    pub closed spec fn texts_of(self) -> Map<Seq<char>, Seq<char>> {
        self.texts@.map_values(|s: String| s@)
    }

    pub closed spec fn wf(self) -> bool {
        self.texts.wf()
    }

    /// The text of a view, where there is one.
    pub open spec fn text_of(self, key: Seq<char>) -> Option<Seq<char>> {
        if self.texts_of().dom().contains(key) {
            Some(self.texts_of()[key])
        } else {
            None
        }
    }

    /// No view.
    pub fn new() -> (r: TvStreamRegistry)
        ensures
            r.wf(),
            r.texts_of() == Map::<Seq<char>, Seq<char>>::empty(),
    {
        let texts: Table<String> = Table::new();
        let r = TvStreamRegistry { texts };
        assert(r.texts_of() =~= Map::<Seq<char>, Seq<char>>::empty());
        r
    }

    /// Brings a view up to the present text.
    pub fn drive(&mut self, key: &str, text: &str) -> (step: StreamStep)
        requires
            old(self).wf(),
        ensures
            final(self).wf(),
            step_fits(old(self).text_of(key@), text@, step),
            final(self).texts_of() == old(self).texts_of().insert(key@, text@),
    {
        let step = match self.texts.get(key) {
            None => StreamStep::Create,
            Some(last) => {
                let a = chars_of(last.as_str());
                let b = chars_of(text);
                let n = a.len();
                if b.len() > n && prefix_is(&b, &a) {
                    let delta = string_of_range(b.as_slice(), n, b.len());
                    assert(delta@ =~= text@.skip(n as int));
                    StreamStep::Append(delta)
                } else if !str_eq(last.as_str(), text) {
                    StreamStep::Replace
                } else {
                    StreamStep::Nothing
                }
            },
        };
        self.texts.insert(key, owned(text));
        assert(self.texts_of() =~= old(self).texts_of().insert(key@, text@));
        step
    }

    /// Whether there is a view.
    pub fn has_view(&self, key: &str) -> (r: bool)
        requires
            self.wf(),
        ensures
            r == self.text_of(key@) is Some,
    {
        self.texts.contains_key(key)
    }

    /// Forgets every view.
    pub fn clear(&mut self)
        ensures
            final(self).wf(),
            final(self).texts_of() == Map::<Seq<char>, Seq<char>>::empty(),
    {
        self.texts = Table::new();
        assert(self.texts_of() =~= Map::<Seq<char>, Seq<char>>::empty());
    }
}

fn prefix_is(text: &Vec<char>, prefix: &Vec<char>) -> (r: bool)
    requires
        prefix@.len() <= text@.len(),
    ensures
        r == (text@.take(prefix@.len() as int) == prefix@),
{
    let mut i: usize = 0;
    while i < prefix.len()
        invariant
            i <= prefix@.len() <= text@.len(),
            forall|k: int| 0 <= k < i ==> text@[k] == prefix@[k],
        decreases prefix@.len() - i,
    {
        if text[i] != prefix[i] {
            assert(text@.take(prefix@.len() as int)[i as int] != prefix@[i as int]);
            return false;
        }
        i = i + 1;
    }
    assert(text@.take(prefix@.len() as int) =~= prefix@);
    true
}

/// After every step the view shows the present text.
pub proof fn law_view_shows_the_text(before: Option<Seq<char>>, text: Seq<char>, step: StreamStep)
    requires
        step_fits(before, text, step),
    ensures
        shown(
            match before {
                Some(b) => b,
                None => Seq::empty(),
            },
            step,
            text,
        ) == text,
{
    if let Some(b) = before {
        if continues(b, text) {
            assert(b + text.skip(b.len() as int) =~= text);
        }
    }
}

/// A text that has not changed costs nothing.
pub proof fn law_same_text_costs_nothing(text: Seq<char>, step: StreamStep)
    requires
        step_fits(Some(text), text, step),
    ensures
        step is Nothing,
{
}

/// A text that only grew is told by what was added to it; any other change
/// replaces the text, and a key that comes for the first time makes a view.
pub proof fn law_growth_is_appended(
    s: &mut TvStreamRegistry,
    key: &str,
    text: &str,
    before: Seq<char>,
    added: Seq<char>,
    step: StreamStep,
)
    requires
        call_ensures(TvStreamRegistry::drive, (s, key, text), step),
    ensures
        old(s).text_of(key@) is None <==> step is Create,
        old(s).text_of(key@) == Some(before) && text@ == before + added && added.len() > 0 ==> (
        step matches StreamStep::Append(d) && d@ == added),
        old(s).text_of(key@) == Some(before) && text@ == before ==> step is Nothing,
        step is Replace ==> !(text@.len() >= before.len() && text@.take(before.len() as int)
            == before) || old(s).text_of(key@) != Some(before),
        final(s).text_of(key@) == Some(text@),
{
    assert((before + added).take(before.len() as int) =~= before);
    assert((before + added).skip(before.len() as int) =~= added);
    if text@.len() == before.len() && text@.take(before.len() as int) == before {
        assert(text@ =~= before);
    }
}

/// A view is there from its first text until all are forgotten; the others stay
/// as they are.
pub proof fn law_views_stay_until_they_are_forgotten(
    s: &mut TvStreamRegistry,
    t: &mut TvStreamRegistry,
    u: &TvStreamRegistry,
    key: &str,
    text: &str,
    other: Seq<char>,
    step: StreamStep,
    has: bool,
)
    requires
        call_ensures(TvStreamRegistry::drive, (s, key, text), step),
        call_ensures(TvStreamRegistry::clear, (t,), ()),
        call_ensures(TvStreamRegistry::has_view, (u, key), has),
        other != key@,
    ensures
        final(s).text_of(other) == old(s).text_of(other),
        final(t).text_of(other) is None,
        has <==> u.text_of(key@) is Some,
{
}

} // verus!
