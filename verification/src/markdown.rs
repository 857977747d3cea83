//! Markdown as a flat list of blocks.
//!
//! Headings, paragraphs, code blocks, list items, quotes and rules become one
//! block each; inline markup is reduced to text. A code block also says
//! whether its fence is closed, which a stream of parser events does not tell.

use crate::cache::{share, MemoCache};
use crate::decimal::{dec, u64_text};
use crate::scan::{
    blank, is_blank, lemma_trim_blank, lines, lines_of, trim, trim_start, trimmed_start,
};
use crate::text::{
    ascii_white, byte_len, cat2, chars_of, is_ascii_white, is_white, lemma_byte_len_concat, lemma_len_le_bytes,
    len_bytes, opt_view, owned, owned_opt, string_of_range, views, white,
};
use pulldown_cmark::{CodeBlockKind, Event, Options, Parser, Tag, TagEnd};
use std::collections::hash_map::DefaultHasher;
use std::hash::{Hash, Hasher};
use std::sync::Arc;
use vstd::prelude::*;
use vstd::string::*;

verus! {

/// A block of a document.
#[derive(Debug, PartialEq, Eq)]
pub enum Block {
    /// Level and text.
    Heading(u8, String),
    Paragraph(String),
    /// Code, language, and whether its fence is closed.
    Code(String, Option<String>, bool),
    /// Number in an ordered list, and text.
    Item(Option<u64>, String),
    Quote(String),
    Rule,
}

/// A block of a document, by value.
#[verifier::ext_equal]
pub enum BlockValue {
    Heading(u8, Seq<char>),
    Paragraph(Seq<char>),
    Code(Seq<char>, Option<Seq<char>>, bool),
    Item(Option<u64>, Seq<char>),
    Quote(Seq<char>),
    Rule,
}

impl View for Block {
    type V = BlockValue;

    open spec fn view(&self) -> BlockValue {
        match *self {
            Block::Heading(n, s) => BlockValue::Heading(n, s@),
            Block::Paragraph(s) => BlockValue::Paragraph(s@),
            Block::Code(c, l, closed) => BlockValue::Code(c@, opt_view(l), closed),
            Block::Item(n, s) => BlockValue::Item(n, s@),
            Block::Quote(s) => BlockValue::Quote(s@),
            Block::Rule => BlockValue::Rule,
        }
    }
}

pub open spec fn block_values(v: Seq<Block>) -> Seq<BlockValue> {
    v.map_values(|b: Block| b@)
}

impl Clone for Block {
    fn clone(&self) -> (r: Block)
        ensures
            r@ == self@,
    {
        match self {
            Block::Heading(n, s) => Block::Heading(*n, s.clone()),
            Block::Paragraph(s) => Block::Paragraph(s.clone()),
            Block::Code(c, l, closed) => Block::Code(c.clone(), owned_opt(l), *closed),
            Block::Item(n, s) => Block::Item(*n, s.clone()),
            Block::Quote(s) => Block::Quote(s.clone()),
            Block::Rule => Block::Rule,
        }
    }
}

// ---------------------------------------------------------------------------
// Parser events
// ---------------------------------------------------------------------------
/// The element that an event opens.
#[derive(Debug, Clone, PartialEq, Eq)]
pub enum MdStart {
    Heading(u8),
    Paragraph,
    /// A fenced code block: what stands behind its fence, and its source.
    Fenced(String, String),
    Indented,
    /// A list, with its first number where it is ordered.
    List(Option<u64>),
    Item,
    Quote,
    /// Any other element, or no opening event.
    Other,
}

/// What an event that opens nothing says.
#[derive(Debug, Clone, PartialEq, Eq)]
pub enum MdEvent {
    Text(String),
    Code(String),
    SoftBreak,
    HardBreak,
    Rule,
    HeadingEnd,
    ParagraphEnd,
    ItemEnd,
    QuoteEnd,
    ListEnd,
    CodeEnd,
    /// Anything else.
    Other,
}

/// The element that an event opens, by value.
#[verifier::ext_equal]
pub enum StartValue {
    Heading(u8),
    Paragraph,
    Fenced(Seq<char>, Seq<char>),
    Indented,
    List(Option<u64>),
    Item,
    Quote,
    Other,
}

/// What an event that opens nothing says, by value.
#[verifier::ext_equal]
pub enum EventValue {
    Text(Seq<char>),
    Code(Seq<char>),
    SoftBreak,
    HardBreak,
    Rule,
    HeadingEnd,
    ParagraphEnd,
    ItemEnd,
    QuoteEnd,
    ListEnd,
    CodeEnd,
    Other,
}

impl View for MdStart {
    type V = StartValue;

    open spec fn view(&self) -> StartValue {
        match *self {
            MdStart::Heading(n) => StartValue::Heading(n),
            MdStart::Paragraph => StartValue::Paragraph,
            MdStart::Fenced(a, b) => StartValue::Fenced(a@, b@),
            MdStart::Indented => StartValue::Indented,
            MdStart::List(n) => StartValue::List(n),
            MdStart::Item => StartValue::Item,
            MdStart::Quote => StartValue::Quote,
            MdStart::Other => StartValue::Other,
        }
    }
}

impl View for MdEvent {
    type V = EventValue;

    open spec fn view(&self) -> EventValue {
        match *self {
            MdEvent::Text(s) => EventValue::Text(s@),
            MdEvent::Code(s) => EventValue::Code(s@),
            MdEvent::SoftBreak => EventValue::SoftBreak,
            MdEvent::HardBreak => EventValue::HardBreak,
            MdEvent::Rule => EventValue::Rule,
            MdEvent::HeadingEnd => EventValue::HeadingEnd,
            MdEvent::ParagraphEnd => EventValue::ParagraphEnd,
            MdEvent::ItemEnd => EventValue::ItemEnd,
            MdEvent::QuoteEnd => EventValue::QuoteEnd,
            MdEvent::ListEnd => EventValue::ListEnd,
            MdEvent::CodeEnd => EventValue::CodeEnd,
            MdEvent::Other => EventValue::Other,
        }
    }
}

pub open spec fn start_values(v: Seq<MdStart>) -> Seq<StartValue> {
    v.map_values(|e: MdStart| e@)
}

pub open spec fn event_values(v: Seq<MdEvent>) -> Seq<EventValue> {
    v.map_values(|e: MdEvent| e@)
}

/// The elements that the events of a text open, event by event.
pub uninterp spec fn markdown_starts(text: Seq<char>) -> Seq<StartValue>;

/// What the events of a text say that open nothing, event by event.
pub uninterp spec fn markdown_events(text: Seq<char>) -> Seq<EventValue>;

/// `pulldown_cmark`'s offset iterator over a text, with tables enabled: for
/// each event the element that it opens.
#[verifier::external_body]
fn read_starts(text: &str) -> (r: Vec<MdStart>)
    ensures
        start_values(r@) == markdown_starts(text@),
{
    let events = Parser::new_ext(text, Options::ENABLE_TABLES).into_offset_iter();
    events.map(|(e, range)| match e {
        Event::Start(Tag::Heading { level, .. }) => MdStart::Heading(level as u8),
        Event::Start(Tag::Paragraph) => MdStart::Paragraph,
        Event::Start(Tag::CodeBlock(CodeBlockKind::Fenced(info))) => {
            MdStart::Fenced(info.to_string(), text[range].to_string())
        }
        Event::Start(Tag::CodeBlock(CodeBlockKind::Indented)) => MdStart::Indented,
        Event::Start(Tag::List(first)) => MdStart::List(first),
        Event::Start(Tag::Item) => MdStart::Item,
        Event::Start(Tag::BlockQuote(_)) => MdStart::Quote,
        _ => MdStart::Other,
    }).collect()
}

/// `pulldown_cmark`'s iterator over a text, with tables enabled: for each
/// event what it says where it opens nothing. It has as many events as the
/// offset iterator, which walks the same parser.
#[verifier::external_body]
fn read_events(text: &str) -> (r: Vec<MdEvent>)
    ensures
        event_values(r@) == markdown_events(text@),
        r@.len() == markdown_starts(text@).len(),
{
    let events = Parser::new_ext(text, Options::ENABLE_TABLES);
    events.map(|e| match e {
        Event::Text(t) => MdEvent::Text(t.to_string()),
        Event::Code(t) => MdEvent::Code(t.to_string()),
        Event::SoftBreak => MdEvent::SoftBreak,
        Event::HardBreak => MdEvent::HardBreak,
        Event::Rule => MdEvent::Rule,
        Event::End(TagEnd::Heading(_)) => MdEvent::HeadingEnd,
        Event::End(TagEnd::Paragraph) => MdEvent::ParagraphEnd,
        Event::End(TagEnd::Item) => MdEvent::ItemEnd,
        Event::End(TagEnd::BlockQuote(_)) => MdEvent::QuoteEnd,
        Event::End(TagEnd::List(_)) => MdEvent::ListEnd,
        Event::End(TagEnd::CodeBlock) => MdEvent::CodeEnd,
        _ => MdEvent::Other,
    }).collect()
}

// ---------------------------------------------------------------------------
// Fences
// ---------------------------------------------------------------------------
/// The number of characters `c` that a text starts with.
pub open spec fn run_len(s: Seq<char>, c: char) -> nat
    decreases s.len(),
{
    if s.len() > 0 && s[0] == c {
        1 + run_len(s.drop_first(), c)
    } else {
        0
    }
}

/// The last line that is not blank.
pub open spec fn last_text_line(ls: Seq<Seq<char>>) -> Option<Seq<char>>
    decreases ls.len(),
{
    if ls.len() == 0 {
        None
    } else if !blank(ls.last()) {
        Some(ls.last())
    } else {
        last_text_line(ls.drop_last())
    }
}

/// Whether a text is ASCII white space only.
pub open spec fn ascii_blank(s: Seq<char>) -> bool {
    forall|i: int| 0 <= i < s.len() ==> is_ascii_white(#[trigger] s[i])
}

/// Whether a line closes a fence that `opening` opened: at most three bytes
/// of indent, the same sign at least as often, and nothing else.
pub open spec fn closes(line: Seq<char>, opening: Seq<char>) -> bool {
    let t = trim_start(line);
    let c = t[0];
    &&& byte_len(line) - byte_len(t) <= 3
    &&& byte_len(t) >= 2
    &&& c == '`' || c == '~'
    &&& ascii_blank(t.skip(run_len(t, c) as int))
    &&& 0 < run_len(trim_start(opening), c) <= run_len(t, c)
}

/// Whether the fence of a code block with the given source is closed: behind
/// the first line, which opens it, there is a line that is not blank, and the
/// last such line closes the fence.
pub open spec fn is_fence_closed(source: Seq<char>) -> bool {
    let ls = lines(source);
    ls.len() > 0 && match last_text_line(ls.drop_first()) {
        Some(line) => closes(line, ls[0]),
        None => false,
    }
}

fn count_run(s: &str, c: char) -> (n: usize)
    ensures
        n == run_len(s@, c),
        n <= s@.len(),
{
    let cs = chars_of(s);
    let mut n: usize = 0;
    assert(cs@.skip(0) =~= cs@);
    while n < cs.len() && cs[n] == c
        invariant
            cs@ == s@,
            n <= cs@.len(),
            run_len(s@, c) == n + run_len(cs@.skip(n as int), c),
        decreases cs@.len() - n,
    {
        assert(cs@.skip(n as int).drop_first() =~= cs@.skip(n + 1));
        n = n + 1;
    }
    n
}

fn all_ascii_white(cs: &[char], from: usize) -> (r: bool)
    requires
        from <= cs@.len(),
    ensures
        r == ascii_blank(cs@.skip(from as int)),
{
    let ghost d = cs@.skip(from as int);
    let mut i: usize = from;
    while i < cs.len()
        invariant
            d == cs@.skip(from as int),
            from <= i <= cs@.len(),
            forall|k: int| 0 <= k < i - from ==> is_ascii_white(#[trigger] d[k]),
        decreases cs@.len() - i,
    {
        if !ascii_white(cs[i]) {
            assert(!is_ascii_white(d[i - from]));
            return false;
        }
        i = i + 1;
    }
    true
}

/// Whether the fence of a code block with the given source is closed.
pub fn fence_closed(source: &str) -> (r: bool)
    ensures
        r == is_fence_closed(source@),
{
    let ls = lines_of(source);
    let ghost v = views(ls@);
    if ls.len() == 0 {
        return false;
    }
    let mut k: usize = ls.len();
    let ghost body = v.drop_first();
    assert(body.take(k - 1) =~= body);
    while k > 1 && is_blank(ls[k - 1].as_str())
        invariant
            v == views(ls@),
            v == lines(source@),
            body == v.drop_first(),
            1 <= k <= ls@.len(),
            last_text_line(body) == last_text_line(body.take(k - 1)),
        decreases k,
    {
        assert(body.take(k - 1).drop_last() =~= body.take(k - 2));
        assert(body.take(k - 1).last() == ls@[k - 1]@);
        k = k - 1;
    }
    if k == 1 {
        assert(body.take(0).len() == 0);
        return false;
    }
    assert(body.take(k - 1).last() == ls@[k - 1]@);
    let line = ls[k - 1].as_str();
    assert(last_text_line(body) == Some(line@));
    let t = trimmed_start(line);
    let cs = chars_of(t.as_str());
    let whole: usize = len_bytes(line);
    let rest: usize = len_bytes(t.as_str());
    proof {
        lemma_trim_start_bytes(line@);
        if cs@.len() == 0 {
            lemma_trim_blank(line@);
        }
    }
    if cs.len() == 0 {
        return false;
    }
    if whole - rest > 3 || rest < 2 {
        return false;
    }
    let c = cs[0];
    if c != '`' && c != '~' {
        return false;
    }
    let fence = count_run(t.as_str(), c);
    if !all_ascii_white(cs.as_slice(), fence) {
        return false;
    }
    let opening = trimmed_start(ls[0].as_str());
    assert(v[0] == ls@[0]@);
    let open = count_run(opening.as_str(), c);
    open > 0 && fence >= open
}

proof fn lemma_trim_start_bytes(s: Seq<char>)
    ensures
        byte_len(trim_start(s)) <= byte_len(s),
        trim_start(s).len() == 0 ==> trim(s).len() == 0,
    decreases s.len(),
{
    if s.len() > 0 && is_white(s[0]) {
        lemma_trim_start_bytes(s.drop_first());
        assert(s =~= seq![s[0]] + s.drop_first());
        lemma_byte_len_concat(seq![s[0]], s.drop_first());
    }
}

// ---------------------------------------------------------------------------
// Folding events into blocks
// ---------------------------------------------------------------------------
/// End of the word that starts at `i`.
pub open spec fn word_to(s: Seq<char>, i: int) -> int
    decreases s.len() - i,
{
    if 0 <= i < s.len() && !is_white(s[i]) {
        word_to(s, i + 1)
    } else {
        i
    }
}

/// The first word of a text.
pub open spec fn first_word_of(s: Seq<char>) -> Option<Seq<char>> {
    let t = trim_start(s);
    if t.len() == 0 {
        None
    } else {
        Some(t.take(word_to(t, 0)))
    }
}

/// The first word of a text.
pub fn first_word(s: &str) -> (r: Option<String>)
    ensures
        opt_view(r) == first_word_of(s@),
{
    let t = trimmed_start(s);
    let cs = chars_of(t.as_str());
    if cs.len() == 0 {
        return None;
    }
    let mut k: usize = 0;
    while k < cs.len() && !white(cs[k])
        invariant
            k <= cs@.len(),
            word_to(cs@, k as int) == word_to(cs@, 0),
        decreases cs@.len() - k,
    {
        k = k + 1;
    }
    assert(cs@.subrange(0, k as int) =~= cs@.take(k as int));
    Some(string_of_range(cs.as_slice(), 0, k))
}

/// A code block whose lines are being collected: code, language, closed.
pub type OpenCode = (Seq<char>, Option<Seq<char>>, bool);

/// What has been made of the events so far.
#[verifier::ext_equal]
pub struct Fold {
    pub blocks: Seq<BlockValue>,
    /// Text for the block that is open.
    pub buf: Seq<char>,
    /// The block that is open, without its text.
    pub pending: Option<BlockValue>,
    /// The next number of each open list.
    pub lists: Seq<Option<u64>>,
    pub code: Option<OpenCode>,
}

/// Nothing read yet.
pub open spec fn fold_start() -> Fold {
    Fold {
        blocks: Seq::empty(),
        buf: Seq::empty(),
        pending: None,
        lists: Seq::empty(),
        code: None,
    }
}

/// A block with its text.
pub open spec fn with_text(b: BlockValue, s: Seq<char>) -> BlockValue {
    match b {
        BlockValue::Heading(n, t) => BlockValue::Heading(n, s),
        BlockValue::Paragraph(t) => BlockValue::Paragraph(s),
        BlockValue::Item(n, t) => BlockValue::Item(n, s),
        BlockValue::Quote(t) => BlockValue::Quote(s),
        _ => b,
    }
}

/// Closes the open block.
pub open spec fn flushed(f: Fold) -> Fold {
    Fold {
        blocks: match f.pending {
            Some(b) => f.blocks.push(with_text(b, f.buf)),
            None => f.blocks,
        },
        buf: Seq::empty(),
        pending: None,
        ..f
    }
}

/// The number behind an item number.
pub open spec fn number_after(n: u64) -> u64 {
    if n == u64::MAX {
        0
    } else {
        (n + 1) as u64
    }
}

/// Opens an element.
pub open spec fn opened(f: Fold, e: StartValue) -> Fold {
    match e {
        StartValue::Heading(n) => Fold {
            pending: Some(BlockValue::Heading(n, Seq::empty())),
            ..flushed(f)
        },
        StartValue::Paragraph => Fold {
            pending: Some(BlockValue::Paragraph(Seq::empty())),
            ..flushed(f)
        },
        StartValue::Fenced(info, source) => Fold {
            code: Some((Seq::empty(), first_word_of(info), is_fence_closed(source))),
            ..flushed(f)
        },
        StartValue::Indented => Fold { code: Some((Seq::empty(), None, false)), ..flushed(f) },
        StartValue::List(n) => Fold { lists: f.lists.push(n), ..flushed(f) },
        StartValue::Item => {
            let number = if f.lists.len() > 0 {
                f.lists.last()
            } else {
                None
            };
            Fold {
                lists: match number {
                    Some(n) => f.lists.drop_last().push(Some(number_after(n))),
                    None => f.lists,
                },
                pending: Some(BlockValue::Item(number, Seq::empty())),
                ..flushed(f)
            }
        },
        StartValue::Quote => Fold {
            pending: Some(BlockValue::Quote(Seq::empty())),
            ..flushed(f)
        },
        StartValue::Other => f,
    }
}

/// One event outside a code block.
pub open spec fn said(f: Fold, e: EventValue) -> Fold {
    match e {
        EventValue::Text(t) => Fold { buf: f.buf + t, ..f },
        EventValue::Code(t) => Fold { buf: f.buf + t, ..f },
        EventValue::SoftBreak | EventValue::HardBreak => Fold { buf: f.buf.push(' '), ..f },
        EventValue::Rule => Fold {
            blocks: flushed(f).blocks.push(BlockValue::Rule),
            ..flushed(f)
        },
        EventValue::HeadingEnd | EventValue::ParagraphEnd | EventValue::ItemEnd
        | EventValue::QuoteEnd => flushed(f),
        EventValue::ListEnd => Fold {
            lists: if f.lists.len() > 0 {
                f.lists.drop_last()
            } else {
                f.lists
            },
            ..f
        },
        EventValue::CodeEnd => f,
        EventValue::Other => f,
    }
}

/// Ends the code block that is collected.
pub open spec fn code_closed(f: Fold) -> Fold {
    match f.code {
        Some(c) => Fold {
            blocks: f.blocks.push(BlockValue::Code(c.0, c.1, c.2)),
            code: None,
            ..f
        },
        None => f,
    }
}

/// One event. Inside a code block only its text and its end count.
pub open spec fn stepped(f: Fold, start: StartValue, e: EventValue) -> Fold {
    match f.code {
        Some(c) => match e {
            EventValue::Text(t) => Fold { code: Some((c.0 + t, c.1, c.2)), ..f },
            EventValue::CodeEnd => code_closed(f),
            _ => f,
        },
        None => if start == StartValue::Other {
            said(f, e)
        } else {
            opened(f, start)
        },
    }
}

/// The first `n` events.
pub open spec fn folded(starts: Seq<StartValue>, events: Seq<EventValue>, n: int) -> Fold
    decreases n,
{
    if n <= 0 {
        fold_start()
    } else {
        stepped(folded(starts, events, n - 1), starts[n - 1], events[n - 1])
    }
}

/// The blocks that a stream of events stands for.
pub open spec fn blocks_of(starts: Seq<StartValue>, events: Seq<EventValue>) -> Seq<BlockValue> {
    flushed(code_closed(folded(starts, events, starts.len() as int))).blocks
}

/// What has been made of the events so far, as it is built.
struct Builder {
    blocks: Vec<Block>,
    buf: String,
    pending: Option<Block>,
    lists: Vec<Option<u64>>,
    code: Option<(String, Option<String>, bool)>,
}

impl Builder {
    spec fn value(self) -> Fold {
        Fold {
            blocks: block_values(self.blocks@),
            buf: self.buf@,
            pending: match self.pending {
                Some(b) => Some(b@),
                None => None,
            },
            lists: self.lists@,
            code: match self.code {
                Some(c) => Some((c.0@, opt_view(c.1), c.2)),
                None => None,
            },
        }
    }

    fn push(&mut self, b: Block)
        ensures
            final(self).value() == (Fold {
                blocks: old(self).value().blocks.push(b@),
                ..old(self).value()
            }),
    {
        let ghost before = self.blocks@;
        self.blocks.push(b);
        assert(block_values(self.blocks@) =~= block_values(before).push(b@));
    }

    fn flush(&mut self)
        ensures
            final(self).value() == flushed(old(self).value()),
    {
        let mut buf = String::new();
        core::mem::swap(&mut buf, &mut self.buf);
        let pending = self.pending.take();
        match pending {
            Some(b) => {
                let full = match b {
                    Block::Heading(n, _) => Block::Heading(n, buf),
                    Block::Paragraph(_) => Block::Paragraph(buf),
                    Block::Item(n, _) => Block::Item(n, buf),
                    Block::Quote(_) => Block::Quote(buf),
                    other => other,
                };
                self.push(full);
            },
            None => {},
        }
    }

    fn open(&mut self, e: &MdStart)
        ensures
            final(self).value() == opened(old(self).value(), e@),
    {
        match e {
            MdStart::Heading(n) => {
                self.flush();
                self.pending = Some(Block::Heading(*n, String::new()));
            },
            MdStart::Paragraph => {
                self.flush();
                self.pending = Some(Block::Paragraph(String::new()));
            },
            MdStart::Fenced(info, source) => {
                self.flush();
                let lang = first_word(info.as_str());
                let closed = fence_closed(source.as_str());
                self.code = Some((String::new(), lang, closed));
            },
            MdStart::Indented => {
                self.flush();
                self.code = Some((String::new(), None, false));
            },
            MdStart::List(n) => {
                self.flush();
                self.lists.push(*n);
            },
            MdStart::Item => {
                self.flush();
                let depth: usize = self.lists.len();
                let number = if depth > 0 {
                    self.lists[depth - 1]
                } else {
                    None
                };
                match number {
                    Some(n) => {
                        let next: u64 = n.wrapping_add(1);
                        let ghost before = self.lists@;
                        self.lists.set(depth - 1, Some(next));
                        assert(self.lists@ =~= before.drop_last().push(Some(next)));
                    },
                    None => {},
                }
                self.pending = Some(Block::Item(number, String::new()));
            },
            MdStart::Quote => {
                self.flush();
                self.pending = Some(Block::Quote(String::new()));
            },
            MdStart::Other => {},
        }
    }

    fn say(&mut self, e: &MdEvent)
        ensures
            final(self).value() == said(old(self).value(), e@),
    {
        match e {
            MdEvent::Text(t) => {
                self.buf.append(t.as_str());
            },
            MdEvent::Code(t) => {
                self.buf.append(t.as_str());
            },
            MdEvent::SoftBreak | MdEvent::HardBreak => {
                self.buf.push(' ');
            },
            MdEvent::Rule => {
                self.flush();
                self.push(Block::Rule);
            },
            MdEvent::HeadingEnd | MdEvent::ParagraphEnd | MdEvent::ItemEnd | MdEvent::QuoteEnd => {
                self.flush();
            },
            MdEvent::ListEnd => {
                let ghost before = self.lists@;
                let _ = self.lists.pop();
                proof {
                    if before.len() > 0 {
                        assert(self.lists@ =~= before.drop_last());
                    }
                }
            },
            MdEvent::CodeEnd => {},
            MdEvent::Other => {},
        }
    }

    fn close_code(&mut self)
        ensures
            final(self).value() == code_closed(old(self).value()),
    {
        let code = self.code.take();
        match code {
            Some(c) => {
                self.push(Block::Code(c.0, c.1, c.2));
            },
            None => {},
        }
    }

    fn step(&mut self, start: &MdStart, e: &MdEvent)
        ensures
            final(self).value() == stepped(old(self).value(), start@, e@),
    {
        if self.code.is_some() {
            match e {
                MdEvent::Text(t) => {
                    let code = self.code.take();
                    let (mut c, lang, closed) = code.unwrap();
                    c.append(t.as_str());
                    self.code = Some((c, lang, closed));
                },
                MdEvent::CodeEnd => {
                    self.close_code();
                },
                _ => {},
            }
        } else {
            match start {
                MdStart::Other => {
                    self.say(e);
                },
                _ => {
                    self.open(start);
                },
            }
        }
    }
}

/// Folds the events of a text into blocks.
pub fn blocks_from_events(starts: &[MdStart], events: &[MdEvent]) -> (r: Vec<Block>)
    requires
        starts@.len() == events@.len(),
    ensures
        block_values(r@) == blocks_of(start_values(starts@), event_values(events@)),
{
    let ghost sv = start_values(starts@);
    let ghost ev = event_values(events@);
    let mut b = Builder {
        blocks: Vec::new(),
        buf: String::new(),
        pending: None,
        lists: Vec::new(),
        code: None,
    };
    assert(b.value().blocks =~= Seq::<BlockValue>::empty());
    assert(b.value() == fold_start());
    let mut i: usize = 0;
    while i < starts.len()
        invariant
            sv == start_values(starts@),
            ev == event_values(events@),
            starts@.len() == events@.len(),
            i <= starts@.len(),
            b.value() == folded(sv, ev, i as int),
        decreases starts@.len() - i,
    {
        b.step(&starts[i], &events[i]);
        assert(sv[i as int] == starts@[i as int]@);
        assert(ev[i as int] == events@[i as int]@);
        i = i + 1;
    }
    b.close_code();
    b.flush();
    b.blocks
}

/// The blocks of a text.
pub open spec fn parsed_blocks(text: Seq<char>) -> Seq<BlockValue> {
    blocks_of(markdown_starts(text), markdown_events(text))
}

/// Parses a text into blocks.
pub fn parse(text: &str) -> (r: Vec<Block>)
    ensures
        block_values(r@) == parsed_blocks(text@),
{
    let starts = read_starts(text);
    let events = read_events(text);
    assert(start_values(starts@).len() == starts@.len());
    blocks_from_events(starts.as_slice(), events.as_slice())
}

// ---------------------------------------------------------------------------
// Cached parsing
// ---------------------------------------------------------------------------
/// Entries that a parse cache holds before it is cleared.
pub const CACHE_CAP: usize = 256;

/// Bytes from which on a text is worth caching.
pub const CACHE_MIN_BYTES: usize = 512;

/// The content hash of a text.
pub uninterp spec fn text_hash(s: Seq<char>) -> u64;

/// A text through a `DefaultHasher` from `new`: every such hasher is the
/// same, so the hash is a function of the text.
#[verifier::external_body]
pub(crate) fn hash_of(s: &str) -> (r: u64)
    ensures
        r == text_hash(s@),
{
    let mut hasher = DefaultHasher::new();
    s.hash(&mut hasher);
    hasher.finish()
}

/// An empty parse cache.
pub fn new_parse_cache() -> (r: MemoCache<Vec<Block>>)
    ensures
        r.wf(),
        r@ == Map::<Seq<char>, (u64, Vec<Block>)>::empty(),
        r.cap == CACHE_CAP,
        r.min_len == CACHE_MIN_BYTES,
{
    MemoCache::new(CACHE_CAP, CACHE_MIN_BYTES)
}

/// What a parse through a cache returns, and the cache behind it.
pub open spec fn cached_parse(
    before: MemoCache<Vec<Block>>,
    after: MemoCache<Vec<Block>>,
    key: Seq<char>,
    hash: u64,
    text: Seq<char>,
    r: Vec<Block>,
) -> bool {
    &&& after.wf()
    &&& after.cap == before.cap
    &&& after.min_len == before.min_len
    &&& if before@.dom().contains(key) && before@[key].0 == hash {
        r == before@[key].1 && after@ == before@
    } else {
        &&& block_values(r@) == parsed_blocks(text)
        &&& after@ == (if byte_len(text) < before.min_len {
            before@
        } else if before@.dom().len() >= before.cap {
            Map::empty().insert(key, (hash, r))
        } else {
            before@.insert(key, (hash, r))
        })
    }
}

/// Parses a text with a known content hash, or takes the result that the
/// cache has for this key and hash.
pub fn parse_hashed(cache: &mut MemoCache<Vec<Block>>, key: &str, hash: u64, text: &str) -> (r: Arc<
    Vec<Block>,
>)
    requires
        old(cache).wf(),
    ensures
        cached_parse(*old(cache), *final(cache), key@, hash, text@, *r),
{
    match cache.get(key, hash) {
        Some(blocks) => blocks,
        None => {
            let blocks = Arc::new(parse(text));
            let n: usize = len_bytes(text);
            cache.put(key, hash, share(&blocks), n);
            blocks
        },
    }
}

/// Parses a text, or takes the result that the cache has for this key and the
/// hash of the text.
pub fn parse_cached(cache: &mut MemoCache<Vec<Block>>, key: &str, text: &str) -> (r: Arc<
    Vec<Block>,
>)
    requires
        old(cache).wf(),
    ensures
        cached_parse(*old(cache), *final(cache), key@, text_hash(text@), text@, *r),
{
    let hash = hash_of(text);
    parse_hashed(cache, key, hash, text)
}

// ---------------------------------------------------------------------------
// Showing blocks
// ---------------------------------------------------------------------------
/// The ASCII lower-case form of a character.
pub open spec fn ascii_lower(c: char) -> char {
    if 'A' <= c <= 'Z' {
        (c as u32 + 32) as char
    } else {
        c
    }
}

/// Whether two texts are equal up to the case of ASCII letters.
pub open spec fn same_ignoring_case(a: Seq<char>, b: Seq<char>) -> bool {
    a.map_values(|c: char| ascii_lower(c)) == b.map_values(|c: char| ascii_lower(c))
}

pub(crate) fn to_lower(c: char) -> (r: char)
    ensures
        r == ascii_lower(c),
{
    match c {
        'A' => 'a',
        'B' => 'b',
        'C' => 'c',
        'D' => 'd',
        'E' => 'e',
        'F' => 'f',
        'G' => 'g',
        'H' => 'h',
        'I' => 'i',
        'J' => 'j',
        'K' => 'k',
        'L' => 'l',
        'M' => 'm',
        'N' => 'n',
        'O' => 'o',
        'P' => 'p',
        'Q' => 'q',
        'R' => 'r',
        'S' => 's',
        'T' => 't',
        'U' => 'u',
        'V' => 'v',
        'W' => 'w',
        'X' => 'x',
        'Y' => 'y',
        'Z' => 'z',
        _ => c,
    }
}

/// Whether two texts are equal up to the case of ASCII letters.
pub fn eq_ignoring_case(a: &str, b: &str) -> (r: bool)
    ensures
        r == same_ignoring_case(a@, b@),
{
    let x = chars_of(a);
    let y = chars_of(b);
    let ghost lx = a@.map_values(|c: char| ascii_lower(c));
    let ghost ly = b@.map_values(|c: char| ascii_lower(c));
    assert(lx.len() == x@.len() && ly.len() == y@.len());
    if x.len() != y.len() {
        return false;
    }
    let mut i: usize = 0;
    while i < x.len()
        invariant
            x@ == a@,
            y@ == b@,
            lx == a@.map_values(|c: char| ascii_lower(c)),
            ly == b@.map_values(|c: char| ascii_lower(c)),
            x@.len() == y@.len(),
            i <= x@.len(),
            forall|k: int| 0 <= k < i ==> #[trigger] lx[k] == ly[k],
        decreases x@.len() - i,
    {
        if to_lower(x[i]) != to_lower(y[i]) {
            assert(lx[i as int] != ly[i as int]);
            return false;
        }
        i = i + 1;
    }
    assert(lx =~= ly);
    true
}

/// Whether a code block is drawn as a diagram: its fence is closed, it is
/// marked as mermaid, and its type of diagram is supported.
pub open spec fn is_diagram(lang: Option<Seq<char>>, closed: bool, supported: bool) -> bool {
    closed && lang is Some && same_ignoring_case(lang->0, "mermaid"@) && supported
}

/// Whether a code block is drawn as a diagram.
pub fn is_mermaid_block(lang: &Option<String>, closed: bool, supported: bool) -> (r: bool)
    ensures
        r == is_diagram(opt_view(*lang), closed, supported),
{
    closed && supported && match lang {
        Some(l) => eq_ignoring_case(l.as_str(), "mermaid"),
        None => false,
    }
}

/// A block with a cursor behind its text. A diagram and a rule have no place
/// for one.
pub open spec fn cursor_of(b: BlockValue, supported: bool) -> BlockValue {
    match b {
        BlockValue::Heading(n, t) => BlockValue::Heading(n, t.push('▍')),
        BlockValue::Paragraph(t) => BlockValue::Paragraph(t.push('▍')),
        BlockValue::Item(n, t) => BlockValue::Item(n, t.push('▍')),
        BlockValue::Quote(t) => BlockValue::Quote(t.push('▍')),
        BlockValue::Code(c, lang, closed) => if is_diagram(lang, closed, supported) {
            b
        } else {
            BlockValue::Code(c.push('▍'), lang, closed)
        },
        BlockValue::Rule => b,
    }
}

/// A block with a cursor behind its text. `supported` says whether its code,
/// if it has any, is a supported type of diagram.
pub fn cursor_block(block: &Block, supported: bool) -> (r: Block)
    ensures
        r@ == cursor_of(block@, supported),
{
    let b = block.clone();
    match b {
        Block::Heading(n, mut t) => {
            t.push('▍');
            Block::Heading(n, t)
        },
        Block::Paragraph(mut t) => {
            t.push('▍');
            Block::Paragraph(t)
        },
        Block::Item(n, mut t) => {
            t.push('▍');
            Block::Item(n, t)
        },
        Block::Quote(mut t) => {
            t.push('▍');
            Block::Quote(t)
        },
        Block::Code(mut c, lang, closed) => {
            if !is_mermaid_block(&lang, closed, supported) {
                c.push('▍');
            }
            Block::Code(c, lang, closed)
        },
        Block::Rule => Block::Rule,
    }
}

/// The blocks of a text that is still growing: the last one has the cursor.
pub open spec fn streaming_of(blocks: Seq<BlockValue>, supported: bool) -> Seq<BlockValue> {
    if blocks.len() == 0 {
        blocks
    } else {
        blocks.drop_last().push(cursor_of(blocks.last(), supported))
    }
}

/// The blocks of a text that is still growing. `supported` speaks of the code
/// of the last block.
pub fn streaming_blocks(blocks: &[Block], supported: bool) -> (r: Vec<Block>)
    ensures
        block_values(r@) == streaming_of(block_values(blocks@), supported),
{
    let ghost v = block_values(blocks@);
    let mut out: Vec<Block> = Vec::new();
    let mut i: usize = 0;
    while i < blocks.len()
        invariant
            v == block_values(blocks@),
            i <= blocks@.len(),
            out@.len() == i,
            forall|k: int| 0 <= k < i ==> (#[trigger] out@[k])@ == streaming_of(v, supported)[k],
        decreases blocks@.len() - i,
    {
        if i + 1 == blocks.len() {
            out.push(cursor_block(&blocks[i], supported));
        } else {
            out.push(blocks[i].clone());
        }
        assert(v[i as int] == blocks@[i as int]@);
        i = i + 1;
    }
    assert(block_values(out@) =~= streaming_of(v, supported));
    out
}

/// The font size of a heading.
pub fn heading_size(level: u8) -> (r: u32)
    ensures
        r == (if level == 1 {
            16u32
        } else if level == 2 {
            15
        } else {
            14
        }),
{
    match level {
        1 => 16,
        2 => 15,
        _ => 14,
    }
}

/// The marker before a list item.
pub open spec fn marker_of(number: Option<u64>) -> Seq<char> {
    match number {
        Some(n) => dec(n as nat) + ". "@,
        None => "• "@,
    }
}

/// The marker before a list item.
pub fn item_marker(number: Option<u64>) -> (r: String)
    ensures
        r@ == marker_of(number),
{
    match number {
        Some(n) => {
            let t = u64_text(n);
            cat2(t.as_str(), ". ")
        },
        None => owned("• "),
    }
}

// ---------------------------------------------------------------------------
// Laws
// ---------------------------------------------------------------------------
/// A cursor on a block does not change what kind of block it is, nor any text
/// before the cursor.
pub proof fn law_cursor_only_appends(b: BlockValue, supported: bool)
    ensures
        match (b, cursor_of(b, supported)) {
            (BlockValue::Heading(n, t), BlockValue::Heading(m, u)) => n == m && u == t.push('▍'),
            (BlockValue::Paragraph(t), BlockValue::Paragraph(u)) => u == t.push('▍'),
            (BlockValue::Item(n, t), BlockValue::Item(m, u)) => n == m && u == t.push('▍'),
            (BlockValue::Quote(t), BlockValue::Quote(u)) => u == t.push('▍'),
            (BlockValue::Code(c, l, x), BlockValue::Code(d, m, y)) => l == m && x == y && (d == c
                || d == c.push('▍')),
            (BlockValue::Rule, BlockValue::Rule) => true,
            _ => false,
        },
{
}

/// Inside a code block no event but its end can add a block.
pub proof fn law_code_blocks_are_opaque(f: Fold, start: StartValue, e: EventValue)
    requires
        f.code is Some,
        e != EventValue::CodeEnd,
    ensures
        stepped(f, start, e).blocks == f.blocks,
        stepped(f, start, e).code is Some,
{
}

/// Parsing a text twice through a cache, with room for it, gives the same
/// blocks both times.
pub proof fn law_cache_repeats_itself(
    c0: MemoCache<Vec<Block>>,
    c1: MemoCache<Vec<Block>>,
    c2: MemoCache<Vec<Block>>,
    key: Seq<char>,
    hash: u64,
    text: Seq<char>,
    a: Vec<Block>,
    b: Vec<Block>,
)
    requires
        byte_len(text) >= c0.min_len,
        cached_parse(c0, c1, key, hash, text, a),
        cached_parse(c1, c2, key, hash, text, b),
    ensures
        a == b,
        c2@ == c1@,
{
}

/// A text shorter than the bound never enters a cache.
pub proof fn law_short_texts_are_not_cached(
    c0: MemoCache<Vec<Block>>,
    c1: MemoCache<Vec<Block>>,
    key: Seq<char>,
    hash: u64,
    text: Seq<char>,
    r: Vec<Block>,
)
    requires
        byte_len(text) < c0.min_len,
        cached_parse(c0, c1, key, hash, text, r),
    ensures
        c1@ == c0@,
{
}

/// A call of [`parse_cached`]: its arguments, and what came of it.
pub struct ParseCall {
    pub key: Seq<char>,
    pub text: Seq<char>,
    pub after: MemoCache<Vec<Block>>,
    pub result: Vec<Block>,
}

/// The cache before the call with a number.
pub open spec fn parse_cache_at(
    start: MemoCache<Vec<Block>>,
    calls: Seq<ParseCall>,
    n: int,
) -> MemoCache<Vec<Block>> {
    if n <= 0 {
        start
    } else {
        calls[n - 1].after
    }
}

/// Whether a call is one of [`parse_cached`] on a cache.
pub open spec fn is_parse_call(before: MemoCache<Vec<Block>>, call: ParseCall) -> bool {
    cached_parse(before, call.after, call.key, text_hash(call.text), call.text, call.result)
}

/// Whether calls were made one after the other on one cache.
pub open spec fn is_parse_history(start: MemoCache<Vec<Block>>, calls: Seq<ParseCall>) -> bool {
    forall|n: int|
        0 <= n < calls.len() ==> #[trigger] is_parse_call(
            parse_cache_at(start, calls, n),
            calls[n],
        )
}

/// Whether two calls are told apart: two
/// different texts under one key do not have the same hash.
pub open spec fn texts_apart(a: ParseCall, b: ParseCall) -> bool {
    a.key == b.key && text_hash(a.text) == text_hash(b.text) ==> a.text == b.text
}

/// Whether an entry of a cache holds the blocks of the text of a call, under
/// its key and its hash.
pub open spec fn keeps_parse(entry: (u64, Vec<Block>), key: Seq<char>, call: ParseCall) -> bool {
    &&& call.key == key
    &&& entry.0 == text_hash(call.text)
    &&& block_values(entry.1@) == parsed_blocks(call.text)
}

/// Whether a cache holds nothing but the blocks of texts that it was called
/// with.
pub open spec fn holds_parses(c: MemoCache<Vec<Block>>, calls: Seq<ParseCall>) -> bool {
    forall|k: Seq<char>| #[trigger]
        c@.dom().contains(k) ==> exists|j: int|
            0 <= j < calls.len() && #[trigger] keeps_parse(c@[k], k, calls[j])
}

proof fn lemma_holds_parses(before: MemoCache<Vec<Block>>, init: Seq<ParseCall>, call: ParseCall)
    requires
        holds_parses(before, init),
        is_parse_call(before, call),
        forall|i: int| 0 <= i < init.len() ==> #[trigger] texts_apart(init[i], call),
    ensures
        block_values(call.result@) == parsed_blocks(call.text),
        holds_parses(call.after, init.push(call)),
{
    let calls = init.push(call);
    let key = call.key;
    if before@.dom().contains(key) && before@[key].0 == text_hash(call.text) {
        let j = choose|j: int| 0 <= j < init.len()
            && #[trigger] keeps_parse(before@[key], key, init[j]);
        assert(texts_apart(init[j], call));
    }
    assert forall|k: Seq<char>| #[trigger] call.after@.dom().contains(k) implies exists|j: int|
        0 <= j < calls.len() && #[trigger] keeps_parse(call.after@[k], k, calls[j]) by {
        if before@.dom().contains(k) && call.after@[k] == before@[k] {
            let j = choose|j: int|
                0 <= j < init.len() && #[trigger] keeps_parse(before@[k], k, init[j]);
            assert(keeps_parse(call.after@[k], k, calls[j]));
        } else {
            assert(keeps_parse(call.after@[k], k, calls[init.len() as int]));
        }
    }
}

/// Over any history of calls on a cache that starts empty, where no two
/// different texts under one key have the same hash, every call returns the
/// blocks of its text.
pub proof fn law_cached_parse_is_the_parse(start: MemoCache<Vec<Block>>, calls: Seq<ParseCall>)
    requires
        start@ == Map::<Seq<char>, (u64, Vec<Block>)>::empty(),
        is_parse_history(start, calls),
        forall|i: int, j: int|
            0 <= i < calls.len() && 0 <= j < calls.len()
                ==> #[trigger] texts_apart(calls[i], calls[j]),
    ensures
        forall|n: int| 0 <= n < calls.len() ==> block_values(
            (#[trigger] calls[n]).result@,
        ) == parsed_blocks(calls[n].text),
        holds_parses(parse_cache_at(start, calls, calls.len() as int), calls),
    decreases calls.len(),
{
    if calls.len() > 0 {
        let init = calls.drop_last();
        let m = calls.len() - 1;
        assert forall|n: int| 0 <= n < init.len() implies #[trigger] is_parse_call(
            parse_cache_at(start, init, n),
            init[n],
        ) by {
            assert(is_parse_call(parse_cache_at(start, calls, n), calls[n]));
        }
        assert forall|i: int, j: int|
            0 <= i < init.len() && 0 <= j < init.len() implies #[trigger] texts_apart(
            init[i],
            init[j],
        ) by {
            assert(texts_apart(calls[i], calls[j]));
        }
        law_cached_parse_is_the_parse(start, init);
        assert forall|i: int| 0 <= i < init.len() implies #[trigger] texts_apart(init[i], calls[m]) by {
            assert(texts_apart(calls[i], calls[m]));
        }
        assert(is_parse_call(parse_cache_at(start, calls, m), calls[m]));
        lemma_holds_parses(parse_cache_at(start, init, m), init, calls[m]);
        assert(init.push(calls[m]) =~= calls);
        assert forall|n: int| 0 <= n < calls.len() implies block_values(
            (#[trigger] calls[n]).result@,
        ) == parsed_blocks(calls[n].text) by {
            if n < m {
                assert(init[n] == calls[n]);
            }
        }
    }
}

/// An element of a document, with the events inside it.
pub enum Element {
    Heading(u8, Seq<EventValue>),
    Paragraph(Seq<EventValue>),
    Quote(Seq<EventValue>),
    /// A list with its first number, where it is ordered, and its items.
    List(Option<u64>, Seq<Seq<EventValue>>),
    /// Code behind a fence: what stands behind the fence, the source, the code
    /// in pieces.
    Fenced(Seq<char>, Seq<char>, Seq<Seq<char>>),
    Indented(Seq<Seq<char>>),
    Rule,
}

/// Whether events are plain text, inline code, line breaks, or marks without
/// text.
pub open spec fn is_inline(es: Seq<EventValue>) -> bool {
    forall|i: int|
        0 <= i < es.len() ==> match #[trigger] es[i] {
            EventValue::Text(_)
            | EventValue::Code(_)
            | EventValue::SoftBreak
            | EventValue::HardBreak
            | EventValue::Other => true,
            _ => false,
        }
}

/// The text of inline events: each break is a space.
pub open spec fn inline_text(es: Seq<EventValue>) -> Seq<char>
    decreases es.len(),
{
    if es.len() == 0 {
        Seq::empty()
    } else {
        inline_text(es.drop_last()) + match es.last() {
            EventValue::Text(t) => t,
            EventValue::Code(t) => t,
            EventValue::SoftBreak => seq![' '],
            EventValue::HardBreak => seq![' '],
            _ => Seq::empty(),
        }
    }
}

/// An opening event, events that open nothing, and a closing event.
pub open spec fn wrapped_starts(start: StartValue, n: nat) -> Seq<StartValue> {
    seq![start] + Seq::new(n, |i: int| StartValue::Other) + seq![StartValue::Other]
}

/// What the events between an opening and a closing one say, with both.
pub open spec fn wrapped_events(es: Seq<EventValue>, end: EventValue) -> Seq<EventValue> {
    seq![EventValue::Other] + es + seq![end]
}

/// The texts of pieces of code.
pub open spec fn text_events(code: Seq<Seq<char>>) -> Seq<EventValue> {
    Seq::new(code.len(), |i: int| EventValue::Text(code[i]))
}

/// The elements that the items of a list open.
pub open spec fn items_starts(items: Seq<Seq<EventValue>>) -> Seq<StartValue>
    decreases items.len(),
{
    if items.len() == 0 {
        Seq::empty()
    } else {
        items_starts(items.drop_last()) + wrapped_starts(StartValue::Item, items.last().len())
    }
}

/// What the events of the items of a list say.
pub open spec fn items_events(items: Seq<Seq<EventValue>>) -> Seq<EventValue>
    decreases items.len(),
{
    if items.len() == 0 {
        Seq::empty()
    } else {
        items_events(items.drop_last()) + wrapped_events(items.last(), EventValue::ItemEnd)
    }
}

impl Element {
    /// Whether the texts of an element are inline, and its numbers fit.
    pub open spec fn wf(self) -> bool {
        match self {
            Element::Heading(_, es) | Element::Paragraph(es) | Element::Quote(es) => is_inline(es),
            Element::List(first, items) => {
                &&& forall|i: int| 0 <= i < items.len() ==> is_inline(#[trigger] items[i])
                &&& first matches Some(n) ==> n + items.len() <= u64::MAX
            },
            _ => true,
        }
    }

    /// The elements that its events open.
    pub open spec fn starts(self) -> Seq<StartValue> {
        match self {
            Element::Heading(n, es) => wrapped_starts(StartValue::Heading(n), es.len()),
            Element::Paragraph(es) => wrapped_starts(StartValue::Paragraph, es.len()),
            Element::Quote(es) => wrapped_starts(StartValue::Quote, es.len()),
            Element::List(first, items) => seq![StartValue::List(first)] + items_starts(items)
                + seq![StartValue::Other],
            Element::Fenced(info, source, code) => wrapped_starts(
                StartValue::Fenced(info, source),
                code.len(),
            ),
            Element::Indented(code) => wrapped_starts(StartValue::Indented, code.len()),
            Element::Rule => seq![StartValue::Other],
        }
    }

    /// What its events say.
    pub open spec fn events(self) -> Seq<EventValue> {
        match self {
            Element::Heading(_, es) => wrapped_events(es, EventValue::HeadingEnd),
            Element::Paragraph(es) => wrapped_events(es, EventValue::ParagraphEnd),
            Element::Quote(es) => wrapped_events(es, EventValue::QuoteEnd),
            Element::List(_, items) => seq![EventValue::Other] + items_events(items) + seq![
                EventValue::ListEnd,
            ],
            Element::Fenced(_, _, code) | Element::Indented(code) => wrapped_events(
                text_events(code),
                EventValue::CodeEnd,
            ),
            Element::Rule => seq![EventValue::Rule],
        }
    }

    /// The blocks that an element is shown as.
    pub open spec fn blocks(self) -> Seq<BlockValue> {
        match self {
            Element::Heading(n, es) => seq![BlockValue::Heading(n, inline_text(es))],
            Element::Paragraph(es) => seq![BlockValue::Paragraph(inline_text(es))],
            Element::Quote(es) => seq![BlockValue::Quote(inline_text(es))],
            Element::List(first, items) => Seq::new(
                items.len(),
                |i: int|
                    BlockValue::Item(
                        match first {
                            Some(n) => Some((n + i) as u64),
                            None => None,
                        },
                        inline_text(items[i]),
                    ),
            ),
            Element::Fenced(info, source, code) => seq![
                BlockValue::Code(
                    inline_text(text_events(code)),
                    first_word_of(info),
                    is_fence_closed(source),
                ),
            ],
            Element::Indented(code) => seq![
                BlockValue::Code(inline_text(text_events(code)), None, false),
            ],
            Element::Rule => seq![BlockValue::Rule],
        }
    }
}

/// The events of elements in a row, as to what they open.
pub open spec fn document_starts(doc: Seq<Element>) -> Seq<StartValue>
    decreases doc.len(),
{
    if doc.len() == 0 {
        Seq::empty()
    } else {
        document_starts(doc.drop_last()) + doc.last().starts()
    }
}

/// The events of elements in a row, as to what they say.
pub open spec fn document_events(doc: Seq<Element>) -> Seq<EventValue>
    decreases doc.len(),
{
    if doc.len() == 0 {
        Seq::empty()
    } else {
        document_events(doc.drop_last()) + doc.last().events()
    }
}

/// The blocks of elements in a row.
pub open spec fn document_blocks(doc: Seq<Element>) -> Seq<BlockValue>
    decreases doc.len(),
{
    if doc.len() == 0 {
        Seq::empty()
    } else {
        document_blocks(doc.drop_last()) + doc.last().blocks()
    }
}

/// The first `n` events from a state on.
spec fn run_from(f: Fold, starts: Seq<StartValue>, events: Seq<EventValue>, n: int) -> Fold
    decreases n,
{
    if n <= 0 {
        f
    } else {
        stepped(run_from(f, starts, events, n - 1), starts[n - 1], events[n - 1])
    }
}

proof fn lemma_run_concat(
    f: Fold,
    s1: Seq<StartValue>,
    e1: Seq<EventValue>,
    s2: Seq<StartValue>,
    e2: Seq<EventValue>,
    k: int,
)
    requires
        s1.len() == e1.len(),
        s2.len() == e2.len(),
        0 <= k <= s1.len() + s2.len(),
    ensures
        run_from(f, s1 + s2, e1 + e2, k) == (if k <= s1.len() {
            run_from(f, s1, e1, k)
        } else {
            run_from(run_from(f, s1, e1, s1.len() as int), s2, e2, k - s1.len())
        }),
    decreases k,
{
    if k > 0 {
        lemma_run_concat(f, s1, e1, s2, e2, k - 1);
    }
}

proof fn lemma_run_is_fold(starts: Seq<StartValue>, events: Seq<EventValue>, n: int)
    ensures
        run_from(fold_start(), starts, events, n) == folded(starts, events, n),
    decreases n,
{
    if n > 0 {
        lemma_run_is_fold(starts, events, n - 1);
    }
}

proof fn lemma_run_inline(
    f: Fold,
    starts: Seq<StartValue>,
    events: Seq<EventValue>,
    es: Seq<EventValue>,
)
    requires
        starts.len() == events.len() >= es.len() + 1,
        is_inline(es),
        run_from(f, starts, events, 1).code is None,
        forall|i: int| 0 <= i < es.len() ==> #[trigger] starts[i + 1] == StartValue::Other,
        forall|i: int| 0 <= i < es.len() ==> #[trigger] es[i] == events[i + 1],
    ensures
        run_from(f, starts, events, es.len() + 1int) == (Fold {
            buf: run_from(f, starts, events, 1).buf + inline_text(es),
            ..run_from(f, starts, events, 1)
        }),
    decreases es.len(),
{
    let g = run_from(f, starts, events, 1);
    if es.len() == 0 {
        assert(g.buf + inline_text(es) =~= g.buf);
    } else {
        let init = es.drop_last();
        assert forall|i: int| 0 <= i < init.len() implies #[trigger] init[i] == events[i + 1] by {
            assert(es[i] == events[i + 1]);
        }
        assert(is_inline(init)) by {
            assert forall|i: int| 0 <= i < init.len() implies match #[trigger] init[i] {
                EventValue::Text(_)
                | EventValue::Code(_)
                | EventValue::SoftBreak
                | EventValue::HardBreak
                | EventValue::Other => true,
                _ => false,
            } by {
                assert(es[i] == init[i]);
            }
        }
        lemma_run_inline(f, starts, events, init);
        let n = es.len() as int;
        assert(starts[(n - 1) + 1] == StartValue::Other);
        assert(es[n - 1] == events[n]);
        let h = run_from(f, starts, events, n);
        let r = run_from(f, starts, events, n + 1);
        assert(r == stepped(h, starts[n], events[n]));
        assert(r.buf =~= g.buf + inline_text(es));
    }
}

proof fn lemma_run_code(
    f: Fold,
    starts: Seq<StartValue>,
    events: Seq<EventValue>,
    code: Seq<Seq<char>>,
)
    requires
        starts.len() == events.len() >= code.len() + 1,
        run_from(f, starts, events, 1).code is Some,
        forall|i: int| 0 <= i < code.len()
            ==> EventValue::Text(#[trigger] code[i]) == events[i + 1],
    ensures
        run_from(f, starts, events, code.len() + 1int) == ({
            let g = run_from(f, starts, events, 1);
            let c = g.code->0;
            Fold { code: Some((c.0 + inline_text(text_events(code)), c.1, c.2)), ..g }
        }),
    decreases code.len(),
{
    let g = run_from(f, starts, events, 1);
    let c = g.code->0;
    if code.len() == 0 {
        assert(c.0 + inline_text(text_events(code)) =~= c.0);
    } else {
        let init = code.drop_last();
        assert forall|i: int| 0 <= i < init.len() implies EventValue::Text(#[trigger] init[i])
            == events[i + 1] by {
            assert(EventValue::Text(code[i]) == events[i + 1]);
        }
        lemma_run_code(f, starts, events, init);
        let n = code.len() as int;
        assert(EventValue::Text(code[n - 1]) == events[n]);
        assert(text_events(code).drop_last() =~= text_events(init));
        let r = run_from(f, starts, events, n + 1);
        assert(r == stepped(run_from(f, starts, events, n), starts[n], events[n]));
        assert((r.code->0).0 =~= c.0 + inline_text(text_events(code)));
    }
}

/// An element that is wrapped round inline events, from a state without an open
/// block.
proof fn lemma_run_wrapped(f: Fold, start: StartValue, es: Seq<EventValue>, end: EventValue)
    requires
        is_inline(es),
        f.code is None,
        start != StartValue::Other,
        opened(f, start).code is None,
        opened(f, start).buf.len() == 0,
        opened(f, start).pending is Some,
        end == EventValue::HeadingEnd || end == EventValue::ParagraphEnd || end
            == EventValue::QuoteEnd || end == EventValue::ItemEnd,
    ensures
        run_from(f, wrapped_starts(start, es.len()), wrapped_events(es, end), es.len() + 2int) == ({
            let g = opened(f, start);
            Fold {
                blocks: g.blocks.push(with_text(g.pending->0, inline_text(es))),
                pending: None,
                ..g
            }
        }),
{
    let ss = wrapped_starts(start, es.len());
    let ee = wrapped_events(es, end);
    let g = opened(f, start);
    assert(run_from(f, ss, ee, 0) == f);
    assert(ss[0] == start);
    assert(run_from(f, ss, ee, 1) == g);
    lemma_run_inline(f, ss, ee, es);
    let n = es.len() as int;
    assert(ss[n + 1] == StartValue::Other);
    assert(ee[n + 1] == end);
    let r = run_from(f, ss, ee, n + 2);
    assert(r == stepped(run_from(f, ss, ee, n + 1), ss[n + 1], ee[n + 1]));
    assert(g.buf + inline_text(es) =~= inline_text(es));
    assert(r.buf =~= g.buf);
}

proof fn lemma_run_wrapped_code(f: Fold, start: StartValue, code: Seq<Seq<char>>)
    requires
        f.code is None,
        start != StartValue::Other,
        opened(f, start).code is Some,
        (opened(f, start).code->0).0.len() == 0,
    ensures
        run_from(
            f,
            wrapped_starts(start, code.len()),
            wrapped_events(text_events(code), EventValue::CodeEnd),
            code.len() + 2int,
        ) == ({
            let g = opened(f, start);
            let c = g.code->0;
            Fold {
                blocks: g.blocks.push(
                    BlockValue::Code(inline_text(text_events(code)), c.1, c.2),
                ),
                code: None,
                ..g
            }
        }),
{
    let ss = wrapped_starts(start, code.len());
    let ee = wrapped_events(text_events(code), EventValue::CodeEnd);
    let g = opened(f, start);
    assert(run_from(f, ss, ee, 0) == f);
    assert(ss[0] == start);
    assert(run_from(f, ss, ee, 1) == g);
    lemma_run_code(f, ss, ee, code);
    let n = code.len() as int;
    assert(ee[n + 1] == EventValue::CodeEnd);
    let r = run_from(f, ss, ee, n + 2);
    assert(r == stepped(run_from(f, ss, ee, n + 1), ss[n + 1], ee[n + 1]));
    assert((g.code->0).0 + inline_text(text_events(code)) =~= inline_text(text_events(code)));
}

/// Whether nothing is open.
spec fn at_rest(f: Fold) -> bool {
    f.buf.len() == 0 && f.pending is None && f.code is None && f.lists.len() == 0
}

proof fn lemma_items_len(items: Seq<Seq<EventValue>>)
    ensures
        items_starts(items).len() == items_events(items).len(),
    decreases items.len(),
{
    if items.len() > 0 {
        lemma_items_len(items.drop_last());
    }
}

proof fn lemma_run_items(f: Fold, first: Option<u64>, items: Seq<Seq<EventValue>>)
    requires
        f.buf.len() == 0,
        f.pending is None,
        f.code is None,
        f.lists == seq![first],
        forall|i: int| 0 <= i < items.len() ==> is_inline(#[trigger] items[i]),
        first matches Some(n) ==> n + items.len() <= u64::MAX,
    ensures
        run_from(
            f,
            items_starts(items),
            items_events(items),
            items_starts(items).len() as int,
        ) == (Fold {
            blocks: f.blocks + Element::List(first, items).blocks(),
            lists: seq![
                match first {
                    Some(n) => Some((n + items.len()) as u64),
                    None => None,
                },
            ],
            ..f
        }),
    decreases items.len(),
{
    lemma_items_len(items);
    let blocks = Element::List(first, items).blocks();
    if items.len() == 0 {
        assert(f.blocks + blocks =~= f.blocks);
    } else {
        let init = items.drop_last();
        let es = items.last();
        assert(is_inline(items[items.len() - 1]));
        assert forall|i: int| 0 <= i < init.len() implies is_inline(#[trigger] init[i]) by {
            assert(is_inline(items[i]));
        }
        lemma_items_len(init);
        lemma_run_items(f, first, init);
        let ss = wrapped_starts(StartValue::Item, es.len());
        let ee = wrapped_events(es, EventValue::ItemEnd);
        let s1 = items_starts(init);
        let e1 = items_events(init);
        lemma_run_concat(f, s1, e1, ss, ee, (s1.len() + ss.len()) as int);
        let g = run_from(f, s1, e1, s1.len() as int);
        assert(flushed(g).blocks =~= g.blocks);
        lemma_run_wrapped(g, StartValue::Item, es, EventValue::ItemEnd);
        let r = run_from(f, items_starts(items), items_events(items), items_starts(items).len() as int);
        let ib = Element::List(first, init).blocks();
        assert(blocks =~= ib.push(blocks[items.len() - 1]));
        assert(r.blocks =~= f.blocks + blocks);
        assert(r.lists =~= seq![
            match first {
                Some(n) => Some((n + items.len()) as u64),
                None => None,
            },
        ]);
        assert(r.buf =~= f.buf);
    }
}

proof fn lemma_run_list(f: Fold, first: Option<u64>, items: Seq<Seq<EventValue>>)
    requires
        at_rest(f),
        Element::List(first, items).wf(),
    ensures
        ({
            let el = Element::List(first, items);
            &&& el.starts().len() == el.events().len()
            &&& run_from(f, el.starts(), el.events(), el.starts().len() as int) == (Fold {
                blocks: f.blocks + el.blocks(),
                ..f
            })
        }),
{
    let el = Element::List(first, items);
    let s0 = seq![StartValue::List(first)];
    let e0 = seq![EventValue::Other];
    let s1 = items_starts(items);
    let e1 = items_events(items);
    let s2 = seq![StartValue::Other];
    let e2 = seq![EventValue::ListEnd];
    let n = (s1.len() + 2) as int;
    lemma_items_len(items);
    lemma_run_concat(f, s0 + s1, e0 + e1, s2, e2, n);
    lemma_run_concat(f, s0, e0, s1, e1, n - 1);
    let g = run_from(f, s0, e0, 1);
    assert(g == stepped(f, s0[0], e0[0])) by {
        reveal_with_fuel(run_from, 2);
    }
    assert(g.blocks =~= f.blocks);
    assert(g.buf =~= f.buf);
    assert(g.lists =~= seq![first]);
    lemma_run_items(g, first, items);
    let h = run_from(g, s1, e1, s1.len() as int);
    assert(run_from(f, s0 + s1, e0 + e1, n - 1) == h) by {
        if s1.len() == 0 {
            assert(h == g);
        }
    }
    let r = run_from(f, el.starts(), el.events(), n);
    assert(r == run_from(h, s2, e2, 1));
    assert(r == stepped(h, s2[0], e2[0])) by {
        reveal_with_fuel(run_from, 2);
    }
    assert(r.lists =~= f.lists);
}

proof fn lemma_run_element(f: Fold, el: Element)
    requires
        at_rest(f),
        el.wf(),
    ensures
        el.starts().len() == el.events().len(),
        run_from(f, el.starts(), el.events(), el.starts().len() as int) == (Fold {
            blocks: f.blocks + el.blocks(),
            ..f
        }),
{
    let r = run_from(f, el.starts(), el.events(), el.starts().len() as int);
    assert(flushed(f).blocks =~= f.blocks);
    assert(flushed(f).buf =~= f.buf);
    match el {
        Element::Heading(n, es) => {
            lemma_run_wrapped(f, StartValue::Heading(n), es, EventValue::HeadingEnd);
        },
        Element::Paragraph(es) => {
            lemma_run_wrapped(f, StartValue::Paragraph, es, EventValue::ParagraphEnd);
        },
        Element::Quote(es) => {
            lemma_run_wrapped(f, StartValue::Quote, es, EventValue::QuoteEnd);
        },
        Element::Fenced(info, source, code) => {
            lemma_run_wrapped_code(f, StartValue::Fenced(info, source), code);
        },
        Element::Indented(code) => {
            lemma_run_wrapped_code(f, StartValue::Indented, code);
        },
        Element::Rule => {
            reveal_with_fuel(run_from, 2);
        },
        Element::List(first, items) => {
            lemma_run_list(f, first, items);
        },
    }
    assert(r.blocks =~= f.blocks + el.blocks());
    assert(r.buf =~= f.buf);
}

proof fn lemma_run_document(doc: Seq<Element>)
    requires
        forall|i: int| 0 <= i < doc.len() ==> (#[trigger] doc[i]).wf(),
    ensures
        document_starts(doc).len() == document_events(doc).len(),
        run_from(
            fold_start(),
            document_starts(doc),
            document_events(doc),
            document_starts(doc).len() as int,
        ) == (Fold { blocks: document_blocks(doc), ..fold_start() }),
    decreases doc.len(),
{
    if doc.len() > 0 {
        let init = doc.drop_last();
        let el = doc.last();
        assert(doc[doc.len() - 1].wf());
        assert forall|i: int| 0 <= i < init.len() implies (#[trigger] init[i]).wf() by {
            assert(doc[i].wf());
        }
        lemma_run_document(init);
        let s1 = document_starts(init);
        let e1 = document_events(init);
        let f = run_from(fold_start(), s1, e1, s1.len() as int);
        lemma_run_element(f, el);
        lemma_run_concat(
            fold_start(),
            s1,
            e1,
            el.starts(),
            el.events(),
            (s1.len() + el.starts().len()) as int,
        );
        assert(document_starts(doc).len() == s1.len() + el.starts().len());
    }
}

/// A document is shown element by element: a heading with its level and its
/// text, a paragraph and a quote with their text, the items of a list with
/// their numbers in a row, code with its language and whether its fence is
/// closed, and a rule. Line breaks inside a text are spaces.
pub proof fn law_elements_become_blocks(doc: Seq<Element>)
    requires
        forall|i: int| 0 <= i < doc.len() ==> (#[trigger] doc[i]).wf(),
    ensures
        blocks_of(document_starts(doc), document_events(doc)) == document_blocks(doc),
{
    lemma_run_document(doc);
    let n = document_starts(doc).len() as int;
    lemma_run_is_fold(document_starts(doc), document_events(doc), n);
}

/// A heading of any level with any text is one heading block of that level with
/// that text.
pub proof fn law_heading_keeps_its_level(n: u8, text: Seq<char>)
    ensures
        blocks_of(
            seq![StartValue::Heading(n), StartValue::Other, StartValue::Other],
            seq![EventValue::Other, EventValue::Text(text), EventValue::HeadingEnd],
        ) == seq![BlockValue::Heading(n, text)],
{
    let es = seq![EventValue::Text(text)];
    let el = Element::Heading(n, es);
    let doc = seq![el];
    assert(is_inline(es));
    law_elements_become_blocks(doc);
    assert(doc.drop_last() =~= Seq::<Element>::empty());
    reveal_with_fuel(document_starts, 2);
    reveal_with_fuel(document_events, 2);
    reveal_with_fuel(document_blocks, 2);
    assert(document_starts(doc) =~= seq![
        StartValue::Heading(n),
        StartValue::Other,
        StartValue::Other,
    ]);
    assert(document_events(doc) =~= seq![
        EventValue::Other,
        EventValue::Text(text),
        EventValue::HeadingEnd,
    ]);
    assert(es.drop_last() =~= Seq::<EventValue>::empty());
    reveal_with_fuel(inline_text, 2);
    assert(inline_text(es) =~= text);
    assert(document_blocks(doc) =~= seq![BlockValue::Heading(n, text)]);
}

/// The first word of a text is what stands between its leading white space and
/// the next white space; a blank text has none.
pub proof fn law_first_word(lead: Seq<char>, word: Seq<char>, rest: Seq<char>)
    requires
        forall|i: int| 0 <= i < lead.len() ==> is_white(#[trigger] lead[i]),
        forall|i: int| 0 <= i < word.len() ==> !is_white(#[trigger] word[i]),
        rest.len() == 0 || is_white(rest[0]),
        word.len() == 0 ==> rest.len() == 0,
    ensures
        first_word_of(lead + word + rest) == (if word.len() == 0 {
            None
        } else {
            Some(word)
        }),
    decreases lead.len(),
{
    let s = lead + word + rest;
    if lead.len() > 0 {
        let l = lead.drop_first();
        assert(is_white(lead[0]));
        assert(s[0] == lead[0]);
        assert(s.drop_first() =~= l + word + rest);
        assert forall|i: int| 0 <= i < l.len() implies is_white(#[trigger] l[i]) by {
            assert(is_white(lead[i + 1]));
        }
        law_first_word(l, word, rest);
    } else if word.len() > 0 {
        assert(s[0] == word[0]);
        assert(!is_white(word[0]));
        lemma_word_to(s, word, 0);
        assert(s.take(word.len() as int) =~= word);
    }
}

proof fn lemma_word_to(s: Seq<char>, word: Seq<char>, i: int)
    requires
        0 <= i <= word.len() <= s.len(),
        forall|k: int| 0 <= k < word.len() ==> !is_white(#[trigger] s[k]),
        word.len() == s.len() || is_white(s[word.len() as int]),
    ensures
        word_to(s, i) == word.len(),
    decreases word.len() - i,
{
    if i < word.len() {
        assert(!is_white(s[i]));
        lemma_word_to(s, word, i + 1);
    }
}

/// A fence is closed by a last line of the same sign, at least as long as the
/// fence, and by no other line of fence signs.
pub proof fn law_fence_is_closed_by_its_like(
    source: Seq<char>,
    c: char,
    n: nat,
    info: Seq<char>,
    d: char,
    m: nat,
)
    requires
        c == '`' || c == '~',
        d == '`' || d == '~',
        n >= 3,
        m >= 1,
        info.len() == 0 || info[0] != c,
        lines(source).len() >= 2,
        lines(source)[0] == Seq::new(n, |i: int| c) + info,
        lines(source).last() == Seq::new(m, |i: int| d),
    ensures
        is_fence_closed(source) <==> d == c && m >= n,
{
    let ls = lines(source);
    let line = ls.last();
    let opening = ls[0];
    assert(!is_white('`') && !is_white('~'));
    assert(line[0] == d);
    assert(!blank(line)) by {
        assert(!is_white(line[0]));
    }
    assert(ls.drop_first().last() == line);
    assert(last_text_line(ls.drop_first()) == Some(line));
    assert(trim_start(line) == line);
    assert(opening[0] == c);
    assert(trim_start(opening) == opening);
    let none = Seq::<char>::empty();
    assert(line =~= Seq::new(m, |i: int| d) + none);
    lemma_run_len(d, m, none);
    lemma_run_len(c, n, info);
    assert(line.skip(m as int) =~= none);
    lemma_len_le_bytes(line);
    if d != c {
        assert(run_len(opening, d) == 0);
    }
}

proof fn lemma_run_len(c: char, n: nat, rest: Seq<char>)
    requires
        rest.len() == 0 || rest[0] != c,
    ensures
        run_len(Seq::new(n, |i: int| c) + rest, c) == n,
    decreases n,
{
    let s = Seq::new(n, |i: int| c) + rest;
    if n == 0 {
        assert(s =~= rest);
    } else {
        assert(s[0] == c);
        assert(s.drop_first() =~= Seq::new((n - 1) as nat, |i: int| c) + rest);
        lemma_run_len(c, (n - 1) as nat, rest);
    }
}

/// A fence without a line of text behind its first line is open, and so is one
/// whose last line of text starts with anything but a fence sign.
pub proof fn law_fence_without_an_end_is_open(source: Seq<char>, k: int)
    requires
        lines(source).len() > 0,
        0 <= k < lines(source).len(),
        forall|i: int| k < i < lines(source).len() ==> blank(#[trigger] lines(source)[i]),
        k > 0 ==> lines(source)[k].len() > 0 && !is_white(lines(source)[k][0])
            && lines(source)[k][0] != '`' && lines(source)[k][0] != '~',
    ensures
        !is_fence_closed(source),
{
    let ls = lines(source);
    let body = ls.drop_first();
    assert forall|i: int| k <= i < body.len() implies blank(#[trigger] body[i]) by {
        assert(body[i] == ls[i + 1]);
    }
    lemma_last_text_line(body, k);
    if k > 0 {
        let line = ls[k];
        assert(body.take(k).last() == line);
        assert(!blank(line));
        assert(trim_start(line) == line);
    } else {
        assert(body.take(0).len() == 0);
    }
}

proof fn lemma_last_text_line(ls: Seq<Seq<char>>, k: int)
    requires
        0 <= k <= ls.len(),
        forall|i: int| k <= i < ls.len() ==> blank(#[trigger] ls[i]),
    ensures
        last_text_line(ls) == last_text_line(ls.take(k)),
    decreases ls.len() - k,
{
    if k == ls.len() {
        assert(ls.take(k) =~= ls);
    } else {
        assert(blank(ls[ls.len() - 1]));
        let init = ls.drop_last();
        assert forall|i: int| k <= i < init.len() implies blank(#[trigger] init[i]) by {
            assert(init[i] == ls[i]);
        }
        lemma_last_text_line(init, k);
        assert(init.take(k) =~= ls.take(k));
    }
}

/// A growing text shows the same blocks as the text, with a cursor at the end
/// of the last one only; a diagram gets none, and code that is no diagram does.
pub proof fn law_cursor_stands_at_the_end(blocks: Seq<BlockValue>, supported: bool)
    ensures
        streaming_of(blocks, supported).len() == blocks.len(),
        forall|i: int|
            0 <= i < blocks.len() - 1
                ==> #[trigger] streaming_of(blocks, supported)[i] == blocks[i],
        blocks.len() > 0 ==> match blocks.last() {
            BlockValue::Code(c, lang, closed) => streaming_of(blocks, supported).last()
                == (if closed
                && supported && lang is Some && same_ignoring_case(lang->0, "mermaid"@) {
                blocks.last()
            } else {
                BlockValue::Code(c.push('▍'), lang, closed)
            }),
            BlockValue::Paragraph(t) => streaming_of(blocks, supported).last()
                == BlockValue::Paragraph(t.push('▍')),
            _ => true,
        },
{
}

/// The cache keeps two hundred and fifty-six texts, of half a kilobyte or more,
/// and starts with none.
pub proof fn law_long_texts_are_kept(r: MemoCache<Vec<Block>>, key: Seq<char>)
    requires
        call_ensures(new_parse_cache, (), r),
    ensures
        r.cap == 256,
        r.min_len * 2 == 1024,
        !r@.contains_key(key),
{
}

/// Of two headings the deeper one is never larger; the first two levels stand
/// out from the rest.
pub proof fn law_deeper_headings_are_not_larger(a: u8, b: u8, big: u32, small: u32)
    requires
        call_ensures(heading_size, (a,), big),
        call_ensures(heading_size, (b,), small),
        1 <= a < b,
    ensures
        small <= big <= 16,
        small >= 14,
        a <= 2 ==> small + 1 <= big,
        b > 2 ==> small == 14,
{
}

} // verus!
