//! The body of a code block: which bytes of it are shown in which colour.

use crate::cache::MemoCache;
use crate::highlight::{
    fingerprint, highlight_window, highlighted, lines_bytes, looked_up, span_lines, span_values,
    spans_text, str_views, window_key, Engine, Span,
};
use crate::markdown::{
    heading_size, is_diagram, is_mermaid_block, item_marker, marker_of, text_hash, Block,
    BlockValue,
};
use crate::scan::{find_from, lemma_first_at, lines, lines_of};
use crate::text::{
    byte_len, cat2, chars_of, lemma_byte_len_concat, lemma_byte_len_push, len_bytes, owned,
    views,
};
use vstd::prelude::*;
use vstd::string::*;
use vstd::utf8::encode_utf8;

verus! {

/// Bytes of a text that have a colour.
#[derive(Debug, Clone, Copy, PartialEq, Eq, Structural)]
pub struct ColourRange {
    pub from: usize,
    pub to: usize,
    pub colour: u32,
}

/// The content of a range.
#[verifier::ext_equal]
pub struct RangeValue {
    pub from: nat,
    pub to: nat,
    pub colour: u32,
}

impl View for ColourRange {
    type V = RangeValue;

    open spec fn view(&self) -> RangeValue {
        RangeValue { from: self.from as nat, to: self.to as nat, colour: self.colour }
    }
}

pub open spec fn range_values(v: Seq<ColourRange>) -> Seq<RangeValue> {
    v.map_values(|r: ColourRange| r@)
}

/// The ranges of the spans of a line that starts at a byte; a span without
/// text has none.
pub open spec fn line_ranges(spans: Seq<(u32, Seq<char>)>, at: nat) -> Seq<RangeValue>
    decreases spans.len(),
{
    if spans.len() == 0 {
        Seq::empty()
    } else {
        let init = line_ranges(spans.drop_last(), at);
        let from = at + byte_len(spans_text(spans.drop_last()));
        let to = from + byte_len(spans.last().1);
        if from < to {
            init.push(RangeValue { from, to, colour: spans.last().0 })
        } else {
            init
        }
    }
}

/// The bytes of lines, each with its end.
pub open spec fn bytes_of_lines(v: Seq<Seq<(u32, Seq<char>)>>) -> nat
    decreases v.len(),
{
    if v.len() == 0 {
        0
    } else {
        bytes_of_lines(v.drop_last()) + byte_len(spans_text(v.last())) + 1
    }
}

/// The ranges of lines.
pub open spec fn ranges_of(v: Seq<Seq<(u32, Seq<char>)>>) -> Seq<RangeValue>
    decreases v.len(),
{
    if v.len() == 0 {
        Seq::empty()
    } else {
        ranges_of(v.drop_last()) + line_ranges(v.last(), bytes_of_lines(v.drop_last()))
    }
}

proof fn lemma_bytes_grow(v: Seq<Seq<(u32, Seq<char>)>>, n: int)
    requires
        0 <= n <= v.len(),
    ensures
        bytes_of_lines(v.take(n)) <= bytes_of_lines(v),
    decreases v.len() - n,
{
    if n < v.len() {
        assert(v.take(n + 1).drop_last() =~= v.take(n));
        lemma_bytes_grow(v, n + 1);
    } else {
        assert(v.take(n) =~= v);
    }
}

proof fn lemma_text_grows(spans: Seq<(u32, Seq<char>)>, n: int)
    requires
        0 <= n <= spans.len(),
    ensures
        byte_len(spans_text(spans.take(n))) <= byte_len(spans_text(spans)),
    decreases spans.len() - n,
{
    if n < spans.len() {
        assert(spans.take(n + 1).drop_last() =~= spans.take(n));
        lemma_byte_len_concat(spans_text(spans.take(n)), spans[n].1);
        lemma_text_grows(spans, n + 1);
    } else {
        assert(spans.take(n) =~= spans);
    }
}

/// The ranges of lines, see [`ranges_of`]; nothing where the lines have more
/// bytes than can be counted.
pub fn colour_ranges(v: &Vec<Vec<Span>>) -> (r: Option<Vec<ColourRange>>)
    ensures
        match r {
            Some(out) => bytes_of_lines(span_lines(v@)) <= usize::MAX && range_values(out@)
                == ranges_of(span_lines(v@)),
            None => bytes_of_lines(span_lines(v@)) > usize::MAX,
        },
{
    let ghost all = span_lines(v@);
    let mut out: Vec<ColourRange> = Vec::new();
    let mut at: usize = 0;
    let mut i: usize = 0;
    assert(all.take(0) =~= Seq::<Seq<(u32, Seq<char>)>>::empty());
    assert(range_values(out@) =~= Seq::<RangeValue>::empty());
    while i < v.len()
        invariant
            i <= v@.len(),
            all == span_lines(v@),
            at == bytes_of_lines(all.take(i as int)),
            range_values(out@) == ranges_of(all.take(i as int)),
        decreases v@.len() - i,
    {
        let spans = &v[i];
        let ghost line = span_values(spans@);
        let ghost done = range_values(out@);
        let mut here: usize = at;
        let mut j: usize = 0;
        proof {
            assert(all.take(i + 1).drop_last() =~= all.take(i as int));
            assert(all.take(i + 1).last() == line);
            lemma_bytes_grow(all, i + 1);
            assert(line.take(0) =~= Seq::<(u32, Seq<char>)>::empty());
            assert(byte_len(Seq::<char>::empty()) == 0);
            assert(done + Seq::<RangeValue>::empty() =~= done);
        }
        while j < spans.len()
            invariant
                i < v@.len(),
                j <= spans@.len(),
                spans@ == v@[i as int]@,
                line == span_values(spans@),
                all == span_lines(v@),
                bytes_of_lines(all.take(i + 1)) == at + byte_len(spans_text(line)) + 1,
                bytes_of_lines(all.take(i + 1)) <= bytes_of_lines(all),
                here == at + byte_len(spans_text(line.take(j as int))),
                range_values(out@) == done + line_ranges(line.take(j as int), at as nat),
            decreases spans@.len() - j,
        {
            let ghost before = range_values(out@);
            let n = len_bytes(spans[j].text.as_str());
            proof {
                assert(line.take(j + 1).drop_last() =~= line.take(j as int));
                assert(line.take(j + 1).last()
                    == (spans@[j as int].colour, spans@[j as int].text@));
                lemma_byte_len_concat(spans_text(line.take(j as int)), spans@[j as int].text@);
                lemma_text_grows(line, j + 1);
            }
            if n > usize::MAX - here {
                return None;
            }
            let to: usize = here + n;
            if here < to {
                let one = ColourRange { from: here, to, colour: spans[j].colour };
                out.push(one);
                assert(range_values(out@) =~= before.push(one@));
                assert(before.push(one@) =~= done + line_ranges(
                    line.take(j as int),
                    at as nat,
                ).push(one@));
            }
            here = to;
            j = j + 1;
        }
        assert(line.take(j as int) =~= line);
        if here == usize::MAX {
            return None;
        }
        at = here + 1;
        i = i + 1;
    }
    assert(all.take(i as int) =~= all);
    Some(out)
}

/// The body of a code block.
#[derive(Debug, PartialEq, Eq)]
pub enum CodeBody {
    /// The text in one colour.
    Plain,
    /// The text in colours.
    Coloured(Vec<ColourRange>),
}

/// The body that highlighted lines make: plain where there are none.
pub open spec fn body_fits(hl: Option<Vec<Vec<Span>>>, b: CodeBody) -> bool {
    match hl {
        Some(v) if bytes_of_lines(span_lines(v@)) <= usize::MAX => b matches CodeBody::Coloured(
            ranges,
        ) && range_values(ranges@) == ranges_of(span_lines(v@)),
        _ => b is Plain,
    }
}

pub open spec fn str_view(s: Option<&str>) -> Option<Seq<char>> {
    match s {
        Some(t) => Some(t@),
        None => None,
    }
}

/// The body of a code block, and the cache behind it: what the cache has for
/// its lines, or what they look like. See [`code_body`].
pub open spec fn body_shown(
    before: MemoCache<Vec<Vec<Span>>>,
    after: MemoCache<Vec<Vec<Span>>>,
    dark: bool,
    prefix: Seq<char>,
    lang: Option<Seq<char>>,
    code: Seq<char>,
    r: CodeBody,
) -> bool {
    match lang {
        Some(l) if !code.contains('\r') => exists|hl: Option<Vec<Vec<Span>>>| #[trigger]
            body_fits(hl, r) && looked_up(
                before,
                after,
                window_key(dark, prefix + "-code"@, l),
                text_hash(fingerprint(l, lines(code))),
                lines_bytes(lines(code)),
                highlighted(l, dark, lines(code)),
                hl,
            ),
        _ => r is Plain && after == before,
    }
}

/// The body of a code block. With a carriage return in it the bytes of its
/// lines would not be those of the text, so it stays plain; so it does in a
/// language that is not known.
pub fn code_body(
    cache: &mut MemoCache<Vec<Vec<Span>>>,
    engine: &Engine,
    dark: bool,
    prefix: &str,
    lang: Option<&str>,
    code: &str,
) -> (r: CodeBody)
    requires
        old(cache).wf(),
        engine.wf(),
    ensures
        final(cache).wf(),
        body_shown(*old(cache), *final(cache), dark, prefix@, str_view(lang), code@, r),
{
    let cs = chars_of(code);
    let k = find_from(cs.as_slice(), 0, '\r');
    proof {
        lemma_first_at(cs@, 0, '\r');
        if k < cs@.len() {
            assert(cs@[k as int] == '\r');
        }
    }
    if k < cs.len() {
        return CodeBody::Plain;
    }
    let ls = lines_of(code);
    let mut refs: Vec<&str> = Vec::new();
    let mut i: usize = 0;
    while i < ls.len()
        invariant
            i <= ls@.len(),
            refs@.len() == i,
            forall|j: int| 0 <= j < i ==> (#[trigger] refs@[j])@ == ls@[j]@,
        decreases ls@.len() - i,
    {
        refs.push(ls[i].as_str());
        i = i + 1;
    }
    assert(str_views(refs@) =~= lines(code@)) by {
        assert(views(ls@) == lines(code@));
        assert forall|j: int| 0 <= j < refs@.len() implies str_views(refs@)[j] == lines(
            code@,
        )[j] by {
            assert(refs@[j]@ == ls@[j]@);
            assert(views(ls@)[j] == ls@[j]@);
        }
    }
    let key = cat2(prefix, "-code");
    match highlight_window(cache, engine, dark, key.as_str(), lang, refs.as_slice()) {
        Some(hl) => {
            let r = match colour_ranges(&*hl) {
                Some(ranges) => CodeBody::Coloured(ranges),
                None => CodeBody::Plain,
            };
            assert(body_fits(Some(*hl), r));
            r
        },
        None => {
            let none: Option<Vec<Vec<Span>>> = None;
            assert(body_fits(none, CodeBody::Plain));
            CodeBody::Plain
        },
    }
}

// ---------------------------------------------------------------------------
// Laws
// ---------------------------------------------------------------------------
/// Whether a range holds the bytes of a span, in its colour.
pub open spec fn shows(
    text: Seq<char>,
    r: RangeValue,
    spans: Seq<(u32, Seq<char>)>,
    j: int,
) -> bool {
    &&& 0 <= j < spans.len()
    &&& r.from < r.to <= byte_len(text)
    &&& r.colour == spans[j].0
    &&& encode_utf8(text).subrange(r.from as int, r.to as int) == encode_utf8(spans[j].1)
}

/// Lines with their ends.
pub open spec fn text_of_lines(v: Seq<Seq<(u32, Seq<char>)>>) -> Seq<char>
    decreases v.len(),
{
    if v.len() == 0 {
        Seq::empty()
    } else {
        text_of_lines(v.drop_last()) + spans_text(v.last()) + seq!['\n']
    }
}

proof fn lemma_line_shows(
    spans: Seq<(u32, Seq<char>)>,
    before: Seq<char>,
    after: Seq<char>,
    k: int,
) -> (j: int)
    requires
        0 <= k < line_ranges(spans, byte_len(before)).len(),
    ensures
        shows(
            before + spans_text(spans) + after,
            line_ranges(spans, byte_len(before))[k],
            spans,
            j,
        ),
    decreases spans.len(),
{
    let at = byte_len(before);
    let init = line_ranges(spans.drop_last(), at);
    let head = before + spans_text(spans.drop_last());
    let last = spans.last().1;
    let text = before + spans_text(spans) + after;
    assert(text =~= head + (last + after));
    if k < init.len() {
        let j = lemma_line_shows(spans.drop_last(), before, last + after, k);
        assert(before + spans_text(spans.drop_last()) + (last + after) =~= text);
        j
    } else {
        lemma_byte_len_concat(before, spans_text(spans.drop_last()));
        lemma_byte_len_concat(head, last + after);
        lemma_byte_len_concat(last, after);
        let from = byte_len(head) as int;
        let to = from + byte_len(last);
        assert(encode_utf8(text).subrange(from, to) =~= encode_utf8(last));
        spans.len() - 1
    }
}

// ---------------------------------------------------------------------------
// Blocks
// ---------------------------------------------------------------------------
/// What is shown of a block.
#[derive(Debug, PartialEq, Eq)]
pub enum BlockView {
    /// A heading, with the size of its letters.
    Heading { size: u32, text: String },
    Paragraph(String),
    /// A diagram, with its source.
    Diagram(String),
    Code { text: String, body: CodeBody },
    /// An item of a list, with its marker.
    Item { marker: String, text: String },
    Quote(String),
    Rule,
}

/// Whether a view shows a block: a code block that is a diagram of a supported
/// type is drawn, any other has a body.
pub open spec fn block_shown(
    before: MemoCache<Vec<Vec<Span>>>,
    after: MemoCache<Vec<Vec<Span>>>,
    dark: bool,
    prefix: Seq<char>,
    block: BlockValue,
    supported: bool,
    r: BlockView,
) -> bool {
    match block {
        BlockValue::Heading(level, t) => r matches BlockView::Heading { size, text } && size == (
        if level == 1 {
            16u32
        } else if level == 2 {
            15
        } else {
            14
        }) && text@ == t && after == before,
        BlockValue::Paragraph(t) => r matches BlockView::Paragraph(text) && text@ == t && after
            == before,
        BlockValue::Code(code, lang, closed) => if is_diagram(lang, closed, supported) {
            r matches BlockView::Diagram(text) && text@ == code && after == before
        } else {
            r matches BlockView::Code { text, body } && text@ == code && body_shown(
                before,
                after,
                dark,
                prefix,
                lang,
                code,
                body,
            )
        },
        BlockValue::Item(number, t) => r matches BlockView::Item { marker, text } && marker@
            == marker_of(number) && text@ == t && after == before,
        BlockValue::Quote(t) => r matches BlockView::Quote(text) && text@ == t && after == before,
        BlockValue::Rule => r is Rule && after == before,
    }
}

/// What is shown of a block. `supported` says whether its code, if it has any,
/// is a supported type of diagram.
pub fn render_block(
    cache: &mut MemoCache<Vec<Vec<Span>>>,
    engine: &Engine,
    dark: bool,
    prefix: &str,
    block: &Block,
    supported: bool,
) -> (r: BlockView)
    requires
        old(cache).wf(),
        engine.wf(),
    ensures
        final(cache).wf(),
        block_shown(*old(cache), *final(cache), dark, prefix@, block@, supported, r),
{
    match block {
        Block::Heading(level, text) => BlockView::Heading {
            size: heading_size(*level),
            text: owned(text.as_str()),
        },
        Block::Paragraph(text) => BlockView::Paragraph(owned(text.as_str())),
        Block::Code(code, lang, closed) => {
            if is_mermaid_block(lang, *closed, supported) {
                return BlockView::Diagram(owned(code.as_str()));
            }
            let name: Option<&str> = match lang {
                Some(l) => Some(l.as_str()),
                None => None,
            };
            let body = code_body(cache, engine, dark, prefix, name, code.as_str());
            BlockView::Code { text: owned(code.as_str()), body }
        },
        Block::Item(number, text) => BlockView::Item {
            marker: item_marker(*number),
            text: owned(text.as_str()),
        },
        Block::Quote(text) => BlockView::Quote(owned(text.as_str())),
        Block::Rule => BlockView::Rule,
    }
}

/// Every range holds the bytes of one span of the highlighted lines, in the
/// colour of that span.
pub proof fn law_ranges_show_the_spans(v: Seq<Seq<(u32, Seq<char>)>>, after: Seq<char>, k: int)
    requires
        0 <= k < ranges_of(v).len(),
    ensures
        exists|i: int, j: int|
            0 <= i < v.len() && #[trigger] shows(
                text_of_lines(v) + after,
                ranges_of(v)[k],
                v[i],
                j,
            ),
    decreases v.len(),
{
    let init = ranges_of(v.drop_last());
    let before = text_of_lines(v.drop_last());
    let line = spans_text(v.last());
    let rest = seq!['\n'] + after;
    let text = text_of_lines(v) + after;
    assert(text =~= before + (line + rest));
    assert(text =~= before + line + rest);
    if k < init.len() {
        law_ranges_show_the_spans(v.drop_last(), line + rest, k);
        let (i, j) = choose|i: int, j: int|
            0 <= i < v.drop_last().len() && #[trigger] shows(
                before + (line + rest),
                init[k],
                v.drop_last()[i],
                j,
            );
        assert(shows(text, ranges_of(v)[k], v[i], j));
    } else {
        lemma_text_bytes(v.drop_last());
        let j = lemma_line_shows(v.last(), before, rest, k - init.len());
        assert(shows(text, ranges_of(v)[k], v[v.len() - 1], j));
    }
}

proof fn lemma_text_bytes(v: Seq<Seq<(u32, Seq<char>)>>)
    ensures
        byte_len(text_of_lines(v)) == bytes_of_lines(v),
    decreases v.len(),
{
    if v.len() > 0 {
        let before = text_of_lines(v.drop_last());
        let line = spans_text(v.last());
        lemma_text_bytes(v.drop_last());
        lemma_byte_len_concat(before, line);
        lemma_byte_len_push(before + line, '\n');
        assert((before + line).push('\n') =~= before + line + seq!['\n']);
    }
}

proof fn lemma_line_ranges_lie(spans: Seq<(u32, Seq<char>)>, at: nat, k: int)
    requires
        0 <= k < line_ranges(spans, at).len(),
    ensures
        at <= line_ranges(spans, at)[k].from < line_ranges(spans, at)[k].to <= at + byte_len(
            spans_text(spans),
        ),
        k > 0 ==> line_ranges(spans, at)[k - 1].to <= line_ranges(spans, at)[k].from,
    decreases spans.len(),
{
    let init = line_ranges(spans.drop_last(), at);
    lemma_byte_len_concat(spans_text(spans.drop_last()), spans.last().1);
    if k < init.len() {
        lemma_line_ranges_lie(spans.drop_last(), at, k);
    } else if k > 0 {
        lemma_line_ranges_lie(spans.drop_last(), at, k - 1);
    }
}

/// The ranges stand in the order of the text and do not meet.
pub proof fn law_ranges_stand_in_order(v: Seq<Seq<(u32, Seq<char>)>>, k: int)
    requires
        0 <= k < ranges_of(v).len(),
    ensures
        ranges_of(v)[k].from < ranges_of(v)[k].to <= bytes_of_lines(v),
        k > 0 ==> ranges_of(v)[k - 1].to <= ranges_of(v)[k].from,
    decreases v.len(),
{
    let init = ranges_of(v.drop_last());
    let at = bytes_of_lines(v.drop_last());
    let last = line_ranges(v.last(), at);
    if k < init.len() {
        law_ranges_stand_in_order(v.drop_last(), k);
    } else {
        lemma_line_ranges_lie(v.last(), at, k - init.len());
        if k == init.len() && k > 0 {
            law_ranges_stand_in_order(v.drop_last(), k - 1);
        }
    }
}

proof fn lemma_line_range_of(spans: Seq<(u32, Seq<char>)>, at: nat, j: int) -> (k: int)
    requires
        0 <= j < spans.len(),
        byte_len(spans[j].1) > 0,
    ensures
        0 <= k < line_ranges(spans, at).len(),
        line_ranges(spans, at)[k] == (RangeValue {
            from: at + byte_len(spans_text(spans.take(j))),
            to: at + byte_len(spans_text(spans.take(j))) + byte_len(spans[j].1),
            colour: spans[j].0,
        }),
    decreases spans.len(),
{
    if j < spans.len() - 1 {
        assert(spans.drop_last().take(j) =~= spans.take(j));
        lemma_line_range_of(spans.drop_last(), at, j)
    } else {
        assert(spans.drop_last() =~= spans.take(j));
        line_ranges(spans, at).len() - 1
    }
}

/// Every span with a text has a range in its colour, which begins behind the
/// lines and the spans before it and is as long as the span.
pub proof fn law_every_span_has_a_range(v: Seq<Seq<(u32, Seq<char>)>>, i: int, j: int) -> (k: int)
    requires
        0 <= i < v.len(),
        0 <= j < v[i].len(),
        byte_len(v[i][j].1) > 0,
    ensures
        0 <= k < ranges_of(v).len(),
        ranges_of(v)[k].colour == v[i][j].0,
        ranges_of(v)[k].from == byte_len(text_of_lines(v.take(i))) + byte_len(
            spans_text(v[i].take(j)),
        ),
        ranges_of(v)[k].to == ranges_of(v)[k].from + byte_len(v[i][j].1),
    decreases v.len(),
{
    let init = ranges_of(v.drop_last());
    if i < v.len() - 1 {
        assert(v.drop_last().take(i) =~= v.take(i));
        law_every_span_has_a_range(v.drop_last(), i, j)
    } else {
        assert(v.drop_last() =~= v.take(i));
        lemma_text_bytes(v.take(i));
        let k = lemma_line_range_of(v.last(), bytes_of_lines(v.drop_last()), j);
        init.len() + k
    }
}

/// Code in no known language is shown plain, and so is code with carriage
/// returns.
pub proof fn law_code_without_a_language_is_plain(
    cache: &mut MemoCache<Vec<Vec<Span>>>,
    engine: &Engine,
    dark: bool,
    prefix: &str,
    lang: Option<&str>,
    code: &str,
    r: CodeBody,
)
    requires
        call_ensures(code_body, (cache, engine, dark, prefix, lang, code), r),
        lang is None || code@.contains('\r'),
    ensures
        r is Plain,
        *final(cache) == *old(cache),
{
}

/// A block is shown with its own text. Of two headings the deeper one is never
/// larger, and the first two levels stand out.
pub proof fn law_blocks_are_shown_with_their_text(
    cache: &mut MemoCache<Vec<Vec<Span>>>,
    engine: &Engine,
    dark: bool,
    prefix: &str,
    block: &Block,
    supported: bool,
    r: BlockView,
)
    requires
        call_ensures(render_block, (cache, engine, dark, prefix, block, supported), r),
    ensures
        block@ matches BlockValue::Heading(level, t) ==> (
        r matches BlockView::Heading { size, text } && text@ == t && (level <= 1 && level > 0
            ==> size == 16) && (level == 2 ==> size == 15) && (level > 2 ==> size == 14)),
        block@ matches BlockValue::Paragraph(t) ==> (r matches BlockView::Paragraph(text) && text@
            == t),
        block@ matches BlockValue::Quote(t) ==> (r matches BlockView::Quote(text) && text@ == t),
        block@ is Rule <==> r is Rule,
        block@ matches BlockValue::Item(number, t) ==> (r matches BlockView::Item { marker, text }
            && text@ == t && match number {
            Some(n) => marker@ == crate::decimal::dec(n as nat) + ". "@,
            None => marker@ == "• "@,
        }),
        block@ matches BlockValue::Code(code, lang, closed) ==> (r is Diagram <==> closed
            && supported && lang is Some && crate::markdown::same_ignoring_case(
            lang->0,
            "mermaid"@,
        )),
        block@ matches BlockValue::Code(code, lang, closed) ==> (match r {
            BlockView::Diagram(text) => text@ == code,
            BlockView::Code { text, body } => text@ == code && (lang is None ==> body is Plain),
            _ => false,
        }),
{
}

} // verus!
