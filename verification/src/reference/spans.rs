//! The `@` references of a text, as spans that a view can draw.

use crate::reference::session::{
    decode_session_uri, find_mentions, is_plain_uri, lemma_one_mention, mention_at, mentions_from,
    session_id_of, session_mention_of, Mention,
};
use crate::reference::token::file_mention_of;
use crate::scan::{
    find_from, first_at, has_white, lemma_first_at, lemma_first_at_is, trim_end_char,
    trim_end_char_index,
};
use crate::text::{
    ascii_white, byte_len, byte_offsets, chars_of, is_ascii_white, is_white, lemma_byte_len_concat,
    lemma_byte_len_prefix, string_of_range,
};
use vstd::prelude::*;

verus! {

/// What a span refers to.
#[derive(Debug, Clone, Copy, PartialEq, Eq, Structural)]
pub enum AtKind {
    /// A session, `@[label](dsh-session:...)`.
    Session,
    /// A file, `@path` or `@"path with spaces"`.
    File,
    /// A directory, `@dir/`.
    Folder,
}

/// A reference in a text.
#[derive(Debug, Clone, PartialEq, Eq)]
pub struct AtToken {
    pub kind: AtKind,
    /// The text to show: the path or the label of a session.
    pub label: String,
    /// Byte offset of the `@`.
    pub start: usize,
    /// Byte offset behind the token.
    pub end: usize,
}

/// The mathematical value of a reference.
#[verifier::ext_equal]
pub struct TokenValue {
    pub kind: AtKind,
    pub label: Seq<char>,
    pub start: nat,
    pub end: nat,
}

impl View for AtToken {
    type V = TokenValue;

    open spec fn view(&self) -> TokenValue {
        TokenValue {
            kind: self.kind,
            label: self.label@,
            start: self.start as nat,
            end: self.end as nat,
        }
    }
}

pub open spec fn token_values(v: Seq<AtToken>) -> Seq<TokenValue> {
    v.map_values(|t: AtToken| t@)
}

/// A reference by character positions.
#[verifier::ext_equal]
pub struct Span {
    pub kind: AtKind,
    pub label: Seq<char>,
    pub from: int,
    pub to: int,
}

// ---------------------------------------------------------------------------
// Which spans a text has
// ---------------------------------------------------------------------------
/// The sessions among mentions: those whose URI holds an id.
pub open spec fn session_spans(s: Seq<char>, ms: Seq<Mention>) -> Seq<Span>
    decreases ms.len(),
{
    if ms.len() == 0 {
        Seq::empty()
    } else {
        let init = session_spans(s, ms.drop_last());
        let m = ms.last();
        if session_id_of(m.uri(s)) is Some {
            init.push(
                Span {
                    kind: AtKind::Session,
                    label: m.label(s),
                    from: m.start as int,
                    to: m.end as int,
                },
            )
        } else {
            init
        }
    }
}

/// Whether a position lies in one of the spans.
pub open spec fn covered(spans: Seq<Span>, i: int) -> bool {
    exists|k: int| 0 <= k < spans.len() && (#[trigger] spans[k]).from <= i < spans[k].to
}

/// Punctuation that does not belong to a path at whose end it stands.
pub open spec fn is_trailing_punct(c: char) -> bool {
    c == '.' || c == ',' || c == ';' || c == ':' || c == '!' || c == '?' || c == '。' || c == '，'
        || c == '；' || c == '：' || c == '！' || c == '？' || c == ')' || c == '」' || c == '』'
}

/// A text without the punctuation at its end.
pub open spec fn trim_punct_of(s: Seq<char>) -> Seq<char>
    decreases s.len(),
{
    if s.len() > 0 && is_trailing_punct(s.last()) {
        trim_punct_of(s.drop_last())
    } else {
        s
    }
}

/// End of the run without ASCII white space that starts at `i`.
pub open spec fn word_end(s: Seq<char>, i: int) -> int
    decreases s.len() - i,
{
    if 0 <= i < s.len() && !is_ascii_white(s[i]) {
        word_end(s, i + 1)
    } else {
        i
    }
}

/// The span of a path. A quoted path is shown as it is; of a bare one, a
/// slash at the end makes it a directory and is not shown.
pub open spec fn path_span(from: int, to: int, content: Seq<char>, quoted: bool) -> Span {
    Span {
        kind: if !quoted && content.len() > 0 && content.last() == '/' {
            AtKind::Folder
        } else {
            AtKind::File
        },
        label: if quoted {
            content
        } else {
            trim_end_char(content, '/')
        },
        from,
        to,
    }
}

/// Whether a path reference may start at `i`: an `@` outside the sessions, at
/// the start of the text or behind white space.
pub open spec fn starts_path(s: Seq<char>, sessions: Seq<Span>, i: int) -> bool {
    s[i] == '@' && !covered(sessions, i) && (i == 0 || is_ascii_white(s[i - 1]))
}

/// The file and directory references from position `i` on.
pub open spec fn path_spans(s: Seq<char>, sessions: Seq<Span>, i: int) -> Seq<Span>
    decreases s.len() - i,
{
    if i < 0 || i >= s.len() {
        Seq::empty()
    } else if !starts_path(s, sessions, i) {
        path_spans(s, sessions, i + 1)
    } else if i + 1 < s.len() && s[i + 1] == '"' {
        let close = first_at(s, i + 2, '"');
        if close < i + 2 || close >= s.len() {
            path_spans(s, sessions, i + 1)
        } else {
            let raw = s.subrange(i + 2, close);
            let rest = path_spans(s, sessions, close + 1);
            if raw.len() > 0 {
                seq![path_span(i, close + 1, raw, true)] + rest
            } else {
                rest
            }
        }
    } else {
        let j = word_end(s, i + 1);
        if j <= i || j > s.len() {
            Seq::empty()
        } else {
            let path = trim_punct_of(s.subrange(i + 1, j));
            let rest = path_spans(s, sessions, j);
            if path.len() > 0 {
                seq![path_span(i, i + 1 + path.len(), path, false)] + rest
            } else {
                rest
            }
        }
    }
}

/// Two lists of spans in one, by position.
pub open spec fn by_position(a: Seq<Span>, b: Seq<Span>) -> Seq<Span>
    decreases a.len() + b.len(),
{
    if a.len() == 0 {
        b
    } else if b.len() == 0 {
        a
    } else if a[0].from <= b[0].from {
        seq![a[0]] + by_position(a.drop_first(), b)
    } else {
        seq![b[0]] + by_position(a, b.drop_first())
    }
}

/// The spans that do not start inside a kept one before them.
pub open spec fn without_overlaps(spans: Seq<Span>) -> Seq<Span>
    decreases spans.len(),
{
    if spans.len() == 0 {
        Seq::empty()
    } else {
        let init = without_overlaps(spans.drop_last());
        if init.len() > 0 && spans.last().from < init.last().to {
            init
        } else {
            init.push(spans.last())
        }
    }
}

/// The references of a text.
pub open spec fn spans_of(s: Seq<char>) -> Seq<Span> {
    let sessions = session_spans(s, mentions_from(s, 0));
    without_overlaps(by_position(sessions, path_spans(s, sessions, 0)))
}

/// The references of a text, by byte offsets.
pub open spec fn tokens_of(s: Seq<char>) -> Seq<TokenValue> {
    spans_of(s).map_values(
        |p: Span|
            TokenValue {
                kind: p.kind,
                label: p.label,
                start: byte_len(s.take(p.from)),
                end: byte_len(s.take(p.to)),
            },
    )
}

// ---------------------------------------------------------------------------
// Finding them
// ---------------------------------------------------------------------------
/// A reference by character positions, as it is found.
struct Found {
    kind: AtKind,
    label: String,
    from: usize,
    to: usize,
}

impl Found {
    spec fn span(self) -> Span {
        Span { kind: self.kind, label: self.label@, from: self.from as int, to: self.to as int }
    }
}

spec fn found_spans(v: Seq<Found>) -> Seq<Span> {
    v.map_values(|f: Found| f.span())
}

/// Spans that are not empty and lie in a text of the given length.
spec fn fit(spans: Seq<Span>, n: int) -> bool {
    forall|k: int| 0 <= k < spans.len() ==> 0 <= (#[trigger] spans[k]).from < spans[k].to <= n
}

proof fn lemma_push_found(v: Seq<Found>, f: Found)
    ensures
        found_spans(v.push(f)) == found_spans(v).push(f.span()),
{
    assert(found_spans(v.push(f)) =~= found_spans(v).push(f.span()));
}

fn find_sessions(cs: &[char]) -> (r: Vec<Found>)
    ensures
        found_spans(r@) == session_spans(cs@, mentions_from(cs@, 0)),
        fit(found_spans(r@), cs@.len() as int),
{
    let mentions = find_mentions(cs);
    let mut out: Vec<Found> = Vec::new();
    let mut i: usize = 0;
    assert(mentions@.take(0) =~= Seq::<Mention>::empty());
    assert(found_spans(out@) =~= Seq::<Span>::empty());
    while i < mentions.len()
        invariant
            i <= mentions@.len(),
            forall|k: int| 0 <= k < mentions@.len() ==> (#[trigger] mentions@[k]).inside(cs@),
            found_spans(out@) == session_spans(cs@, mentions@.take(i as int)),
            fit(found_spans(out@), cs@.len() as int),
        decreases mentions@.len() - i,
    {
        let m = mentions[i];
        assert(mentions@.take(i + 1).drop_last() =~= mentions@.take(i as int));
        assert(mentions@.take(i + 1).last() == m);
        let uri = string_of_range(cs, m.close + 2, m.end - 1);
        if decode_session_uri(uri.as_str()).is_some() {
            let label = string_of_range(cs, m.start + 2, m.close);
            let f = Found { kind: AtKind::Session, label, from: m.start, to: m.end };
            proof {
                lemma_push_found(out@, f);
            }
            out.push(f);
        }
        i = i + 1;
    }
    assert(mentions@.take(i as int) =~= mentions@);
    out
}

fn covered_by_session(sessions: &Vec<Found>, i: usize) -> (r: bool)
    ensures
        r == covered(found_spans(sessions@), i as int),
{
    let ghost spans = found_spans(sessions@);
    let mut k: usize = 0;
    while k < sessions.len()
        invariant
            spans == found_spans(sessions@),
            k <= sessions@.len(),
            forall|j: int| 0 <= j < k ==> !((#[trigger] spans[j]).from <= i < spans[j].to),
        decreases sessions@.len() - k,
    {
        if sessions[k].from <= i && i < sessions[k].to {
            assert(spans[k as int].from <= i < spans[k as int].to);
            return true;
        }
        k = k + 1;
    }
    false
}

fn trailing_punct(c: char) -> (r: bool)
    ensures
        r == is_trailing_punct(c),
{
    c == '.' || c == ',' || c == ';' || c == ':' || c == '!' || c == '?' || c == '。' || c == '，'
        || c == '；' || c == '：' || c == '！' || c == '？' || c == ')' || c == '」' || c == '』'
}

/// Index behind the part of `cs[from..to]` that is left without the
/// punctuation at its end.
fn trim_punct(cs: &[char], from: usize, to: usize) -> (k: usize)
    requires
        from <= to <= cs@.len(),
    ensures
        from <= k <= to,
        trim_punct_of(cs@.subrange(from as int, to as int)) == cs@.subrange(from as int, k as int),
{
    let mut k: usize = to;
    while k > from && trailing_punct(cs[k - 1])
        invariant
            from <= k <= to <= cs@.len(),
            trim_punct_of(cs@.subrange(from as int, to as int)) == trim_punct_of(
                cs@.subrange(from as int, k as int),
            ),
        decreases k,
    {
        assert(cs@.subrange(from as int, k as int).drop_last() =~= cs@.subrange(
            from as int,
            k - 1,
        ));
        k = k - 1;
    }
    k
}

/// The span of the path `cs[a..b]`.
fn plain_found(cs: &[char], from: usize, to: usize, a: usize, b: usize, quoted: bool) -> (r: Found)
    requires
        a < b <= cs@.len(),
    ensures
        r.span() == path_span(
            from as int,
            to as int,
            cs@.subrange(a as int, b as int),
            quoted,
        ),
{
    let is_dir = !quoted && cs[b - 1] == '/';
    let end = if quoted {
        b
    } else {
        trim_end_char_index(cs, a, b, '/')
    };
    let label = string_of_range(cs, a, end);
    Found {
        kind: if is_dir {
            AtKind::Folder
        } else {
            AtKind::File
        },
        label,
        from,
        to,
    }
}

proof fn lemma_word_end(s: Seq<char>, i: int)
    requires
        0 <= i <= s.len(),
    ensures
        i <= word_end(s, i) <= s.len(),
    decreases s.len() - i,
{
    if i < s.len() && !is_ascii_white(s[i]) {
        lemma_word_end(s, i + 1);
    }
}

fn find_word_end(cs: &[char], i: usize) -> (j: usize)
    requires
        i <= cs@.len(),
    ensures
        j == word_end(cs@, i as int),
        i <= j <= cs@.len(),
{
    let mut j: usize = i;
    while j < cs.len() && !ascii_white(cs[j])
        invariant
            i <= j <= cs@.len(),
            word_end(cs@, j as int) == word_end(cs@, i as int),
        decreases cs@.len() - j,
    {
        j = j + 1;
    }
    j
}

fn scan_plain_at(cs: &[char], sessions: &Vec<Found>) -> (r: Vec<Found>)
    ensures
        found_spans(r@) == path_spans(cs@, found_spans(sessions@), 0),
        fit(found_spans(r@), cs@.len() as int),
{
    let ghost sess = found_spans(sessions@);
    let mut out: Vec<Found> = Vec::new();
    let mut i: usize = 0;
    assert(found_spans(out@) + path_spans(cs@, sess, 0) =~= path_spans(cs@, sess, 0));
    while i < cs.len()
        invariant
            sess == found_spans(sessions@),
            i <= cs@.len(),
            found_spans(out@) + path_spans(cs@, sess, i as int) == path_spans(cs@, sess, 0),
            fit(found_spans(out@), cs@.len() as int),
        decreases cs@.len() - i,
    {
        let ghost before = out@;
        if cs[i] != '@' || covered_by_session(sessions, i) || (i > 0 && !ascii_white(cs[i - 1])) {
            i = i + 1;
        } else if i + 1 < cs.len() && cs[i + 1] == '"' {
            let close = find_from(cs, i + 2, '"');
            if close < cs.len() {
                if close > i + 2 {
                    let f = plain_found(cs, i, close + 1, i + 2, close, true);
                    proof {
                        lemma_push_found(before, f);
                        assert(found_spans(before).push(f.span()) + path_spans(
                            cs@,
                            sess,
                            close + 1,
                        ) =~= found_spans(before) + path_spans(cs@, sess, i as int));
                    }
                    out.push(f);
                } else {
                    assert(found_spans(before) + path_spans(cs@, sess, close + 1) =~= found_spans(
                        before,
                    ) + path_spans(cs@, sess, i as int));
                }
                i = close + 1;
            } else {
                i = i + 1;
            }
        } else {
            let j = find_word_end(cs, i + 1);
            let end = trim_punct(cs, i + 1, j);
            assert(trim_punct_of(cs@.subrange(i + 1, j as int)).len() == end - (i + 1));
            if end > i + 1 {
                let f = plain_found(cs, i, end, i + 1, end, false);
                proof {
                    lemma_push_found(before, f);
                    assert(found_spans(before).push(f.span()) + path_spans(cs@, sess, j as int)
                        =~= found_spans(before) + path_spans(cs@, sess, i as int));
                }
                out.push(f);
            }
            i = j;
        }
    }
    assert(found_spans(out@) + Seq::<Span>::empty() =~= found_spans(out@));
    out
}

fn take_found(f: &Found) -> (r: Found)
    ensures
        r.span() == f.span(),
{
    Found { kind: f.kind, label: f.label.clone(), from: f.from, to: f.to }
}

proof fn lemma_fit_push(a: Seq<Span>, b: Seq<Span>, out: Seq<Span>, f: Span)
    requires
        forall|n: int| fit(a, n) && fit(b, n) ==> #[trigger] fit(out, n),
        a.contains(f) || b.contains(f),
    ensures
        forall|n: int| fit(a, n) && fit(b, n) ==> #[trigger] fit(out.push(f), n),
{
    assert forall|n: int| fit(a, n) && fit(b, n) implies #[trigger] fit(out.push(f), n) by {
        assert(fit(out, n));
        if a.contains(f) {
            let w = choose|w: int| 0 <= w < a.len() && a[w] == f;
            assert(a[w].from < a[w].to);
        } else {
            let w = choose|w: int| 0 <= w < b.len() && b[w] == f;
            assert(b[w].from < b[w].to);
        }
    }
}

fn in_order(a: &Vec<Found>, b: &Vec<Found>) -> (r: Vec<Found>)
    ensures
        found_spans(r@) == by_position(found_spans(a@), found_spans(b@)),
        forall|n: int| fit(found_spans(a@), n) && fit(found_spans(b@), n) ==> #[trigger] fit(
            found_spans(r@),
            n,
        ),
{
    let ghost sa = found_spans(a@);
    let ghost sb = found_spans(b@);
    let mut out: Vec<Found> = Vec::new();
    let mut i: usize = 0;
    let mut k: usize = 0;
    assert(sa.skip(0) =~= sa && sb.skip(0) =~= sb);
    assert(found_spans(out@) + by_position(sa, sb) =~= by_position(sa, sb));
    while i < a.len() || k < b.len()
        invariant
            sa == found_spans(a@),
            sb == found_spans(b@),
            i <= a@.len(),
            k <= b@.len(),
            found_spans(out@) + by_position(sa.skip(i as int), sb.skip(k as int)) == by_position(
                sa,
                sb,
            ),
            forall|n: int| fit(sa, n) && fit(sb, n) ==> #[trigger] fit(found_spans(out@), n),
        decreases a@.len() - i + b@.len() - k,
    {
        let ghost before = out@;
        let from_a = k >= b.len() || (i < a.len() && a[i].from <= b[k].from);
        let ghost ra = sa.skip(i as int);
        let ghost rb = sb.skip(k as int);
        if from_a {
            let f = take_found(&a[i]);
            proof {
                lemma_push_found(before, f);
                assert(sa[i as int] == f.span());
                assert(ra[0] == f.span());
                assert(ra.drop_first() =~= sa.skip(i + 1));
                if rb.len() == 0 {
                    assert(by_position(ra, rb) =~= seq![ra[0]] + by_position(ra.drop_first(), rb));
                } else {
                    assert(rb[0] == sb[k as int]);
                }
                assert(found_spans(before).push(f.span()) + by_position(sa.skip(i + 1), rb)
                    =~= found_spans(before) + by_position(ra, rb));
            }
            out.push(f);
            proof {
                lemma_fit_push(sa, sb, found_spans(before), f.span());
            }
            i = i + 1;
        } else {
            let f = take_found(&b[k]);
            proof {
                lemma_push_found(before, f);
                assert(sb[k as int] == f.span());
                assert(rb[0] == f.span());
                assert(rb.drop_first() =~= sb.skip(k + 1));
                if ra.len() == 0 {
                    assert(by_position(ra, rb) =~= seq![rb[0]] + by_position(ra, rb.drop_first()));
                } else {
                    assert(ra[0] == sa[i as int]);
                }
                assert(found_spans(before).push(f.span()) + by_position(ra, sb.skip(k + 1))
                    =~= found_spans(before) + by_position(ra, rb));
            }
            out.push(f);
            proof {
                lemma_fit_push(sa, sb, found_spans(before), f.span());
            }
            k = k + 1;
        }
    }
    proof {
        assert(by_position(sa.skip(i as int), sb.skip(k as int)) =~= Seq::<Span>::empty());
        assert(found_spans(out@) + Seq::<Span>::empty() =~= found_spans(out@));
    }
    out
}

/// Finds the references of a text: session mentions, then paths outside them.
/// The spans come in order and do not overlap.
pub fn scan_at_tokens(text: &str) -> (r: Vec<AtToken>)
    ensures
        token_values(r@) == tokens_of(text@),
        forall|i: int, j: int|
            0 <= i < j < r@.len() ==> (#[trigger] r@[i]).end <= (#[trigger] r@[j]).start,
        forall|i: int|
            0 <= i < r@.len() ==> (#[trigger] r@[i]).start < r@[i].end <= byte_len(text@),
{
    let cs = chars_of(text);
    let sessions = find_sessions(cs.as_slice());
    let plain = scan_plain_at(cs.as_slice(), &sessions);
    let all = in_order(&sessions, &plain);
    let ghost merged = found_spans(all@);
    assert(fit(merged, cs@.len() as int));
    let offsets = byte_offsets(cs.as_slice());
    let ghost f = |p: Span|
        TokenValue {
            kind: p.kind,
            label: p.label,
            start: byte_len(text@.take(p.from)),
            end: byte_len(text@.take(p.to)),
        };
    let mut out: Vec<AtToken> = Vec::new();
    let mut reach: usize = 0;
    let mut i: usize = 0;
    assert(merged.take(0) =~= Seq::<Span>::empty());
    assert(token_values(out@) =~= without_overlaps(merged.take(0)).map_values(f));
    while i < all.len()
        invariant
            cs@ == text@,
            merged == found_spans(all@),
            fit(merged, cs@.len() as int),
            offsets@.len() == cs@.len() + 1,
            forall|k: int| 0 <= k <= cs@.len() ==> #[trigger] offsets@[k] == byte_len(cs@.take(k)),
            f == (|p: Span|
                TokenValue {
                    kind: p.kind,
                    label: p.label,
                    start: byte_len(text@.take(p.from)),
                    end: byte_len(text@.take(p.to)),
                }),
            i <= all@.len(),
            token_values(out@) == without_overlaps(merged.take(i as int)).map_values(f),
            without_overlaps(merged.take(i as int)).len() == out@.len(),
            out@.len() == 0 ==> reach == 0,
            out@.len() > 0 ==> reach == without_overlaps(merged.take(i as int)).last().to,
        decreases all@.len() - i,
    {
        let t = &all[i];
        let ghost before = out@;
        let ghost kept = without_overlaps(merged.take(i as int));
        proof {
            assert(merged.take(i + 1).drop_last() =~= merged.take(i as int));
            assert(merged.take(i + 1).last() == t.span());
            assert(merged[i as int] == t.span());
        }
        if t.from >= reach {
            let token = AtToken {
                kind: t.kind,
                label: t.label.clone(),
                start: offsets[t.from],
                end: offsets[t.to],
            };
            out.push(token);
            reach = t.to;
            proof {
                assert(token_values(out@) =~= token_values(before).push(token@));
                assert(kept.push(t.span()).map_values(f) =~= kept.map_values(f).push(f(t.span())));
            }
        }
        i = i + 1;
    }
    proof {
        assert(merged.take(i as int) =~= merged);
        assert(merged == by_position(found_spans(sessions@), found_spans(plain@)));
        assert(token_values(out@) == tokens_of(text@));
        lemma_tokens_ordered(text@, merged);
        assert forall|i: int| 0 <= i < out@.len() implies (#[trigger] out@[i]).start < out@[i].end
            <= byte_len(text@) by {
            assert(token_values(out@)[i] == out@[i]@);
        }
        assert forall|i: int, j: int| 0 <= i < j < out@.len() implies (#[trigger] out@[i]).end <= (
        #[trigger] out@[j]).start by {
            assert(token_values(out@)[i] == out@[i]@);
            assert(token_values(out@)[j] == out@[j]@);
        }
    }
    out
}

proof fn lemma_kept(spans: Seq<Span>, n: int)
    requires
        fit(spans, n),
    ensures
        fit(without_overlaps(spans), n),
        forall|i: int, j: int|
            0 <= i < j < without_overlaps(spans).len() ==> (#[trigger] without_overlaps(
                spans,
            )[i]).to <= (#[trigger] without_overlaps(spans)[j]).from,
    decreases spans.len(),
{
    if spans.len() > 0 {
        let init = spans.drop_last();
        assert(fit(init, n)) by {
            assert forall|k: int| 0 <= k < init.len() implies 0 <= (#[trigger] init[k]).from
                < init[k].to <= n by {
                assert(init[k] == spans[k]);
            }
        }
        lemma_kept(init, n);
        assert(spans.last() == spans[spans.len() - 1]);
        let kept = without_overlaps(init);
        let all = without_overlaps(spans);
        if all.len() > kept.len() {
            assert forall|i: int, j: int| 0 <= i < j < all.len() implies (#[trigger] all[i]).to <= (
            #[trigger] all[j]).from by {
                if j == kept.len() {
                    if i < kept.len() - 1 {
                        assert(kept[i].to <= kept[kept.len() - 1].from);
                        assert(kept[kept.len() - 1].from < kept[kept.len() - 1].to);
                    }
                } else {
                    assert(all[i] == kept[i] && all[j] == kept[j]);
                }
            }
        }
    }
}

proof fn lemma_tokens_ordered(s: Seq<char>, merged: Seq<Span>)
    requires
        fit(merged, s.len() as int),
    ensures
        ({
            let t = without_overlaps(merged).map_values(
                |p: Span|
                    TokenValue {
                        kind: p.kind,
                        label: p.label,
                        start: byte_len(s.take(p.from)),
                        end: byte_len(s.take(p.to)),
                    },
            );
            &&& forall|i: int| 0 <= i < t.len()
                ==> (#[trigger] t[i]).start < t[i].end <= byte_len(s)
            &&& forall|i: int, j: int|
                0 <= i < j < t.len() ==> (#[trigger] t[i]).end <= (#[trigger] t[j]).start
        }),
{
    lemma_kept(merged, s.len() as int);
    let kept = without_overlaps(merged);
    assert forall|i: int| 0 <= i < kept.len() implies byte_len(s.take((#[trigger] kept[i]).from))
        < byte_len(s.take(kept[i].to)) <= byte_len(s) by {
        lemma_byte_len_prefix(s, kept[i].from, kept[i].to);
    }
    assert forall|i: int, j: int| 0 <= i < j < kept.len() implies byte_len(
        s.take((#[trigger] kept[i]).to),
    ) <= byte_len(s.take((#[trigger] kept[j]).from)) by {
        lemma_byte_len_prefix(s, kept[i].to, kept[j].from);
    }
}

// ---------------------------------------------------------------------------
// Laws
// ---------------------------------------------------------------------------
/// A path reference never starts inside a session mention.
pub proof fn law_paths_start_outside_sessions(
    s: Seq<char>,
    sessions: Seq<Span>,
    from: int,
    k: int,
)
    requires
        0 <= from,
        0 <= k < path_spans(s, sessions, from).len(),
    ensures
        !covered(sessions, path_spans(s, sessions, from)[k].from),
        path_spans(s, sessions, from)[k].kind != AtKind::Session,
    decreases s.len() - from,
{
    let all = path_spans(s, sessions, from);
    if from < s.len() {
        if !starts_path(s, sessions, from) {
            law_paths_start_outside_sessions(s, sessions, from + 1, k);
        } else if from + 1 < s.len() && s[from + 1] == '"' {
            let close = first_at(s, from + 2, '"');
            lemma_first_at(s, from + 2, '"');
            if close >= s.len() {
                law_paths_start_outside_sessions(s, sessions, from + 1, k);
            } else if s.subrange(from + 2, close).len() > 0 {
                if k > 0 {
                    assert(all[k] == path_spans(s, sessions, close + 1)[k - 1]);
                    law_paths_start_outside_sessions(s, sessions, close + 1, k - 1);
                }
            } else {
                law_paths_start_outside_sessions(s, sessions, close + 1, k);
            }
        } else {
            let j = word_end(s, from + 1);
            lemma_word_end(s, from + 1);
            if trim_punct_of(s.subrange(from + 1, j)).len() > 0 {
                if k > 0 {
                    assert(all[k] == path_spans(s, sessions, j)[k - 1]);
                    law_paths_start_outside_sessions(s, sessions, j, k - 1);
                }
            } else {
                law_paths_start_outside_sessions(s, sessions, j, k);
            }
        }
    }
}

/// An `@` with a character before it that is not white space starts no path
/// reference, so addresses such as `user@host` are left alone.
pub proof fn law_addresses_are_ignored(s: Seq<char>, sessions: Seq<Span>, i: int)
    requires
        0 < i < s.len(),
        s[i] == '@',
        !is_ascii_white(s[i - 1]),
    ensures
        !starts_path(s, sessions, i),
        path_spans(s, sessions, i) == path_spans(s, sessions, i + 1),
{
}

/// Whether a path can be told from the start of a session mention, and has no
/// quotation mark.
pub open spec fn is_plain_path(path: Seq<char>) -> bool {
    &&& path.len() > 0
    &&& path[0] != '['
    &&& !path.contains('"')
    &&& forall|i: int| 0 <= i && i + 1 < path.len() && #[trigger] path[i] == '@'
        ==> path[i + 1] != '['
}

proof fn lemma_no_mentions(s: Seq<char>, i: int)
    requires
        0 <= i,
        forall|k: int| 0 <= k && k + 1 < s.len() && #[trigger] s[k] == '@' ==> s[k + 1] != '[',
    ensures
        mentions_from(s, i) == Seq::<Mention>::empty(),
    decreases s.len() - i,
{
    if i < s.len() {
        assert(mention_at(s, i) is None);
        lemma_no_mentions(s, i + 1);
    }
}

proof fn lemma_word_to_end(s: Seq<char>, i: int)
    requires
        0 <= i <= s.len(),
        forall|k: int| i <= k < s.len() ==> !is_ascii_white(#[trigger] s[k]),
    ensures
        word_end(s, i) == s.len(),
    decreases s.len() - i,
{
    if i < s.len() {
        lemma_word_to_end(s, i + 1);
    }
}

/// Scanning the mention of a file gives back one reference to it, over the
/// whole mention. A path without white space must not end in what belongs to
/// the text around a mention, nor in a slash, which makes it a directory.
pub proof fn law_file_mention_round_trip(path: Seq<char>)
    requires
        is_plain_path(path),
        has_white(path) || (path.last() != '/' && !is_trailing_punct(path.last())),
    ensures
        tokens_of(file_mention_of(path)) == seq![
            TokenValue {
                kind: AtKind::File,
                label: path,
                start: 0,
                end: byte_len(file_mention_of(path)),
            },
        ],
{
    let s = file_mention_of(path);
    let n = s.len() as int;
    reveal_strlit("@\"");
    reveal_strlit("@");
    reveal_strlit("\"");
    let ahead: int = if has_white(path) {
        2
    } else {
        1
    };
    assert(s[0] == '@');
    assert(s.subrange(ahead, ahead + path.len()) =~= path);
    assert forall|k: int| 0 <= k && k + 1 < s.len() && #[trigger] s[k] == '@' implies s[k + 1]
        != '[' by {
        if k >= ahead && k < ahead + path.len() {
            assert(s[k] == path[k - ahead]);
            if k + 1 < ahead + path.len() {
                assert(s[k + 1] == path[k + 1 - ahead]);
            }
        }
    }
    lemma_no_mentions(s, 0);
    let none = Seq::<Span>::empty();
    assert(session_spans(s, mentions_from(s, 0)) =~= none);
    assert(starts_path(s, none, 0));
    if has_white(path) {
        assert(s[1] == '"' && s[n - 1] == '"');
        assert forall|k: int| 2 <= k < n - 1 implies #[trigger] s[k] != '"' by {
            assert(s[k] == path[k - 2]);
            assert(path.contains(path[k - 2]));
        }
        lemma_first_at_is(s, 2, '"', n - 1);
        assert(path_spans(s, none, n) =~= none);
        assert(s.subrange(2, n - 1) =~= path);
        assert(path_spans(s, none, 0) =~= seq![path_span(0, n, path, true)]);
    } else {
        assert(s[1] == path[0]);
        assert(path.contains(path[0]));
        assert forall|k: int| 1 <= k < s.len() implies !is_ascii_white(#[trigger] s[k]) by {
            assert(s[k] == path[k - 1]);
            assert(!is_white(path[k - 1]));
        }
        lemma_word_to_end(s, 1);
        assert(s.subrange(1, n) =~= path);
        assert(trim_punct_of(path) == path);
        assert(path_spans(s, none, n) =~= none);
        assert(trim_end_char(path, '/') == path);
        assert(path_spans(s, none, 0) =~= seq![path_span(0, n, path, false)]);
    }
    let one = path_spans(s, none, 0);
    assert(by_position(none, one) == one);
    assert(one.drop_last() =~= none);
    assert(without_overlaps(none) =~= none);
    assert(without_overlaps(one) =~= one);
    assert(s.take(0) =~= Seq::<char>::empty());
    assert(s.take(n) =~= s);
    assert(byte_len(Seq::<char>::empty()) == 0) by {
        lemma_byte_len_concat(Seq::<char>::empty(), Seq::<char>::empty());
        assert(Seq::<char>::empty() + Seq::<char>::empty() =~= Seq::<char>::empty());
    }
    assert(tokens_of(s) =~= seq![
        TokenValue { kind: AtKind::File, label: path, start: 0, end: byte_len(s) },
    ]);
}

proof fn lemma_no_paths(s: Seq<char>, i: int, n: int)
    requires
        0 <= i <= n <= s.len(),
        forall|k: int| i <= k < n ==> #[trigger] s[k] != '@',
    ensures
        path_spans(s, Seq::empty(), i) == path_spans(s, Seq::empty(), n),
    decreases n - i,
{
    if i < n {
        assert(s[i] != '@');
        lemma_no_paths(s, i + 1, n);
    }
}

proof fn lemma_word_ends(s: Seq<char>, i: int, j: int)
    requires
        0 <= i <= j <= s.len(),
        forall|k: int| i <= k < j ==> !is_ascii_white(#[trigger] s[k]),
        j == s.len() || is_ascii_white(s[j]),
    ensures
        word_end(s, i) == j,
    decreases j - i,
{
    if i < j {
        lemma_word_ends(s, i + 1, j);
    }
}

proof fn lemma_trim_punct(body: Seq<char>, punct: Seq<char>)
    requires
        body.len() > 0,
        !is_trailing_punct(body.last()),
        forall|i: int| 0 <= i < punct.len() ==> is_trailing_punct(#[trigger] punct[i]),
    ensures
        trim_punct_of(body + punct) == body,
    decreases punct.len(),
{
    let s = body + punct;
    if punct.len() == 0 {
        assert(s =~= body);
    } else {
        assert(is_trailing_punct(punct[punct.len() - 1]));
        assert(s.drop_last() =~= body + punct.drop_last());
        lemma_trim_punct(body, punct.drop_last());
    }
}

/// A path behind an `@`, at the start of a text or behind white space, is one
/// reference: to a directory where a slash ends it, which is not shown, else to a
/// file. Punctuation behind it belongs to the text.
pub proof fn law_paths_are_referenced(
    lead: Seq<char>,
    path: Seq<char>,
    folder: bool,
    punct: Seq<char>,
    tail: Seq<char>,
)
    requires
        lead.len() == 0 || is_ascii_white(lead.last()),
        !lead.contains('@'),
        path.len() > 0,
        forall|i: int|
            0 <= i < path.len() ==> !is_ascii_white(#[trigger] path[i]) && path[i] != '@',
        path[0] != '[',
        path[0] != '"',
        path.last() != '/',
        folder || !is_trailing_punct(path.last()),
        forall|i: int| 0 <= i < punct.len() ==> is_trailing_punct(#[trigger] punct[i]),
        tail.len() == 0 || is_ascii_white(tail[0]),
        !tail.contains('@'),
    ensures
        ({
            let written = if folder {
                path.push('/')
            } else {
                path
            };
            tokens_of(lead + seq!['@'] + written + punct + tail) == seq![
                TokenValue {
                    kind: if folder {
                        AtKind::Folder
                    } else {
                        AtKind::File
                    },
                    label: path,
                    start: byte_len(lead),
                    end: byte_len(lead + seq!['@'] + written),
                },
            ]
        }),
{
    let body = if folder {
        path.push('/')
    } else {
        path
    };
    let s = lead + seq!['@'] + body + punct + tail;
    let n = lead.len() as int;
    let j = n + 1 + body.len() + punct.len();
    let none = Seq::<Span>::empty();
    assert(s[n] == '@');
    assert forall|k: int| 0 <= k < n implies #[trigger] s[k] != '@' by {
        assert(s[k] == lead[k]);
        assert(lead.contains(lead[k]));
    }
    assert forall|k: int| n < k < j implies !is_ascii_white(#[trigger] s[k]) && s[k] != '@' by {
        if k < n + 1 + path.len() {
            assert(s[k] == path[k - n - 1]);
        } else if k < n + 1 + body.len() {
            assert(s[k] == '/');
        } else {
            assert(s[k] == punct[k - n - 1 - body.len()]);
        }
    }
    assert forall|k: int| j <= k < s.len() implies #[trigger] s[k] != '@' by {
        assert(s[k] == tail[k - j]);
        assert(tail.contains(tail[k - j]));
    }
    if tail.len() > 0 {
        assert(s[j] == tail[0]);
    }
    assert(s[n + 1] == path[0]);
    lemma_no_mentions(s, 0);
    assert(session_spans(s, mentions_from(s, 0)) =~= none);
    lemma_no_paths(s, 0, n);
    lemma_no_paths(s, j, s.len() as int);
    lemma_word_ends(s, n + 1, j);
    assert(s.subrange(n + 1, j) =~= body + punct);
    lemma_trim_punct(body, punct);
    if n > 0 {
        assert(s[n - 1] == lead.last());
    }
    assert(starts_path(s, none, n));
    if folder {
        assert(path.push('/').drop_last() =~= path);
    }
    assert(trim_end_char(path, '/') == path);
    assert(trim_end_char(body, '/') == path);
    let p = path_span(n, n + 1 + body.len(), body, false);
    assert(path_spans(s, none, s.len() as int) =~= none);
    let one = path_spans(s, none, 0);
    assert(one =~= seq![p]);
    assert(by_position(none, one) == one);
    assert(one.drop_last() =~= none);
    assert(without_overlaps(none) =~= none);
    assert(without_overlaps(one) =~= one);
    assert(s.take(n) =~= lead);
    assert(s.take(n + 1 + body.len()) =~= lead + seq!['@'] + body);
    assert(tokens_of(s).len() == 1);
    assert(tokens_of(s)[0] == (TokenValue {
        kind: p.kind,
        label: p.label,
        start: byte_len(lead),
        end: byte_len(lead + seq!['@'] + body),
    }));
    assert(tokens_of(s) =~= seq![tokens_of(s)[0]]);
}

/// A mention of a session is one reference over the whole mention, shown by its
/// label.
pub proof fn law_session_mentions_are_referenced(label: Seq<char>, uri: Seq<char>)
    requires
        is_plain_uri(uri),
        session_id_of(uri) is Some,
        !label.contains(']'),
        !label.contains('@'),
        session_mention_of(label, uri).len() <= usize::MAX,
    ensures
        tokens_of(session_mention_of(label, uri)) == seq![
            TokenValue {
                kind: AtKind::Session,
                label,
                start: 0,
                end: byte_len(session_mention_of(label, uri)),
            },
        ],
{
    let s = session_mention_of(label, uri);
    let n = s.len() as int;
    lemma_one_mention(label, uri);
    let m = mentions_from(s, 0)[0];
    let sp = Span { kind: AtKind::Session, label, from: 0, to: n };
    let ms = mentions_from(s, 0);
    assert(ms.drop_last() =~= Seq::<Mention>::empty());
    reveal_with_fuel(session_spans, 2);
    let sessions = session_spans(s, ms);
    assert(sessions =~= seq![sp]);
    lemma_all_covered(s, sessions, 0);
    let none = Seq::<Span>::empty();
    assert(by_position(sessions, none) == sessions);
    assert(sessions.drop_last() =~= none);
    assert(without_overlaps(none) =~= none);
    assert(without_overlaps(sessions) =~= sessions);
    assert(s.take(0) =~= Seq::<char>::empty());
    assert(s.take(n) =~= s);
    assert(byte_len(Seq::<char>::empty()) == 0) by {
        lemma_byte_len_concat(Seq::<char>::empty(), Seq::<char>::empty());
        assert(Seq::<char>::empty() + Seq::<char>::empty() =~= Seq::<char>::empty());
    }
    assert(tokens_of(s) =~= seq![
        TokenValue { kind: AtKind::Session, label, start: 0, end: byte_len(s) },
    ]);
}

proof fn lemma_all_covered(s: Seq<char>, sessions: Seq<Span>, i: int)
    requires
        sessions.len() == 1,
        sessions[0].from == 0,
        sessions[0].to == s.len(),
        0 <= i,
    ensures
        path_spans(s, sessions, i) == Seq::<Span>::empty(),
    decreases s.len() - i,
{
    if i < s.len() {
        assert(sessions[0].from <= i < sessions[0].to);
        assert(covered(sessions, i));
        lemma_all_covered(s, sessions, i + 1);
    }
}

} // verus!
