//! Syntax highlighting: lines of code into spans of one colour each, in a dark
//! or a light colour scheme.

use crate::cache::{share, MemoCache};
use crate::decimal::{dec, usize_text};
use crate::markdown::{ascii_lower, hash_of, text_hash, to_lower};
use crate::text::{
    byte_len, cat2, cat5, chars_of, is_white, len_bytes, owned, str_eq, string_of_range, views,
};
use std::sync::Arc;
use vstd::prelude::*;
use vstd::string::*;

verus! {

// ---------------------------------------------------------------------------
// Colours
// ---------------------------------------------------------------------------
/// The colours of a scheme, as alpha, red, green and blue in one number.
#[derive(Debug, Clone, Copy, PartialEq, Eq, Structural)]
pub struct CodePalette {
    pub foreground: u32,
    pub comment: u32,
    pub string: u32,
    pub number: u32,
    pub keyword: u32,
    pub keyword_type: u32,
    pub function: u32,
    pub class_name: u32,
    pub variable: u32,
    pub escape: u32,
}

/// The colours of the dark and of the light scheme.
pub open spec fn code_palette_of(dark: bool) -> CodePalette {
    if dark {
        CodePalette {
            foreground: 0xFFD4D4D4,
            comment: 0xFF6A9955,
            string: 0xFFCE9178,
            number: 0xFFB5CEA8,
            keyword: 0xFFC586C0,
            keyword_type: 0xFF569CD6,
            function: 0xFFDCDCAA,
            class_name: 0xFF4EC9B0,
            variable: 0xFF9CDCFE,
            escape: 0xFFD7BA7D,
        }
    } else {
        CodePalette {
            foreground: 0xFF3B3B3B,
            comment: 0xFF008000,
            string: 0xFFA31515,
            number: 0xFF098658,
            keyword: 0xFFAF00DB,
            keyword_type: 0xFF0000FF,
            function: 0xFF795E26,
            class_name: 0xFF267F99,
            variable: 0xFF001080,
            escape: 0xFFEE0000,
        }
    }
}

/// See [`code_palette_of`].
pub fn code_palette(dark: bool) -> (r: CodePalette)
    ensures
        r == code_palette_of(dark),
{
    if dark {
        CodePalette {
            foreground: 0xFFD4D4D4,
            comment: 0xFF6A9955,
            string: 0xFFCE9178,
            number: 0xFFB5CEA8,
            keyword: 0xFFC586C0,
            keyword_type: 0xFF569CD6,
            function: 0xFFDCDCAA,
            class_name: 0xFF4EC9B0,
            variable: 0xFF9CDCFE,
            escape: 0xFFD7BA7D,
        }
    } else {
        CodePalette {
            foreground: 0xFF3B3B3B,
            comment: 0xFF008000,
            string: 0xFFA31515,
            number: 0xFF098658,
            keyword: 0xFFAF00DB,
            keyword_type: 0xFF0000FF,
            function: 0xFF795E26,
            class_name: 0xFF267F99,
            variable: 0xFF001080,
            escape: 0xFFEE0000,
        }
    }
}

/// The colour of each scope, the general ones before the special ones.
pub open spec fn scope_colours(p: CodePalette) -> Seq<(Seq<char>, u32)> {
    seq![
        ("comment"@, p.comment),
        ("punctuation.definition.comment"@, p.comment),
        ("string"@, p.string),
        ("punctuation.definition.string"@, p.string),
        ("constant.character.escape"@, p.escape),
        ("constant.numeric"@, p.number),
        ("constant.language"@, p.keyword_type),
        ("keyword"@, p.keyword),
        ("storage"@, p.keyword_type),
        ("entity.name.function"@, p.function),
        ("support.function"@, p.function),
        ("entity.name.type"@, p.class_name),
        ("support.type"@, p.class_name),
        ("support.class"@, p.class_name),
        ("entity.name.tag"@, p.keyword_type),
        ("entity.other.attribute-name"@, p.variable),
        ("variable.language"@, p.keyword_type),
        ("variable.other"@, p.variable),
        ("support.variable.property"@, p.variable),
    ]
}

pub open spec fn rule_values(v: Seq<(String, u32)>) -> Seq<(Seq<char>, u32)> {
    v.map_values(|r: (String, u32)| (r.0@, r.1))
}

fn rule(scope: &str, colour: u32) -> (r: (String, u32))
    ensures
        r.0@ == scope@,
        r.1 == colour,
{
    (owned(scope), colour)
}

/// See [`scope_colours`].
pub fn scope_rules(p: CodePalette) -> (r: Vec<(String, u32)>)
    ensures
        rule_values(r@) == scope_colours(p),
{
    let mut v: Vec<(String, u32)> = Vec::new();
    v.push(rule("comment", p.comment));
    v.push(rule("punctuation.definition.comment", p.comment));
    v.push(rule("string", p.string));
    v.push(rule("punctuation.definition.string", p.string));
    v.push(rule("constant.character.escape", p.escape));
    v.push(rule("constant.numeric", p.number));
    v.push(rule("constant.language", p.keyword_type));
    v.push(rule("keyword", p.keyword));
    v.push(rule("storage", p.keyword_type));
    v.push(rule("entity.name.function", p.function));
    v.push(rule("support.function", p.function));
    v.push(rule("entity.name.type", p.class_name));
    v.push(rule("support.type", p.class_name));
    v.push(rule("support.class", p.class_name));
    v.push(rule("entity.name.tag", p.keyword_type));
    v.push(rule("entity.other.attribute-name", p.variable));
    v.push(rule("variable.language", p.keyword_type));
    v.push(rule("variable.other", p.variable));
    v.push(rule("support.variable.property", p.variable));
    assert(rule_values(v@) =~= scope_colours(p));
    v
}

// ---------------------------------------------------------------------------
// The engine
// ---------------------------------------------------------------------------
/// The syntaxes of the `syntect` crate.
#[verifier::external_type_specification]
#[verifier::external_body]
pub struct ExSyntaxSet(syntect::parsing::SyntaxSet);

/// A colour scheme of the `syntect` crate.
#[verifier::external_type_specification]
#[verifier::external_body]
pub struct ExTheme(syntect::highlighting::Theme);

/// A highlighter of the `syntect` crate, which is fed line by line.
#[verifier::external_type_specification]
#[verifier::external_body]
pub struct ExHighlightLines<'a>(syntect::easy::HighlightLines<'a>);

/// Whether a scheme is what comes of its default colour, which stands under
/// the empty scope, and of adding the other rules one after the other. Other
/// rules may come to the same scheme.
pub uninterp spec fn built_of(
    theme: syntect::highlighting::Theme,
    rules: Seq<(Seq<char>, u32)>,
) -> bool;

/// Whether a highlighter is what comes of starting in a language with a scheme
/// that is built of rules, and of feeding it lines one after the other.
pub uninterp spec fn fed_with(
    lines: syntect::easy::HighlightLines,
    lang: Seq<char>,
    rules: Seq<(Seq<char>, u32)>,
    before: Seq<Seq<char>>,
) -> bool;

/// Whether the default syntaxes know a language.
pub uninterp spec fn knows_syntax(lang: Seq<char>) -> bool;

/// The spans that `syntect` makes of a line in a language and with the rules
/// of a scheme, behind the lines that were fed before; nothing where the line
/// cannot be parsed.
pub uninterp spec fn styled_line(
    lang: Seq<char>,
    rules: Seq<(Seq<char>, u32)>,
    before: Seq<Seq<char>>,
    line: Seq<char>,
) -> Option<Seq<(u32, Seq<char>)>>;

/// The default syntaxes.
pub struct Syntaxes {
    set: syntect::parsing::SyntaxSet,
}

/// Calls `SyntaxSet::load_defaults_newlines`: the syntaxes that come with
/// `syntect`, for lines that end in a line feed.
#[verifier::external_body]
fn load_syntaxes() -> Syntaxes {
    Syntaxes { set: syntect::parsing::SyntaxSet::load_defaults_newlines() }
}

/// Whether a text from position `i` on has nothing that parts selectors: white
/// space, commas and bars.
pub open spec fn is_lone_from(s: Seq<char>, i: int) -> bool
    decreases s.len() - i,
{
    i >= s.len() || (!is_white(s[i]) && s[i] != ',' && s[i] != '|' && is_lone_from(s, i + 1))
}

/// The dots of a text from position `i` on.
pub open spec fn dots_from(s: Seq<char>, i: int) -> nat
    decreases s.len() - i,
{
    if i >= s.len() {
        0
    } else {
        dots_from(s, i + 1) + (if s[i] == '.' {
            1nat
        } else {
            0nat
        })
    }
}

/// Whether a text is one scope, which does not end in a dot.
pub open spec fn is_scope(s: Seq<char>) -> bool {
    s.len() > 0 && s.last() != '.' && is_lone_from(s, 0)
}

/// Whether a scope has at most eight parts.
pub open spec fn is_short_scope(s: Seq<char>) -> bool {
    dots_from(s, 0) < 8
}

/// Makes a `syntect` `Theme` with a name, a default colour and nothing else.
#[verifier::external_body]
fn plain_theme(name: &str, foreground: u32) -> (r: syntect::highlighting::Theme)
    ensures
        built_of(r, seq![(Seq::<char>::empty(), foreground)]),
{
    let [a, r, g, b] = foreground.to_be_bytes();
    let mut theme = syntect::highlighting::Theme::default();
    theme.name = Some(name.to_string());
    theme.settings.foreground = Some(syntect::highlighting::Color { r, g, b, a });
    theme
}

/// Parses a scope as `ScopeSelectors` and, where it has at most eight parts,
/// adds a `ThemeItem` with it and a colour to a `Theme`; else the theme stays
/// as it is. The table of scope names that `syntect` keeps for the process is
/// taken to have room, as memory is.
#[verifier::external_body]
fn add_rule(theme: &mut syntect::highlighting::Theme, scope: &str, colour: u32) -> (added: bool)
    requires
        is_scope(scope@),
    ensures
        added == is_short_scope(scope@),
        added ==> forall|rules: Seq<(Seq<char>, u32)>| #[trigger]
            built_of(*old(theme), rules) ==> built_of(*final(theme), rules.push((scope@, colour))),
        !added ==> *final(theme) == *old(theme),
{
    let [a, r, g, b] = colour.to_be_bytes();
    let mut item = syntect::highlighting::ThemeItem::default();
    match scope.parse() {
        Ok(s) => item.scope = s,
        Err(_) => return false,
    }
    item.style.foreground = Some(syntect::highlighting::Color { r, g, b, a });
    theme.scopes.push(item);
    true
}

/// Finds the syntax of a language with `SyntaxSet::find_syntax_by_token` and
/// starts a `HighlightLines` in it; nothing where there is none.
#[verifier::external_body]
fn start_lines<'a>(
    syntaxes: &Syntaxes,
    theme: &'a syntect::highlighting::Theme,
    lang: &str,
) -> (r: Option<syntect::easy::HighlightLines<'a>>)
    ensures
        r is Some <==> knows_syntax(lang@),
        r matches Some(h) ==> forall|rules: Seq<(Seq<char>, u32)>| #[trigger]
            built_of(*theme, rules) ==> fed_with(h, lang@, rules, Seq::empty()),
{
    let syntax = syntaxes.set.find_syntax_by_token(lang)?;
    Some(syntect::easy::HighlightLines::new(syntax, theme))
}

/// Calls `HighlightLines::highlight_line`. The spans are the line in pieces, in
/// order; nothing comes back where the line cannot be parsed. They depend on
/// the language, the rules and all lines so far.
#[verifier::external_body]
fn feed_line(
    syntaxes: &Syntaxes,
    lines: &mut syntect::easy::HighlightLines,
    line: &str,
) -> (r: Option<Vec<Span>>)
    ensures
        forall|lang: Seq<char>, rules: Seq<(Seq<char>, u32)>, before: Seq<Seq<char>>|
            #[trigger] fed_with(*old(lines), lang, rules, before) ==> match r {
                Some(v) => styled_line(lang, rules, before, line@) == Some(span_values(v@))
                    && fed_with(*final(lines), lang, rules, before.push(line@)),
                None => styled_line(lang, rules, before, line@) is None,
            },
        r matches Some(v) ==> spans_text(span_values(v@)) == line@,
{
    let ranges = lines.highlight_line(line, &syntaxes.set).ok()?;
    Some(ranges.into_iter().map(|(style, text)| {
        let c = style.foreground;
        Span { colour: u32::from_be_bytes([c.a, c.r, c.g, c.b]), text: text.to_string() }
    }).collect())
}

/// The spans of lines that are fed one after the other; nothing where the
/// language is not known, or a line cannot be parsed.
pub open spec fn styled_lines(
    lang: Seq<char>,
    rules: Seq<(Seq<char>, u32)>,
    lines: Seq<Seq<char>>,
) -> Option<Seq<Seq<(u32, Seq<char>)>>>
    decreases lines.len(),
{
    if lines.len() == 0 {
        if knows_syntax(lang) {
            Some(Seq::empty())
        } else {
            None
        }
    } else {
        match styled_lines(lang, rules, lines.drop_last()) {
            Some(v) => match styled_line(lang, rules, lines.drop_last(), lines.last()) {
                Some(spans) => Some(v.push(spans)),
                None => None,
            },
            None => None,
        }
    }
}

proof fn lemma_unstyled(
    lang: Seq<char>,
    rules: Seq<(Seq<char>, u32)>,
    lines: Seq<Seq<char>>,
    k: int,
)
    requires
        0 <= k <= lines.len(),
        styled_lines(lang, rules, lines.take(k)) is None,
    ensures
        styled_lines(lang, rules, lines) is None,
    decreases lines.len(),
{
    if k == lines.len() {
        assert(lines.take(k) =~= lines);
    } else {
        assert(lines.drop_last().take(k) =~= lines.take(k));
        lemma_unstyled(lang, rules, lines.drop_last(), k);
    }
}

/// Feeds lines to a highlighter of a language and a scheme.
fn style_lines(
    syntaxes: &Syntaxes,
    theme: &syntect::highlighting::Theme,
    lang: &str,
    lines: &Vec<String>,
    Ghost(rules): Ghost<Seq<(Seq<char>, u32)>>,
) -> (r: Option<Vec<Vec<Span>>>)
    requires
        built_of(*theme, rules),
    ensures
        opt_lines(r) == styled_lines(lang@, rules, views(lines@)),
        r matches Some(v) ==> v@.len() == lines@.len() && forall|i: int|
            0 <= i < v@.len() ==> spans_text(span_values((#[trigger] v@[i])@)) == lines@[i]@,
{
    let ghost all = views(lines@);
    assert(all.take(0) =~= Seq::<Seq<char>>::empty());
    let mut hl = match start_lines(syntaxes, theme, lang) {
        Some(h) => h,
        None => {
            proof {
                lemma_unstyled(lang@, rules, all, 0);
            }
            return None;
        },
    };
    let mut out: Vec<Vec<Span>> = Vec::new();
    let mut i: usize = 0;
    assert(span_lines(out@) =~= Seq::<Seq<(u32, Seq<char>)>>::empty());
    while i < lines.len()
        invariant
            i <= lines@.len(),
            all == views(lines@),
            fed_with(hl, lang@, rules, all.take(i as int)),
            styled_lines(lang@, rules, all.take(i as int)) == Some(span_lines(out@)),
            out@.len() == i,
            forall|k: int|
                0 <= k < i ==> spans_text(span_values((#[trigger] out@[k])@)) == lines@[k]@,
        decreases lines@.len() - i,
    {
        let ghost before = out@;
        assert(all.take(i + 1).drop_last() =~= all.take(i as int));
        assert(all.take(i + 1).last() == lines@[i as int]@);
        assert(all.take(i as int).push(lines@[i as int]@) =~= all.take(i + 1));
        match feed_line(syntaxes, &mut hl, lines[i].as_str()) {
            Some(spans) => {
                out.push(spans);
                assert(span_lines(out@) =~= span_lines(before).push(span_values(spans@)));
            },
            None => {
                proof {
                    lemma_unstyled(lang@, rules, all, i + 1);
                }
                return None;
            },
        }
        i = i + 1;
    }
    assert(all.take(i as int) =~= all);
    Some(out)
}

/// What highlighting needs: the syntaxes, and the two colour schemes.
pub struct Engine {
    syntaxes: Syntaxes,
    light: syntect::highlighting::Theme,
    dark: syntect::highlighting::Theme,
}

/// The rules of the dark and of the light scheme.
pub open spec fn plus_rules(dark: bool) -> Seq<(Seq<char>, u32)> {
    let p = code_palette_of(dark);
    seq![(Seq::<char>::empty(), p.foreground)] + scope_colours(p)
}

/// The name of the dark and of the light scheme.
pub fn scheme_name(dark: bool) -> (r: &'static str)
    ensures
        r@ == (if dark {
            "dsh-dark-plus"@
        } else {
            "dsh-light-plus"@
        }),
{
    if dark {
        "dsh-dark-plus"
    } else {
        "dsh-light-plus"
    }
}

/// A scope that can be added to a scheme.
#[verifier::opaque]
spec fn is_fit(scope: Seq<char>) -> bool {
    is_scope(scope) && is_short_scope(scope)
}

proof fn lemma_text_scopes_are_fit()
    ensures
        is_fit("comment"@),
        is_fit("punctuation.definition.comment"@),
        is_fit("string"@),
        is_fit("punctuation.definition.string"@),
        is_fit("constant.character.escape"@),
{
    reveal(is_fit);
    assert(is_fit("comment"@)) by {
        reveal_strlit("comment");
        reveal_with_fuel(is_lone_from, 8);
        reveal_with_fuel(dots_from, 8);
    }
    assert(is_fit("punctuation.definition.comment"@)) by {
        reveal_strlit("punctuation.definition.comment");
        reveal_with_fuel(is_lone_from, 31);
        reveal_with_fuel(dots_from, 31);
    }
    assert(is_fit("string"@)) by {
        reveal_strlit("string");
        reveal_with_fuel(is_lone_from, 7);
        reveal_with_fuel(dots_from, 7);
    }
    assert(is_fit("punctuation.definition.string"@)) by {
        reveal_strlit("punctuation.definition.string");
        reveal_with_fuel(is_lone_from, 30);
        reveal_with_fuel(dots_from, 30);
    }
    assert(is_fit("constant.character.escape"@)) by {
        reveal_strlit("constant.character.escape");
        reveal_with_fuel(is_lone_from, 26);
        reveal_with_fuel(dots_from, 26);
    }
}

proof fn lemma_word_scopes_are_fit()
    ensures
        is_fit("constant.numeric"@),
        is_fit("constant.language"@),
        is_fit("keyword"@),
        is_fit("storage"@),
        is_fit("entity.name.function"@),
        is_fit("support.function"@),
{
    reveal(is_fit);
    assert(is_fit("constant.numeric"@)) by {
        reveal_strlit("constant.numeric");
        reveal_with_fuel(is_lone_from, 17);
        reveal_with_fuel(dots_from, 17);
    }
    assert(is_fit("constant.language"@)) by {
        reveal_strlit("constant.language");
        reveal_with_fuel(is_lone_from, 18);
        reveal_with_fuel(dots_from, 18);
    }
    assert(is_fit("keyword"@)) by {
        reveal_strlit("keyword");
        reveal_with_fuel(is_lone_from, 8);
        reveal_with_fuel(dots_from, 8);
    }
    assert(is_fit("storage"@)) by {
        reveal_strlit("storage");
        reveal_with_fuel(is_lone_from, 8);
        reveal_with_fuel(dots_from, 8);
    }
    assert(is_fit("entity.name.function"@)) by {
        reveal_strlit("entity.name.function");
        reveal_with_fuel(is_lone_from, 21);
        reveal_with_fuel(dots_from, 21);
    }
    assert(is_fit("support.function"@)) by {
        reveal_strlit("support.function");
        reveal_with_fuel(is_lone_from, 17);
        reveal_with_fuel(dots_from, 17);
    }
}

proof fn lemma_type_scopes_are_fit()
    ensures
        is_fit("entity.name.type"@),
        is_fit("support.type"@),
        is_fit("support.class"@),
        is_fit("entity.name.tag"@),
{
    reveal(is_fit);
    assert(is_fit("entity.name.type"@)) by {
        reveal_strlit("entity.name.type");
        reveal_with_fuel(is_lone_from, 17);
        reveal_with_fuel(dots_from, 17);
    }
    assert(is_fit("support.type"@)) by {
        reveal_strlit("support.type");
        reveal_with_fuel(is_lone_from, 13);
        reveal_with_fuel(dots_from, 13);
    }
    assert(is_fit("support.class"@)) by {
        reveal_strlit("support.class");
        reveal_with_fuel(is_lone_from, 14);
        reveal_with_fuel(dots_from, 14);
    }
    assert(is_fit("entity.name.tag"@)) by {
        reveal_strlit("entity.name.tag");
        reveal_with_fuel(is_lone_from, 16);
        reveal_with_fuel(dots_from, 16);
    }
}

proof fn lemma_name_scopes_are_fit()
    ensures
        is_fit("entity.other.attribute-name"@),
        is_fit("variable.language"@),
        is_fit("variable.other"@),
        is_fit("support.variable.property"@),
{
    reveal(is_fit);
    assert(is_fit("entity.other.attribute-name"@)) by {
        reveal_strlit("entity.other.attribute-name");
        reveal_with_fuel(is_lone_from, 28);
        reveal_with_fuel(dots_from, 28);
    }
    assert(is_fit("variable.language"@)) by {
        reveal_strlit("variable.language");
        reveal_with_fuel(is_lone_from, 18);
        reveal_with_fuel(dots_from, 18);
    }
    assert(is_fit("variable.other"@)) by {
        reveal_strlit("variable.other");
        reveal_with_fuel(is_lone_from, 15);
        reveal_with_fuel(dots_from, 15);
    }
    assert(is_fit("support.variable.property"@)) by {
        reveal_strlit("support.variable.property");
        reveal_with_fuel(is_lone_from, 26);
        reveal_with_fuel(dots_from, 26);
    }
}

proof fn lemma_scopes_are_fit(p: CodePalette)
    ensures
        forall|i: int| 0 <= i < scope_colours(p).len()
            ==> is_fit((#[trigger] scope_colours(p)[i]).0),
{
    lemma_text_scopes_are_fit();
    lemma_word_scopes_are_fit();
    lemma_type_scopes_are_fit();
    lemma_name_scopes_are_fit();
}

/// Builds the dark or the light scheme.
fn plus_theme(dark: bool) -> (r: syntect::highlighting::Theme)
    ensures
        built_of(r, plus_rules(dark)),
{
    let p = code_palette(dark);
    let rules = scope_rules(p);
    let ghost all = rule_values(rules@);
    let ghost first = seq![(Seq::<char>::empty(), p.foreground)];
    let mut theme = plain_theme(scheme_name(dark), p.foreground);
    let mut i: usize = 0;
    assert(first + all.take(0) =~= first);
    proof {
        lemma_scopes_are_fit(code_palette_of(dark));
    }
    while i < rules.len()
        invariant
            i <= rules@.len(),
            all == rule_values(rules@),
            all == scope_colours(code_palette_of(dark)),
            forall|k: int| 0 <= k < all.len() ==> is_fit((#[trigger] all[k]).0),
            built_of(theme, first + all.take(i as int)),
        decreases rules@.len() - i,
    {
        assert(all[i as int] == (rules@[i as int].0@, rules@[i as int].1));
        assert((first + all.take(i as int)).push(all[i as int]) =~= first + all.take(i + 1));
        proof {
            reveal(is_fit);
        }
        let _ = add_rule(&mut theme, rules[i].0.as_str(), rules[i].1);
        i = i + 1;
    }
    assert(all.take(i as int) =~= all);
    theme
}

impl Engine {
    /// The two schemes have their rules.
    pub closed spec fn wf(self) -> bool {
        built_of(self.light, plus_rules(false)) && built_of(self.dark, plus_rules(true))
    }

    /// Loads the syntaxes and builds the schemes.
    pub fn new() -> (r: Engine)
        ensures
            r.wf(),
    {
        Engine { syntaxes: load_syntaxes(), light: plus_theme(false), dark: plus_theme(true) }
    }
}

// ---------------------------------------------------------------------------
// Spans
// ---------------------------------------------------------------------------
/// A piece of a line in one colour.
#[derive(Debug, PartialEq, Eq)]
pub struct Span {
    pub colour: u32,
    pub text: String,
}

pub open spec fn span_values(v: Seq<Span>) -> Seq<(u32, Seq<char>)> {
    v.map_values(|s: Span| (s.colour, s.text@))
}

pub open spec fn span_lines(v: Seq<Vec<Span>>) -> Seq<Seq<(u32, Seq<char>)>> {
    v.map_values(|l: Vec<Span>| span_values(l@))
}

/// The text of spans.
pub open spec fn spans_text(v: Seq<(u32, Seq<char>)>) -> Seq<char>
    decreases v.len(),
{
    if v.len() == 0 {
        Seq::empty()
    } else {
        spans_text(v.drop_last()) + v.last().1
    }
}

/// A text without the line feeds at its end.
pub open spec fn unended(s: Seq<char>) -> Seq<char>
    decreases s.len(),
{
    if s.len() > 0 && s.last() == '\n' {
        unended(s.drop_last())
    } else {
        s
    }
}

/// The spans that have a text.
pub open spec fn inhabited(v: Seq<(u32, Seq<char>)>) -> Seq<(u32, Seq<char>)>
    decreases v.len(),
{
    if v.len() == 0 {
        v
    } else {
        let init = inhabited(v.drop_last());
        if v.last().1.len() == 0 {
            init
        } else {
            init.push(v.last())
        }
    }
}

/// The spans of a line as they are shown: those with a text, the last without
/// the end of the line, which is dropped where nothing else is left of it.
pub open spec fn shown_spans(v: Seq<(u32, Seq<char>)>) -> Seq<(u32, Seq<char>)> {
    let spans = inhabited(v);
    if spans.len() == 0 {
        spans
    } else {
        let text = unended(spans.last().1);
        if text.len() == 0 {
            spans.drop_last()
        } else {
            spans.drop_last().push((spans.last().0, text))
        }
    }
}

fn unended_text(s: &str) -> (r: String)
    ensures
        r@ == unended(s@),
{
    let cs = chars_of(s);
    let mut end: usize = cs.len();
    assert(s@.take(end as int) =~= s@);
    while end > 0 && cs[end - 1] == '\n'
        invariant
            cs@ == s@,
            end <= cs@.len(),
            unended(s@) == unended(s@.take(end as int)),
        decreases end,
    {
        assert(s@.take(end as int).drop_last() =~= s@.take(end - 1));
        end = end - 1;
    }
    let r = string_of_range(cs.as_slice(), 0, end);
    assert(r@ =~= s@.take(end as int));
    r
}

fn clean_spans(v: &Vec<Span>) -> (r: Vec<Span>)
    ensures
        span_values(r@) == shown_spans(span_values(v@)),
{
    let ghost all = span_values(v@);
    let mut out: Vec<Span> = Vec::new();
    let mut i: usize = 0;
    assert(all.take(0) =~= Seq::<(u32, Seq<char>)>::empty());
    assert(span_values(out@) =~= Seq::<(u32, Seq<char>)>::empty());
    while i < v.len()
        invariant
            i <= v@.len(),
            all == span_values(v@),
            span_values(out@) == inhabited(all.take(i as int)),
        decreases v@.len() - i,
    {
        let ghost before = out@;
        assert(all.take(i + 1).drop_last() =~= all.take(i as int));
        assert(all.take(i + 1).last() == (v@[i as int].colour, v@[i as int].text@));
        if !v[i].text.as_str().is_empty() {
            out.push(Span { colour: v[i].colour, text: owned(v[i].text.as_str()) });
            assert(span_values(out@) =~= span_values(before).push(
                (v@[i as int].colour, v@[i as int].text@),
            ));
        }
        i = i + 1;
    }
    assert(all.take(i as int) =~= all);
    let ghost spans = span_values(out@);
    let n = out.len();
    assert(spans.len() == n);
    if n == 0 {
        return out;
    }
    let last = match out.pop() {
        Some(s) => s,
        None => {
            return out;
        },
    };
    assert(span_values(out@) =~= spans.drop_last());
    assert(spans.last() == (last.colour, last.text@));
    let text = unended_text(last.text.as_str());
    if !text.as_str().is_empty() {
        let ghost before = out@;
        out.push(Span { colour: last.colour, text });
        assert(span_values(out@) =~= span_values(before).push((last.colour, text@)));
    }
    out
}

// ---------------------------------------------------------------------------
// Lines
// ---------------------------------------------------------------------------
pub open spec fn str_views(v: Seq<&str>) -> Seq<Seq<char>> {
    v.map_values(|s: &str| s@)
}

/// A text with its ASCII letters in lower case.
pub open spec fn lowered(s: Seq<char>) -> Seq<char> {
    s.map_values(|c: char| ascii_lower(c))
}

/// The name that a language is looked up under: dialects go by the syntax that
/// is closest to them.
pub open spec fn alias_of(lang: Seq<char>) -> Seq<char> {
    let l = lowered(lang);
    if l == "typescript"@ || l == "ts"@ || l == "tsx"@ || l == "jsx"@ {
        "javascript"@
    } else if l == "golang"@ {
        "go"@
    } else if l == "shell"@ || l == "shellscript"@ || l == "zsh"@ {
        "bash"@
    } else {
        l
    }
}

/// See [`alias_of`].
pub fn alias(lang: &str) -> (r: String)
    ensures
        r@ == alias_of(lang@),
{
    let cs = chars_of(lang);
    let mut l = String::new();
    let mut i: usize = 0;
    assert(l@ =~= lowered(lang@).take(0));
    while i < cs.len()
        invariant
            cs@ == lang@,
            i <= cs@.len(),
            l@ == lowered(lang@).take(i as int),
        decreases cs@.len() - i,
    {
        l.push(to_lower(cs[i]));
        assert(lowered(lang@).take(i + 1) =~= lowered(lang@).take(i as int).push(
            lowered(lang@)[i as int],
        ));
        i = i + 1;
    }
    assert(lowered(lang@).take(i as int) =~= lowered(lang@));
    let s = l.as_str();
    if str_eq(s, "typescript") || str_eq(s, "ts") || str_eq(s, "tsx") || str_eq(s, "jsx") {
        owned("javascript")
    } else if str_eq(s, "golang") {
        owned("go")
    } else if str_eq(s, "shell") || str_eq(s, "shellscript") || str_eq(s, "zsh") {
        owned("bash")
    } else {
        l
    }
}

/// The lines as they are fed: each with its end.
pub open spec fn ended(lines: Seq<Seq<char>>) -> Seq<Seq<char>> {
    lines.map_values(|l: Seq<char>| l + "\n"@)
}

/// The highlighted lines: one list of spans for each line; nothing for a
/// language that is not known.
pub open spec fn highlighted(lang: Seq<char>, dark: bool, lines: Seq<Seq<char>>) -> Option<
    Seq<Seq<(u32, Seq<char>)>>,
> {
    match styled_lines(alias_of(lang), plus_rules(dark), ended(lines)) {
        Some(v) => Some(v.map_values(|l: Seq<(u32, Seq<char>)>| shown_spans(l))),
        None => None,
    }
}

pub open spec fn opt_lines(r: Option<Vec<Vec<Span>>>) -> Option<Seq<Seq<(u32, Seq<char>)>>> {
    match r {
        Some(v) => Some(span_lines(v@)),
        None => None,
    }
}

/// Makes lists of spans, as they came from the lines, into those that are
/// shown.
pub fn shown_lines(styled: &Vec<Vec<Span>>) -> (r: Vec<Vec<Span>>)
    ensures
        span_lines(r@) == span_lines(styled@).map_values(
            |l: Seq<(u32, Seq<char>)>| shown_spans(l),
        ),
{
    let mut out: Vec<Vec<Span>> = Vec::new();
    let mut i: usize = 0;
    while i < styled.len()
        invariant
            i <= styled@.len(),
            out@.len() == i,
            forall|k: int|
                0 <= k < i ==> span_values((#[trigger] out@[k])@) == shown_spans(
                    span_values(styled@[k]@),
                ),
        decreases styled@.len() - i,
    {
        out.push(clean_spans(&styled[i]));
        i = i + 1;
    }
    assert(span_lines(out@) =~= span_lines(styled@).map_values(
        |l: Seq<(u32, Seq<char>)>| shown_spans(l),
    ));
    out
}

/// See [`highlighted`]. Without ends inside of lines, the spans of each line
/// are its text.
pub fn highlight(engine: &Engine, dark: bool, lang: &str, lines: &[&str]) -> (r: Option<
    Vec<Vec<Span>>,
>)
    requires
        engine.wf(),
    ensures
        opt_lines(r) == highlighted(lang@, dark, str_views(lines@)),
        r matches Some(v) ==> v@.len() == lines@.len() && forall|i: int|
            0 <= i < v@.len() && !lines@[i]@.contains('\n') ==> spans_text(
                span_values((#[trigger] v@[i])@),
            ) == lines@[i]@,
{
    let mut fed: Vec<String> = Vec::new();
    let mut i: usize = 0;
    while i < lines.len()
        invariant
            i <= lines@.len(),
            fed@.len() == i,
            forall|k: int| 0 <= k < i ==> (#[trigger] fed@[k])@ == lines@[k]@ + "\n"@,
        decreases lines@.len() - i,
    {
        fed.push(cat2(lines[i], "\n"));
        i = i + 1;
    }
    assert(views(fed@) =~= ended(str_views(lines@)));
    let name = alias(lang);
    let theme = if dark {
        &engine.dark
    } else {
        &engine.light
    };
    match style_lines(&engine.syntaxes, theme, name.as_str(), &fed, Ghost(plus_rules(dark))) {
        Some(styled) => {
            let r = shown_lines(&styled);
            proof {
                assert(span_lines(r@).len() == r@.len());
                assert(span_lines(styled@).len() == styled@.len());
                assert forall|k: int|
                    0 <= k < r@.len() && !lines@[k]@.contains('\n') implies spans_text(
                    span_values((#[trigger] r@[k])@),
                ) == lines@[k]@ by {
                    assert(span_lines(r@)[k] == span_values(r@[k]@));
                    assert(span_lines(styled@)[k] == span_values(styled@[k]@));
                    assert(fed@[k]@ == lines@[k]@ + "\n"@);
                    reveal_strlit("\n");
                    assert(lines@[k]@ + "\n"@ =~= lines@[k]@.push('\n'));
                    lemma_shown_text(span_values(styled@[k]@), lines@[k]@);
                }
            }
            Some(r)
        },
        None => None,
    }
}

proof fn lemma_inhabited_text(v: Seq<(u32, Seq<char>)>)
    ensures
        spans_text(inhabited(v)) == spans_text(v),
        forall|i: int|
            0 <= i < inhabited(v).len() ==> (#[trigger] inhabited(v)[i]).1.len() > 0,
    decreases v.len(),
{
    if v.len() > 0 {
        lemma_inhabited_text(v.drop_last());
        let init = inhabited(v.drop_last());
        if v.last().1.len() == 0 {
            assert(spans_text(v.drop_last()) + v.last().1 =~= spans_text(v.drop_last()));
        } else {
            assert(init.push(v.last()).drop_last() =~= init);
        }
    }
}

/// The shown spans of a line with its end are the line.
proof fn lemma_shown_text(v: Seq<(u32, Seq<char>)>, line: Seq<char>)
    requires
        spans_text(v) == line.push('\n'),
        !line.contains('\n'),
    ensures
        spans_text(shown_spans(v)) == line,
{
    lemma_inhabited_text(v);
    let spans = inhabited(v);
    if spans.len() == 0 {
        assert(spans_text(spans).len() == 0);
    } else {
        let last = spans.last().1;
        let before = spans_text(spans.drop_last());
        assert(before + last == line.push('\n'));
        assert(spans[spans.len() - 1].1.len() > 0);
        assert(last.last() == (before + last).last());
        assert(last.last() == '\n');
        let rest = last.drop_last();
        assert(before + rest =~= line) by {
            assert((before + last).drop_last() =~= before + rest);
            assert(line.push('\n').drop_last() =~= line);
        }
        assert(unended(rest) == rest) by {
            if rest.len() > 0 && rest.last() == '\n' {
                assert(line[line.len() - 1] == (before + rest).last());
                assert(line.contains('\n'));
            }
        }
        assert(unended(last) == rest);
        if rest.len() == 0 {
            assert(before + rest =~= before);
        } else {
            let shown = spans.drop_last().push((spans.last().0, rest));
            assert(shown.drop_last() =~= spans.drop_last());
        }
    }
}

// ---------------------------------------------------------------------------
// The cache
// ---------------------------------------------------------------------------
/// How many windows are kept.
pub const CACHE_CAP: usize = 128;

/// How many bytes a window has at least that is kept.
pub const CACHE_MIN_BYTES: usize = 512;

/// An empty cache of highlighted windows.
pub fn new_highlight_cache() -> (r: MemoCache<Vec<Vec<Span>>>)
    ensures
        r.wf(),
        r.cap == CACHE_CAP,
        r.min_len == CACHE_MIN_BYTES,
        r@ == Map::<Seq<char>, (u64, Vec<Vec<Span>>)>::empty(),
{
    MemoCache::new(CACHE_CAP, CACHE_MIN_BYTES)
}

/// The key of a window: its scheme, its own key and its language.
pub open spec fn window_key(dark: bool, key: Seq<char>, lang: Seq<char>) -> Seq<char> {
    (if dark {
        "dark"@
    } else {
        "light"@
    }) + "·"@ + key + "·"@ + lang
}

/// A text that tells windows apart: the language, then each line behind its
/// length.
pub open spec fn fingerprint(lang: Seq<char>, lines: Seq<Seq<char>>) -> Seq<char>
    decreases lines.len(),
{
    if lines.len() == 0 {
        lang
    } else {
        fingerprint(lang, lines.drop_last()) + "\n"@ + dec(lines.last().len()) + ":"@
            + lines.last()
    }
}

fn fingerprint_of(lang: &str, lines: &[&str]) -> (r: String)
    ensures
        r@ == fingerprint(lang@, str_views(lines@)),
{
    let ghost all = str_views(lines@);
    let mut out = owned(lang);
    let mut i: usize = 0;
    assert(all.take(0) =~= Seq::<Seq<char>>::empty());
    while i < lines.len()
        invariant
            i <= lines@.len(),
            all == str_views(lines@),
            out@ == fingerprint(lang@, all.take(i as int)),
        decreases lines@.len() - i,
    {
        assert(all.take(i + 1).drop_last() =~= all.take(i as int));
        assert(all.take(i + 1).last() == lines@[i as int]@);
        let n = chars_of(lines[i]).len();
        let digits = usize_text(n);
        out.append("\n");
        out.append(digits.as_str());
        out.append(":");
        out.append(lines[i]);
        i = i + 1;
    }
    assert(all.take(i as int) =~= all);
    out
}

/// The bytes of lines.
pub open spec fn lines_bytes(lines: Seq<Seq<char>>) -> nat
    decreases lines.len(),
{
    if lines.len() == 0 {
        0
    } else {
        lines_bytes(lines.drop_last()) + byte_len(lines.last())
    }
}

fn count_bytes(lines: &[&str]) -> (r: usize)
    ensures
        r == lines_bytes(str_views(lines@)) || (r == usize::MAX && lines_bytes(str_views(lines@))
            > usize::MAX),
{
    let ghost all = str_views(lines@);
    let mut n: usize = 0;
    let mut i: usize = 0;
    assert(all.take(0) =~= Seq::<Seq<char>>::empty());
    while i < lines.len()
        invariant
            i <= lines@.len(),
            all == str_views(lines@),
            n == lines_bytes(all.take(i as int)) || (n == usize::MAX && lines_bytes(
                all.take(i as int),
            ) > usize::MAX),
        decreases lines@.len() - i,
    {
        assert(all.take(i + 1).drop_last() =~= all.take(i as int));
        assert(all.take(i + 1).last() == lines@[i as int]@);
        let k = len_bytes(lines[i]);
        n = if k > usize::MAX - n {
            usize::MAX
        } else {
            n + k
        };
        i = i + 1;
    }
    assert(all.take(i as int) =~= all);
    n
}

/// What a look-up does: what the cache has for the key and the hash is
/// returned; anything else is highlighted and, where it is long enough,
/// remembered.
pub open spec fn looked_up(
    before: MemoCache<Vec<Vec<Span>>>,
    after: MemoCache<Vec<Vec<Span>>>,
    key: Seq<char>,
    hash: u64,
    bytes: nat,
    want: Option<Seq<Seq<(u32, Seq<char>)>>>,
    r: Option<Vec<Vec<Span>>>,
) -> bool {
    &&& after.wf()
    &&& after.cap == before.cap
    &&& after.min_len == before.min_len
    &&& if before@.dom().contains(key) && before@[key].0 == hash {
        r == Some(before@[key].1) && after@ == before@
    } else {
        &&& opt_lines(r) == want
        &&& match r {
            Some(v) => after@ == (if bytes < before.min_len {
                before@
            } else if before@.dom().len() >= before.cap {
                Map::empty().insert(key, (hash, v))
            } else {
                before@.insert(key, (hash, v))
            }),
            None => after@ == before@,
        }
    }
}

pub open spec fn unshared(r: Option<Arc<Vec<Vec<Span>>>>) -> Option<Vec<Vec<Span>>> {
    match r {
        Some(v) => Some(*v),
        None => None,
    }
}

/// Highlights a window of lines, or takes what the cache has for it: the same
/// scheme, key, language and content. Without a language there is nothing to
/// highlight.
pub fn highlight_window(
    cache: &mut MemoCache<Vec<Vec<Span>>>,
    engine: &Engine,
    dark: bool,
    key: &str,
    lang: Option<&str>,
    lines: &[&str],
) -> (r: Option<Arc<Vec<Vec<Span>>>>)
    requires
        old(cache).wf(),
        engine.wf(),
    ensures
        match lang {
            None => r is None && *final(cache) == *old(cache),
            Some(l) => looked_up(
                *old(cache),
                *final(cache),
                window_key(dark, key@, l@),
                text_hash(fingerprint(l@, str_views(lines@))),
                lines_bytes(str_views(lines@)),
                highlighted(l@, dark, str_views(lines@)),
                unshared(r),
            ),
        },
{
    let l = match lang {
        Some(l) => l,
        None => {
            return None;
        },
    };
    let bytes = count_bytes(lines);
    let hash = hash_of(fingerprint_of(l, lines).as_str());
    let tag = if dark {
        "dark"
    } else {
        "light"
    };
    let ck = cat5(tag, "·", key, "·", l);
    if let Some(v) = cache.get(ck.as_str(), hash) {
        return Some(v);
    }
    match highlight(engine, dark, l, lines) {
        Some(v) => {
            let shared = Arc::new(v);
            cache.put(ck.as_str(), hash, share(&shared), bytes);
            Some(shared)
        },
        None => None,
    }
}

/// The two schemes never share an entry of the cache.
pub proof fn law_schemes_do_not_share_entries(
    key: Seq<char>,
    lang: Seq<char>,
    other: Seq<char>,
    l: Seq<char>,
)
    ensures
        window_key(true, key, lang) != window_key(false, other, l),
{
    reveal_strlit("dark");
    reveal_strlit("light");
    assert(window_key(true, key, lang)[0] == 'd');
    assert(window_key(false, other, l)[0] == 'l');
}

/// The shown spans of a line that was fed with its end are the line: none of
/// its characters is lost, and the end is gone.
pub proof fn law_spans_are_the_line(v: Seq<(u32, Seq<char>)>, line: Seq<char>)
    requires
        spans_text(v) == line.push('\n'),
        !line.contains('\n'),
    ensures
        spans_text(shown_spans(v)) == line,
{
    lemma_shown_text(v, line);
}

/// A call of [`highlight_window`] with a language: its arguments, and what came
/// of it.
pub struct WindowCall {
    pub dark: bool,
    pub key: Seq<char>,
    pub lang: Seq<char>,
    pub lines: Seq<Seq<char>>,
    pub after: MemoCache<Vec<Vec<Span>>>,
    pub result: Option<Vec<Vec<Span>>>,
}

impl WindowCall {
    /// The key that the call goes to the cache with.
    pub open spec fn entry(self) -> Seq<char> {
        window_key(self.dark, self.key, self.lang)
    }

    /// The hash that the call goes to the cache with.
    pub open spec fn hash(self) -> u64 {
        text_hash(fingerprint(self.lang, self.lines))
    }

    /// What the window looks like.
    pub open spec fn wanted(self) -> Option<Seq<Seq<(u32, Seq<char>)>>> {
        highlighted(self.lang, self.dark, self.lines)
    }
}

/// The cache before the call with a number.
pub open spec fn window_cache_at(
    start: MemoCache<Vec<Vec<Span>>>,
    calls: Seq<WindowCall>,
    n: int,
) -> MemoCache<Vec<Vec<Span>>> {
    if n <= 0 {
        start
    } else {
        calls[n - 1].after
    }
}

/// Whether a call is one of [`highlight_window`] on a cache.
pub open spec fn is_window_call(before: MemoCache<Vec<Vec<Span>>>, call: WindowCall) -> bool {
    looked_up(
        before,
        call.after,
        call.entry(),
        call.hash(),
        lines_bytes(call.lines),
        call.wanted(),
        call.result,
    )
}

/// Whether calls were made one after the other on one cache.
pub open spec fn is_window_history(
    start: MemoCache<Vec<Vec<Span>>>,
    calls: Seq<WindowCall>,
) -> bool {
    forall|n: int|
        0 <= n < calls.len() ==> #[trigger] is_window_call(
            window_cache_at(start, calls, n),
            calls[n],
        )
}

/// Whether two calls are told apart: two
/// different windows do not have the same entry and hash.
pub open spec fn windows_apart(a: WindowCall, b: WindowCall) -> bool {
    a.entry() == b.entry() && a.hash() == b.hash() ==> a.dark == b.dark && a.lang == b.lang
        && a.lines == b.lines
}

/// Whether an entry of a cache holds what the window of a call looks like.
pub open spec fn keeps_window(entry: (u64, Vec<Vec<Span>>), key: Seq<char>, call: WindowCall) -> bool {
    &&& call.entry() == key
    &&& entry.0 == call.hash()
    &&& Some(span_lines(entry.1@)) == call.wanted()
}

/// Whether a cache holds nothing but what the windows look like that it was
/// called with.
pub open spec fn holds_windows(c: MemoCache<Vec<Vec<Span>>>, calls: Seq<WindowCall>) -> bool {
    forall|k: Seq<char>| #[trigger]
        c@.dom().contains(k) ==> exists|j: int|
            0 <= j < calls.len() && #[trigger] keeps_window(c@[k], k, calls[j])
}

proof fn lemma_holds_windows(
    before: MemoCache<Vec<Vec<Span>>>,
    init: Seq<WindowCall>,
    call: WindowCall,
)
    requires
        holds_windows(before, init),
        is_window_call(before, call),
        forall|i: int| 0 <= i < init.len() ==> #[trigger] windows_apart(init[i], call),
    ensures
        opt_lines(call.result) == call.wanted(),
        holds_windows(call.after, init.push(call)),
{
    let calls = init.push(call);
    let key = call.entry();
    if before@.dom().contains(key) && before@[key].0 == call.hash() {
        let j = choose|j: int| 0 <= j < init.len()
            && #[trigger] keeps_window(before@[key], key, init[j]);
        assert(windows_apart(init[j], call));
    }
    assert forall|k: Seq<char>| #[trigger] call.after@.dom().contains(k) implies exists|j: int|
        0 <= j < calls.len() && #[trigger] keeps_window(call.after@[k], k, calls[j]) by {
        if before@.dom().contains(k) && call.after@[k] == before@[k] {
            let j = choose|j: int|
                0 <= j < init.len() && #[trigger] keeps_window(before@[k], k, init[j]);
            assert(keeps_window(call.after@[k], k, calls[j]));
        } else {
            assert(keeps_window(call.after@[k], k, calls[init.len() as int]));
        }
    }
}

/// Over any history of calls on a cache that starts empty, where no two
/// different windows have the same entry and hash, every call returns what its
/// window looks like.
pub proof fn law_cached_window_is_highlighted(
    start: MemoCache<Vec<Vec<Span>>>,
    calls: Seq<WindowCall>,
)
    requires
        start@ == Map::<Seq<char>, (u64, Vec<Vec<Span>>)>::empty(),
        is_window_history(start, calls),
        forall|i: int, j: int|
            0 <= i < calls.len() && 0 <= j < calls.len()
                ==> #[trigger] windows_apart(calls[i], calls[j]),
    ensures
        forall|n: int| 0 <= n < calls.len() ==> opt_lines(
            (#[trigger] calls[n]).result,
        ) == calls[n].wanted(),
        holds_windows(window_cache_at(start, calls, calls.len() as int), calls),
    decreases calls.len(),
{
    if calls.len() > 0 {
        let init = calls.drop_last();
        let m = calls.len() - 1;
        assert forall|n: int| 0 <= n < init.len() implies #[trigger] is_window_call(
            window_cache_at(start, init, n),
            init[n],
        ) by {
            assert(is_window_call(window_cache_at(start, calls, n), calls[n]));
        }
        assert forall|i: int, j: int|
            0 <= i < init.len() && 0 <= j < init.len() implies #[trigger] windows_apart(
            init[i],
            init[j],
        ) by {
            assert(windows_apart(calls[i], calls[j]));
        }
        law_cached_window_is_highlighted(start, init);
        assert forall|i: int| 0 <= i < init.len() implies #[trigger] windows_apart(init[i], calls[m]) by {
            assert(windows_apart(calls[i], calls[m]));
        }
        assert(is_window_call(window_cache_at(start, calls, m), calls[m]));
        lemma_holds_windows(window_cache_at(start, init, m), init, calls[m]);
        assert(init.push(calls[m]) =~= calls);
        assert forall|n: int| 0 <= n < calls.len() implies opt_lines(
            (#[trigger] calls[n]).result,
        ) == calls[n].wanted() by {
            if n < m {
                assert(init[n] == calls[n]);
            }
        }
    }
}

/// The three parts of an opaque colour.
pub open spec fn red(c: u32) -> int {
    c as int / 65536 % 256
}

/// See [`red`].
pub open spec fn green(c: u32) -> int {
    c as int / 256 % 256
}

/// See [`red`].
pub open spec fn blue(c: u32) -> int {
    c as int % 256
}

/// In both schemes text is grey, comments and numbers are green, strings and
/// escapes red, types of keywords and variables blue, keywords without much
/// green, functions without much blue and classes without much red. All of
/// them are opaque.
pub proof fn law_roles_have_their_hues(dark: bool, p: CodePalette)
    requires
        call_ensures(code_palette, (dark,), p),
    ensures
        red(p.foreground) == green(p.foreground) == blue(p.foreground),
        green(p.comment) > red(p.comment) && green(p.comment) > blue(p.comment),
        red(p.string) > green(p.string) && red(p.string) > blue(p.string),
        green(p.number) > red(p.number) && green(p.number) > blue(p.number),
        green(p.keyword) < red(p.keyword) && green(p.keyword) < blue(p.keyword),
        blue(p.keyword_type) > red(p.keyword_type) && blue(p.keyword_type) > green(p.keyword_type),
        blue(p.function) < red(p.function) && blue(p.function) < green(p.function),
        red(p.class_name) < green(p.class_name) && red(p.class_name) < blue(p.class_name),
        blue(p.variable) > red(p.variable) && blue(p.variable) > green(p.variable),
        red(p.escape) > green(p.escape) && red(p.escape) > blue(p.escape),
        p.foreground >= 0xFF000000 && p.comment >= 0xFF000000 && p.string >= 0xFF000000,
        p.number >= 0xFF000000 && p.keyword >= 0xFF000000 && p.keyword_type >= 0xFF000000,
        p.function >= 0xFF000000 && p.class_name >= 0xFF000000 && p.variable >= 0xFF000000,
        p.escape >= 0xFF000000,
{
}

/// Every role is lighter in the dark scheme, where it stands on a dark ground.
pub proof fn law_dark_scheme_is_lighter(dark: CodePalette, light: CodePalette)
    requires
        call_ensures(code_palette, (true,), dark),
        call_ensures(code_palette, (false,), light),
    ensures
        green(dark.foreground) > green(light.foreground),
        green(dark.comment) > green(light.comment),
        green(dark.string) > green(light.string),
        green(dark.number) > green(light.number),
        green(dark.keyword) > green(light.keyword),
        green(dark.keyword_type) > green(light.keyword_type),
        green(dark.function) > green(light.function),
        green(dark.class_name) > green(light.class_name),
        green(dark.variable) > green(light.variable),
        green(dark.escape) > green(light.escape),
{
}

/// Whether a rule gives a scope a colour.
pub open spec fn gives(rules: Seq<(String, u32)>, scope: Seq<char>, colour: u32) -> bool {
    exists|i: int|
        0 <= i < rules.len() && (#[trigger] rules[i]).0@ == scope && rules[i].1 == colour
}

proof fn lemma_gives(rules: Seq<(String, u32)>, i: int)
    requires
        0 <= i < rules.len(),
    ensures
        gives(rules, rule_values(rules)[i].0, rule_values(rules)[i].1),
{
    assert(rules[i].0@ == rule_values(rules)[i].0);
}

/// Comments, strings, numbers, keywords and names have the colours of their
/// roles, and so have the marks that begin and end them.
#[verifier::rlimit(40)]
pub proof fn law_scopes_have_the_colours_of_their_roles(p: CodePalette, r: Vec<(String, u32)>)
    requires
        call_ensures(scope_rules, (p,), r),
    ensures
        gives(r@, "comment"@, p.comment),
        gives(r@, "punctuation.definition.comment"@, p.comment),
        gives(r@, "string"@, p.string),
        gives(r@, "punctuation.definition.string"@, p.string),
        gives(r@, "constant.character.escape"@, p.escape),
        gives(r@, "constant.numeric"@, p.number),
        gives(r@, "constant.language"@, p.keyword_type),
        gives(r@, "keyword"@, p.keyword),
        gives(r@, "storage"@, p.keyword_type),
        gives(r@, "entity.name.function"@, p.function),
        gives(r@, "support.function"@, p.function),
        gives(r@, "entity.name.type"@, p.class_name),
        gives(r@, "support.type"@, p.class_name),
        gives(r@, "support.class"@, p.class_name),
        gives(r@, "entity.name.tag"@, p.keyword_type),
        gives(r@, "entity.other.attribute-name"@, p.variable),
        gives(r@, "variable.language"@, p.keyword_type),
        gives(r@, "variable.other"@, p.variable),
        gives(r@, "support.variable.property"@, p.variable),
        r@.len() == 19,
{
    assert(rule_values(r@).len() == 19);
    assert forall|i: int| 0 <= i < 19 implies gives(
        r@,
        (#[trigger] scope_colours(p)[i]).0,
        scope_colours(p)[i].1,
    ) by {
        lemma_gives(r@, i);
    }
    let v = scope_colours(p);
    assert(v[0] == ("comment"@, p.comment));
    assert(v[1] == ("punctuation.definition.comment"@, p.comment));
    assert(v[2] == ("string"@, p.string));
    assert(v[3] == ("punctuation.definition.string"@, p.string));
    assert(v[4] == ("constant.character.escape"@, p.escape));
    assert(v[5] == ("constant.numeric"@, p.number));
    assert(v[6] == ("constant.language"@, p.keyword_type));
    assert(v[7] == ("keyword"@, p.keyword));
    assert(v[8] == ("storage"@, p.keyword_type));
    assert(v[9] == ("entity.name.function"@, p.function));
    assert(v[10] == ("support.function"@, p.function));
    assert(v[11] == ("entity.name.type"@, p.class_name));
    assert(v[12] == ("support.type"@, p.class_name));
    assert(v[13] == ("support.class"@, p.class_name));
    assert(v[14] == ("entity.name.tag"@, p.keyword_type));
    assert(v[15] == ("entity.other.attribute-name"@, p.variable));
    assert(v[16] == ("variable.language"@, p.keyword_type));
    assert(v[17] == ("variable.other"@, p.variable));
    assert(v[18] == ("support.variable.property"@, p.variable));
}

/// The languages that are close to another one are shown like it, in whatever
/// case they are written; any other one is shown as itself.
pub proof fn law_close_languages_are_shown_alike(lang: &str, l: Seq<char>, r: String)
    requires
        call_ensures(alias, (lang,), r),
        l.len() == lang@.len(),
        forall|i: int| 0 <= i < l.len() ==> #[trigger] l[i] == ascii_lower(lang@[i]),
    ensures
        l == "typescript"@ || l == "ts"@ || l == "tsx"@ || l == "jsx"@ ==> r@ == "javascript"@,
        l == "golang"@ ==> r@ == "go"@,
        l == "shell"@ || l == "shellscript"@ || l == "zsh"@ ==> r@ == "bash"@,
        l != "typescript"@ && l != "ts"@ && l != "tsx"@ && l != "jsx"@ && l != "golang"@ && l
            != "shell"@ && l != "shellscript"@ && l != "zsh"@ ==> r@ == l,
{
    assert(lowered(lang@) =~= l);
    reveal_strlit("typescript");
    reveal_strlit("ts");
    reveal_strlit("tsx");
    reveal_strlit("jsx");
    reveal_strlit("golang");
    reveal_strlit("shell");
    reveal_strlit("shellscript");
    reveal_strlit("zsh");
    assert("tsx"@[0] == 't' && "jsx"@[0] == 'j' && "zsh"@[0] == 'z');
}

/// A line is shown in the colours that it was given: every span that is shown
/// has the colour of one that was found, and begins as that one does. None is
/// empty.
pub proof fn law_spans_keep_their_colours(v: Seq<(u32, Seq<char>)>, i: int)
    requires
        0 <= i < shown_spans(v).len(),
    ensures
        shown_spans(v)[i].1.len() > 0,
        exists|j: int|
            0 <= j < v.len() && (#[trigger] v[j]).0 == shown_spans(v)[i].0
                && shown_spans(v)[i].1.len() <= v[j].1.len() && v[j].1.take(
                shown_spans(v)[i].1.len() as int,
            ) == shown_spans(v)[i].1,
{
    lemma_inhabited_text(v);
    let spans = inhabited(v);
    lemma_unended(spans.last().1);
    let j = lemma_inhabited_at(v, i);
    assert(v[j].1.take(v[j].1.len() as int) =~= v[j].1);
    if i < spans.len() - 1 {
        assert(shown_spans(v)[i] == spans[i]);
    } else {
        assert(spans[i] == spans.last());
        assert(shown_spans(v)[i] == (spans.last().0, unended(spans.last().1)));
    }
}

proof fn lemma_inhabited_at(v: Seq<(u32, Seq<char>)>, i: int) -> (j: int)
    requires
        0 <= i < inhabited(v).len(),
    ensures
        0 <= j < v.len(),
        v[j] == inhabited(v)[i],
    decreases v.len(),
{
    let init = inhabited(v.drop_last());
    if i < init.len() {
        lemma_inhabited_at(v.drop_last(), i)
    } else {
        v.len() - 1
    }
}

proof fn lemma_unended(s: Seq<char>)
    ensures
        unended(s).len() <= s.len(),
        s.take(unended(s).len() as int) == unended(s),
    decreases s.len(),
{
    if s.len() > 0 && s.last() == '\n' {
        lemma_unended(s.drop_last());
        assert(s.take(unended(s).len() as int) =~= s.drop_last().take(unended(s).len() as int));
    } else {
        assert(s.take(s.len() as int) =~= s);
    }
}

/// A single line is handed on with its end, in the language that it is shown
/// like and in the colours of the scheme; without a known syntax there is no
/// result.
pub proof fn law_lines_are_handed_on_whole(
    engine: &Engine,
    dark: bool,
    lang: &str,
    lines: &[&str],
    name: String,
    p: CodePalette,
    rules: Vec<(String, u32)>,
    r: Option<Vec<Vec<Span>>>,
)
    requires
        call_ensures(highlight, (engine, dark, lang, lines), r),
        call_ensures(alias, (lang,), name),
        call_ensures(code_palette, (dark,), p),
        call_ensures(scope_rules, (p,), rules),
        lines@.len() == 1,
    ensures
        ({
            let all = seq![(Seq::<char>::empty(), p.foreground)] + rule_values(rules@);
            let styled = styled_line(name@, all, Seq::empty(), lines@[0]@ + "\n"@);
            &&& r is Some <==> knows_syntax(name@) && styled is Some
            &&& r is Some ==> r->0@.len() == 1 && span_values(r->0@[0]@) == shown_spans(styled->0)
        }),
{
    let given = str_views(lines@);
    let e = ended(given);
    assert(e.len() == 1);
    assert(e.last() == lines@[0]@ + "\n"@);
    assert(e.drop_last() =~= Seq::empty());
    reveal_with_fuel(styled_lines, 3);
    if r is Some {
        assert(span_lines(r->0@).len() == 1);
        assert(span_lines(r->0@)[0] == span_values(r->0@[0]@));
    }
}

/// The cache keeps a hundred and twenty-eight windows, of half a kilobyte or
/// more.
pub proof fn law_windows_of_some_size_are_kept(r: MemoCache<Vec<Vec<Span>>>)
    requires
        call_ensures(new_highlight_cache, (), r),
    ensures
        r.cap == 128,
        r.min_len * 2 == 1024,
{
}

/// A window without a language is not coloured. One that is not in the cache is
/// coloured anew, in its own language and scheme.
pub proof fn law_windows_are_coloured(
    cache: &mut MemoCache<Vec<Vec<Span>>>,
    engine: &Engine,
    dark: bool,
    key: &str,
    lang: Option<&str>,
    lines: &[&str],
    r: Option<Arc<Vec<Vec<Span>>>>,
)
    requires
        call_ensures(highlight_window, (cache, engine, dark, key, lang, lines), r),
    ensures
        lang is None ==> r is None && *final(cache) == *old(cache),
        lang matches Some(l) ==> (!old(cache)@.contains_key(window_key(dark, key@, l@))
            ==> opt_lines(unshared(r)) == highlighted(l@, dark, str_views(lines@))),
{
}

} // verus!
