//! The drawing of the application's icon: the path and the view box of an SVG
//! document. Coordinates stay in their decimal notation.

use crate::markdown::{eq_ignoring_case, same_ignoring_case};
use crate::scan::{find_from, first_at, lemma_first_at, matches_at, stands_at};
use crate::text::{
    ascii_white, chars_of, digit, is_ascii_white, is_digit, is_white, owned, string_of_range, views,
    white,
};
use vstd::prelude::*;
use vstd::string::*;

verus! {

// ---------------------------------------------------------------------------
// Numbers
// ---------------------------------------------------------------------------
/// Whether every character is a digit.
pub open spec fn only_digits(s: Seq<char>) -> bool {
    forall|i: int| 0 <= i < s.len() ==> is_digit(#[trigger] s[i])
}

/// A text without the sign before it.
pub open spec fn unsigned(s: Seq<char>) -> Seq<char> {
    if s.len() > 0 && (s[0] == '+' || s[0] == '-') {
        s.skip(1)
    } else {
        s
    }
}

/// Where the exponent of a number starts, or the length of the text.
pub open spec fn exponent_at(s: Seq<char>) -> int {
    let a = first_at(s, 0, 'e');
    let b = first_at(s, 0, 'E');
    if a <= b {
        a
    } else {
        b
    }
}

/// Digits, with a point among them or not; at least one digit.
pub open spec fn is_mantissa(s: Seq<char>) -> bool {
    let d = first_at(s, 0, '.');
    let fraction = if d < s.len() {
        s.skip(d + 1)
    } else {
        Seq::empty()
    };
    only_digits(s.take(d)) && only_digits(fraction) && d + fraction.len() > 0
}

/// A number in decimal notation: a sign or none, digits with a point among
/// them or not, an exponent or none.
pub open spec fn is_decimal(s: Seq<char>) -> bool {
    let m = unsigned(s);
    let k = exponent_at(m);
    &&& is_mantissa(m.take(k))
    &&& k < m.len() ==> {
        let e = unsigned(m.skip(k + 1));
        e.len() > 0 && only_digits(e)
    }
}

fn digits_from(cs: &[char], from: usize, to: usize) -> (r: bool)
    requires
        from <= to <= cs@.len(),
    ensures
        r == only_digits(cs@.subrange(from as int, to as int)),
{
    let ghost part = cs@.subrange(from as int, to as int);
    let mut i: usize = from;
    while i < to
        invariant
            from <= i <= to <= cs@.len(),
            part == cs@.subrange(from as int, to as int),
            forall|k: int| 0 <= k < i - from ==> is_digit(#[trigger] part[k]),
        decreases to - i,
    {
        assert(part[i - from] == cs@[i as int]);
        if !digit(cs[i]) {
            return false;
        }
        i = i + 1;
    }
    true
}

fn sign_at(cs: &[char], at: usize, to: usize) -> (r: usize)
    requires
        at <= to <= cs@.len(),
    ensures
        at <= r <= to,
        cs@.subrange(r as int, to as int) == unsigned(cs@.subrange(at as int, to as int)),
{
    let ghost part = cs@.subrange(at as int, to as int);
    if at < to && (cs[at] == '+' || cs[at] == '-') {
        assert(part[0] == cs@[at as int]);
        assert(part.skip(1) =~= cs@.subrange(at + 1, to as int));
        at + 1
    } else {
        if at < to {
            assert(part[0] == cs@[at as int]);
        }
        at
    }
}

fn find_within(cs: &[char], from: usize, to: usize, c: char) -> (r: usize)
    requires
        from <= to <= cs@.len(),
    ensures
        r - from == first_at(cs@.subrange(from as int, to as int), 0, c),
        from <= r <= to,
{
    let ghost part = cs@.subrange(from as int, to as int);
    let mut i: usize = from;
    while i < to
        invariant
            from <= i <= to <= cs@.len(),
            part == cs@.subrange(from as int, to as int),
            first_at(part, 0, c) == first_at(part, i - from, c),
        decreases to - i,
    {
        assert(part[i - from] == cs@[i as int]);
        if cs[i] == c {
            return i;
        }
        i = i + 1;
    }
    i
}

/// Whether a stretch of a text is a number, see [`is_decimal`].
fn decimal(cs: &[char], from: usize, to: usize) -> (r: bool)
    requires
        from <= to <= cs@.len(),
    ensures
        r == is_decimal(cs@.subrange(from as int, to as int)),
{
    let start = sign_at(cs, from, to);
    let ghost m = cs@.subrange(start as int, to as int);
    let a = find_within(cs, start, to, 'e');
    let b = find_within(cs, start, to, 'E');
    let k = if a <= b {
        a
    } else {
        b
    };
    assert(k - start == exponent_at(m));
    let ghost mant = m.take(k - start);
    assert(mant =~= cs@.subrange(start as int, k as int));
    let d = find_within(cs, start, k, '.');
    assert(mant.take(d - start) =~= cs@.subrange(start as int, d as int));
    let whole_ok = digits_from(cs, start, d);
    let fraction_from = if d < k {
        d + 1
    } else {
        k
    };
    proof {
        if d < k {
            assert(mant.skip(d - start + 1) =~= cs@.subrange(d + 1, k as int));
        } else {
            assert(cs@.subrange(k as int, k as int) =~= Seq::<char>::empty());
        }
    }
    let fraction_ok = digits_from(cs, fraction_from, k);
    let any = d > start || fraction_from < k;
    let mant_ok = whole_ok && fraction_ok && any;
    assert(mant_ok == is_mantissa(mant));
    if !mant_ok {
        return false;
    }
    if k < to {
        assert(m.skip(k - start + 1) =~= cs@.subrange(k + 1, to as int));
        let e = sign_at(cs, k + 1, to);
        let ok = digits_from(cs, e, to);
        e < to && ok
    } else {
        true
    }
}

/// Whether a character can be part of a number.
pub open spec fn number_char(c: char) -> bool {
    is_digit(c) || c == '.' || c == '-' || c == '+' || c == 'e' || c == 'E'
}

/// Whether a character separates numbers.
pub open spec fn separator(c: char) -> bool {
    is_ascii_white(c) || c == ','
}

/// The first position that is no separator.
pub open spec fn past_separators(s: Seq<char>, i: int) -> int
    decreases s.len() - i,
{
    if 0 <= i < s.len() && separator(s[i]) {
        past_separators(s, i + 1)
    } else {
        i
    }
}

/// The first position that is no character of a number.
pub open spec fn past_number(s: Seq<char>, i: int) -> int
    decreases s.len() - i,
{
    if 0 <= i < s.len() && number_char(s[i]) {
        past_number(s, i + 1)
    } else {
        i
    }
}

/// The number behind a position and separators, with the position behind it.
pub open spec fn number_from(s: Seq<char>, i: int) -> Option<(Seq<char>, int)> {
    let a = past_separators(s, i);
    let b = past_number(s, a);
    if a == b || !is_decimal(s.subrange(a, b)) {
        None
    } else {
        Some((s.subrange(a, b), b))
    }
}

/// A number of numbers behind a position, with the position behind them.
pub open spec fn numbers_from(s: Seq<char>, i: int, n: nat) -> Option<(Seq<Seq<char>>, int)>
    decreases n,
{
    if n == 0 {
        Some((Seq::empty(), i))
    } else {
        match numbers_from(s, i, (n - 1) as nat) {
            None => None,
            Some(init) => match number_from(s, init.1) {
                None => None,
                Some(one) => Some((init.0.push(one.0), one.1)),
            },
        }
    }
}

proof fn lemma_past(s: Seq<char>, i: int)
    requires
        0 <= i <= s.len(),
    ensures
        i <= past_separators(s, i) <= s.len(),
        i <= past_number(s, i) <= s.len(),
    decreases s.len() - i,
{
    if i < s.len() {
        lemma_past(s, i + 1);
    }
}

proof fn lemma_numbers(s: Seq<char>, i: int, n: nat)
    requires
        0 <= i <= s.len(),
    ensures
        numbers_from(s, i, n) matches Some(r) ==> {
            &&& r.0.len() == n
            &&& i <= r.1 <= s.len()
            &&& n > 0 ==> i < r.1
        },
    decreases n,
{
    if n > 0 {
        lemma_numbers(s, i, (n - 1) as nat);
        if let Some(init) = numbers_from(s, i, (n - 1) as nat) {
            lemma_past(s, init.1);
            lemma_past(s, past_separators(s, init.1));
        }
    }
}

fn is_number_char(c: char) -> (r: bool)
    ensures
        r == number_char(c),
{
    digit(c) || c == '.' || c == '-' || c == '+' || c == 'e' || c == 'E'
}

fn is_separator(c: char) -> (r: bool)
    ensures
        r == separator(c),
{
    ascii_white(c) || c == ','
}

fn read_number(cs: &[char], i: usize) -> (r: Option<(String, usize)>)
    requires
        i <= cs@.len(),
    ensures
        match r {
            Some(x) => number_from(cs@, i as int) == Some((x.0@, x.1 as int)) && x.1 <= cs@.len(),
            None => number_from(cs@, i as int) is None,
        },
{
    let mut a: usize = i;
    while a < cs.len() && is_separator(cs[a])
        invariant
            i <= a <= cs@.len(),
            past_separators(cs@, i as int) == past_separators(cs@, a as int),
        decreases cs@.len() - a,
    {
        a = a + 1;
    }
    let mut b: usize = a;
    while b < cs.len() && is_number_char(cs[b])
        invariant
            a <= b <= cs@.len(),
            past_number(cs@, a as int) == past_number(cs@, b as int),
        decreases cs@.len() - b,
    {
        b = b + 1;
    }
    if a == b || !decimal(cs, a, b) {
        return None;
    }
    Some((string_of_range(cs, a, b), b))
}

fn read_numbers(cs: &[char], i: usize, n: usize) -> (r: Option<(Vec<String>, usize)>)
    requires
        i <= cs@.len(),
    ensures
        match r {
            Some(x) => {
                &&& numbers_from(cs@, i as int, n as nat) == Some((views(x.0@), x.1 as int))
                &&& x.0@.len() == n
                &&& x.1 <= cs@.len()
                &&& n > 0 ==> i < x.1
            },
            None => numbers_from(cs@, i as int, n as nat) is None,
        },
{
    let mut out: Vec<String> = Vec::new();
    let mut at: usize = i;
    let mut k: usize = 0;
    assert(views(out@) =~= Seq::<Seq<char>>::empty());
    while k < n
        invariant
            i <= cs@.len(),
            k <= n,
            at <= cs@.len(),
            out@.len() == k,
            numbers_from(cs@, i as int, k as nat) == Some((views(out@), at as int)),
        decreases n - k,
    {
        let ghost before = out@;
        match read_number(cs, at) {
            Some(x) => {
                out.push(x.0);
                assert(views(out@) =~= views(before).push(x.0@));
                at = x.1;
            },
            None => {
                proof {
                    lemma_numbers_fail(cs@, i as int, k as nat + 1, n as nat);
                }
                return None;
            },
        }
        k = k + 1;
    }
    proof {
        lemma_numbers(cs@, i as int, n as nat);
    }
    Some((out, at))
}

proof fn lemma_numbers_fail(s: Seq<char>, i: int, k: nat, n: nat)
    requires
        k <= n,
        numbers_from(s, i, k) is None,
    ensures
        numbers_from(s, i, n) is None,
    decreases n,
{
    if k < n {
        lemma_numbers_fail(s, i, k, (n - 1) as nat);
    }
}

// ---------------------------------------------------------------------------
// Paths
// ---------------------------------------------------------------------------
/// A step of a path.
#[derive(Debug, PartialEq, Eq)]
pub enum PathOp {
    Move { x: String, y: String },
    Curve { c1x: String, c1y: String, c2x: String, c2y: String, x: String, y: String },
    Line { x: String, y: String },
    Close,
}

/// The content of a step.
#[verifier::ext_equal]
pub enum OpValue {
    Move(Seq<char>, Seq<char>),
    Curve(Seq<char>, Seq<char>, Seq<char>, Seq<char>, Seq<char>, Seq<char>),
    Line(Seq<char>, Seq<char>),
    Close,
}

impl View for PathOp {
    type V = OpValue;

    open spec fn view(&self) -> OpValue {
        match *self {
            PathOp::Move { x, y } => OpValue::Move(x@, y@),
            PathOp::Curve { c1x, c1y, c2x, c2y, x, y } => OpValue::Curve(
                c1x@,
                c1y@,
                c2x@,
                c2y@,
                x@,
                y@,
            ),
            PathOp::Line { x, y } => OpValue::Line(x@, y@),
            PathOp::Close => OpValue::Close,
        }
    }
}

pub open spec fn op_values(v: Seq<PathOp>) -> Seq<OpValue> {
    v.map_values(|o: PathOp| o@)
}

/// How many numbers a command takes.
pub open spec fn arity(command: char) -> nat {
    if command == 'M' {
        2
    } else if command == 'C' {
        6
    } else {
        1
    }
}

/// The step of a command with its numbers; a vertical line keeps the abscissa
/// of the point before.
pub open spec fn op_of(command: char, n: Seq<Seq<char>>, x: Seq<char>) -> OpValue {
    if command == 'M' {
        OpValue::Move(n[0], n[1])
    } else if command == 'C' {
        OpValue::Curve(n[0], n[1], n[2], n[3], n[4], n[5])
    } else {
        OpValue::Line(x, n[0])
    }
}

/// The abscissa of the point after a command.
pub open spec fn x_after(command: char, n: Seq<Seq<char>>, x: Seq<char>) -> Seq<char> {
    if command == 'M' {
        n[0]
    } else if command == 'C' {
        n[4]
    } else {
        x
    }
}

/// Steps with one before them.
pub open spec fn preceded(first: OpValue, rest: Option<Seq<OpValue>>) -> Option<Seq<OpValue>> {
    match rest {
        Some(v) => Some(seq![first] + v),
        None => None,
    }
}

/// The steps from a position on, behind a command that may be repeated and a
/// point with an abscissa. The commands are `M`, `C`, `V` and `Z`; numbers
/// without a command repeat `C` and `V`. Anything else is refused.
pub open spec fn ops_from(s: Seq<char>, i: int, repeat: char, x: Seq<char>) -> Option<Seq<OpValue>>
    decreases s.len() - i,
{
    if i < 0 || i >= s.len() {
        Some(Seq::empty())
    } else {
        let c = s[i];
        if separator(c) {
            ops_from(s, i + 1, repeat, x)
        } else if c == 'Z' {
            preceded(OpValue::Close, ops_from(s, i + 1, ' ', x))
        } else {
            let named = c == 'M' || c == 'C' || c == 'V';
            let again = (is_digit(c) || c == '-' || c == '.') && (repeat == 'C' || repeat == 'V');
            if !named && !again {
                None
            } else {
                let command = if named {
                    c
                } else {
                    repeat
                };
                let from = if named {
                    i + 1
                } else {
                    i
                };
                match numbers_from(s, from, arity(command)) {
                    Some(n) if i < n.1 <= s.len() => preceded(
                        op_of(command, n.0, x),
                        ops_from(s, n.1, command, x_after(command, n.0, x)),
                    ),
                    _ => None,
                }
            }
        }
    }
}

/// Whether a path has a point.
pub open spec fn has_point(v: Seq<OpValue>) -> bool {
    exists|i: int| 0 <= i < v.len() && !((#[trigger] v[i]) is Close)
}

/// The steps of a path; nothing where it does not parse or has no point.
pub open spec fn path_of(s: Seq<char>) -> Option<Seq<OpValue>> {
    match ops_from(s, 0, ' ', "0"@) {
        Some(v) if has_point(v) => Some(v),
        _ => None,
    }
}

/// Steps with others before them.
pub open spec fn continued(init: Seq<OpValue>, rest: Option<Seq<OpValue>>) -> Option<Seq<OpValue>> {
    match rest {
        Some(v) => Some(init + v),
        None => None,
    }
}

proof fn lemma_continued(init: Seq<OpValue>, op: OpValue, rest: Option<Seq<OpValue>>)
    ensures
        continued(init, preceded(op, rest)) == continued(init.push(op), rest),
{
    if let Some(v) = rest {
        assert(init + (seq![op] + v) =~= init.push(op) + v);
    }
}

fn make_op(command: char, n: Vec<String>, x: &str) -> (r: PathOp)
    requires
        n@.len() == arity(command),
    ensures
        r@ == op_of(command, views(n@), x@),
{
    if command == 'M' {
        PathOp::Move { x: owned(n[0].as_str()), y: owned(n[1].as_str()) }
    } else if command == 'C' {
        PathOp::Curve {
            c1x: owned(n[0].as_str()),
            c1y: owned(n[1].as_str()),
            c2x: owned(n[2].as_str()),
            c2y: owned(n[3].as_str()),
            x: owned(n[4].as_str()),
            y: owned(n[5].as_str()),
        }
    } else {
        PathOp::Line { x: owned(x), y: owned(n[0].as_str()) }
    }
}

/// See [`path_of`].
pub fn parse_svg_path(d: &str) -> (r: Option<Vec<PathOp>>)
    ensures
        match r {
            Some(v) => path_of(d@) == Some(op_values(v@)),
            None => path_of(d@) is None,
        },
{
    let chars = chars_of(d);
    let cs = chars.as_slice();
    let ghost whole = ops_from(d@, 0, ' ', "0"@);
    let mut ops: Vec<PathOp> = Vec::new();
    let mut x = owned("0");
    let mut repeat: char = ' ';
    let mut point = false;
    let mut i: usize = 0;
    proof {
        assert(op_values(ops@) =~= Seq::<OpValue>::empty());
        if let Some(v) = whole {
            assert(Seq::<OpValue>::empty() + v =~= v);
        }
    }
    while i < cs.len()
        invariant
            cs@ == d@,
            i <= cs@.len(),
            whole == ops_from(d@, 0, ' ', "0"@),
            whole == continued(op_values(ops@), ops_from(cs@, i as int, repeat, x@)),
            point == has_point(op_values(ops@)),
        decreases cs@.len() - i,
    {
        let c = cs[i];
        let ghost before = op_values(ops@);
        if is_separator(c) {
            i = i + 1;
        } else if c == 'Z' {
            proof {
                lemma_continued(before, OpValue::Close, ops_from(cs@, i + 1, ' ', x@));
            }
            ops.push(PathOp::Close);
            assert(op_values(ops@) =~= before.push(OpValue::Close));
            proof {
                lemma_has_point(before, OpValue::Close);
            }
            repeat = ' ';
            i = i + 1;
        } else {
            let named = c == 'M' || c == 'C' || c == 'V';
            let again = (digit(c) || c == '-' || c == '.') && (repeat == 'C' || repeat == 'V');
            if !named && !again {
                return None;
            }
            let command = if named {
                c
            } else {
                repeat
            };
            let from: usize = if named {
                i + 1
            } else {
                i
            };
            let count: usize = if command == 'M' {
                2
            } else if command == 'C' {
                6
            } else {
                1
            };
            let (numbers, next) = match read_numbers(cs, from, count) {
                Some(n) => n,
                None => {
                    return None;
                },
            };
            let ghost n = views(numbers@);
            let next_x = if command == 'M' {
                owned(numbers[0].as_str())
            } else if command == 'C' {
                owned(numbers[4].as_str())
            } else {
                owned(x.as_str())
            };
            let op = make_op(command, numbers, x.as_str());
            let ghost value = op@;
            proof {
                lemma_continued(
                    before,
                    value,
                    ops_from(cs@, next as int, command, x_after(command, n, x@)),
                );
            }
            ops.push(op);
            assert(op_values(ops@) =~= before.push(value));
            proof {
                lemma_has_point(before, value);
            }
            point = true;
            x = next_x;
            repeat = command;
            i = next;
        }
    }
    assert(op_values(ops@) + Seq::<OpValue>::empty() =~= op_values(ops@));
    if point {
        Some(ops)
    } else {
        None
    }
}

proof fn lemma_has_point(v: Seq<OpValue>, op: OpValue)
    ensures
        has_point(v.push(op)) == (has_point(v) || !(op is Close)),
{
    let w = v.push(op);
    if has_point(v) {
        let i = choose|i: int| 0 <= i < v.len() && !((#[trigger] v[i]) is Close);
        assert(w[i] == v[i]);
    }
    if !(op is Close) {
        assert(w[v.len() as int] == op);
    }
    if has_point(w) {
        let i = choose|i: int| 0 <= i < w.len() && !((#[trigger] w[i]) is Close);
        if i < v.len() {
            assert(v[i] == w[i]);
        }
    }
}

// ---------------------------------------------------------------------------
// The document
// ---------------------------------------------------------------------------
/// The first position at or behind another where a text stands.
pub open spec fn first_text(s: Seq<char>, from: int, p: Seq<char>) -> Option<int>
    decreases s.len() - from,
{
    if from < 0 || from > s.len() {
        None
    } else if stands_at(s, from, p) {
        Some(from)
    } else if from == s.len() {
        None
    } else {
        first_text(s, from + 1, p)
    }
}

fn find_text(cs: &[char], p: &str) -> (r: Option<usize>)
    ensures
        match r {
            Some(i) => first_text(cs@, 0, p@) == Some(i as int) && i + p@.len() <= cs@.len(),
            None => first_text(cs@, 0, p@) is None,
        },
{
    let ps = chars_of(p);
    let mut i: usize = 0;
    while i < cs.len()
        invariant
            ps@ == p@,
            i <= cs@.len(),
            first_text(cs@, 0, p@) == first_text(cs@, i as int, p@),
        decreases cs@.len() - i,
    {
        if matches_at(cs, i, ps.as_slice()) {
            return Some(i);
        }
        i = i + 1;
    }
    if matches_at(cs, i, ps.as_slice()) {
        Some(i)
    } else {
        None
    }
}

/// The text between a mark and the next quotation mark.
pub open spec fn quoted_after(s: Seq<char>, mark: Seq<char>) -> Option<Seq<char>> {
    match first_text(s, 0, mark) {
        None => None,
        Some(i) => {
            let start = i + mark.len();
            let end = first_at(s, start, '"');
            if end < s.len() {
                Some(s.subrange(start, end))
            } else {
                None
            }
        },
    }
}

fn text_after(svg: &str, mark: &str) -> (r: Option<String>)
    ensures
        match r {
            Some(t) => quoted_after(svg@, mark@) == Some(t@),
            None => quoted_after(svg@, mark@) is None,
        },
{
    let chars = chars_of(svg);
    let cs = chars.as_slice();
    match find_text(cs, mark) {
        Some(i) => {
            let marks = chars_of(mark);
            assert(i + marks@.len() <= cs@.len());
            let total: usize = cs.len();
            let start: usize = i + marks.len();
            let end = find_from(cs, start, '"');
            proof {
                lemma_first_at(cs@, start as int, '"');
            }
            if end < total {
                Some(string_of_range(cs, start, end))
            } else {
                None
            }
        },
        None => None,
    }
}

/// The path of a document: the first `d` attribute.
pub fn extract_path_d(svg: &str) -> (r: Option<String>)
    ensures
        match r {
            Some(t) => quoted_after(svg@, "d=\""@) == Some(t@),
            None => quoted_after(svg@, "d=\""@) is None,
        },
{
    text_after(svg, "d=\"")
}

/// The first position at or behind another that is white, or the end.
pub open spec fn word_end(s: Seq<char>, i: int) -> int
    decreases s.len() - i,
{
    if 0 <= i < s.len() && !is_white(s[i]) {
        word_end(s, i + 1)
    } else {
        i
    }
}

/// The words of a text from a position on.
pub open spec fn words_from(s: Seq<char>, i: int) -> Seq<Seq<char>>
    decreases s.len() - i,
{
    if i < 0 || i >= s.len() {
        Seq::empty()
    } else if is_white(s[i]) {
        words_from(s, i + 1)
    } else {
        let e = word_end(s, i);
        if e <= i || e > s.len() {
            Seq::empty()
        } else {
            seq![s.subrange(i, e)] + words_from(s, e)
        }
    }
}

proof fn lemma_word_end(s: Seq<char>, i: int)
    requires
        0 <= i <= s.len(),
    ensures
        i <= word_end(s, i) <= s.len(),
        i < s.len() && !is_white(s[i]) ==> i < word_end(s, i),
    decreases s.len() - i,
{
    if i < s.len() && !is_white(s[i]) {
        lemma_word_end(s, i + 1);
    }
}

fn words_of(text: &str) -> (r: Vec<String>)
    ensures
        views(r@) == words_from(text@, 0),
{
    let chars = chars_of(text);
    let cs = chars.as_slice();
    let ghost all = words_from(text@, 0);
    let mut out: Vec<String> = Vec::new();
    let mut i: usize = 0;
    assert(views(out@) =~= Seq::<Seq<char>>::empty());
    assert(Seq::<Seq<char>>::empty() + all =~= all);
    while i < cs.len()
        invariant
            cs@ == text@,
            i <= cs@.len(),
            all == words_from(text@, 0),
            all == views(out@) + words_from(cs@, i as int),
        decreases cs@.len() - i,
    {
        if white(cs[i]) {
            i = i + 1;
        } else {
            let ghost before = views(out@);
            let mut e: usize = i;
            while e < cs.len() && !white(cs[e])
                invariant
                    i <= e <= cs@.len(),
                    word_end(cs@, i as int) == word_end(cs@, e as int),
                decreases cs@.len() - e,
            {
                e = e + 1;
            }
            proof {
                lemma_word_end(cs@, i as int);
            }
            let w = string_of_range(cs, i, e);
            out.push(w);
            assert(views(out@) =~= before.push(w@));
            assert(before + (seq![w@] + words_from(cs@, e as int)) =~= before.push(w@)
                + words_from(cs@, e as int));
            i = e;
        }
    }
    assert(views(out@) + Seq::<Seq<char>>::empty() =~= views(out@));
    out
}

/// A word that denotes a number that has no digits.
pub open spec fn is_special(s: Seq<char>) -> bool {
    let w = unsigned(s);
    same_ignoring_case(w, "inf"@) || same_ignoring_case(w, "infinity"@) || same_ignoring_case(
        w,
        "nan"@,
    )
}

/// A word that denotes a number.
pub open spec fn is_number(s: Seq<char>) -> bool {
    is_decimal(s) || is_special(s)
}

fn number_word(s: &str) -> (r: bool)
    ensures
        r == is_number(s@),
{
    let chars = chars_of(s);
    let cs = chars.as_slice();
    assert(cs@.subrange(0, cs@.len() as int) =~= s@);
    if decimal(cs, 0, cs.len()) {
        return true;
    }
    let k = sign_at(cs, 0, cs.len());
    let w = string_of_range(cs, k, cs.len());
    eq_ignoring_case(w.as_str(), "inf") || eq_ignoring_case(w.as_str(), "infinity")
        || eq_ignoring_case(w.as_str(), "nan")
}

/// A view box, in decimal notation.
#[derive(Debug, PartialEq, Eq)]
pub struct ViewBox {
    pub x: String,
    pub y: String,
    pub width: String,
    pub height: String,
}

/// Whether every word denotes a number.
pub open spec fn all_numbers(w: Seq<Seq<char>>) -> bool {
    forall|i: int| 0 <= i < w.len() ==> is_number(#[trigger] w[i])
}

/// The numbers of the view box of a document; nothing where there are fewer
/// than four or a word denotes none.
pub open spec fn view_box_of(svg: Seq<char>) -> Option<Seq<Seq<char>>> {
    match quoted_after(svg, "viewBox=\""@) {
        None => None,
        Some(t) => {
            let w = words_from(t, 0);
            if all_numbers(w) && w.len() >= 4 {
                Some(w.take(4))
            } else {
                None
            }
        },
    }
}

/// See [`view_box_of`].
pub fn extract_viewbox(svg: &str) -> (r: Option<ViewBox>)
    ensures
        match r {
            Some(b) => view_box_of(svg@) == Some(seq![b.x@, b.y@, b.width@, b.height@]),
            None => view_box_of(svg@) is None,
        },
{
    let text = match text_after(svg, "viewBox=\"") {
        Some(t) => t,
        None => {
            return None;
        },
    };
    let words = words_of(text.as_str());
    let ghost w = words_from(text@, 0);
    let mut i: usize = 0;
    while i < words.len()
        invariant
            i <= words@.len(),
            w == views(words@),
            w == words_from(text@, 0),
            quoted_after(svg@, "viewBox=\""@) == Some(text@),
            forall|k: int| 0 <= k < i ==> is_number(#[trigger] w[k]),
        decreases words@.len() - i,
    {
        assert(w[i as int] == words@[i as int]@);
        if !number_word(words[i].as_str()) {
            return None;
        }
        i = i + 1;
    }
    assert(w.len() == words@.len());
    if words.len() < 4 {
        return None;
    }
    let b = ViewBox {
        x: owned(words[0].as_str()),
        y: owned(words[1].as_str()),
        width: owned(words[2].as_str()),
        height: owned(words[3].as_str()),
    };
    assert(w.take(4) =~= seq![b.x@, b.y@, b.width@, b.height@]);
    Some(b)
}

/// Every coordinate of a path is a number in decimal notation.
pub proof fn law_coordinates_are_numbers(s: Seq<char>, i: int, n: nat, k: int)
    requires
        0 <= i <= s.len(),
        numbers_from(s, i, n) is Some,
        0 <= k < n,
    ensures
        is_decimal(numbers_from(s, i, n).unwrap().0[k]),
    decreases n,
{
    lemma_numbers(s, i, (n - 1) as nat);
    if k < n - 1 {
        law_coordinates_are_numbers(s, i, (n - 1) as nat, k);
    }
}

/// Whether a number stands behind separators: the separators run from `i` to
/// `a`, the number from there to `b`.
pub open spec fn number_stands(s: Seq<char>, i: int, a: int, b: int) -> bool {
    &&& 0 <= i <= a < b <= s.len()
    &&& forall|k: int| i <= k < a ==> is_ascii_white(#[trigger] s[k]) || s[k] == ','
    &&& forall|k: int|
        a <= k < b ==> is_digit(#[trigger] s[k]) || s[k] == '.' || s[k] == '-' || s[k] == '+'
            || s[k] == 'e' || s[k] == 'E'
    &&& b < s.len() ==> !number_char(s[b])
    &&& !(is_ascii_white(s[a]) || s[a] == ',')
    &&& is_decimal(s.subrange(a, b))
}

proof fn lemma_past_separators(s: Seq<char>, i: int, a: int)
    requires
        0 <= i <= a <= s.len(),
        forall|k: int| i <= k < a ==> separator(#[trigger] s[k]),
        a < s.len() ==> !separator(s[a]),
    ensures
        past_separators(s, i) == a,
    decreases a - i,
{
    if i < a {
        assert(separator(s[i]));
        lemma_past_separators(s, i + 1, a);
    }
}

proof fn lemma_past_number(s: Seq<char>, a: int, b: int)
    requires
        0 <= a <= b <= s.len(),
        forall|k: int| a <= k < b ==> number_char(#[trigger] s[k]),
        b < s.len() ==> !number_char(s[b]),
    ensures
        past_number(s, a) == b,
    decreases b - a,
{
    if a < b {
        assert(number_char(s[a]));
        lemma_past_number(s, a + 1, b);
    }
}

/// A number behind separators is read as it is written, up to its end.
pub proof fn law_numbers_are_read(s: Seq<char>, i: int, a: int, b: int)
    requires
        number_stands(s, i, a, b),
    ensures
        number_from(s, i) == Some((s.subrange(a, b), b)),
{
    assert forall|k: int| i <= k < a implies separator(#[trigger] s[k]) by {}
    assert forall|k: int| a <= k < b implies number_char(#[trigger] s[k]) by {}
    lemma_past_separators(s, i, a);
    lemma_past_number(s, a, b);
}

/// Digits are a number, with or without a sign, and so are digits on both
/// sides of a point. A text without a digit is none.
pub proof fn law_digits_make_a_number(s: Seq<char>, t: Seq<char>)
    requires
        s.len() > 0,
        forall|i: int| 0 <= i < s.len() ==> is_digit(#[trigger] s[i]),
        forall|i: int| 0 <= i < t.len() ==> is_digit(#[trigger] t[i]),
    ensures
        is_decimal(s),
        is_decimal(seq!['-'] + s),
        is_decimal(seq!['+'] + s),
        is_decimal(s + seq!['.'] + t),
        is_decimal(seq!['-'] + s + seq!['.'] + t),
        is_decimal(t + seq!['.'] + s),
        t.len() == 0 ==> !is_decimal(t) && !is_decimal(seq!['-'] + t) && !is_decimal(
            seq!['.'] + t,
        ),
{
    let e = Seq::<char>::empty();
    lemma_plain_decimal(s, e, false);
    assert(s + e =~= s);
    lemma_plain_decimal(s, t, true);
    lemma_plain_decimal(t, s, true);
    lemma_signed(s, '-');
    lemma_signed(s, '+');
    assert(seq!['-'] + s + seq!['.'] + t =~= seq!['-'] + (s + seq!['.'] + t));
    lemma_signed(s + seq!['.'] + t, '-');
    if t.len() == 0 {
        assert(t =~= e);
        assert(is_decimal(e) == is_mantissa(e)) by {
            assert(unsigned(e) =~= e);
            lemma_first_at(e, 0, 'e');
            lemma_first_at(e, 0, 'E');
            assert(e.take(0) =~= e);
        }
        lemma_first_at(e, 0, '.');
        assert(!is_mantissa(e));
        lemma_signed(e, '-');
        let p = seq!['.'] + t;
        assert(p =~= seq!['.']);
        lemma_first_at(p, 0, 'e');
        lemma_first_at(p, 0, 'E');
        lemma_first_at(p, 0, '.');
        assert(unsigned(p) =~= p);
        assert(p.take(1) =~= p);
        assert(!is_mantissa(p)) by {
            assert(first_at(p, 0, '.') == 0);
            assert(p.skip(1) =~= e);
        }
    }
}

proof fn lemma_signed(s: Seq<char>, sign: char)
    requires
        sign == '+' || sign == '-',
        s.len() > 0 ==> s[0] != '+' && s[0] != '-',
    ensures
        is_decimal(seq![sign] + s) == is_decimal(s),
{
    let t = seq![sign] + s;
    assert(t.skip(1) =~= s);
    assert(t[0] == sign);
    assert(unsigned(t) == s);
    assert(unsigned(s) == s);
}

proof fn lemma_plain_decimal(s: Seq<char>, t: Seq<char>, point: bool)
    requires
        s.len() + t.len() > 0,
        forall|i: int| 0 <= i < s.len() ==> is_digit(#[trigger] s[i]),
        forall|i: int| 0 <= i < t.len() ==> is_digit(#[trigger] t[i]),
        !point ==> t.len() == 0,
    ensures
        is_decimal(if point {
            s + seq!['.'] + t
        } else {
            s
        }),
{
    let m = if point {
        s + seq!['.'] + t
    } else {
        s
    };
    let n = s.len() as int;
    assert forall|i: int| 0 <= i < m.len() implies is_digit(#[trigger] m[i]) || m[i] == '.' by {
        if i < n {
            assert(m[i] == s[i]);
        } else if i > n {
            assert(m[i] == t[i - n - 1]);
        }
    }
    lemma_first_at(m, 0, 'e');
    lemma_first_at(m, 0, 'E');
    lemma_first_at(m, 0, '.');
    let k = exponent_at(m);
    if k < m.len() {
        assert(m[k] == 'e' || m[k] == 'E');
        assert(false);
    }
    assert(k == m.len());
    assert(m.take(k) =~= m);
    assert(unsigned(m) == m);
    let d = first_at(m, 0, '.');
    if point {
        assert(m[n] == '.');
        assert(d == n) by {
            if d < n {
                assert(m[d] == s[d]);
            }
        }
        assert(m.take(n) =~= s);
        assert(m.skip(n + 1) =~= t);
    } else {
        if d < m.len() {
            assert(m[d] == s[d]);
        }
        assert(m.take(d) =~= s);
    }
}

/// A move goes to the point that is written behind its letter.
pub proof fn law_moves_are_read(
    s: Seq<char>,
    i: int,
    repeat: char,
    x: Seq<char>,
    a: Seq<int>,
    b: Seq<int>,
)
    requires
        0 <= i < s.len(),
        s[i] == 'M',
        number_stands(s, i + 1, a[0], b[0]),
        number_stands(s, b[0], a[1], b[1]),
    ensures
        ops_from(s, i, repeat, x) == preceded(
            OpValue::Move(s.subrange(a[0], b[0]), s.subrange(a[1], b[1])),
            ops_from(s, b[1], 'M', s.subrange(a[0], b[0])),
        ),
{
    law_numbers_are_read(s, i + 1, a[0], b[0]);
    law_numbers_are_read(s, b[0], a[1], b[1]);
    reveal_with_fuel(numbers_from, 3);
    let n = numbers_from(s, i + 1, 2);
    assert((n->0).0 =~= seq![s.subrange(a[0], b[0]), s.subrange(a[1], b[1])]);
}

/// A curve goes to the last of its three points, by way of the other two; its
/// letter need not be written again.
pub proof fn law_curves_are_read(
    s: Seq<char>,
    i: int,
    repeat: char,
    x: Seq<char>,
    a: Seq<int>,
    b: Seq<int>,
)
    requires
        0 <= i < s.len(),
        s[i] == 'C' && number_stands(s, i + 1, a[0], b[0]) || repeat == 'C' && (is_digit(s[i])
            || s[i] == '-' || s[i] == '.') && number_stands(s, i, a[0], b[0]),
        number_stands(s, b[0], a[1], b[1]),
        number_stands(s, b[1], a[2], b[2]),
        number_stands(s, b[2], a[3], b[3]),
        number_stands(s, b[3], a[4], b[4]),
        number_stands(s, b[4], a[5], b[5]),
    ensures
        ops_from(s, i, repeat, x) == preceded(
            OpValue::Curve(
                s.subrange(a[0], b[0]),
                s.subrange(a[1], b[1]),
                s.subrange(a[2], b[2]),
                s.subrange(a[3], b[3]),
                s.subrange(a[4], b[4]),
                s.subrange(a[5], b[5]),
            ),
            ops_from(s, b[5], 'C', s.subrange(a[4], b[4])),
        ),
{
    let from = if s[i] == 'C' {
        i + 1
    } else {
        i
    };
    assert(s[i] == 'C' ==> !is_digit(s[i]) && !separator(s[i]));
    assert(is_digit(s[i]) || s[i] == '-' || s[i] == '.' ==> !separator(s[i]) && s[i] != 'Z' && s[i]
        != 'M' && s[i] != 'V');
    law_numbers_are_read(s, from, a[0], b[0]);
    assert(numbers_from(s, from, 0) == Some((Seq::<Seq<char>>::empty(), from)));
    lemma_one_more(s, from, 0, Seq::empty(), from, a[0], b[0]);
    let n1 = seq![s.subrange(a[0], b[0])];
    assert(Seq::<Seq<char>>::empty().push(s.subrange(a[0], b[0])) =~= n1);
    lemma_one_more(s, from, 1, n1, b[0], a[1], b[1]);
    let n2 = n1.push(s.subrange(a[1], b[1]));
    lemma_one_more(s, from, 2, n2, b[1], a[2], b[2]);
    let n3 = n2.push(s.subrange(a[2], b[2]));
    lemma_one_more(s, from, 3, n3, b[2], a[3], b[3]);
    let n4 = n3.push(s.subrange(a[3], b[3]));
    lemma_one_more(s, from, 4, n4, b[3], a[4], b[4]);
    let n5 = n4.push(s.subrange(a[4], b[4]));
    lemma_one_more(s, from, 5, n5, b[4], a[5], b[5]);
}

proof fn lemma_one_more(
    s: Seq<char>,
    i: int,
    n: nat,
    read: Seq<Seq<char>>,
    at: int,
    a: int,
    b: int,
)
    requires
        numbers_from(s, i, n) == Some((read, at)),
        number_stands(s, at, a, b),
    ensures
        numbers_from(s, i, n + 1) == Some((read.push(s.subrange(a, b)), b)),
{
    law_numbers_are_read(s, at, a, b);
}

/// A vertical line keeps the place across and goes to the height that is
/// written; its letter need not be written again.
pub proof fn law_vertical_lines_are_read(
    s: Seq<char>,
    i: int,
    repeat: char,
    x: Seq<char>,
    a: int,
    b: int,
)
    requires
        0 <= i < s.len(),
        s[i] == 'V' && number_stands(s, i + 1, a, b) || repeat == 'V' && (is_digit(s[i]) || s[i]
            == '-' || s[i] == '.') && number_stands(s, i, a, b),
    ensures
        ops_from(s, i, repeat, x) == preceded(
            OpValue::Line(x, s.subrange(a, b)),
            ops_from(s, b, 'V', x),
        ),
{
    let from = if s[i] == 'V' {
        i + 1
    } else {
        i
    };
    assert(s[i] == 'V' ==> !is_digit(s[i]) && !separator(s[i]));
    assert(is_digit(s[i]) || s[i] == '-' || s[i] == '.' ==> !separator(s[i]) && s[i] != 'Z' && s[i]
        != 'M' && s[i] != 'C');
    assert(numbers_from(s, from, 0) == Some((Seq::<Seq<char>>::empty(), from)));
    lemma_one_more(s, from, 0, Seq::empty(), from, a, b);
}

/// White space and commas are passed over, a `Z` closes the figure, and any
/// other sign than those of a path makes it none. A path has at least one
/// point.
pub proof fn law_other_signs_make_no_path(s: Seq<char>, i: int, repeat: char, x: Seq<char>)
    requires
        0 <= i < s.len(),
    ensures
        is_ascii_white(s[i]) || s[i] == ',' ==> ops_from(s, i, repeat, x) == ops_from(
            s,
            i + 1,
            repeat,
            x,
        ),
        s[i] == 'Z' ==> ops_from(s, i, repeat, x) == preceded(
            OpValue::Close,
            ops_from(s, i + 1, ' ', x),
        ),
        !is_ascii_white(s[i]) && s[i] != ',' && s[i] != 'Z' && s[i] != 'M' && s[i] != 'C' && s[i]
            != 'V' && !is_digit(s[i]) && s[i] != '-' && s[i] != '.' ==> ops_from(s, i, repeat, x)
            is None,
        repeat == ' ' && (is_digit(s[i]) || s[i] == '-' || s[i] == '.') ==> ops_from(
            s,
            i,
            repeat,
            x,
        ) is None,
        path_of(Seq::<char>::empty()) is None,
        path_of(s) matches Some(v)
            ==> exists|k: int| 0 <= k < v.len() && !((#[trigger] v[k]) is Close),
{
    assert(s[i] == 'Z' ==> !separator(s[i]));
}

proof fn lemma_first_text(s: Seq<char>, from: int, p: Seq<char>, k: int)
    requires
        0 <= from <= k,
        stands_at(s, k, p),
        forall|j: int| from <= j < k ==> !#[trigger] stands_at(s, j, p),
    ensures
        first_text(s, from, p) == Some(k),
    decreases k - from,
{
    if from < k {
        assert(!stands_at(s, from, p));
        lemma_first_text(s, from + 1, p, k);
    }
}

/// What stands between a mark and the next quote is found, at the first place
/// where the mark stands.
pub proof fn law_quoted_texts_are_found(
    before: Seq<char>,
    mark: Seq<char>,
    text: Seq<char>,
    after: Seq<char>,
)
    requires
        !text.contains('"'),
        forall|j: int|
            0 <= j < before.len() ==> !#[trigger] stands_at(
                before + mark + text + seq!['"'] + after,
                j,
                mark,
            ),
    ensures
        quoted_after(before + mark + text + seq!['"'] + after, mark) == Some(text),
{
    let s = before + mark + text + seq!['"'] + after;
    let k = before.len() as int;
    assert(s.subrange(k, k + mark.len()) =~= mark);
    lemma_first_text(s, 0, mark, k);
    let start = k + mark.len();
    let end = start + text.len();
    lemma_first_at(s, start, '"');
    let e = first_at(s, start, '"');
    assert(s[end] == '"');
    assert(e == end) by {
        if e < end {
            assert(s[e] == text[e - start]);
            assert(text.contains('"'));
        }
    }
    assert(s.subrange(start, end) =~= text);
}

/// Words are what stands between white space: a word at the front is the
/// first, and white space before it does not count.
pub proof fn law_words_stand_between_white_space(s: Seq<char>, i: int, e: int)
    requires
        0 <= i < e <= s.len(),
        forall|k: int| i <= k < e ==> !is_white(#[trigger] s[k]),
        e < s.len() ==> is_white(s[e]),
    ensures
        words_from(s, i) == seq![s.subrange(i, e)] + words_from(s, e),
        e < s.len() ==> words_from(s, e) == words_from(s, e + 1),
{
    lemma_word_end_at(s, i, e);
    assert(!is_white(s[i]));
}

proof fn lemma_word_end_at(s: Seq<char>, i: int, e: int)
    requires
        0 <= i <= e <= s.len(),
        forall|k: int| i <= k < e ==> !is_white(#[trigger] s[k]),
        e < s.len() ==> is_white(s[e]),
    ensures
        word_end(s, i) == e,
    decreases e - i,
{
    if i < e {
        assert(!is_white(s[i]));
        lemma_word_end_at(s, i + 1, e);
    }
}

/// The view box has its four numbers in the order left, top, width and height;
/// it takes numbers, and at least four.
pub proof fn law_view_box_has_four_numbers(svg: &str, text: Seq<char>, r: Option<ViewBox>)
    requires
        call_ensures(extract_viewbox, (svg,), r),
        quoted_after(svg@, "viewBox=\""@) == Some(text),
    ensures
        ({
            let w = words_from(text, 0);
            &&& r is Some <==> w.len() >= 4 && forall|i: int|
                0 <= i < w.len() ==> is_number(#[trigger] w[i])
            &&& r matches Some(b) ==> b.x@ == w[0] && b.y@ == w[1] && b.width@ == w[2] && b.height@
                == w[3]
        }),
{
    let w = words_from(text, 0);
    if r is Some {
        let b = r->0;
        let v = seq![b.x@, b.y@, b.width@, b.height@];
        assert(w.take(4) == v);
        assert(v[0] == w[0] && v[1] == w[1] && v[2] == w[2] && v[3] == w[3]);
    }
}

/// The path of a drawing is what its first `d` attribute holds.
pub proof fn law_path_is_the_attribute(
    svg: &str,
    before: Seq<char>,
    text: Seq<char>,
    after: Seq<char>,
    r: Option<String>,
)
    requires
        call_ensures(extract_path_d, (svg,), r),
        svg@ == before + "d=\""@ + text + seq!['"'] + after,
        !text.contains('"'),
        forall|j: int| 0 <= j < before.len() ==> !#[trigger] stands_at(svg@, j, "d=\""@),
    ensures
        r matches Some(t) && t@ == text,
{
    law_quoted_texts_are_found(before, "d=\""@, text, after);
}

/// A path is read from its first sign on, from the origin.
pub proof fn law_paths_are_read_from_their_start(d: &str, r: Option<Vec<PathOp>>)
    requires
        call_ensures(parse_svg_path, (d,), r),
    ensures
        r matches Some(v) ==> ops_from(d@, 0, ' ', "0"@) == Some(op_values(v@)) && exists|i: int|
            0 <= i < v@.len() && !((#[trigger] v@[i])@ is Close),
        r is None ==> (ops_from(d@, 0, ' ', "0"@) matches Some(v) ==> forall|i: int|
            0 <= i < v.len() ==> (#[trigger] v[i]) is Close),
{
    if r is Some {
        let v = op_values(r->0@);
        let i = choose|i: int| 0 <= i < v.len() && !((#[trigger] v[i]) is Close);
        assert(r->0@[i]@ == v[i]);
    }
}

} // verus!
