//! The status bar: one line of session statistics, the billing badge of the
//! active provider and the card that the badge opens.

use crate::binary64::{one_decimal, one_decimal_text};
use crate::decimal::{dec, parse_i64, parsed_i64, u64_text};
use crate::json::{Json, JsonValue};
use crate::scan::{replace, replace_str};
use crate::shell::store::AppStore;
use crate::text::{cat2, cat3, cat4, opt_view, owned, str_eq};
use chrono::{Datelike, TimeZone, Timelike};
use vstd::prelude::*;
use vstd::string::*;

verus! {

// ---------------------------------------------------------------------------
// Numbers
// ---------------------------------------------------------------------------
/// A span of milliseconds for people: a dash for none, milliseconds below a
/// second, seconds with one decimal from there on.
pub open spec fn span_text(ms: i64) -> Seq<char> {
    if ms >= 1000 {
        one_decimal(ms as nat, 1000) + "s"@
    } else if ms > 0 {
        dec(ms as nat) + "ms"@
    } else {
        "—"@
    }
}

/// See [`span_text`].
pub fn fmt_ms(ms: i64) -> (r: String)
    ensures
        r@ == span_text(ms),
{
    if ms >= 1000 {
        let t = one_decimal_text(ms as u64, 1000);
        cat2(t.as_str(), "s")
    } else if ms > 0 {
        let t = u64_text(ms as u64);
        cat2(t.as_str(), "ms")
    } else {
        owned("—")
    }
}

/// A token count in thousands, from a million on in millions.
pub open spec fn tokens_text(v: u64) -> Seq<char> {
    if v >= 1_000_000 {
        one_decimal(v as nat, 1_000_000) + "M"@
    } else {
        one_decimal(v as nat, 1000) + "k"@
    }
}

/// See [`tokens_text`].
pub fn fmt_tok_k(v: u64) -> (r: String)
    ensures
        r@ == tokens_text(v),
{
    if v >= 1_000_000 {
        let t = one_decimal_text(v, 1_000_000);
        cat2(t.as_str(), "M")
    } else {
        let t = one_decimal_text(v, 1000);
        cat2(t.as_str(), "k")
    }
}

// ---------------------------------------------------------------------------
// Statistics
// ---------------------------------------------------------------------------
/// An unsigned member, zero where it is missing or something else.
pub open spec fn count_at(j: JsonValue, key: Seq<char>) -> u64 {
    match j.field(key).as_unsigned() {
        Some(n) => n,
        None => 0,
    }
}

/// A signed member, zero where it is missing or something else.
pub open spec fn span_at(j: JsonValue, key: Seq<char>) -> i64 {
    match j.field(key).as_signed() {
        Some(n) => n,
        None => 0,
    }
}

fn count_member(j: &Json, key: &str) -> (r: Option<u64>)
    ensures
        r == j.value().field(key@).as_unsigned(),
{
    match j.get(key) {
        Some(v) => v.as_u64(),
        None => None,
    }
}

fn count_of(j: &Json, key: &str) -> (r: u64)
    ensures
        r == count_at(j.value(), key@),
{
    match count_member(j, key) {
        Some(n) => n,
        None => 0,
    }
}

fn span_of(j: &Json, key: &str) -> (r: i64)
    ensures
        r == span_at(j.value(), key@),
{
    match j.get(key) {
        Some(v) => match v.as_i64() {
            Some(n) => n,
            None => 0,
        },
        None => 0,
    }
}

/// The statistics line of a session: empty without statistics and while the
/// session has no turn.
pub open spec fn stats_text(stats: Option<JsonValue>) -> Seq<char> {
    match stats {
        None => Seq::empty(),
        Some(s) => if s.field("turns"@).as_unsigned() == Some(0u64) {
            Seq::empty()
        } else {
            dec(count_at(s, "turns"@) as nat) + " 轮 · "@ + dec(count_at(s, "steps"@) as nat)
                + " 步 · LLM "@ + span_text(span_at(s, "llmMs"@)) + " · 工具调用 "@ + span_text(
                span_at(s, "toolMs"@),
            ) + " · 首 token 平均 "@ + span_text(span_at(s, "firstTokenMs"@)) + " · "@ + dec(
                count_at(s, "tokensPerSecond"@) as nat,
            ) + " tok/s · 缓存命中 "@ + dec(count_at(s, "cacheHitPercent"@) as nat)
                + "% · 输入 "@ + tokens_text(count_at(s, "inputTokens"@)) + " · 输出 "@
                + tokens_text(count_at(s, "outputTokens"@))
        },
    }
}

/// The statistics line, from what is known of the current session.
pub fn stats_line(stats: Option<&Json>) -> (r: String)
    ensures
        r@ == stats_text(crate::json::opt_value(stats)),
{
    let s = match stats {
        Some(s) => s,
        None => {
            return String::new();
        },
    };
    if let Some(n) = count_member(s, "turns") {
        if n == 0 {
            return String::new();
        }
    }
    let mut out = u64_text(count_of(s, "turns"));
    out.append(" 轮 · ");
    out.append(u64_text(count_of(s, "steps")).as_str());
    out.append(" 步 · LLM ");
    out.append(fmt_ms(span_of(s, "llmMs")).as_str());
    out.append(" · 工具调用 ");
    out.append(fmt_ms(span_of(s, "toolMs")).as_str());
    out.append(" · 首 token 平均 ");
    out.append(fmt_ms(span_of(s, "firstTokenMs")).as_str());
    out.append(" · ");
    out.append(u64_text(count_of(s, "tokensPerSecond")).as_str());
    out.append(" tok/s · 缓存命中 ");
    out.append(u64_text(count_of(s, "cacheHitPercent")).as_str());
    out.append("% · 输入 ");
    out.append(fmt_tok_k(count_of(s, "inputTokens")).as_str());
    out.append(" · 输出 ");
    out.append(fmt_tok_k(count_of(s, "outputTokens")).as_str());
    out
}

// ---------------------------------------------------------------------------
// The active provider
// ---------------------------------------------------------------------------
/// The id of the provider in force: that of the active workspace where one is
/// set for it, else the default one.
pub open spec fn active_provider(snapshot: JsonValue, workspace: Option<Seq<char>>) -> Seq<char> {
    let own = match workspace {
        Some(ws) => snapshot.field("workspaceProviders"@).field(ws).as_text(),
        None => None,
    };
    match own {
        Some(p) => p,
        None => match snapshot.field("defaultProvider"@).as_text() {
            Some(p) => p,
            None => Seq::empty(),
        },
    }
}

/// The first item with an id.
pub open spec fn with_id(items: Seq<JsonValue>, id: Seq<char>) -> Option<JsonValue>
    decreases items.len(),
{
    if items.len() == 0 {
        None
    } else if items[0].field("id"@).as_text() == Some(id) {
        Some(items[0])
    } else {
        with_id(items.skip(1), id)
    }
}

/// What is known of the billing of the provider in force: nothing where the
/// provider is not listed.
pub open spec fn billing_cache(snapshot: JsonValue, workspace: Option<Seq<char>>) -> Option<
    JsonValue,
> {
    match snapshot.field("providers"@).as_items() {
        None => None,
        Some(ps) => match with_id(ps, active_provider(snapshot, workspace)) {
            None => None,
            Some(p) => Some(p.field("billing_cache"@)),
        },
    }
}

fn text_member(j: &Json, key: &str) -> (r: Option<String>)
    ensures
        opt_view(r) == j.value().field(key@).as_text(),
{
    match j.get(key) {
        Some(v) => match v.as_str() {
            Some(s) => Some(owned(s.as_str())),
            None => None,
        },
        None => None,
    }
}

/// See [`active_provider`].
pub fn active_provider_id(snapshot: &Json, workspace: &Option<String>) -> (r: String)
    ensures
        r@ == active_provider(snapshot.value(), opt_view(*workspace)),
{
    if let Some(ws) = workspace {
        if let Some(m) = snapshot.get("workspaceProviders") {
            if let Some(p) = text_member(m, ws.as_str()) {
                return p;
            }
        }
    }
    match text_member(snapshot, "defaultProvider") {
        Some(p) => p,
        None => String::new(),
    }
}

pub(crate) fn find_with_id<'a>(items: &'a Vec<Json>, id: &str) -> (r: Option<&'a Json>)
    ensures
        crate::json::opt_value(r) == with_id(crate::json::values(items@), id@),
{
    let ghost all = crate::json::values(items@);
    let mut i: usize = 0;
    assert(all.skip(0) =~= all);
    while i < items.len()
        invariant
            i <= items@.len(),
            all == crate::json::values(items@),
            with_id(all, id@) == with_id(all.skip(i as int), id@),
        decreases items@.len() - i,
    {
        let item = &items[i];
        assert(all.skip(i as int)[0] == item.value());
        assert(all.skip(i as int).skip(1) =~= all.skip(i + 1));
        if let Some(t) = text_member(item, "id") {
            if str_eq(t.as_str(), id) {
                return Some(item);
            }
        }
        i = i + 1;
    }
    None
}

fn cache_of(snapshot: &Json, workspace: &Option<String>) -> (r: Option<Json>)
    ensures
        match r {
            Some(j) => billing_cache(snapshot.value(), opt_view(*workspace)) == Some(j.value()),
            None => billing_cache(snapshot.value(), opt_view(*workspace)) is None,
        },
{
    let id = active_provider_id(snapshot, workspace);
    match snapshot.items_at("providers") {
        Some(ps) => match find_with_id(ps, id.as_str()) {
            Some(p) => match p.get("billing_cache") {
                Some(c) => Some(c.copy()),
                None => Some(Json::Null),
            },
            None => None,
        },
        None => None,
    }
}

// ---------------------------------------------------------------------------
// The badge
// ---------------------------------------------------------------------------
/// What the billing badge shows.
#[derive(Debug, PartialEq, Eq)]
pub enum BillingBadge {
    /// The balance.
    Balance(String),
    /// How much of the two usage windows is spent, in percent; at least one
    /// of them is there.
    Usage { pct_5h: Option<u64>, pct_7d: Option<u64> },
}

/// The content of a badge.
#[verifier::ext_equal]
pub enum BadgeValue {
    Balance(Seq<char>),
    Usage { pct_5h: Option<u64>, pct_7d: Option<u64> },
}

impl View for BillingBadge {
    type V = BadgeValue;

    open spec fn view(&self) -> BadgeValue {
        match *self {
            BillingBadge::Balance(s) => BadgeValue::Balance(s@),
            BillingBadge::Usage { pct_5h, pct_7d } => BadgeValue::Usage { pct_5h, pct_7d },
        }
    }
}

/// The badge of what is known of a provider's billing.
pub open spec fn badge_of(cache: JsonValue) -> Option<BadgeValue> {
    let kind = cache.field("kind"@).as_text();
    if kind == Some("balance"@) {
        match cache.field("amount"@).as_text() {
            None => None,
            Some(amount) => Some(
                BadgeValue::Balance(
                    match cache.field("currency"@).as_text() {
                        Some(cur) => replace("¥ "@ + amount + " "@ + cur, "¥ CNY"@, "¥"@),
                        None => "¥ "@ + amount,
                    },
                ),
            ),
        }
    } else if kind == Some("usage"@) {
        let pct_5h = cache.field("pct_5h"@).as_unsigned();
        let pct_7d = cache.field("pct_7d"@).as_unsigned();
        if pct_5h is None && pct_7d is None {
            None
        } else {
            Some(BadgeValue::Usage { pct_5h, pct_7d })
        }
    } else {
        None
    }
}

/// The badge of the provider in force; none where it is not listed or its
/// billing is not known.
pub fn billing_badge(snapshot: &Json, workspace: &Option<String>) -> (r: Option<BillingBadge>)
    ensures
        match r {
            Some(b) => billing_cache(snapshot.value(), opt_view(*workspace)) matches Some(c)
                && badge_of(c) == Some(b@),
            None => billing_cache(snapshot.value(), opt_view(*workspace)) matches Some(c)
                ==> badge_of(c) is None,
        },
{
    let cache = match cache_of(snapshot, workspace) {
        Some(c) => c,
        None => {
            return None;
        },
    };
    proof {
        reveal_strlit("balance");
        reveal_strlit("usage");
        assert("balance"@.len() != "usage"@.len());
    }
    match text_member(&cache, "kind") {
        Some(kind) => if str_eq(kind.as_str(), "balance") {
            match text_member(&cache, "amount") {
                Some(amount) => match text_member(&cache, "currency") {
                    Some(cur) => {
                        let line = cat4("¥ ", amount.as_str(), " ", cur.as_str());
                        proof {
                            reveal_strlit("¥ CNY");
                        }
                        Some(BillingBadge::Balance(replace_str(line.as_str(), "¥ CNY", "¥")))
                    },
                    None => Some(BillingBadge::Balance(cat2("¥ ", amount.as_str()))),
                },
                None => None,
            }
        } else if str_eq(kind.as_str(), "usage") {
            let pct_5h = count_member(&cache, "pct_5h");
            let pct_7d = count_member(&cache, "pct_7d");
            if pct_5h.is_none() && pct_7d.is_none() {
                None
            } else {
                Some(BillingBadge::Usage { pct_5h, pct_7d })
            }
        } else {
            None
        },
        None => None,
    }
}

// ---------------------------------------------------------------------------
// Reset times
// ---------------------------------------------------------------------------
/// A moment on the local calendar and clock.
#[derive(Debug, Clone, Copy, PartialEq, Eq, Structural)]
pub struct LocalTime {
    pub month: u32,
    pub day: u32,
    pub hour: u32,
    pub minute: u32,
}

impl LocalTime {
    /// A month, day, hour and minute that a calendar and a clock have.
    pub open spec fn wf(self) -> bool {
        1 <= self.month <= 12 && 1 <= self.day <= 31 && self.hour < 24 && self.minute < 60
    }
}

/// The first millisecond since the epoch that has a date.
pub const FIRST_DATED_MS: i64 = -8_334_601_228_800_000;

/// The last millisecond since the epoch that has a date.
pub const LAST_DATED_MS: i64 = 8_210_266_876_799_999;

/// Whether a year of the Gregorian calendar has a leap day.
pub open spec fn is_leap(year: int) -> bool {
    year % 4 == 0 && (year % 100 != 0 || year % 400 == 0)
}

/// The days of a month.
pub open spec fn month_days(year: int, month: int) -> int {
    if month == 2 {
        if is_leap(year) {
            29
        } else {
            28
        }
    } else if month == 4 || month == 6 || month == 9 || month == 11 {
        30
    } else {
        31
    }
}

/// The days from January 1 of the year 0 to January 1 of a year: 365 for each
/// year, and the leap days.
pub open spec fn days_before_year(year: int) -> int {
    365 * year + (year + 3) / 4 - (year + 99) / 100 + (year + 399) / 400
}

/// The days of a year before a month.
pub open spec fn days_before_month(year: int, month: int) -> int
    decreases month,
{
    if month <= 1 {
        0
    } else {
        days_before_month(year, month - 1) + month_days(year, month - 1)
    }
}

/// The number of a day, counted from January 1 of 1970.
pub open spec fn day_number(year: int, month: int, day: int) -> int {
    days_before_year(year) - days_before_year(1970) + days_before_month(year, month) + day - 1
}

/// Whether calendar and clock show a time in a zone, at a number of
/// milliseconds since the epoch. The zone is so many seconds ahead.
pub open spec fn shows(t: LocalTime, ms: i64, ahead: int) -> bool {
    let secs = ms as int / 1000 + ahead;
    &&& t.wf()
    &&& t.hour == secs % 86_400 / 3_600
    &&& t.minute == secs % 3_600 / 60
    &&& exists|year: int|
        t.day <= month_days(year, t.month as int) && #[trigger] day_number(
            year,
            t.month as int,
            t.day as int,
        ) == secs / 86_400
}

/// Whether a time is shown somewhere: a zone is less than a day ahead or
/// behind.
pub open spec fn may_show(t: LocalTime, ms: i64) -> bool {
    exists|ahead: int| -86_400 < ahead < 86_400 && #[trigger] shows(t, ms, ahead)
}

/// Calls `chrono::Local.timestamp_millis_opt(ms).single()` and reads the
/// month, day, hour and minute of the result. There is a result exactly for
/// the milliseconds from January 1 of the year -262143 to the end of the year
/// 262142, whatever the time zone. It is the time of those milliseconds, less
/// than a day ahead or behind; how much rests on the time zone of the machine
/// and is left unsaid.
#[verifier::external_body]
fn local_time(ms: i64) -> (r: Option<LocalTime>)
    ensures
        r is Some <==> FIRST_DATED_MS <= ms <= LAST_DATED_MS,
        r matches Some(t) ==> may_show(t, ms),
{
    match chrono::Local.timestamp_millis_opt(ms).single() {
        Some(dt) => Some(
            LocalTime { month: dt.month(), day: dt.day(), hour: dt.hour(), minute: dt.minute() },
        ),
        None => None,
    }
}

/// A number in two digits or more.
pub open spec fn two_digits(n: nat) -> Seq<char> {
    if n < 10 {
        "0"@ + dec(n)
    } else {
        dec(n)
    }
}

/// How a reset time is written: as a date for the weekly window, as a time of
/// day for the other.
pub open spec fn reset_text_of(t: LocalTime, weekly: bool) -> Seq<char> {
    if weekly {
        dec(t.month as nat) + "月"@ + dec(t.day as nat) + "日"@
    } else {
        two_digits(t.hour as nat) + ":"@ + two_digits(t.minute as nat)
    }
}

fn two_digit_text(n: u32) -> (r: String)
    ensures
        r@ == two_digits(n as nat),
{
    let t = u64_text(n as u64);
    if n < 10 {
        cat2("0", t.as_str())
    } else {
        t
    }
}

/// See [`reset_text_of`].
pub fn reset_text(t: LocalTime, weekly: bool) -> (r: String)
    ensures
        r@ == reset_text_of(t, weekly),
{
    if weekly {
        let m = u64_text(t.month as u64);
        let d = u64_text(t.day as u64);
        cat4(m.as_str(), "月", d.as_str(), "日")
    } else {
        let h = two_digit_text(t.hour);
        let m = two_digit_text(t.minute);
        cat3(h.as_str(), ":", m.as_str())
    }
}

/// Whether a reset time can be shown: it is a number of milliseconds that has
/// a date.
pub open spec fn dated(resets: Seq<char>) -> bool {
    parsed_i64(resets) matches Some(ms) && FIRST_DATED_MS <= ms <= LAST_DATED_MS
}

/// The local reset time, as a date or a time of day; none where the text is no
/// number of milliseconds with a date. Which moment it is rests on the time
/// zone of the machine.
pub fn reset_time(resets: &str, weekly: bool) -> (r: Option<String>)
    ensures
        r is Some <==> dated(resets@),
        r matches Some(s) ==> exists|t: LocalTime| #[trigger]
            may_show(t, parsed_i64(resets@)->0) && s@ == reset_text_of(t, weekly),
{
    match parse_i64(resets) {
        Some(ms) => match local_time(ms) {
            Some(t) => Some(reset_text(t, weekly)),
            None => None,
        },
        None => None,
    }
}

// ---------------------------------------------------------------------------
// The card
// ---------------------------------------------------------------------------
/// One usage window on the billing card.
#[derive(Debug, PartialEq, Eq)]
pub struct BillingBlock {
    /// The name of the window.
    pub label: String,
    /// How much of it is spent, in percent.
    pub pct: u64,
    /// That share as a text.
    pub pct_text: String,
    /// How much of the bar is filled, in percent.
    pub filled: u64,
    /// When the window starts anew, behind a dot.
    pub resets: Option<String>,
}

/// One block of the card as far as it does not rest on the time zone: its
/// window has a share, and a reset time stands in it exactly where one can be
/// shown.
pub open spec fn block_fits(
    b: BillingBlock,
    cache: JsonValue,
    label: Seq<char>,
    pct_key: Seq<char>,
    resets_key: Seq<char>,
    weekly: bool,
) -> bool {
    &&& b.label@ == label
    &&& cache.field(pct_key).as_unsigned() == Some(b.pct)
    &&& b.pct_text@ == dec(b.pct as nat) + "%"@
    &&& b.filled == (if b.pct > 100 {
        100
    } else {
        b.pct
    })
    &&& b.resets is Some <==> (cache.field(resets_key).as_text() matches Some(r) && dated(r))
    &&& b.resets matches Some(s) ==> exists|t: LocalTime| #[trigger]
        may_show(t, parsed_i64(cache.field(resets_key).as_text()->0)->0) && s@ == "· "@
            + reset_text_of(t, weekly)
}

fn billing_block(cache: &Json, label: &str, pct_key: &str, resets_key: &str, weekly: bool) -> (r:
    Option<BillingBlock>)
    ensures
        r is Some <==> cache.value().field(pct_key@).as_unsigned() is Some,
        r matches Some(b) ==> block_fits(
            b,
            cache.value(),
            label@,
            pct_key@,
            resets_key@,
            weekly,
        ),
{
    match count_member(cache, pct_key) {
        Some(pct) => {
            let resets = match text_member(cache, resets_key) {
                Some(t) => match reset_time(t.as_str(), weekly) {
                    Some(s) => Some(cat2("· ", s.as_str())),
                    None => None,
                },
                None => None,
            };
            let digits = u64_text(pct);
            let filled: u64 = if pct > 100 {
                100
            } else {
                pct
            };
            Some(
                BillingBlock {
                    label: owned(label),
                    pct,
                    pct_text: cat2(digits.as_str(), "%"),
                    filled,
                    resets,
                },
            )
        },
        None => None,
    }
}

/// What is known of a provider's billing, null where nothing is.
pub open spec fn card_cache(snapshot: JsonValue, workspace: Option<Seq<char>>) -> JsonValue {
    match billing_cache(snapshot, workspace) {
        Some(c) => c,
        None => JsonValue::Null,
    }
}

/// The blocks of the billing card: the five-hour window, then the weekly one,
/// each where its share is known.
pub fn billing_card(snapshot: &Json, workspace: &Option<String>) -> (r: Vec<BillingBlock>)
    ensures
        ({
            let c = card_cache(snapshot.value(), opt_view(*workspace));
            let short = c.field("pct_5h"@).as_unsigned() is Some;
            let week = c.field("pct_7d"@).as_unsigned() is Some;
            &&& r@.len() == (if short {
                1int
            } else {
                0
            }) + (if week {
                1int
            } else {
                0
            })
            &&& short ==> block_fits(r@[0], c, "5 小时"@, "pct_5h"@, "resets"@, false)
            &&& week ==> block_fits(r@.last(), c, "1 周"@, "pct_7d"@, "resets_7d"@, true)
        }),
{
    let cache = match cache_of(snapshot, workspace) {
        Some(c) => c,
        None => Json::Null,
    };
    let mut out: Vec<BillingBlock> = Vec::new();
    if let Some(b) = billing_block(&cache, "5 小时", "pct_5h", "resets", false) {
        out.push(b);
    }
    if let Some(b) = billing_block(&cache, "1 周", "pct_7d", "resets_7d", true) {
        out.push(b);
    }
    out
}

// ---------------------------------------------------------------------------
// The whole bar
// ---------------------------------------------------------------------------
/// What the status bar shows.
#[derive(Debug, PartialEq, Eq)]
pub struct StatusBar {
    /// The statistics of the current session; empty where there are none.
    pub stats: String,
    pub badge: Option<BillingBadge>,
    /// The name of the preset in force; none where it has no id.
    pub mode: Option<String>,
}

impl AppStore {
    /// The statistics that are known of the current session.
    pub open spec fn current_stats(self) -> Option<JsonValue> {
        match self.current() {
            Some(id) => if self.stats_by_id@.contains_key(id) {
                Some(self.stats_by_id@[id].value())
            } else {
                None
            },
            None => None,
        }
    }

    /// The status bar of the window.
    pub fn status_bar(&self) -> (r: StatusBar)
        requires
            self.wf(),
        ensures
            r.stats@ == stats_text(self.current_stats()),
            match r.badge {
                Some(b) => billing_cache(
                    self.settings.settings_snapshot.value(),
                    opt_view(self.state.active_workspace),
                ) matches Some(c) && badge_of(c) == Some(b@),
                None => billing_cache(
                    self.settings.settings_snapshot.value(),
                    opt_view(self.state.active_workspace),
                ) matches Some(c) ==> badge_of(c) is None,
            },
            opt_view(r.mode) == (if self.shown_cfg().preset.len() == 0 {
                None
            } else {
                Some(self.preset_name(self.shown_cfg().preset))
            }),
    {
        let known = match &self.state.current_id {
            Some(id) => self.stats_by_id.get(id.as_str()),
            None => None,
        };
        let stats = stats_line(known);
        let badge = billing_badge(&self.settings.settings_snapshot, &self.state.active_workspace);
        let preset = self.current_cfg_or_default().preset;
        let mode = if preset.as_str().unicode_len() == 0 {
            None
        } else {
            Some(self.preset_label(preset.as_str()))
        };
        StatusBar { stats, badge, mode }
    }
}

/// Of several items with an id the first one is meant.
pub proof fn law_first_with_an_id(items: Seq<JsonValue>, id: Seq<char>, k: int)
    requires
        0 <= k <= items.len(),
        forall|i: int| 0 <= i < k ==> (#[trigger] items[i]).field("id"@).as_text() != Some(id),
        k < items.len() ==> items[k].field("id"@).as_text() == Some(id),
    ensures
        with_id(items, id) == (if k < items.len() {
            Some(items[k])
        } else {
            None
        }),
    decreases k,
{
    if items.len() > 0 && k > 0 {
        assert(items[0].field("id"@).as_text() != Some(id));
        assert forall|i: int| 0 <= i < k - 1 implies (#[trigger] items.skip(1)[i]).field(
            "id"@,
        ).as_text() != Some(id) by {
            assert(items.skip(1)[i] == items[i + 1]);
        }
        law_first_with_an_id(items.skip(1), id, k - 1);
    }
}

/// A span is told in milliseconds below a second and in seconds from there
/// on; without one a dash stands.
pub proof fn law_spans_are_told_in_their_unit(ms: i64, r: String)
    requires
        call_ensures(fmt_ms, (ms,), r),
    ensures
        ms <= 0 ==> r@ == "—"@,
        0 < ms < 1000 ==> r@ == dec(ms as nat) + "ms"@,
        ms >= 1000 ==> r@ == one_decimal(ms as nat, 1000) + "s"@,
{
}

/// Tokens are told in thousands below a million and in millions from there on.
pub proof fn law_tokens_are_told_in_their_unit(v: u64, r: String)
    requires
        call_ensures(fmt_tok_k, (v,), r),
    ensures
        v < 1_000_000 ==> r@ == one_decimal(v as nat, 1000) + "k"@,
        v >= 1_000_000 ==> r@ == one_decimal(v as nat, 1_000_000) + "M"@,
{
}

/// The line tells the turns, the steps, the times, the speed, the cache hits
/// and the tokens that the statistics report, in this order.
pub proof fn law_statistics_are_told(
    s: &Json,
    turns: u64,
    steps: u64,
    llm: i64,
    tool: i64,
    first: i64,
    speed: u64,
    hits: u64,
    input: u64,
    output: u64,
    r: String,
)
    requires
        call_ensures(stats_line, (Some(s),), r),
        turns > 0,
        s.value().field("turns"@).as_unsigned() == Some(turns),
        s.value().field("steps"@).as_unsigned() == Some(steps),
        s.value().field("llmMs"@).as_signed() == Some(llm),
        s.value().field("toolMs"@).as_signed() == Some(tool),
        s.value().field("firstTokenMs"@).as_signed() == Some(first),
        s.value().field("tokensPerSecond"@).as_unsigned() == Some(speed),
        s.value().field("cacheHitPercent"@).as_unsigned() == Some(hits),
        s.value().field("inputTokens"@).as_unsigned() == Some(input),
        s.value().field("outputTokens"@).as_unsigned() == Some(output),
    ensures
        r@ == dec(turns as nat) + " 轮 · "@ + dec(steps as nat) + " 步 · LLM "@ + span_text(llm)
            + " · 工具调用 "@ + span_text(tool) + " · 首 token 平均 "@ + span_text(first) + " · "@
            + dec(speed as nat) + " tok/s · 缓存命中 "@ + dec(hits as nat) + "% · 输入 "@
            + tokens_text(input) + " · 输出 "@ + tokens_text(output),
{
}

/// Nothing is told without statistics, nor before the first turn.
pub proof fn law_no_statistics_before_the_first_turn(
    s: &Json,
    r: String,
    none: String,
)
    requires
        call_ensures(stats_line, (Some(s),), r),
        call_ensures(stats_line, (None,), none),
        s.value().field("turns"@).as_unsigned() == Some(0u64),
    ensures
        r@.len() == 0,
        none@.len() == 0,
{
}

/// The provider of the active workspace is in force where it has one, else the
/// default one.
pub proof fn law_a_workspace_can_have_its_own_provider(
    snapshot: &Json,
    workspace: &Option<String>,
    r: String,
)
    requires
        call_ensures(active_provider_id, (snapshot, workspace), r),
    ensures
        *workspace matches Some(ws) ==> (snapshot.value().field("workspaceProviders"@).field(
            ws@,
        ).as_text() matches Some(p) ==> r@ == p),
        *workspace is None || snapshot.value().field("workspaceProviders"@).field(
            (*workspace)->0@,
        ).as_text() is None ==> (snapshot.value().field("defaultProvider"@).as_text() matches Some(
            p,
        ) ==> r@ == p),
{
}

/// The badge of the provider in force shows its balance or how much of its
/// windows is spent; a provider that is not listed has none.
pub proof fn law_badges_show_the_billing(
    snapshot: &Json,
    workspace: &Option<String>,
    id: String,
    providers: Seq<JsonValue>,
    k: int,
    r: Option<BillingBadge>,
)
    requires
        call_ensures(billing_badge, (snapshot, workspace), r),
        call_ensures(active_provider_id, (snapshot, workspace), id),
        snapshot.value().field("providers"@).as_items() == Some(providers),
        0 <= k <= providers.len(),
        forall|i: int|
            0 <= i < k ==> (#[trigger] providers[i]).field("id"@).as_text() != Some(id@),
        k < providers.len() ==> providers[k].field("id"@).as_text() == Some(id@),
    ensures
        k == providers.len() ==> r is None,
        k < providers.len() ==> {
            let c = providers[k].field("billing_cache"@);
            let kind = c.field("kind"@).as_text();
            &&& kind != Some("balance"@) && kind != Some("usage"@) ==> r is None
            &&& kind == Some("balance"@) ==> (r is Some <==> c.field("amount"@).as_text() is Some)
            &&& kind == Some("balance"@) && c.field("amount"@).as_text() is Some && c.field(
                "currency"@,
            ).as_text() is None ==> (r matches Some(BillingBadge::Balance(t)) && t@ == "¥ "@
                + c.field("amount"@).as_text()->0)
            &&& kind == Some("usage"@) ==> (r is Some <==> c.field("pct_5h"@).as_unsigned() is Some
                || c.field("pct_7d"@).as_unsigned() is Some)
            &&& kind == Some("usage"@) ==> (r matches Some(b) ==> (
            b matches BillingBadge::Usage { pct_5h, pct_7d } && pct_5h == c.field(
                "pct_5h"@,
            ).as_unsigned() && pct_7d == c.field("pct_7d"@).as_unsigned()))
        },
{
    law_first_with_an_id(providers, id@, k);
    reveal_strlit("balance");
    reveal_strlit("usage");
    assert("balance"@[0] != "usage"@[0]);
    if k < providers.len() {
        let c = providers[k].field("billing_cache"@);
        assert(billing_cache(snapshot.value(), opt_view(*workspace)) == Some(c));
    }
}

/// A balance stands behind its sign, with its currency.
pub proof fn law_balances_are_told_with_their_currency(
    cache: JsonValue,
    amount: Seq<char>,
    currency: Seq<char>,
)
    requires
        cache.field("kind"@).as_text() == Some("balance"@),
        cache.field("amount"@).as_text() == Some(amount),
        cache.field("currency"@).as_text() == Some(currency),
        !crate::scan::occurs("¥ "@ + amount + " "@ + currency, "¥ CNY"@),
    ensures
        badge_of(cache) == Some(BadgeValue::Balance("¥ "@ + amount + " "@ + currency)),
{
    reveal_strlit("¥ CNY");
    let s = "¥ "@ + amount + " "@ + currency;
    let p = "¥ CNY"@;
    assert forall|i: int| 0 <= i <= s.len() - p.len() implies #[trigger] s.subrange(i, i + p.len())
        != p by {
        assert(!crate::scan::stands_at(s, i, p));
    }
    crate::scan::law_replace_leaves_other_text(s, p, "¥"@);
}

/// A weekly window starts anew on a date, the other at a time of day with two
/// digits for the hour and two for the minute.
pub proof fn law_reset_times_are_told(t: LocalTime, date: String, time: String)
    requires
        call_ensures(reset_text, (t, true), date),
        call_ensures(reset_text, (t, false), time),
        t.wf(),
    ensures
        date@ == dec(t.month as nat) + "月"@ + dec(t.day as nat) + "日"@,
        time@.len() == 5,
        time@[2] == ':',
        t.hour >= 10 ==> time@.take(2) == dec(t.hour as nat),
        t.hour < 10 ==> time@[0] == '0' && time@.subrange(1, 2) == dec(t.hour as nat),
        t.minute >= 10 ==> time@.skip(3) == dec(t.minute as nat),
        t.minute < 10 ==> time@[3] == '0' && time@.skip(4) == dec(t.minute as nat),
{
    reveal_strlit(":");
    reveal_strlit("0");
    lemma_two_digits(t.hour as nat);
    lemma_two_digits(t.minute as nat);
    let h = two_digits(t.hour as nat);
    let m = two_digits(t.minute as nat);
    assert(time@ == h + ":"@ + m);
    assert(time@.take(2) =~= h);
    assert(time@.skip(3) =~= m);
    if t.hour < 10 {
        assert(time@.subrange(1, 2) =~= dec(t.hour as nat));
    }
    if t.minute < 10 {
        assert(time@.skip(4) =~= dec(t.minute as nat));
    }
}

proof fn lemma_two_digits(n: nat)
    requires
        n < 100,
    ensures
        two_digits(n).len() == 2,
        n < 10 ==> dec(n).len() == 1,
        n >= 10 ==> dec(n).len() == 2,
{
    reveal_strlit("0");
    if n < 10 {
        crate::decimal::law_digits_stand_in_order(0, n);
    } else {
        crate::decimal::law_digits_stand_in_order(n / 10, n % 10);
        crate::decimal::law_digits_stand_in_order(0, n / 10);
        assert(n == 10 * (n / 10) + n % 10);
    }
}

/// A reset time is shown where the text is a number of milliseconds that has a
/// date, in some zone less than a day away.
pub proof fn law_reset_times_are_read(resets: &str, weekly: bool, ms: i64, r: Option<String>)
    requires
        call_ensures(reset_time, (resets, weekly), r),
        parsed_i64(resets@) == Some(ms),
    ensures
        r is Some <==> -8_334_601_228_800_000 <= ms <= 8_210_266_876_799_999,
        r matches Some(text) ==> exists|t: LocalTime, ahead: int|
            -86_400 < ahead < 86_400 && #[trigger] shows(t, ms, ahead) && text@ == reset_text_of(
                t,
                weekly,
            ),
{
    if r is Some {
        let t = choose|t: LocalTime| #[trigger]
            may_show(t, ms) && r->0@ == reset_text_of(t, weekly);
        let ahead = choose|ahead: int| -86_400 < ahead < 86_400 && #[trigger] shows(t, ms, ahead);
        assert(shows(t, ms, ahead));
    }
}

/// The days are numbered without a gap from the first day of 1970 on: a month
/// follows on the last day of the one before it, and so does a year.
pub proof fn law_days_follow_one_another(year: int, month: int, day: int)
    requires
        1 <= month <= 12,
    ensures
        day_number(1970, 1, 1) == 0,
        day_number(year, month, day + 1) == day_number(year, month, day) + 1,
        month < 12 ==> day_number(year, month + 1, 1) == day_number(
            year,
            month,
            month_days(year, month),
        ) + 1,
        day_number(year + 1, 1, 1) == day_number(year, 12, 31) + 1,
        day_number(year + 1, 1, 1) - day_number(year, 1, 1) == (if is_leap(year) {
            366int
        } else {
            365
        }),
        28 <= month_days(year, month) <= 31,
{
    lemma_months(year);
    lemma_years(year);
    assert(days_before_month(year, month + 1) == days_before_month(year, month) + month_days(
        year,
        month,
    ));
}

proof fn lemma_months(year: int)
    ensures
        days_before_month(year, 1) == 0,
        days_before_month(year, 12) == (if is_leap(year) {
            335int
        } else {
            334
        }),
{
    assert(days_before_month(year, 4) == 62 + month_days(year, 2)) by {
        reveal_with_fuel(days_before_month, 5);
    }
    assert(days_before_month(year, 8) == 181 + (month_days(year, 2) - 28)
        + month_days(year, 7)) by {
        reveal_with_fuel(days_before_month, 5);
    }
    assert(days_before_month(year, 12) == days_before_month(year, 8) + 122) by {
        reveal_with_fuel(days_before_month, 5);
    }
}

proof fn lemma_years(year: int)
    ensures
        days_before_year(year + 1) - days_before_year(year) == (if is_leap(year) {
            366int
        } else {
            365
        }),
{
    assert((year + 4) / 4 - (year + 3) / 4 == (if year % 4 == 0 {
        1int
    } else {
        0
    }));
    assert((year + 100) / 100 - (year + 99) / 100 == (if year % 100 == 0 {
        1int
    } else {
        0
    }));
    assert((year + 400) / 400 - (year + 399) / 400 == (if year % 400 == 0 {
        1int
    } else {
        0
    }));
}

/// The card tells of each window that is known how much of it is spent; the
/// bar is full at a hundred.
pub proof fn law_card_tells_of_each_window(
    snapshot: &Json,
    workspace: &Option<String>,
    c: JsonValue,
    r: Vec<BillingBlock>,
)
    requires
        call_ensures(billing_card, (snapshot, workspace), r),
        billing_cache(snapshot.value(), opt_view(*workspace)) == Some(c),
    ensures
        c.field("pct_5h"@).as_unsigned() matches Some(p) ==> r@.len() > 0 && r@[0].label@
            == "5 小时"@ && r@[0].pct == p && r@[0].pct_text@ == dec(p as nat) + "%"@,
        c.field("pct_7d"@).as_unsigned() matches Some(p) ==> r@.len() > 0 && r@.last().label@
            == "1 周"@ && r@.last().pct == p && r@.last().pct_text@ == dec(p as nat) + "%"@,
        forall|i: int|
            0 <= i < r@.len() ==> (#[trigger] r@[i]).filled <= 100 && r@[i].filled <= r@[i].pct && (
            r@[i].filled < 100 ==> r@[i].filled == r@[i].pct),
        c.field("pct_5h"@).as_unsigned() is None && c.field("pct_7d"@).as_unsigned() is None
            ==> r@.len() == 0,
        c.field("pct_5h"@).as_unsigned() is Some && c.field("pct_7d"@).as_unsigned() is Some
            ==> r@.len() == 2,
        c.field("pct_5h"@).as_unsigned() is Some ==> (r@[0].resets is Some <==> (c.field(
            "resets"@,
        ).as_text() is Some && dated(c.field("resets"@).as_text()->0))),
        c.field("pct_7d"@).as_unsigned() is Some ==> (r@.last().resets is Some <==> (c.field(
            "resets_7d"@,
        ).as_text() is Some && dated(c.field("resets_7d"@).as_text()->0))),
{
}

/// The bar tells of the current session alone, and names the preset in force.
pub proof fn law_bar_tells_of_the_current_session(
    s: &AppStore,
    r: StatusBar,
    cfg: crate::shell::store::SessionCfg,
    label: String,
    preset: &str,
)
    requires
        call_ensures(AppStore::status_bar, (s,), r),
        call_ensures(AppStore::current_cfg_or_default, (s,), cfg),
        call_ensures(AppStore::preset_label, (s, preset), label),
        preset@ == cfg.preset@,
    ensures
        s.state.current_id is None ==> r.stats@.len() == 0,
        s.state.current_id matches Some(id) ==> (s.stats_by_id@.contains_key(id@) ==> r.stats@
            == stats_text(Some(s.stats_by_id@[id@].value()))),
        s.state.current_id matches Some(id) ==> (!s.stats_by_id@.contains_key(id@)
            ==> r.stats@.len() == 0),
        preset@.len() == 0 ==> r.mode is None,
        preset@.len() > 0 ==> opt_view(r.mode) == Some(label@),
{
}

} // verus!
