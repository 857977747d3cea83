//! The settings pages: what stands on them, from the snapshot of the host and
//! the state of the forms.

use crate::decimal::{dec, u64_text, usize_text};
use crate::json::{opt_value, text_field, values, Json, JsonValue};
use crate::table::Table;
use crate::text::{cat2, cat3, chars_of, opt_is, opt_view, owned, str_eq, views};
use vstd::prelude::*;
use vstd::string::*;

verus! {

// ---------------------------------------------------------------------------
// State
// ---------------------------------------------------------------------------
/// The pages.
#[derive(Debug, Clone, Copy, PartialEq, Eq, Structural)]
pub enum SettingsNav {
    Models,
    General,
    About,
}

/// What full access is asked for.
#[derive(Debug, Clone, Copy, PartialEq, Eq, Structural)]
pub enum FullAccessAsk {
    /// The current session.
    Session,
    /// New sessions.
    Preference,
}

/// The form of a provider.
#[derive(Debug, PartialEq, Eq)]
pub struct ProviderForm {
    pub dialect: String,
    pub models: Vec<String>,
    pub billing_enabled: bool,
    /// "balance" or "usage".
    pub billing_kind: String,
}

/// The models that an endpoint offers, and which of them are picked.
#[derive(Debug, PartialEq, Eq)]
pub struct ModelFetch {
    pub candidates: Vec<String>,
    pub picked: Vec<bool>,
}

/// The state of the settings pages.
pub struct SettingsStore {
    pub settings_open: bool,
    pub settings_nav: SettingsNav,
    pub settings_snapshot: Json,
    pub saved_provider_notice: Option<String>,
    /// Whether the last action succeeded, and what it says.
    pub settings_notice: Option<(bool, String)>,
    pub editing_provider: Option<String>,
    pub adding_provider: bool,
    pub billing_refreshing: Option<String>,
    pub form: ProviderForm,
    pub model_fetch: Option<ModelFetch>,
    pub model_fetch_loading: bool,
    pub delete_provider_target: Option<String>,
    pub full_access_confirm: Option<FullAccessAsk>,
    /// The status and the error of each tool server.
    pub mcp_status_by_id: Table<(String, String)>,
}

impl SettingsStore {
    /// No server has two states.
    pub open spec fn wf(self) -> bool {
        self.mcp_status_by_id.wf()
    }

    /// No page is open, nothing is edited, and no notice is shown.
    pub open spec fn is_fresh(self) -> bool {
        &&& !self.settings_open
        &&& self.settings_nav == SettingsNav::General
        &&& self.saved_provider_notice is None
        &&& self.settings_notice is None
        &&& self.editing_provider is None
        &&& !self.adding_provider
        &&& self.billing_refreshing is None
        &&& self.form.dialect@ == "openai-chat"@
        &&& self.form.models@.len() == 0
        &&& !self.form.billing_enabled
        &&& self.form.billing_kind@ == "balance"@
        &&& self.model_fetch is None
        &&& !self.model_fetch_loading
        &&& self.delete_provider_target is None
        &&& self.full_access_confirm is None
        &&& self.mcp_status_by_id@ == Map::<Seq<char>, (String, String)>::empty()
    }

    /// Closed pages over a snapshot.
    pub fn new(settings_snapshot: Json) -> (r: SettingsStore)
        ensures
            r.wf(),
            r.settings_snapshot == settings_snapshot,
            r.is_fresh(),
    {
        let mcp_status_by_id: Table<(String, String)> = Table::new();
        SettingsStore {
            settings_open: false,
            settings_nav: SettingsNav::General,
            settings_snapshot,
            saved_provider_notice: None,
            settings_notice: None,
            editing_provider: None,
            adding_provider: false,
            billing_refreshing: None,
            form: ProviderForm {
                dialect: owned("openai-chat"),
                models: Vec::new(),
                billing_enabled: false,
                billing_kind: owned("balance"),
            },
            model_fetch: None,
            model_fetch_loading: false,
            delete_provider_target: None,
            full_access_confirm: None,
            mcp_status_by_id,
        }
    }
}

// ---------------------------------------------------------------------------
// Times and billing
// ---------------------------------------------------------------------------
/// How long ago a moment is, in minutes, hours or days; a moment that is yet
/// to come was just now.
pub open spec fn ago(now: u64, ms: u64) -> Seq<char> {
    let mins = (if now > ms {
        (now - ms) as nat
    } else {
        0
    }) / 60_000;
    if mins < 60 {
        dec(mins) + " 分钟前"@
    } else if mins < 1440 {
        dec(mins / 60) + " 小时前"@
    } else {
        dec(mins / 1440) + " 天前"@
    }
}

/// See [`ago`]; the present moment is an argument.
pub fn relative_time(now: u64, ms: u64) -> (r: String)
    ensures
        r@ == ago(now, ms),
{
    let past: u64 = if now > ms {
        now - ms
    } else {
        0
    };
    let mins: u64 = past / 60_000;
    if mins < 60 {
        let t = u64_text(mins);
        cat2(t.as_str(), " 分钟前")
    } else if mins < 1440 {
        let t = u64_text(mins / 60);
        cat2(t.as_str(), " 小时前")
    } else {
        let t = u64_text(mins / 1440);
        cat2(t.as_str(), " 天前")
    }
}

/// The billing line of a provider.
#[derive(Debug, PartialEq, Eq)]
pub enum BillingLine {
    Balance { amount: String, currency: String },
    Usage { pct_5h: Option<u64>, pct_7d: Option<u64>, resets: Option<String> },
}

/// The content of a billing line.
#[verifier::ext_equal]
pub enum LineValue {
    Balance { amount: Seq<char>, currency: Seq<char> },
    Usage { pct_5h: Option<u64>, pct_7d: Option<u64>, resets: Option<Seq<char>> },
}

impl View for BillingLine {
    type V = LineValue;

    open spec fn view(&self) -> LineValue {
        match *self {
            BillingLine::Balance { amount, currency } => LineValue::Balance {
                amount: amount@,
                currency: currency@,
            },
            BillingLine::Usage { pct_5h, pct_7d, resets } => LineValue::Usage {
                pct_5h,
                pct_7d,
                resets: opt_view(resets),
            },
        }
    }
}

/// The billing line of what is known: a balance needs an amount, usage needs
/// nothing.
pub open spec fn line_of(cache: JsonValue) -> Option<LineValue> {
    let kind = cache.field("kind"@).as_text();
    if kind == Some("balance"@) {
        match cache.field("amount"@).as_text() {
            Some(amount) => Some(
                LineValue::Balance { amount, currency: text_field(cache, "currency"@) },
            ),
            None => None,
        }
    } else if kind == Some("usage"@) {
        Some(
            LineValue::Usage {
                pct_5h: cache.field("pct_5h"@).as_unsigned(),
                pct_7d: cache.field("pct_7d"@).as_unsigned(),
                resets: cache.field("resets"@).as_text(),
            },
        )
    } else {
        None
    }
}

pub open spec fn opt_line(o: Option<BillingLine>) -> Option<LineValue> {
    match o {
        Some(l) => Some(l@),
        None => None,
    }
}

fn unsigned_at(j: &Json, key: &str) -> (r: Option<u64>)
    ensures
        r == j.value().field(key@).as_unsigned(),
{
    match j.get(key) {
        Some(v) => v.as_u64(),
        None => None,
    }
}

fn flag_at(j: &Json, key: &str) -> (r: bool)
    ensures
        r == (j.value().field(key@).as_flag() == Some(true)),
{
    match j.get(key) {
        Some(v) => match v.as_bool() {
            Some(b) => b,
            None => false,
        },
        None => false,
    }
}

/// See [`line_of`].
pub fn billing_value_line(cache: &Json) -> (r: Option<BillingLine>)
    ensures
        opt_line(r) == line_of(cache.value()),
{
    proof {
        reveal_strlit("balance");
        reveal_strlit("usage");
        assert("balance"@.len() != "usage"@.len());
    }
    match cache.text_at("kind") {
        Some(kind) => if str_eq(kind.as_str(), "balance") {
            match cache.text_at("amount") {
                Some(amount) => Some(
                    BillingLine::Balance { amount, currency: cache.text_or_empty("currency") },
                ),
                None => None,
            }
        } else if str_eq(kind.as_str(), "usage") {
            Some(
                BillingLine::Usage {
                    pct_5h: unsigned_at(cache, "pct_5h"),
                    pct_7d: unsigned_at(cache, "pct_7d"),
                    resets: cache.text_at("resets"),
                },
            )
        } else {
            None
        },
        None => None,
    }
}

// ---------------------------------------------------------------------------
// Providers
// ---------------------------------------------------------------------------
/// A provider on the models page.
#[derive(Debug, PartialEq, Eq)]
pub struct ProviderCard {
    pub id: String,
    pub name: String,
    /// The first character of the name.
    pub avatar: String,
    pub base_url: String,
    pub credential_ready: bool,
    pub is_default: bool,
    /// Whether its editor is open.
    pub open: bool,
    /// Its billing, where it has an endpoint for it.
    pub billing: Option<BillingCell>,
}

/// The billing of a provider.
#[derive(Debug, PartialEq, Eq)]
pub struct BillingCell {
    /// How long ago it was fetched.
    pub fetched: Option<String>,
    pub refreshing: bool,
    pub line: Option<BillingLine>,
}

/// The content of a card.
#[verifier::ext_equal]
pub struct CardValue {
    pub id: Seq<char>,
    pub name: Seq<char>,
    pub avatar: Seq<char>,
    pub base_url: Seq<char>,
    pub credential_ready: bool,
    pub is_default: bool,
    pub open: bool,
    pub billing: Option<CellValue>,
}

/// The content of a billing cell.
#[verifier::ext_equal]
pub struct CellValue {
    pub fetched: Option<Seq<char>>,
    pub refreshing: bool,
    pub line: Option<LineValue>,
}

impl View for BillingCell {
    type V = CellValue;

    open spec fn view(&self) -> CellValue {
        CellValue {
            fetched: opt_view(self.fetched),
            refreshing: self.refreshing,
            line: opt_line(self.line),
        }
    }
}

impl View for ProviderCard {
    type V = CardValue;

    open spec fn view(&self) -> CardValue {
        CardValue {
            id: self.id@,
            name: self.name@,
            avatar: self.avatar@,
            base_url: self.base_url@,
            credential_ready: self.credential_ready,
            is_default: self.is_default,
            open: self.open,
            billing: match self.billing {
                Some(c) => Some(c@),
                None => None,
            },
        }
    }
}

/// The name that a provider is shown under: its own, its id where that is
/// missing or empty.
pub open spec fn provider_name(p: JsonValue) -> Seq<char> {
    let own = text_field(p, "display_name"@);
    if own.len() > 0 {
        own
    } else {
        text_field(p, "id"@)
    }
}

/// The first character of a name, a question mark where it has none.
pub open spec fn avatar_of(name: Seq<char>) -> Seq<char> {
    if name.len() > 0 {
        name.take(1)
    } else {
        "?"@
    }
}

/// The card of a provider.
pub open spec fn card_of(s: SettingsStore, p: JsonValue, now: u64) -> CardValue {
    let id = text_field(p, "id"@);
    let cache = p.field("billing_cache"@);
    CardValue {
        id,
        name: provider_name(p),
        avatar: avatar_of(provider_name(p)),
        base_url: text_field(p, "base_url"@),
        credential_ready: p.field("credentialReady"@).as_flag() == Some(true),
        is_default: s.settings_snapshot.value().field("defaultProvider"@).as_text() == Some(id),
        open: opt_view(s.editing_provider) == Some(id),
        billing: if p.field("billing"@).members() is Some {
            Some(
                CellValue {
                    fetched: match cache.field("fetched_at_ms"@).as_unsigned() {
                        Some(ms) => Some(ago(now, ms)),
                        None => None,
                    },
                    refreshing: opt_view(s.billing_refreshing) == Some(id),
                    line: line_of(cache),
                },
            )
        } else {
            None
        },
    }
}

/// The avatar of a name.
pub fn avatar(name: &str) -> (r: String)
    ensures
        r@ == avatar_of(name@),
{
    let cs = chars_of(name);
    if cs.len() > 0 {
        let r = crate::text::string_of_range(cs.as_slice(), 0, 1);
        assert(r@ =~= name@.take(1));
        r
    } else {
        owned("?")
    }
}

/// Whether a provider is the default one.
fn is_default_provider(snapshot: &Json, id: &str) -> (r: bool)
    ensures
        r == (snapshot.value().field("defaultProvider"@).as_text() == Some(id@)),
{
    match snapshot.text_at("defaultProvider") {
        Some(d) => str_eq(d.as_str(), id),
        None => false,
    }
}

/// See [`card_of`].
pub fn provider_row_card(s: &SettingsStore, p: &Json, now: u64) -> (r: ProviderCard)
    ensures
        r@ == card_of(*s, p.value(), now),
{
    let id = p.text_or_empty("id");
    let own = p.text_or_empty("display_name");
    let name = if own.as_str().is_empty() {
        owned(id.as_str())
    } else {
        own
    };
    let has_billing = match p.get("billing") {
        Some(b) => b.as_object().is_some(),
        None => false,
    };
    let billing = if has_billing {
        let none = Json::Null;
        let cache = match p.get("billing_cache") {
            Some(c) => c,
            None => &none,
        };
        let fetched = match unsigned_at(cache, "fetched_at_ms") {
            Some(ms) => Some(relative_time(now, ms)),
            None => None,
        };
        Some(
            BillingCell {
                fetched,
                refreshing: opt_is(&s.billing_refreshing, id.as_str()),
                line: billing_value_line(cache),
            },
        )
    } else {
        None
    };
    let avatar = avatar(name.as_str());
    let is_default = is_default_provider(&s.settings_snapshot, id.as_str());
    let open = opt_is(&s.editing_provider, id.as_str());
    ProviderCard {
        id,
        name,
        avatar,
        base_url: p.text_or_empty("base_url"),
        credential_ready: flag_at(p, "credentialReady"),
        is_default,
        open,
        billing,
    }
}

/// A row of the models page.
#[derive(Debug, PartialEq, Eq)]
pub enum ProviderRow {
    /// The default provider, which is not configured yet: its editor is open
    /// and stands for it.
    Setup(String),
    Card(ProviderCard),
}

/// The content of a row.
#[verifier::ext_equal]
pub enum ProviderRowValue {
    Setup(Seq<char>),
    Card(CardValue),
}

impl View for ProviderRow {
    type V = ProviderRowValue;

    open spec fn view(&self) -> ProviderRowValue {
        match *self {
            ProviderRow::Setup(id) => ProviderRowValue::Setup(id@),
            ProviderRow::Card(c) => ProviderRowValue::Card(c@),
        }
    }
}

/// Whether a provider is shown by its open editor: the default one, while it
/// has no credential.
pub open spec fn in_setup(s: SettingsStore, p: JsonValue) -> bool {
    &&& s.settings_snapshot.value().field("defaultProvider"@).as_text() == Some(
        text_field(p, "id"@),
    )
    &&& p.field("credentialReady"@).as_flag() != Some(true)
}

/// The row of a provider.
pub open spec fn row_of(s: SettingsStore, p: JsonValue, now: u64) -> ProviderRowValue {
    if in_setup(s, p) {
        ProviderRowValue::Setup(text_field(p, "id"@))
    } else {
        ProviderRowValue::Card(card_of(s, p, now))
    }
}

/// The providers of a snapshot.
pub open spec fn providers_of(snapshot: JsonValue) -> Seq<JsonValue> {
    match snapshot.field("providers"@).as_items() {
        Some(ps) => ps,
        None => Seq::empty(),
    }
}

/// The models page.
#[derive(Debug, PartialEq, Eq)]
pub struct ModelsPage {
    /// What was saved last.
    pub saved: Option<String>,
    /// What the last action says, behind a mark of its success.
    pub notice: Option<String>,
    pub rows: Vec<ProviderRow>,
    /// What stands there in place of rows.
    pub hint: Option<String>,
    /// What stands behind the rows.
    pub add_block: AddBlock,
}

/// The place where a provider is added.
#[derive(Debug, PartialEq, Eq)]
pub enum AddBlock {
    /// The button that opens the card, with its label.
    Button(String),
    /// The open card: the label of the id, and the editor.
    Card { id_label: String, editor: ProviderEditor },
}

/// What stands where a provider is added: the open card while one is being
/// added, else the button.
pub open spec fn add_block_fits(s: SettingsStore, b: AddBlock) -> bool {
    if s.adding_provider {
        b matches AddBlock::Card { id_label, editor } && id_label@
            == "Provider ID(小写/连字符)"@ && editor_fits(s, Seq::empty(), false, editor)
    } else {
        b matches AddBlock::Button(label) && label@ == "添加 Provider"@
    }
}

/// See [`add_block_fits`].
pub fn add_block(s: &SettingsStore) -> (r: AddBlock)
    ensures
        add_block_fits(*s, r),
{
    if s.adding_provider {
        proof {
            reveal_strlit("");
            assert(""@ =~= Seq::<char>::empty());
        }
        AddBlock::Card {
            id_label: owned("Provider ID(小写/连字符)"),
            editor: provider_editor(s, "", false),
        }
    } else {
        AddBlock::Button(owned("添加 Provider"))
    }
}

/// What the last action says.
pub open spec fn notice_text(ok: bool, message: Seq<char>) -> Seq<char> {
    (if ok {
        "✓"@
    } else {
        "⚠"@
    }) + " "@ + message
}

/// The models page: the notices, then the providers, then the place where one
/// is added.
pub fn models_section(s: &SettingsStore, now: u64) -> (r: ModelsPage)
    ensures
        opt_view(r.saved) == (match s.saved_provider_notice {
            Some(n) => Some("已保存 "@ + n@),
            None => None,
        }),
        opt_view(r.notice) == (match s.settings_notice {
            Some(n) => Some(notice_text(n.0, n.1@)),
            None => None,
        }),
        r.rows@.map_values(|x: ProviderRow| x@) == providers_of(
            s.settings_snapshot.value(),
        ).map_values(|p: JsonValue| row_of(*s, p, now)),
        opt_view(r.hint) == (if r.rows@.len() == 0 {
            Some("注册表为空——「添加 Provider」,或重启后恢复内置默认。"@)
        } else {
            None
        }),
        add_block_fits(*s, r.add_block),
{
    let saved = match &s.saved_provider_notice {
        Some(n) => Some(cat2("已保存 ", n.as_str())),
        None => None,
    };
    let notice = match &s.settings_notice {
        Some(n) => {
            let mark = if n.0 {
                "✓"
            } else {
                "⚠"
            };
            Some(cat3(mark, " ", n.1.as_str()))
        },
        None => None,
    };
    let mut rows: Vec<ProviderRow> = Vec::new();
    let ghost ps = providers_of(s.settings_snapshot.value());
    if let Some(items) = s.settings_snapshot.items_at("providers") {
        assert(ps == values(items@));
        let mut i: usize = 0;
        while i < items.len()
            invariant
                i <= items@.len(),
                ps == values(items@),
                rows@.len() == i,
                forall|k: int| 0 <= k < i ==> (#[trigger] rows@[k])@ == row_of(*s, ps[k], now),
            decreases items@.len() - i,
        {
            let p = &items[i];
            assert(ps[i as int] == p.value());
            let id = p.text_or_empty("id");
            let setup = is_default_provider(&s.settings_snapshot, id.as_str()) && !flag_at(
                p,
                "credentialReady",
            );
            if setup {
                rows.push(ProviderRow::Setup(id));
            } else {
                rows.push(ProviderRow::Card(provider_row_card(s, p, now)));
            }
            i = i + 1;
        }
    }
    assert(rows@.map_values(|x: ProviderRow| x@) =~= ps.map_values(
        |p: JsonValue| row_of(*s, p, now),
    ));
    assert(rows@.len() == rows@.map_values(|x: ProviderRow| x@).len());
    let hint = if rows.len() == 0 {
        Some(owned("注册表为空——「添加 Provider」,或重启后恢复内置默认。"))
    } else {
        None
    };
    ModelsPage { saved, notice, rows, hint, add_block: add_block(s) }
}

// ---------------------------------------------------------------------------
// Choices
// ---------------------------------------------------------------------------
/// A choice: what it stands for, how it is labelled, whether it is taken.
#[derive(Debug, PartialEq, Eq)]
pub struct Choice {
    pub value: String,
    pub label: String,
    pub active: bool,
}

/// The content of a choice.
#[verifier::ext_equal]
pub struct ChoiceValue {
    pub value: Seq<char>,
    pub label: Seq<char>,
    pub active: bool,
}

impl View for Choice {
    type V = ChoiceValue;

    open spec fn view(&self) -> ChoiceValue {
        ChoiceValue { value: self.value@, label: self.label@, active: self.active }
    }
}

pub open spec fn choice_values(v: Seq<Choice>) -> Seq<ChoiceValue> {
    v.map_values(|c: Choice| c@)
}

/// A choice beside what is selected.
pub open spec fn choice_of(value: Seq<char>, label: Seq<char>, selected: Seq<char>) -> ChoiceValue {
    ChoiceValue { value, label, active: value == selected }
}

fn choice(value: &str, label: &str, selected: &str) -> (r: Choice)
    ensures
        r@ == choice_of(value@, label@, selected@),
{
    Choice { value: owned(value), label: owned(label), active: str_eq(value, selected) }
}

/// The dialects that a provider can speak.
pub fn dialect_chips(selected: &str) -> (r: Vec<Choice>)
    ensures
        choice_values(r@) == seq![
            choice_of("openai-chat"@, "OpenAI Chat Completions"@, selected@),
            choice_of("anthropic"@, "Anthropic Messages (v1/messages)"@, selected@),
            choice_of("openai-responses"@, "OpenAI Responses"@, selected@),
        ],
{
    let mut v: Vec<Choice> = Vec::new();
    v.push(choice("openai-chat", "OpenAI Chat Completions", selected));
    v.push(choice("anthropic", "Anthropic Messages (v1/messages)", selected));
    v.push(choice("openai-responses", "OpenAI Responses", selected));
    assert(choice_values(v@) =~= seq![
        choice_of("openai-chat"@, "OpenAI Chat Completions"@, selected@),
        choice_of("anthropic"@, "Anthropic Messages (v1/messages)"@, selected@),
        choice_of("openai-responses"@, "OpenAI Responses"@, selected@),
    ]);
    v
}

/// The kinds of billing.
pub fn billing_kind_chips(selected: &str) -> (r: Vec<Choice>)
    ensures
        choice_values(r@) == seq![
            choice_of("balance"@, "余额"@, selected@),
            choice_of("usage"@, "用量"@, selected@),
        ],
{
    let mut v: Vec<Choice> = Vec::new();
    v.push(choice("balance", "余额", selected));
    v.push(choice("usage", "用量", selected));
    assert(choice_values(v@) =~= seq![
        choice_of("balance"@, "余额"@, selected@),
        choice_of("usage"@, "用量"@, selected@),
    ]);
    v
}

/// The appearances.
pub fn appearance_group(current: &str) -> (r: Vec<Choice>)
    ensures
        choice_values(r@) == seq![
            choice_of("light"@, "浅色"@, current@),
            choice_of("dark"@, "深色"@, current@),
            choice_of("system"@, "跟随系统"@, current@),
        ],
{
    let mut v: Vec<Choice> = Vec::new();
    v.push(choice("light", "浅色", current));
    v.push(choice("dark", "深色", current));
    v.push(choice("system", "跟随系统", current));
    assert(choice_values(v@) =~= seq![
        choice_of("light"@, "浅色"@, current@),
        choice_of("dark"@, "深色"@, current@),
        choice_of("system"@, "跟随系统"@, current@),
    ]);
    v
}

// ---------------------------------------------------------------------------
// The editor of a provider
// ---------------------------------------------------------------------------
/// A field of a form: its label and the name it is found by.
#[derive(Debug, PartialEq, Eq)]
pub struct FormField {
    pub label: String,
    pub selector: String,
}

pub open spec fn field_values(v: Seq<FormField>) -> Seq<(Seq<char>, Seq<char>)> {
    v.map_values(|f: FormField| (f.label@, f.selector@))
}

fn field(label: &str, selector: &str) -> (r: FormField)
    ensures
        r.label@ == label@,
        r.selector@ == selector@,
{
    FormField { label: owned(label), selector: owned(selector) }
}

/// The billing part of the editor.
#[derive(Debug, PartialEq, Eq)]
pub struct BillingForm {
    pub kinds: Vec<Choice>,
    pub fields: Vec<FormField>,
    /// The button that fetches the billing now.
    pub refresh: Option<String>,
}

/// The editor of a provider.
#[derive(Debug, PartialEq, Eq)]
pub struct ProviderEditor {
    pub selector: String,
    /// The heading; there where the editor stands inside a card.
    pub title: Option<String>,
    pub fields: Vec<FormField>,
    pub key_label: String,
    pub dialects: Vec<Choice>,
    pub models: Vec<String>,
    /// What stands there in place of models.
    pub models_hint: Option<String>,
    /// Whether models are being fetched.
    pub fetching: bool,
    pub billing_label: String,
    /// The billing part, where it is switched on.
    pub billing: Option<BillingForm>,
}

/// The fields that say where the billing is found.
pub open spec fn billing_fields(kind: Seq<char>) -> Seq<(Seq<char>, Seq<char>)> {
    let url = ("查询 URL(GET)"@, "field-billing-url"@);
    if kind == "usage"@ {
        seq![
            url,
            ("5小时用量路径"@, "field-p5h"@),
            ("7天用量路径"@, "field-p7d"@),
            ("重置时间路径(可选)"@, "field-presets"@),
        ]
    } else {
        seq![url, ("余额金额路径"@, "field-pbal"@), ("货币路径(可选)"@, "field-pcur"@)]
    }
}

fn billing_form_fields(kind: &str) -> (r: Vec<FormField>)
    ensures
        field_values(r@) == billing_fields(kind@),
{
    let mut v: Vec<FormField> = Vec::new();
    v.push(field("查询 URL(GET)", "field-billing-url"));
    if str_eq(kind, "usage") {
        v.push(field("5小时用量路径", "field-p5h"));
        v.push(field("7天用量路径", "field-p7d"));
        v.push(field("重置时间路径(可选)", "field-presets"));
    } else {
        v.push(field("余额金额路径", "field-pbal"));
        v.push(field("货币路径(可选)", "field-pcur"));
    }
    assert(field_values(v@) =~= billing_fields(kind@));
    v
}

/// What the editor of a provider shows. An empty id stands for a provider
/// that is being added; in the setup of the default provider its key is a
/// must.
pub open spec fn editor_fits(s: SettingsStore, id: Seq<char>, setup: bool, e: ProviderEditor) -> bool {
    let inside = !setup && id.len() > 0;
    &&& e.selector@ == (if id.len() == 0 {
        "provider-editor"@
    } else {
        "provider-editor-"@ + id
    })
    &&& opt_view(e.title) == (if inside {
        Some(id)
    } else {
        None
    })
    &&& field_values(e.fields@) == seq![("名称"@, "field-name"@), ("Base URL"@, "field-url"@)]
    &&& e.key_label@ == (if setup {
        "API Key(必填)"@
    } else {
        "API Key"@
    })
    &&& choice_values(e.dialects@) == seq![
        choice_of("openai-chat"@, "OpenAI Chat Completions"@, s.form.dialect@),
        choice_of("anthropic"@, "Anthropic Messages (v1/messages)"@, s.form.dialect@),
        choice_of("openai-responses"@, "OpenAI Responses"@, s.form.dialect@),
    ]
    &&& views(e.models@) == views(s.form.models@)
    &&& opt_view(e.models_hint) == (if s.form.models@.len() == 0 {
        Some("当前没有配置模型,添加模型后可在聊天中使用。"@)
    } else {
        None
    })
    &&& e.fetching == s.model_fetch_loading
    &&& e.billing_label@ == (if s.form.billing_enabled {
        "已启用"@
    } else {
        "未启用"@
    })
    &&& e.billing is Some <==> s.form.billing_enabled
    &&& e.billing matches Some(b) ==> {
        &&& choice_values(b.kinds@) == seq![
            choice_of("balance"@, "余额"@, s.form.billing_kind@),
            choice_of("usage"@, "用量"@, s.form.billing_kind@),
        ]
        &&& field_values(b.fields@) == billing_fields(s.form.billing_kind@)
        &&& opt_view(b.refresh) == (if !inside {
            None
        } else if opt_view(s.billing_refreshing) == Some(id) {
            Some("刷新中…"@)
        } else {
            Some("立即刷新"@)
        })
    }
}

/// See [`editor_fits`].
pub fn provider_editor(s: &SettingsStore, id: &str, setup: bool) -> (r: ProviderEditor)
    ensures
        editor_fits(*s, id@, setup, r),
{
    let inside = !setup && !id.is_empty();
    let selector = if id.is_empty() {
        owned("provider-editor")
    } else {
        cat2("provider-editor-", id)
    };
    let title = if inside {
        Some(owned(id))
    } else {
        None
    };
    let mut fields: Vec<FormField> = Vec::new();
    fields.push(field("名称", "field-name"));
    fields.push(field("Base URL", "field-url"));
    assert(field_values(fields@) =~= seq![
        ("名称"@, "field-name"@),
        ("Base URL"@, "field-url"@),
    ]);
    let key_label = if setup {
        owned("API Key(必填)")
    } else {
        owned("API Key")
    };
    let dialects = dialect_chips(s.form.dialect.as_str());
    let models = copy_texts(&s.form.models);
    let models_hint = if s.form.models.len() == 0 {
        Some(owned("当前没有配置模型,添加模型后可在聊天中使用。"))
    } else {
        None
    };
    let billing_label = if s.form.billing_enabled {
        owned("已启用")
    } else {
        owned("未启用")
    };
    let billing = if s.form.billing_enabled {
        let refresh = if !inside {
            None
        } else if opt_is(&s.billing_refreshing, id) {
            Some(owned("刷新中…"))
        } else {
            Some(owned("立即刷新"))
        };
        Some(
            BillingForm {
                kinds: billing_kind_chips(s.form.billing_kind.as_str()),
                fields: billing_form_fields(s.form.billing_kind.as_str()),
                refresh,
            },
        )
    } else {
        None
    };
    ProviderEditor {
        selector,
        title,
        fields,
        key_label,
        dialects,
        models,
        models_hint,
        fetching: s.model_fetch_loading,
        billing_label,
        billing,
    }
}

fn copy_texts(v: &Vec<String>) -> (r: Vec<String>)
    ensures
        views(r@) == views(v@),
{
    let mut out: Vec<String> = Vec::new();
    let mut i: usize = 0;
    while i < v.len()
        invariant
            i <= v@.len(),
            out@.len() == i,
            forall|k: int| 0 <= k < i ==> (#[trigger] out@[k])@ == v@[k]@,
        decreases v@.len() - i,
    {
        out.push(owned(v[i].as_str()));
        i = i + 1;
    }
    assert(views(out@) =~= views(v@));
    out
}

// ---------------------------------------------------------------------------
// Modal windows
// ---------------------------------------------------------------------------
/// How many are picked.
pub open spec fn picked_count(picked: Seq<bool>) -> nat
    decreases picked.len(),
{
    if picked.len() == 0 {
        0
    } else {
        picked_count(picked.drop_last()) + (if picked.last() {
            1nat
        } else {
            0nat
        })
    }
}

/// The models that an endpoint offers.
#[derive(Debug, PartialEq, Eq)]
pub struct FetchModal {
    pub loading: bool,
    /// The models, and whether each is picked; none while they are fetched.
    pub rows: Vec<(String, bool)>,
    pub count_text: String,
    /// The button that adopts what is picked; none while they are fetched.
    pub adopt: Option<String>,
}

/// The rows of the window.
pub open spec fn fetch_rows(f: ModelFetch) -> Seq<(Seq<char>, bool)> {
    Seq::new(
        f.candidates@.len(),
        |i: int| (f.candidates@[i]@, i < f.picked@.len() && f.picked@[i]),
    )
}

/// The window of the models that an endpoint offers; none where none is open.
pub fn provider_models_fetch_modal(s: &SettingsStore) -> (r: Option<FetchModal>)
    ensures
        r is Some <==> s.model_fetch is Some,
        r matches Some(m) ==> s.model_fetch matches Some(f) && {
            let n = picked_count(f.picked@);
            &&& m.loading == s.model_fetch_loading
            &&& m.rows@.map_values(|x: (String, bool)| (x.0@, x.1)) == (if m.loading {
                Seq::empty()
            } else {
                fetch_rows(f)
            })
            &&& m.count_text@ == "已选 "@ + dec(n)
            &&& opt_view(m.adopt) == (if m.loading {
                None
            } else {
                Some("采纳 "@ + dec(n) + " 项"@)
            })
        },
{
    let f = match &s.model_fetch {
        Some(f) => f,
        None => {
            return None;
        },
    };
    let mut n: usize = 0;
    let mut i: usize = 0;
    assert(f.picked@.take(0) =~= Seq::<bool>::empty());
    while i < f.picked.len()
        invariant
            i <= f.picked@.len(),
            n <= i,
            n == picked_count(f.picked@.take(i as int)),
        decreases f.picked@.len() - i,
    {
        assert(f.picked@.take(i + 1).drop_last() =~= f.picked@.take(i as int));
        if f.picked[i] {
            n = n + 1;
        }
        i = i + 1;
    }
    assert(f.picked@.take(i as int) =~= f.picked@);
    let loading = s.model_fetch_loading;
    let mut rows: Vec<(String, bool)> = Vec::new();
    if !loading {
        let mut k: usize = 0;
        while k < f.candidates.len()
            invariant
                k <= f.candidates@.len(),
                rows@.len() == k,
                forall|j: int|
                    0 <= j < k ==> (#[trigger] rows@[j]).0@ == f.candidates@[j]@ && rows@[j].1 == (j
                        < f.picked@.len() && f.picked@[j]),
            decreases f.candidates@.len() - k,
        {
            let picked = if k < f.picked.len() {
                f.picked[k]
            } else {
                false
            };
            rows.push((owned(f.candidates[k].as_str()), picked));
            k = k + 1;
        }
        assert(rows@.map_values(|x: (String, bool)| (x.0@, x.1)) =~= fetch_rows(*f));
    } else {
        assert(rows@.map_values(|x: (String, bool)| (x.0@, x.1)) =~= Seq::empty());
    }
    let digits = usize_text(n);
    let count_text = cat2("已选 ", digits.as_str());
    let adopt = if loading {
        None
    } else {
        Some(cat3("采纳 ", digits.as_str(), " 项"))
    };
    Some(FetchModal { loading, rows, count_text, adopt })
}

/// The heading of the window that asks before a provider is removed; none
/// where none is to be.
pub fn provider_delete_modal(s: &SettingsStore) -> (r: Option<String>)
    ensures
        opt_view(r) == (match s.delete_provider_target {
            Some(id) => Some("移除 "@ + id@),
            None => None,
        }),
{
    match &s.delete_provider_target {
        Some(id) => Some(cat2("移除 ", id.as_str())),
        None => None,
    }
}

/// A risk: its name and what it means.
#[derive(Debug, PartialEq, Eq)]
pub struct RiskRow {
    pub title: String,
    pub text: String,
}

/// The window that asks before full access is given.
#[derive(Debug, PartialEq, Eq)]
pub struct FullAccessModal {
    pub title: String,
    pub consequence: String,
    pub risks: Vec<RiskRow>,
    pub footnote: String,
}

/// What full access puts at risk.
pub open spec fn risks() -> Seq<(Seq<char>, Seq<char>)> {
    seq![
        ("文件和文件夹"@, "读取、创建、修改、上传或删除此计算机上任意位置的文件"@),
        ("终端命令"@, "运行命令、安装软件和更改系统设置"@),
        ("互联网和已连接的应用"@, "访问网站、发送数据并使用已启用的插件"@),
    ]
}

fn risk_row(title: &str, text: &str) -> (r: RiskRow)
    ensures
        r.title@ == title@,
        r.text@ == text@,
{
    RiskRow { title: owned(title), text: owned(text) }
}

/// The window that asks before full access is given; none where it is not
/// asked for.
pub fn full_access_modal(s: &SettingsStore) -> (r: Option<FullAccessModal>)
    ensures
        r is Some <==> s.full_access_confirm is Some,
        r matches Some(m) ==> {
            &&& m.title@ == "要开启完全权限吗？"@
            &&& m.consequence@
                == "智能体将能够在未经您许可的情况下，在这台计算机上的任何位置运行命令、使用互联网，以及创建和编辑文件。这包括但不限于："@
            &&& m.risks@.map_values(|x: RiskRow| (x.title@, x.text@)) == risks()
            &&& m.footnote@
                == "这会带来敏感数据丢失或泄露、提示注入等风险。你可以将其关闭。"@
        },
{
    if s.full_access_confirm.is_none() {
        return None;
    }
    let mut rows: Vec<RiskRow> = Vec::new();
    rows.push(
        risk_row("文件和文件夹", "读取、创建、修改、上传或删除此计算机上任意位置的文件"),
    );
    rows.push(risk_row("终端命令", "运行命令、安装软件和更改系统设置"));
    rows.push(
        risk_row("互联网和已连接的应用", "访问网站、发送数据并使用已启用的插件"),
    );
    assert(rows@.map_values(|x: RiskRow| (x.title@, x.text@)) =~= risks());
    Some(
        FullAccessModal {
            title: owned("要开启完全权限吗？"),
            consequence: owned(
                "智能体将能够在未经您许可的情况下，在这台计算机上的任何位置运行命令、使用互联网，以及创建和编辑文件。这包括但不限于：",
            ),
            risks: rows,
            footnote: owned(
                "这会带来敏感数据丢失或泄露、提示注入等风险。你可以将其关闭。",
            ),
        },
    )
}

// ---------------------------------------------------------------------------
// The general page
// ---------------------------------------------------------------------------
/// A row of the general page: what is chosen, and from what.
#[derive(Debug, PartialEq, Eq)]
pub struct SelectorRow {
    pub id: String,
    pub title: String,
    pub text: String,
    pub current: String,
    pub options: Vec<(String, String)>,
}

/// The content of a row.
#[verifier::ext_equal]
pub struct SelectorValue {
    pub id: Seq<char>,
    pub title: Seq<char>,
    pub text: Seq<char>,
    pub current: Seq<char>,
    pub options: Seq<(Seq<char>, Seq<char>)>,
}

pub open spec fn option_values(v: Seq<(String, String)>) -> Seq<(Seq<char>, Seq<char>)> {
    v.map_values(|x: (String, String)| (x.0@, x.1@))
}

impl View for SelectorRow {
    type V = SelectorValue;

    open spec fn view(&self) -> SelectorValue {
        SelectorValue {
            id: self.id@,
            title: self.title@,
            text: self.text@,
            current: self.current@,
            options: option_values(self.options@),
        }
    }
}

/// What is set in a snapshot, or what holds where nothing is.
pub open spec fn set_or(snapshot: JsonValue, key: Seq<char>, fallback: Seq<char>) -> Seq<char> {
    match snapshot.field(key).as_text() {
        Some(s) => s,
        None => fallback,
    }
}

/// The options of a list: those with an id, each under its name.
pub open spec fn options_of(items: Seq<JsonValue>) -> Seq<(Seq<char>, Seq<char>)>
    decreases items.len(),
{
    if items.len() == 0 {
        Seq::empty()
    } else {
        let init = options_of(items.drop_last());
        match items.last().field("id"@).as_text() {
            Some(id) => init.push((id, text_field(items.last(), "name"@))),
            None => init,
        }
    }
}

/// The name of a permission.
pub open spec fn permission_name(id: Seq<char>) -> Seq<char> {
    if id == "read-only"@ {
        "仅可查看"@
    } else if id == "workspace-write"@ {
        "工作区内修改"@
    } else if id == "full-access"@ {
        "完全权限"@
    } else {
        id
    }
}

/// The permissions of a list, each under its name.
pub open spec fn permissions_of(items: Seq<JsonValue>) -> Seq<(Seq<char>, Seq<char>)>
    decreases items.len(),
{
    if items.len() == 0 {
        Seq::empty()
    } else {
        let init = permissions_of(items.drop_last());
        match items.last().as_text() {
            Some(id) => init.push((id, permission_name(id))),
            None => init,
        }
    }
}

/// The items of a list in a snapshot.
pub open spec fn listed_at(snapshot: JsonValue, key: Seq<char>) -> Seq<JsonValue> {
    match snapshot.field(key).as_items() {
        Some(v) => v,
        None => Seq::empty(),
    }
}

/// The options of a list of the snapshot.
pub fn snapshot_options(v: Option<&Json>) -> (r: Vec<(String, String)>)
    ensures
        option_values(r@) == (match opt_value(v) {
            Some(j) => match j.as_items() {
                Some(items) => options_of(items),
                None => Seq::empty(),
            },
            None => Seq::empty(),
        }),
{
    let mut out: Vec<(String, String)> = Vec::new();
    assert(option_values(out@) =~= Seq::empty());
    let items = match v {
        Some(j) => match j.as_array() {
            Some(items) => items,
            None => {
                return out;
            },
        },
        None => {
            return out;
        },
    };
    let ghost all = values(items@);
    let mut i: usize = 0;
    assert(all.take(0) =~= Seq::<JsonValue>::empty());
    while i < items.len()
        invariant
            i <= items@.len(),
            all == values(items@),
            option_values(out@) == options_of(all.take(i as int)),
        decreases items@.len() - i,
    {
        let ghost before = out@;
        assert(all.take(i + 1).drop_last() =~= all.take(i as int));
        assert(all.take(i + 1).last() == items@[i as int].value());
        if let Some(id) = items[i].text_at("id") {
            let name = items[i].text_or_empty("name");
            out.push((id, name));
            assert(option_values(out@) =~= option_values(before).push((id@, name@)));
        }
        i = i + 1;
    }
    assert(all.take(i as int) =~= all);
    out
}

fn permission_label(id: &str) -> (r: String)
    ensures
        r@ == permission_name(id@),
{
    if str_eq(id, "read-only") {
        owned("仅可查看")
    } else if str_eq(id, "workspace-write") {
        owned("工作区内修改")
    } else if str_eq(id, "full-access") {
        owned("完全权限")
    } else {
        owned(id)
    }
}

fn permission_options(snapshot: &Json) -> (r: Vec<(String, String)>)
    ensures
        option_values(r@) == permissions_of(listed_at(snapshot.value(), "permissionOptions"@)),
{
    let mut out: Vec<(String, String)> = Vec::new();
    assert(option_values(out@) =~= Seq::empty());
    let items = match snapshot.items_at("permissionOptions") {
        Some(items) => items,
        None => {
            return out;
        },
    };
    let ghost all = values(items@);
    let mut i: usize = 0;
    assert(all.take(0) =~= Seq::<JsonValue>::empty());
    while i < items.len()
        invariant
            i <= items@.len(),
            all == values(items@),
            option_values(out@) == permissions_of(all.take(i as int)),
        decreases items@.len() - i,
    {
        let ghost before = out@;
        assert(all.take(i + 1).drop_last() =~= all.take(i as int));
        assert(all.take(i + 1).last() == items@[i as int].value());
        if let Some(id) = items[i].as_str() {
            let label = permission_label(id.as_str());
            out.push((owned(id.as_str()), label));
            assert(option_values(out@) =~= option_values(before).push((id@, label@)));
        }
        i = i + 1;
    }
    assert(all.take(i as int) =~= all);
    out
}

fn text_or(snapshot: &Json, key: &str, fallback: &str) -> (r: String)
    ensures
        r@ == set_or(snapshot.value(), key@, fallback@),
{
    match snapshot.text_at(key) {
        Some(s) => s,
        None => owned(fallback),
    }
}

/// The rows of the general page.
pub open spec fn general_rows(s: JsonValue) -> Seq<SelectorValue> {
    seq![
        SelectorValue {
            id: "agent-preset"@,
            title: "Agent 预设"@,
            text: "对此后新建的会话生效。运行中的会话保持它开始时的预设。"@,
            current: set_or(s, "defaultPreset"@, "standard"@),
            options: options_of(listed_at(s, "presetOptions"@)),
        },
        SelectorValue {
            id: "permission"@,
            title: "权限"@,
            text: "选择新会话的默认权限模式"@,
            current: set_or(s, "defaultPermission"@, "workspace-write"@),
            options: permissions_of(listed_at(s, "permissionOptions"@)),
        },
        SelectorValue {
            id: "language"@,
            title: "语言"@,
            text: ""@,
            current: set_or(s, "language"@, "zh"@),
            options: seq![("zh"@, "中文"@)],
        },
        SelectorValue {
            id: "busy-enter"@,
            title: "繁忙时 Enter 键行为"@,
            text: "仅在智能体运行时生效;Cmd/Ctrl+Enter 使用另一行为"@,
            current: set_or(s, "busyEnter"@, "queue"@),
            options: seq![("queue"@, "排队发送"@), ("steer"@, "插话发送"@)],
        },
    ]
}

/// The general page. The appearances stand before its last row.
#[derive(Debug, PartialEq, Eq)]
pub struct GeneralPage {
    pub rows: Vec<SelectorRow>,
    pub appearances: Vec<Choice>,
}

/// The general page of a snapshot.
pub fn general_section(snapshot: &Json) -> (r: GeneralPage)
    ensures
        r.rows@.map_values(|x: SelectorRow| x@) == general_rows(snapshot.value()),
        choice_values(r.appearances@) == ({
            let a = set_or(snapshot.value(), "appearance"@, "dark"@);
            seq![
                choice_of("light"@, "浅色"@, a),
                choice_of("dark"@, "深色"@, a),
                choice_of("system"@, "跟随系统"@, a),
            ]
        }),
{
    let presets = snapshot_options(snapshot.get("presetOptions"));
    let permissions = permission_options(snapshot);
    let mut languages: Vec<(String, String)> = Vec::new();
    languages.push((owned("zh"), owned("中文")));
    assert(option_values(languages@) =~= seq![("zh"@, "中文"@)]);
    let mut enters: Vec<(String, String)> = Vec::new();
    enters.push((owned("queue"), owned("排队发送")));
    enters.push((owned("steer"), owned("插话发送")));
    assert(option_values(enters@) =~= seq![
        ("queue"@, "排队发送"@),
        ("steer"@, "插话发送"@),
    ]);
    let mut rows: Vec<SelectorRow> = Vec::new();
    rows.push(
        SelectorRow {
            id: owned("agent-preset"),
            title: owned("Agent 预设"),
            text: owned("对此后新建的会话生效。运行中的会话保持它开始时的预设。"),
            current: text_or(snapshot, "defaultPreset", "standard"),
            options: presets,
        },
    );
    rows.push(
        SelectorRow {
            id: owned("permission"),
            title: owned("权限"),
            text: owned("选择新会话的默认权限模式"),
            current: text_or(snapshot, "defaultPermission", "workspace-write"),
            options: permissions,
        },
    );
    rows.push(
        SelectorRow {
            id: owned("language"),
            title: owned("语言"),
            text: owned(""),
            current: text_or(snapshot, "language", "zh"),
            options: languages,
        },
    );
    rows.push(
        SelectorRow {
            id: owned("busy-enter"),
            title: owned("繁忙时 Enter 键行为"),
            text: owned("仅在智能体运行时生效;Cmd/Ctrl+Enter 使用另一行为"),
            current: text_or(snapshot, "busyEnter", "queue"),
            options: enters,
        },
    );
    assert(rows@.map_values(|x: SelectorRow| x@) =~= general_rows(snapshot.value()));
    let current = text_or(snapshot, "appearance", "dark");
    GeneralPage { rows, appearances: appearance_group(current.as_str()) }
}

// ---------------------------------------------------------------------------
// The menu
// ---------------------------------------------------------------------------
/// An entry of the menu.
#[derive(Debug, PartialEq, Eq)]
pub struct NavItem {
    pub nav: SettingsNav,
    pub label: String,
    pub active: bool,
}

/// The entries of the menu: the basic ones, then the one at the foot.
pub fn menu(current: SettingsNav) -> (r: Vec<NavItem>)
    ensures
        r@.map_values(|x: NavItem| (x.nav, x.label@, x.active)) == seq![
            (SettingsNav::General, "常规"@, current == SettingsNav::General),
            (SettingsNav::Models, "模型设置"@, current == SettingsNav::Models),
            (SettingsNav::About, "关于"@, current == SettingsNav::About),
        ],
{
    let mut v: Vec<NavItem> = Vec::new();
    v.push(
        NavItem {
            nav: SettingsNav::General,
            label: owned("常规"),
            active: current == SettingsNav::General,
        },
    );
    v.push(
        NavItem {
            nav: SettingsNav::Models,
            label: owned("模型设置"),
            active: current == SettingsNav::Models,
        },
    );
    v.push(
        NavItem {
            nav: SettingsNav::About,
            label: owned("关于"),
            active: current == SettingsNav::About,
        },
    );
    assert(v@.map_values(|x: NavItem| (x.nav, x.label@, x.active)) =~= seq![
        (SettingsNav::General, "常规"@, current == SettingsNav::General),
        (SettingsNav::Models, "模型设置"@, current == SettingsNav::Models),
        (SettingsNav::About, "关于"@, current == SettingsNav::About),
    ]);
    v
}

// ---------------------------------------------------------------------------
// Laws
// ---------------------------------------------------------------------------
/// Less than an hour is told in minutes, less than a day in hours, anything more
/// in days, each rounded down; what is yet to come was just now.
pub proof fn law_times_are_told_in_their_unit(ms: u64, n: nat, rest: nat)
    requires
        ms + n * 86_400_000 + rest <= u64::MAX,
    ensures
        n < 60 && rest < 60_000 ==> ago((ms + n * 60_000 + rest) as u64, ms) == dec(n)
            + " 分钟前"@,
        1 <= n < 24 && rest < 3_600_000 ==> ago((ms + n * 3_600_000 + rest) as u64, ms) == dec(n)
            + " 小时前"@,
        1 <= n && rest < 86_400_000 ==> ago((ms + n * 86_400_000 + rest) as u64, ms) == dec(n)
            + " 天前"@,
        forall|now: u64| now <= ms ==> #[trigger] ago(now, ms) == dec(0) + " 分钟前"@,
{
    if n < 60 && rest < 60_000 {
        let now = (ms + n * 60_000 + rest) as u64;
        assert(now - ms == n * 60_000 + rest);
        assert(((now - ms) as nat) / 60_000 == n);
    }
    if 1 <= n < 24 && rest < 3_600_000 {
        let now = (ms + n * 3_600_000 + rest) as u64;
        assert(now - ms == n * 3_600_000 + rest);
        let mins = ((now - ms) as nat) / 60_000;
        assert(n * 60 <= mins < n * 60 + 60);
        assert(mins / 60 == n);
    }
    if 1 <= n && rest < 86_400_000 {
        let now = (ms + n * 86_400_000 + rest) as u64;
        assert(now - ms == n * 86_400_000 + rest);
        let mins = ((now - ms) as nat) / 60_000;
        assert(n * 1440 <= mins < n * 1440 + 1440);
        assert(mins / 1440 == n);
    }
}

/// A balance is shown with its amount and currency, usage with its percentages and
/// when it starts anew; anything else, and a balance without an amount, has no
/// line.
pub proof fn law_billing_lines(cache: JsonValue, amount: Seq<char>)
    ensures
        cache.get("kind"@) == Some(JsonValue::Str("balance"@)) && cache.get("amount"@) == Some(
            JsonValue::Str(amount),
        ) ==> line_of(cache) == Some(
            LineValue::Balance { amount, currency: text_field(cache, "currency"@) },
        ),
        cache.get("kind"@) == Some(JsonValue::Str("balance"@)) && cache.get("amount"@) is None
            ==> line_of(cache) is None,
        cache.get("kind"@) == Some(JsonValue::Str("usage"@)) ==> (line_of(cache) matches Some(
            LineValue::Usage { pct_5h, pct_7d, resets },
        ) && pct_5h == cache.field("pct_5h"@).as_unsigned() && pct_7d == cache.field(
            "pct_7d"@,
        ).as_unsigned() && resets == cache.field("resets"@).as_text()),
        cache.get("kind"@) is None ==> line_of(cache) is None,
{
    reveal_strlit("balance");
    reveal_strlit("usage");
    assert("balance"@.len() == 7 && "usage"@.len() == 5);
}

/// The card of a provider has its id and address, its name or else its id, and the
/// first character of that; it says whether the provider has a credential, is the
/// default one, and is being edited or refreshed.
pub proof fn law_provider_cards(
    s: &SettingsStore,
    p: &Json,
    now: u64,
    r: ProviderCard,
    id: Seq<char>,
    name: Seq<char>,
)
    requires
        call_ensures(provider_row_card, (s, p, now), r),
        p.value().get("id"@) == Some(JsonValue::Str(id)),
    ensures
        r.id@ == id,
        r.base_url@ == text_field(p.value(), "base_url"@),
        p.value().get("display_name"@) == Some(JsonValue::Str(name)) && name.len() > 0 ==> r.name@
            == name,
        p.value().get("display_name"@) is None ==> r.name@ == id,
        r.name@.len() > 0 ==> r.avatar@ == seq![r.name@[0]],
        r.credential_ready <==> p.value().get("credentialReady"@) == Some(JsonValue::Bool(true)),
        r.is_default <==> s.settings_snapshot.value().get("defaultProvider"@) == Some(
            JsonValue::Str(id),
        ),
        r.open <==> (s.editing_provider matches Some(e) && e@ == id),
        r.billing is Some <==> (p.value().get("billing"@) matches Some(JsonValue::Object(_))),
        r.billing matches Some(b) ==> (b.refreshing <==> (s.billing_refreshing matches Some(e)
            && e@ == id)) && opt_line(b.line) == line_of(p.value().field("billing_cache"@)),
{
    if r.name@.len() > 0 {
        assert(r.name@.take(1) =~= seq![r.name@[0]]);
    }
}

/// The models page has a row for each provider, in order: the default one stands in
/// its setup while it has no credential, every other one as a card.
pub proof fn law_models_page_lists_every_provider(
    s: &SettingsStore,
    now: u64,
    r: ModelsPage,
    ps: Seq<JsonValue>,
    i: int,
)
    requires
        call_ensures(models_section, (s, now), r),
        s.settings_snapshot.value().get("providers"@) == Some(JsonValue::Array(ps)),
        0 <= i < ps.len(),
    ensures
        r.rows@.len() == ps.len(),
        r.hint is None,
        ({
            let id = text_field(ps[i], "id"@);
            let waits = s.settings_snapshot.value().get("defaultProvider"@) == Some(
                JsonValue::Str(id),
            ) && ps[i].get("credentialReady"@) != Some(JsonValue::Bool(true));
            &&& waits ==> (r.rows@[i] matches ProviderRow::Setup(t) && t@ == id)
            &&& !waits ==> (r.rows@[i] matches ProviderRow::Card(c) && c.id@ == id)
        }),
        s.adding_provider ==> (r.add_block matches AddBlock::Card { .. }),
        !s.adding_provider ==> (r.add_block matches AddBlock::Button(_)),
{
    let shown = r.rows@.map_values(|x: ProviderRow| x@);
    let want = providers_of(s.settings_snapshot.value()).map_values(|p: JsonValue| row_of(*s, p, now));
    assert(shown == want);
    assert(shown.len() == r.rows@.len() && want.len() == ps.len());
    assert(shown[i] == r.rows@[i]@);
    assert(want[i] == row_of(*s, ps[i], now));
}

/// Of the appearances, the dialects and the kinds of billing, the one that is set is
/// the one that is marked.
pub proof fn law_the_set_choice_is_marked(
    current: &str,
    a: Vec<Choice>,
    d: Vec<Choice>,
    b: Vec<Choice>,
    i: int,
)
    requires
        call_ensures(appearance_group, (current,), a),
        call_ensures(dialect_chips, (current,), d),
        call_ensures(billing_kind_chips, (current,), b),
    ensures
        a@.len() == 3,
        d@.len() == 3,
        b@.len() == 2,
        a@[0].value@ == "light"@ && a@[1].value@ == "dark"@ && a@[2].value@ == "system"@,
        d@[0].value@ == "openai-chat"@ && d@[1].value@ == "anthropic"@ && d@[2].value@
            == "openai-responses"@,
        b@[0].value@ == "balance"@ && b@[1].value@ == "usage"@,
        0 <= i < 3 ==> (a@[i].active <==> a@[i].value@ == current@) && (d@[i].active
            <==> d@[i].value@ == current@),
        0 <= i < 2 ==> (b@[i].active <==> b@[i].value@ == current@),
{
    let av = choice_values(a@);
    let dv = choice_values(d@);
    let bv = choice_values(b@);
    assert(av.len() == a@.len() && dv.len() == d@.len() && bv.len() == b@.len());
    assert(av[0] == a@[0]@ && av[1] == a@[1]@ && av[2] == a@[2]@);
    assert(dv[0] == d@[0]@ && dv[1] == d@[1]@ && dv[2] == d@[2]@);
    assert(bv[0] == b@[0]@ && bv[1] == b@[1]@);
}

/// The options of a list are its items with an id, in order, each under its name;
/// permissions have names of their own.
pub proof fn law_options_are_listed(
    before: Seq<JsonValue>,
    item: JsonValue,
    id: Seq<char>,
    name: Seq<char>,
)
    ensures
        item.get("id"@) == Some(JsonValue::Str(id)) && item.get("name"@) == Some(
            JsonValue::Str(name),
        ) ==> options_of(before.push(item)) == options_of(before).push((id, name)),
        item.get("id"@) is None ==> options_of(before.push(item)) == options_of(before),
        options_of(Seq::empty()) == Seq::<(Seq<char>, Seq<char>)>::empty(),
        permissions_of(before.push(JsonValue::Str(id))) == permissions_of(before).push(
            (id, permission_name(id)),
        ),
        id != "read-only"@ && id != "workspace-write"@ && id != "full-access"@
            ==> permission_name(id)
            == id,
        permission_name("read-only"@) == "仅可查看"@,
        permission_name("workspace-write"@) == "工作区内修改"@,
        permission_name("full-access"@) == "完全权限"@,
{
    assert(before.push(item).drop_last() =~= before);
    assert(before.push(JsonValue::Str(id)).drop_last() =~= before);
    reveal_strlit("read-only");
    reveal_strlit("workspace-write");
    reveal_strlit("full-access");
    assert("read-only"@.len() == 9 && "workspace-write"@.len() == 15 && "full-access"@.len() == 11);
}

/// The general page shows what the snapshot sets, and fixed defaults where it sets
/// nothing.
pub proof fn law_general_page_shows_what_is_set(snapshot: &Json, r: GeneralPage, v: Seq<char>)
    requires
        call_ensures(general_section, (snapshot,), r),
    ensures
        r.rows@.len() == 4,
        snapshot.value().get("defaultPreset"@) == Some(JsonValue::Str(v))
            ==> r.rows@[0].current@ == v,
        snapshot.value().get("defaultPreset"@) is None ==> r.rows@[0].current@ == "standard"@,
        snapshot.value().get("defaultPermission"@) == Some(JsonValue::Str(v))
            ==> r.rows@[1].current@ == v,
        snapshot.value().get("defaultPermission"@) is None ==> r.rows@[1].current@
            == "workspace-write"@,
        snapshot.value().get("language"@) == Some(JsonValue::Str(v)) ==> r.rows@[2].current@ == v,
        snapshot.value().get("busyEnter"@) == Some(JsonValue::Str(v)) ==> r.rows@[3].current@ == v,
        snapshot.value().get("busyEnter"@) is None ==> r.rows@[3].current@ == "queue"@,
        r.rows@[0].id@ == "agent-preset"@ && r.rows@[1].id@ == "permission"@ && r.rows@[2].id@
            == "language"@ && r.rows@[3].id@ == "busy-enter"@,
        snapshot.value().get("appearance"@) == Some(JsonValue::Str(v)) ==> forall|i: int|
            0 <= i < r.appearances@.len() ==> ((#[trigger] r.appearances@[i]).active
                <==> r.appearances@[i].value@ == v),
        snapshot.value().get("appearance"@) is None ==> forall|i: int|
            0 <= i < r.appearances@.len() ==> ((#[trigger] r.appearances@[i]).active
                <==> r.appearances@[i].value@ == "dark"@),
{
    let shown = r.rows@.map_values(|x: SelectorRow| x@);
    assert(shown.len() == r.rows@.len());
    assert(shown[0] == r.rows@[0]@ && shown[1] == r.rows@[1]@ && shown[2] == r.rows@[2]@ && shown[3]
        == r.rows@[3]@);
    let cs = choice_values(r.appearances@);
    assert(cs.len() == r.appearances@.len());
    assert forall|i: int| 0 <= i < r.appearances@.len() implies #[trigger] r.appearances@[i]@
        == cs[i] by {}
}

/// The models that are picked are counted one by one.
pub proof fn law_picked_models_are_counted(picked: Seq<bool>)
    ensures
        picked_count(Seq::empty()) == 0,
        picked_count(picked.push(true)) == picked_count(picked) + 1,
        picked_count(picked.push(false)) == picked_count(picked),
{
    assert(picked.push(true).drop_last() =~= picked);
    assert(picked.push(false).drop_last() =~= picked);
}

/// The window of an endpoint's models lists every one with its mark, once they
/// are there, and counts what is picked.
pub proof fn law_offered_models_are_listed(s: &SettingsStore, f: ModelFetch, r: Option<FetchModal>)
    requires
        call_ensures(provider_models_fetch_modal, (s,), r),
        s.model_fetch == Some(f),
    ensures
        r matches Some(m) && {
            &&& m.loading == s.model_fetch_loading
            &&& m.loading ==> m.rows@.len() == 0 && m.adopt is None
            &&& !m.loading ==> m.rows@.len() == f.candidates@.len()
            &&& !m.loading ==> forall|i: int|
                0 <= i < m.rows@.len() ==> (#[trigger] m.rows@[i]).0@ == f.candidates@[i]@
            &&& !m.loading ==> forall|i: int|
                0 <= i < m.rows@.len() && i < f.picked@.len() ==> (#[trigger] m.rows@[i]).1
                    == f.picked@[i]
            &&& m.count_text@ == "已选 "@ + dec(picked_count(f.picked@))
            &&& !m.loading ==> (m.adopt matches Some(t) && t@ == "采纳 "@ + dec(
                picked_count(f.picked@),
            ) + " 项"@)
        },
{
    let m = r->0;
    let v = m.rows@.map_values(|x: (String, bool)| (x.0@, x.1));
    assert(v.len() == m.rows@.len());
    if !m.loading {
        assert forall|i: int| 0 <= i < m.rows@.len() implies (#[trigger] m.rows@[i]).0@
            == f.candidates@[i]@ by {
            assert(v[i] == (m.rows@[i].0@, m.rows@[i].1));
        }
        assert forall|i: int| 0 <= i < m.rows@.len() && i < f.picked@.len() implies (
        #[trigger] m.rows@[i]).1 == f.picked@[i] by {
            assert(v[i] == (m.rows@[i].0@, m.rows@[i].1));
        }
    }
}

/// A window asks before full access is given and before a provider is removed,
/// and only then; it names what is at stake.
pub proof fn law_windows_ask_before_what_is_risky(
    s: &SettingsStore,
    access: Option<FullAccessModal>,
    removal: Option<String>,
)
    requires
        call_ensures(full_access_modal, (s,), access),
        call_ensures(provider_delete_modal, (s,), removal),
    ensures
        access is Some <==> s.full_access_confirm is Some,
        access matches Some(m) ==> m.risks@.len() == 3 && m.risks@[0].title@ == "文件和文件夹"@
            && m.risks@[1].title@ == "终端命令"@ && m.risks@[2].title@ == "互联网和已连接的应用"@,
        removal is Some <==> s.delete_provider_target is Some,
        s.delete_provider_target matches Some(id) ==> (removal matches Some(t) && t@ == "移除 "@
            + id@),
{
    if access is Some {
        let m = access->0;
        let v = m.risks@.map_values(|x: RiskRow| (x.title@, x.text@));
        assert(v.len() == m.risks@.len());
        assert(v[0] == (m.risks@[0].title@, m.risks@[0].text@));
        assert(v[1] == (m.risks@[1].title@, m.risks@[1].text@));
        assert(v[2] == (m.risks@[2].title@, m.risks@[2].text@));
    }
}

/// The settings have three pages, of which the current one is marked.
pub proof fn law_the_current_page_is_marked(current: SettingsNav, r: Vec<NavItem>)
    requires
        call_ensures(menu, (current,), r),
    ensures
        r@.len() == 3,
        forall|i: int| 0 <= i < 3 ==> ((#[trigger] r@[i]).active <==> r@[i].nav == current),
        r@[0].nav == SettingsNav::General && r@[0].label@ == "常规"@,
        r@[1].nav == SettingsNav::Models && r@[1].label@ == "模型设置"@,
        r@[2].nav == SettingsNav::About && r@[2].label@ == "关于"@,
{
    let v = r@.map_values(|x: NavItem| (x.nav, x.label@, x.active));
    assert(v.len() == 3);
    assert(v[0] == (r@[0].nav, r@[0].label@, r@[0].active));
    assert(v[1] == (r@[1].nav, r@[1].label@, r@[1].active));
    assert(v[2] == (r@[2].nav, r@[2].label@, r@[2].active));
}

} // verus!
