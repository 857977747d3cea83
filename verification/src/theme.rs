//! Colour schemes: a light and a dark palette, and which of them is in force.

use crate::text::str_eq;
use vstd::prelude::*;
use vstd::string::*;

verus! {

// ---------------------------------------------------------------------------
// Palettes
// ---------------------------------------------------------------------------
/// A colour: red, green and blue in one number, and its opacity in percent.
#[derive(Debug, Clone, Copy, PartialEq, Eq, Structural)]
pub struct Colour {
    pub rgb: u32,
    pub percent: u8,
}

/// The colours of the window.
#[derive(Debug, Clone, Copy, PartialEq, Eq, Structural)]
pub struct Palette {
    /// The background of the window.
    pub base: Colour,
    /// The sidebar and the status bar.
    pub sidebar: Colour,
    /// Black in both palettes.
    pub ink: Colour,
    /// Floating layers, and rows under the pointer.
    pub layer: Colour,
    /// Cards and inputs.
    pub card: Colour,
    /// Buttons and secondary fills.
    pub dock: Colour,
    /// The colour of the brand.
    pub brand: Colour,
    /// Danger.
    pub danger: Colour,
    /// Success.
    pub success: Colour,
    /// Warnings.
    pub warn: Colour,
    /// The bubbles of the user.
    pub bubble: Colour,
    /// Text of the first level.
    pub label: Colour,
    /// Text of the second level.
    pub label_2: Colour,
    /// Text of the third level.
    pub label_3: Colour,
    /// Captions.
    pub caption: Colour,
    /// Borders.
    pub border: Colour,
    /// Borders of the second level.
    pub border_2: Colour,
    /// Code blocks and terminals.
    pub code: Colour,
    /// What is under way.
    pub ongoing: Colour,
    /// Fills of glass.
    pub glass_bg: Colour,
    /// Borders of glass.
    pub glass_border: Colour,
    /// The sweep over tool cards.
    pub sweep: Colour,
    /// Ticks of the timeline that are not active.
    pub tick_idle: Colour,
}

/// The dark and the light palette.
pub open spec fn palette(dark: bool) -> Palette {
    if dark {
        Palette {
            base: Colour { rgb: 0x141416, percent: 100 },
            sidebar: Colour { rgb: 0x1A1A1C, percent: 100 },
            ink: Colour { rgb: 0x000000, percent: 100 },
            layer: Colour { rgb: 0x202023, percent: 100 },
            card: Colour { rgb: 0x232326, percent: 100 },
            dock: Colour { rgb: 0x2E2E31, percent: 100 },
            brand: Colour { rgb: 0x0A84FF, percent: 100 },
            danger: Colour { rgb: 0xFF453A, percent: 100 },
            success: Colour { rgb: 0x30D158, percent: 100 },
            warn: Colour { rgb: 0xFF9F0A, percent: 100 },
            bubble: Colour { rgb: 0x262629, percent: 100 },
            label: Colour { rgb: 0xFFFFFF, percent: 100 },
            label_2: Colour { rgb: 0xEBEBF5, percent: 72 },
            label_3: Colour { rgb: 0xEBEBF5, percent: 55 },
            caption: Colour { rgb: 0xEBEBF5, percent: 38 },
            border: Colour { rgb: 0xFFFFFF, percent: 8 },
            border_2: Colour { rgb: 0xFFFFFF, percent: 14 },
            code: Colour { rgb: 0x101012, percent: 100 },
            ongoing: Colour { rgb: 0x0A84FF, percent: 100 },
            glass_bg: Colour { rgb: 0xFFFFFF, percent: 10 },
            glass_border: Colour { rgb: 0xFFFFFF, percent: 16 },
            sweep: Colour { rgb: 0xFFFFFF, percent: 7 },
            tick_idle: Colour { rgb: 0xFFFFFF, percent: 22 },
        }
    } else {
        Palette {
            base: Colour { rgb: 0xFFFFFF, percent: 100 },
            sidebar: Colour { rgb: 0xF0F0F2, percent: 100 },
            ink: Colour { rgb: 0x000000, percent: 100 },
            layer: Colour { rgb: 0xECECEE, percent: 100 },
            card: Colour { rgb: 0xFFFFFF, percent: 100 },
            dock: Colour { rgb: 0xE9E9EB, percent: 100 },
            brand: Colour { rgb: 0x007AFF, percent: 100 },
            danger: Colour { rgb: 0xFF3B30, percent: 100 },
            success: Colour { rgb: 0x34C759, percent: 100 },
            warn: Colour { rgb: 0xFF9500, percent: 100 },
            bubble: Colour { rgb: 0xE9E9EB, percent: 100 },
            label: Colour { rgb: 0x1D1D1F, percent: 100 },
            label_2: Colour { rgb: 0x3C3C43, percent: 72 },
            label_3: Colour { rgb: 0x3C3C43, percent: 50 },
            caption: Colour { rgb: 0x3C3C43, percent: 35 },
            border: Colour { rgb: 0x000000, percent: 10 },
            border_2: Colour { rgb: 0x000000, percent: 16 },
            code: Colour { rgb: 0xF7F7F9, percent: 100 },
            ongoing: Colour { rgb: 0x007AFF, percent: 100 },
            glass_bg: Colour { rgb: 0x000000, percent: 6 },
            glass_border: Colour { rgb: 0x000000, percent: 14 },
            sweep: Colour { rgb: 0x000000, percent: 8 },
            tick_idle: Colour { rgb: 0x000000, percent: 22 },
        }
    }
}

/// See [`palette`].
pub fn palette_of(dark: bool) -> (r: Palette)
    ensures
        r == palette(dark),
{
    if dark {
        Palette {
            base: Colour { rgb: 0x141416, percent: 100 },
            sidebar: Colour { rgb: 0x1A1A1C, percent: 100 },
            ink: Colour { rgb: 0x000000, percent: 100 },
            layer: Colour { rgb: 0x202023, percent: 100 },
            card: Colour { rgb: 0x232326, percent: 100 },
            dock: Colour { rgb: 0x2E2E31, percent: 100 },
            brand: Colour { rgb: 0x0A84FF, percent: 100 },
            danger: Colour { rgb: 0xFF453A, percent: 100 },
            success: Colour { rgb: 0x30D158, percent: 100 },
            warn: Colour { rgb: 0xFF9F0A, percent: 100 },
            bubble: Colour { rgb: 0x262629, percent: 100 },
            label: Colour { rgb: 0xFFFFFF, percent: 100 },
            label_2: Colour { rgb: 0xEBEBF5, percent: 72 },
            label_3: Colour { rgb: 0xEBEBF5, percent: 55 },
            caption: Colour { rgb: 0xEBEBF5, percent: 38 },
            border: Colour { rgb: 0xFFFFFF, percent: 8 },
            border_2: Colour { rgb: 0xFFFFFF, percent: 14 },
            code: Colour { rgb: 0x101012, percent: 100 },
            ongoing: Colour { rgb: 0x0A84FF, percent: 100 },
            glass_bg: Colour { rgb: 0xFFFFFF, percent: 10 },
            glass_border: Colour { rgb: 0xFFFFFF, percent: 16 },
            sweep: Colour { rgb: 0xFFFFFF, percent: 7 },
            tick_idle: Colour { rgb: 0xFFFFFF, percent: 22 },
        }
    } else {
        Palette {
            base: Colour { rgb: 0xFFFFFF, percent: 100 },
            sidebar: Colour { rgb: 0xF0F0F2, percent: 100 },
            ink: Colour { rgb: 0x000000, percent: 100 },
            layer: Colour { rgb: 0xECECEE, percent: 100 },
            card: Colour { rgb: 0xFFFFFF, percent: 100 },
            dock: Colour { rgb: 0xE9E9EB, percent: 100 },
            brand: Colour { rgb: 0x007AFF, percent: 100 },
            danger: Colour { rgb: 0xFF3B30, percent: 100 },
            success: Colour { rgb: 0x34C759, percent: 100 },
            warn: Colour { rgb: 0xFF9500, percent: 100 },
            bubble: Colour { rgb: 0xE9E9EB, percent: 100 },
            label: Colour { rgb: 0x1D1D1F, percent: 100 },
            label_2: Colour { rgb: 0x3C3C43, percent: 72 },
            label_3: Colour { rgb: 0x3C3C43, percent: 50 },
            caption: Colour { rgb: 0x3C3C43, percent: 35 },
            border: Colour { rgb: 0x000000, percent: 10 },
            border_2: Colour { rgb: 0x000000, percent: 16 },
            code: Colour { rgb: 0xF7F7F9, percent: 100 },
            ongoing: Colour { rgb: 0x007AFF, percent: 100 },
            glass_bg: Colour { rgb: 0x000000, percent: 6 },
            glass_border: Colour { rgb: 0x000000, percent: 14 },
            sweep: Colour { rgb: 0x000000, percent: 8 },
            tick_idle: Colour { rgb: 0x000000, percent: 22 },
        }
    }
}

/// The colours of the components.
#[derive(Debug, Clone, Copy, PartialEq, Eq, Structural)]
pub struct ComponentColours {
    pub background: Colour,
    pub foreground: Colour,
    pub border: Colour,
    pub input: Colour,
    pub caret: Colour,
    pub ring: Colour,
    pub selection: Colour,
    pub primary: Colour,
    pub primary_foreground: Colour,
    pub primary_hover: Colour,
    pub primary_active: Colour,
    pub secondary: Colour,
    pub secondary_foreground: Colour,
    pub secondary_hover: Colour,
    pub secondary_active: Colour,
    pub muted: Colour,
    pub muted_foreground: Colour,
    pub accent: Colour,
    pub accent_foreground: Colour,
    pub danger: Colour,
    pub danger_foreground: Colour,
    pub success: Colour,
    pub success_foreground: Colour,
    pub popover: Colour,
    pub popover_foreground: Colour,
    pub list: Colour,
    pub list_hover: Colour,
    pub list_active: Colour,
    pub sidebar: Colour,
    pub sidebar_border: Colour,
    pub sidebar_foreground: Colour,
    pub sidebar_accent: Colour,
    pub sidebar_accent_foreground: Colour,
    pub scrollbar: Colour,
    pub scrollbar_thumb: Colour,
    pub title_bar: Colour,
    pub title_bar_border: Colour,
}

/// The colours of the components in a palette. On fills of the brand's colour
/// and of the semantic ones, text is white in both.
pub open spec fn component_colours_of(dark: bool) -> ComponentColours {
    let p = palette(dark);
    let on_fill = if dark {
        p.label
    } else {
        Colour { rgb: 0xFFFFFF, percent: 100 }
    };
    ComponentColours {
        background: p.base,
        foreground: p.label,
        border: p.border,
        input: p.border,
        caret: p.brand,
        ring: p.brand,
        selection: Colour { rgb: p.brand.rgb, percent: 30 },
        primary: p.brand,
        primary_foreground: on_fill,
        primary_hover: p.brand,
        primary_active: p.brand,
        secondary: p.dock,
        secondary_foreground: p.label_2,
        secondary_hover: p.dock,
        secondary_active: p.dock,
        muted: p.layer,
        muted_foreground: p.label_3,
        accent: p.layer,
        accent_foreground: p.label,
        danger: p.danger,
        danger_foreground: on_fill,
        success: p.success,
        success_foreground: on_fill,
        popover: p.layer,
        popover_foreground: p.label,
        list: p.sidebar,
        list_hover: p.layer,
        list_active: p.layer,
        sidebar: p.ink,
        sidebar_border: p.border,
        sidebar_foreground: p.label_2,
        sidebar_accent: p.layer,
        sidebar_accent_foreground: p.label,
        scrollbar: p.base,
        scrollbar_thumb: p.dock,
        title_bar: p.base,
        title_bar_border: p.base,
    }
}

/// See [`component_colours_of`].
pub fn component_colours(dark: bool) -> (r: ComponentColours)
    ensures
        r == component_colours_of(dark),
{
    let p = palette_of(dark);
    let on_fill = if dark {
        p.label
    } else {
        Colour { rgb: 0xFFFFFF, percent: 100 }
    };
    ComponentColours {
        background: p.base,
        foreground: p.label,
        border: p.border,
        input: p.border,
        caret: p.brand,
        ring: p.brand,
        selection: Colour { rgb: p.brand.rgb, percent: 30 },
        primary: p.brand,
        primary_foreground: on_fill,
        primary_hover: p.brand,
        primary_active: p.brand,
        secondary: p.dock,
        secondary_foreground: p.label_2,
        secondary_hover: p.dock,
        secondary_active: p.dock,
        muted: p.layer,
        muted_foreground: p.label_3,
        accent: p.layer,
        accent_foreground: p.label,
        danger: p.danger,
        danger_foreground: on_fill,
        success: p.success,
        success_foreground: on_fill,
        popover: p.layer,
        popover_foreground: p.label,
        list: p.sidebar,
        list_hover: p.layer,
        list_active: p.layer,
        sidebar: p.ink,
        sidebar_border: p.border,
        sidebar_foreground: p.label_2,
        sidebar_accent: p.layer,
        sidebar_accent_foreground: p.label,
        scrollbar: p.base,
        scrollbar_thumb: p.dock,
        title_bar: p.base,
        title_bar_border: p.base,
    }
}

// ---------------------------------------------------------------------------
// The choice
// ---------------------------------------------------------------------------
/// What the user chose.
#[derive(Debug, Clone, Copy, PartialEq, Eq, Structural)]
pub enum Appearance {
    Light,
    Dark,
    /// As the system has it.
    System,
}

impl Appearance {
    /// The appearance of a name; an unknown one is dark.
    pub open spec fn named(s: Seq<char>) -> Appearance {
        if s == "light"@ {
            Appearance::Light
        } else if s == "system"@ {
            Appearance::System
        } else {
            Appearance::Dark
        }
    }

    /// See [`Appearance::named`].
    pub fn parse(s: &str) -> (r: Appearance)
        ensures
            r == Appearance::named(s@),
    {
        if str_eq(s, "light") {
            Appearance::Light
        } else if str_eq(s, "system") {
            Appearance::System
        } else {
            Appearance::Dark
        }
    }
}

/// What the windows of the application are forced to.
#[derive(Debug, Clone, Copy, PartialEq, Eq, Structural)]
pub enum Forced {
    /// Nothing: they follow the system.
    Free,
    Light,
    Dark,
}

/// What is in force.
#[derive(Debug, Clone, Copy, PartialEq, Eq)]
pub struct ThemeState {
    pub choice: Appearance,
    pub dark: bool,
    /// What the windows were forced to last.
    pub forced: Option<Forced>,
    /// The choice and the palette that were put in force last.
    pub applied: Option<(Appearance, bool)>,
}

/// What a choice forces the windows to.
pub open spec fn forced_by(choice: Appearance) -> Forced {
    match choice {
        Appearance::Light => Forced::Light,
        Appearance::Dark => Forced::Dark,
        Appearance::System => Forced::Free,
    }
}

/// Whether a choice is dark, where the system is or is not.
pub open spec fn is_dark_choice(choice: Appearance, system_dark: bool) -> bool {
    match choice {
        Appearance::Light => false,
        Appearance::Dark => true,
        Appearance::System => system_dark,
    }
}

impl ThemeState {
    /// Whether putting a choice in force changes anything: not where choice
    /// and palette are those that were put in force last.
    pub open spec fn repaints(self, choice: Appearance, system_dark: bool) -> bool {
        self.applied != Some((choice, is_dark_choice(choice, system_dark)))
    }

    /// The state with a choice in force.
    pub open spec fn after_apply(self, choice: Appearance, system_dark: bool) -> ThemeState {
        if self.repaints(choice, system_dark) {
            ThemeState {
                choice,
                dark: is_dark_choice(choice, system_dark),
                applied: Some((choice, is_dark_choice(choice, system_dark))),
                ..self
            }
        } else {
            self
        }
    }

    /// The palette in force is the one that was applied last.
    pub open spec fn consistent(self) -> bool {
        self.applied matches Some(last) ==> self.choice == last.0 && self.dark == last.1
    }

    /// Before anything was put in force: dark.
    pub fn new() -> (r: ThemeState)
        ensures
            r == (ThemeState {
                choice: Appearance::Dark,
                dark: true,
                forced: None,
                applied: None,
            }),
            r.consistent(),
    {
        ThemeState { choice: Appearance::Dark, dark: true, forced: None, applied: None }
    }

    /// The first step of a choice: what the windows have to be forced to now;
    /// nothing where they are already. The system is asked for its appearance
    /// only after this step.
    pub fn force(&mut self, choice: Appearance) -> (r: Option<Forced>)
        ensures
            r == (if old(self).forced == Some(forced_by(choice)) {
                None
            } else {
                Some(forced_by(choice))
            }),
            *final(self) == (ThemeState { forced: Some(forced_by(choice)), ..*old(self) }),
            old(self).consistent() ==> final(self).consistent(),
    {
        let target = match choice {
            Appearance::Light => Forced::Light,
            Appearance::Dark => Forced::Dark,
            Appearance::System => Forced::Free,
        };
        let same = match self.forced {
            Some(f) => f == target,
            None => false,
        };
        self.forced = Some(target);
        if same {
            None
        } else {
            Some(target)
        }
    }

    /// The second step of a choice: puts it in force. Returns whether anything
    /// has to be painted anew: not where choice and palette are those that
    /// were put in force last.
    pub fn apply(&mut self, choice: Appearance, system_dark: bool) -> (changed: bool)
        ensures
            changed == old(self).repaints(choice, system_dark),
            *final(self) == old(self).after_apply(choice, system_dark),
    {
        let dark = match choice {
            Appearance::Light => false,
            Appearance::Dark => true,
            Appearance::System => system_dark,
        };
        let same = match self.applied {
            Some(last) => last.0 == choice && last.1 == dark,
            None => false,
        };
        if same {
            return false;
        }
        self.applied = Some((choice, dark));
        self.choice = choice;
        self.dark = dark;
        true
    }

    /// The system changed its appearance: only a choice that follows it does
    /// anything. Returns whether it has to be put in force again.
    pub fn follows_system(&self) -> (r: bool)
        ensures
            r == (self.choice == Appearance::System),
    {
        self.choice == Appearance::System
    }
}

/// What the user chose.
pub fn current_appearance(state: &ThemeState) -> (r: Appearance)
    ensures
        r == state.choice,
{
    state.choice
}

/// Whether the dark palette is in force.
pub fn is_dark(state: &ThemeState) -> (r: bool)
    ensures
        r == state.dark,
{
    state.dark
}

/// The main background.
#[allow(non_snake_case)]
pub fn BASE(state: &ThemeState) -> (r: Colour)
    ensures
        r == palette(state.dark).base,
{
    palette_of(state.dark).base
}

/// The background of the sidebar and the status bar.
#[allow(non_snake_case)]
pub fn SIDEBAR(state: &ThemeState) -> (r: Colour)
    ensures
        r == palette(state.dark).sidebar,
{
    palette_of(state.dark).sidebar
}

/// Black in both palettes.
#[allow(non_snake_case)]
pub fn INK(state: &ThemeState) -> (r: Colour)
    ensures
        r == palette(state.dark).ink,
{
    palette_of(state.dark).ink
}

/// The background of floating layers and of what is pointed at.
#[allow(non_snake_case)]
pub fn LAYER(state: &ThemeState) -> (r: Colour)
    ensures
        r == palette(state.dark).layer,
{
    palette_of(state.dark).layer
}

/// The background of cards.
#[allow(non_snake_case)]
pub fn CARD(state: &ThemeState) -> (r: Colour)
    ensures
        r == palette(state.dark).card,
{
    palette_of(state.dark).card
}

/// The fill of buttons.
#[allow(non_snake_case)]
pub fn DOCK(state: &ThemeState) -> (r: Colour)
    ensures
        r == palette(state.dark).dock,
{
    palette_of(state.dark).dock
}

/// The blue of the brand.
#[allow(non_snake_case)]
pub fn BRAND(state: &ThemeState) -> (r: Colour)
    ensures
        r == palette(state.dark).brand,
{
    palette_of(state.dark).brand
}

/// Danger.
#[allow(non_snake_case)]
pub fn DANGER(state: &ThemeState) -> (r: Colour)
    ensures
        r == palette(state.dark).danger,
{
    palette_of(state.dark).danger
}

/// Success.
#[allow(non_snake_case)]
pub fn SUCCESS(state: &ThemeState) -> (r: Colour)
    ensures
        r == palette(state.dark).success,
{
    palette_of(state.dark).success
}

/// Warnings.
#[allow(non_snake_case)]
pub fn WARN(state: &ThemeState) -> (r: Colour)
    ensures
        r == palette(state.dark).warn,
{
    palette_of(state.dark).warn
}

/// The background of the user's bubbles.
#[allow(non_snake_case)]
pub fn BUBBLE(state: &ThemeState) -> (r: Colour)
    ensures
        r == palette(state.dark).bubble,
{
    palette_of(state.dark).bubble
}

/// Text of the first rank.
#[allow(non_snake_case)]
pub fn LABEL(state: &ThemeState) -> (r: Colour)
    ensures
        r == palette(state.dark).label,
{
    palette_of(state.dark).label
}

/// Text of the second rank.
#[allow(non_snake_case)]
pub fn LABEL_2(state: &ThemeState) -> (r: Colour)
    ensures
        r == palette(state.dark).label_2,
{
    palette_of(state.dark).label_2
}

/// Text of the third rank.
#[allow(non_snake_case)]
pub fn LABEL_3(state: &ThemeState) -> (r: Colour)
    ensures
        r == palette(state.dark).label_3,
{
    palette_of(state.dark).label_3
}

/// Captions.
#[allow(non_snake_case)]
pub fn CAPTION(state: &ThemeState) -> (r: Colour)
    ensures
        r == palette(state.dark).caption,
{
    palette_of(state.dark).caption
}

/// Faint borders.
#[allow(non_snake_case)]
pub fn BORDER(state: &ThemeState) -> (r: Colour)
    ensures
        r == palette(state.dark).border,
{
    palette_of(state.dark).border
}

/// Hairlines.
#[allow(non_snake_case)]
pub fn BORDER_2(state: &ThemeState) -> (r: Colour)
    ensures
        r == palette(state.dark).border_2,
{
    palette_of(state.dark).border_2
}

/// The surface of code and terminals.
#[allow(non_snake_case)]
pub fn CODE(state: &ThemeState) -> (r: Colour)
    ensures
        r == palette(state.dark).code,
{
    palette_of(state.dark).code
}

/// What is running.
#[allow(non_snake_case)]
pub fn ONGOING(state: &ThemeState) -> (r: Colour)
    ensures
        r == palette(state.dark).ongoing,
{
    palette_of(state.dark).ongoing
}

/// The fill of glass.
#[allow(non_snake_case)]
pub fn GLASS_BG(state: &ThemeState) -> (r: Colour)
    ensures
        r == palette(state.dark).glass_bg,
{
    palette_of(state.dark).glass_bg
}

/// The border of glass.
#[allow(non_snake_case)]
pub fn GLASS_BORDER(state: &ThemeState) -> (r: Colour)
    ensures
        r == palette(state.dark).glass_border,
{
    palette_of(state.dark).glass_border
}

/// The light that sweeps over a card.
#[allow(non_snake_case)]
pub fn SWEEP(state: &ThemeState) -> (r: Colour)
    ensures
        r == palette(state.dark).sweep,
{
    palette_of(state.dark).sweep
}

/// Time marks that are not active.
#[allow(non_snake_case)]
pub fn TICK_IDLE(state: &ThemeState) -> (r: Colour)
    ensures
        r == palette(state.dark).tick_idle,
{
    palette_of(state.dark).tick_idle
}

/// Nothing at all, in both palettes.
#[allow(non_snake_case)]
pub fn TRANSPARENT() -> (r: Colour)
    ensures
        r == (Colour { rgb: 0, percent: 0 }),
{
    Colour { rgb: 0, percent: 0 }
}

/// Putting the same choice in force again changes nothing, so that forcing the
/// windows and observing the system cannot chase each other.
pub proof fn law_apply_is_idempotent(s: ThemeState, choice: Appearance, system_dark: bool)
    ensures
        !s.after_apply(choice, system_dark).repaints(choice, system_dark),
        s.after_apply(choice, system_dark).after_apply(choice, system_dark) == s.after_apply(
            choice,
            system_dark,
        ),
{
}

/// After a choice was put in force, it is the one that is shown, and its
/// palette is the one in force.
pub proof fn law_applied_choice_is_in_force(
    s: ThemeState,
    choice: Appearance,
    system_dark: bool,
)
    requires
        s.consistent(),
    ensures
        s.after_apply(choice, system_dark).consistent(),
        s.after_apply(choice, system_dark).choice == choice,
        s.after_apply(choice, system_dark).dark == is_dark_choice(choice, system_dark),
{
}

/// The ink is black in both palettes, while the main colours differ.
pub proof fn law_palettes_differ_but_for_ink()
    ensures
        palette(true).ink == palette(false).ink,
        palette(true).ink.rgb == 0,
        palette(true).base != palette(false).base,
        palette(true).label != palette(false).label,
        palette(true).brand != palette(false).brand,
        palette(true).code != palette(false).code,
{
}

/// Appearances have their names; an unknown name is dark.
pub proof fn law_appearances_have_names(s: Seq<char>)
    ensures
        Appearance::named(s) == Appearance::Light <==> s == "light"@,
        Appearance::named(s) == Appearance::System <==> s == "system"@,
        Appearance::named("dark"@) == Appearance::Dark,
{
    reveal_strlit("light");
    reveal_strlit("system");
    reveal_strlit("dark");
    assert("light"@.len() == 5 && "system"@.len() == 6 && "dark"@.len() == 4);
}

/// A choice that was put in force is light or dark as chosen, or as the system is;
/// the windows are told once, and only a choice that follows the system leaves them
/// free.
pub proof fn law_choices_are_carried_out(
    s: &mut ThemeState,
    t: &mut ThemeState,
    choice: Appearance,
    system_dark: bool,
    changed: bool,
    forced: Option<Forced>,
)
    requires
        call_ensures(ThemeState::apply, (s, choice, system_dark), changed),
        call_ensures(ThemeState::force, (t, choice), forced),
        s.consistent(),
    ensures
        choice == Appearance::Light ==> !final(s).dark,
        choice == Appearance::Dark ==> final(s).dark,
        choice == Appearance::System ==> final(s).dark == system_dark,
        final(s).choice == choice,
        !changed ==> *final(s) == *old(s),
        old(s).applied is None ==> changed,
        old(s).dark != final(s).dark && old(s).applied is Some ==> changed,
        choice == Appearance::Light ==> final(t).forced == Some(Forced::Light),
        choice == Appearance::Dark ==> final(t).forced == Some(Forced::Dark),
        choice == Appearance::System ==> final(t).forced == Some(Forced::Free),
        forced is None <==> final(t).forced == old(t).forced,
        forced is Some ==> forced == final(t).forced,
{
}

/// Every colour of the window is that of the palette in force.
pub proof fn law_colours_are_those_of_the_palette(s: &ThemeState, p: Palette, r: Colour)
    requires
        call_ensures(palette_of, (s.dark,), p),
    ensures
        call_ensures(BASE, (s,), r) ==> r == p.base,
        call_ensures(SIDEBAR, (s,), r) ==> r == p.sidebar,
        call_ensures(INK, (s,), r) ==> r == p.ink,
        call_ensures(LAYER, (s,), r) ==> r == p.layer,
        call_ensures(CARD, (s,), r) ==> r == p.card,
        call_ensures(DOCK, (s,), r) ==> r == p.dock,
        call_ensures(BRAND, (s,), r) ==> r == p.brand,
        call_ensures(DANGER, (s,), r) ==> r == p.danger,
        call_ensures(SUCCESS, (s,), r) ==> r == p.success,
        call_ensures(WARN, (s,), r) ==> r == p.warn,
        call_ensures(BUBBLE, (s,), r) ==> r == p.bubble,
        call_ensures(LABEL, (s,), r) ==> r == p.label,
        call_ensures(LABEL_2, (s,), r) ==> r == p.label_2,
        call_ensures(LABEL_3, (s,), r) ==> r == p.label_3,
        call_ensures(CAPTION, (s,), r) ==> r == p.caption,
        call_ensures(BORDER, (s,), r) ==> r == p.border,
        call_ensures(BORDER_2, (s,), r) ==> r == p.border_2,
        call_ensures(CODE, (s,), r) ==> r == p.code,
        call_ensures(ONGOING, (s,), r) ==> r == p.ongoing,
        call_ensures(GLASS_BG, (s,), r) ==> r == p.glass_bg,
        call_ensures(GLASS_BORDER, (s,), r) ==> r == p.glass_border,
        call_ensures(SWEEP, (s,), r) ==> r == p.sweep,
        call_ensures(TICK_IDLE, (s,), r) ==> r == p.tick_idle,
{
}

/// Components take their colours from the palette in force; text on fills is white.
pub proof fn law_components_take_the_palette(dark: bool, p: Palette, c: ComponentColours)
    requires
        call_ensures(palette_of, (dark,), p),
        call_ensures(component_colours, (dark,), c),
    ensures
        c.background == p.base,
        c.foreground == p.label,
        c.primary == p.brand && c.ring == p.brand && c.caret == p.brand,
        c.danger == p.danger && c.success == p.success,
        c.primary_foreground.rgb == 0xFFFFFF && c.danger_foreground == c.primary_foreground
            && c.success_foreground == c.primary_foreground,
        c.border == p.border && c.input == p.border,
        c.popover == p.layer && c.muted == p.layer && c.accent == p.layer,
        c.secondary == p.dock && c.scrollbar_thumb == p.dock,
        c.list == p.sidebar && c.sidebar == p.ink,
        c.title_bar == p.base && c.scrollbar == p.base,
{
}

/// A theme tells what was chosen, whether it follows the system and whether it
/// is dark.
pub proof fn law_themes_tell_their_state(
    state: &ThemeState,
    choice: Appearance,
    dark: bool,
    follows: bool,
)
    requires
        call_ensures(current_appearance, (state,), choice),
        call_ensures(is_dark, (state,), dark),
        call_ensures(ThemeState::follows_system, (state,), follows),
    ensures
        choice == state.choice,
        dark == state.dark,
        follows <==> state.choice == Appearance::System,
{
}

} // verus!
