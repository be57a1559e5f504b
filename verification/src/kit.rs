//! The widgets' theme on the interface's own tokens, and the shapes every overlay and button
//! wears.
//!
//! Rather than keep two palettes, the surface tokens are written over the colours the borrowed
//! widgets read, so a text field, a code block or a link looks like the chrome around it in both
//! variants.
use vstd::prelude::*;

use crate::theme::{opaque, Alpha, Shade, Swatch, Variant};

verus! {

/// What a find bar says before anything is typed. The terminal and the file card share it: the
/// same bar, the same word.
pub const FIND_PLACEHOLDER: &'static str = "Find";

/// How large an overlay grows on a desktop.
///
/// A phone gets whatever the margins leave. Two sizes, because a list of commands and a file being
/// edited want different room, and a third would be a size nobody could name.
#[derive(Clone, Copy, PartialEq, Eq, Structural, Debug)]
pub enum Overlay {
    /// A list typed at: the command palette, the pickers.
    List,
    /// A document edited: the settings file.
    Editor,
}

impl Overlay {
    /// Width and height ceilings, in points.
    pub open spec fn ceilings(self) -> (u32, u32) {
        match self {
            Overlay::List => (560, 520),
            Overlay::Editor => (640, 720),
        }
    }

    /// Width and height ceilings, in points.
    pub fn bounds(self) -> (r: (u32, u32))
        ensures
            r == self.ceilings(),
    {
        match self {
            Overlay::List => (560, 520),
            Overlay::Editor => (640, 720),
        }
    }
}

/// A list is the smaller overlay in both directions, far enough to tell the two apart.
pub proof fn law_the_overlays_differ()
    ensures
        Overlay::List.ceilings().0 + 40 <= Overlay::Editor.ceilings().0,
        Overlay::List.ceilings().1 + 40 <= Overlay::Editor.ceilings().1,
{
}

/// How loud a button is. One primary per surface; the rest are secondary, or quiet where a frame
/// would crowd a bar.
#[derive(Clone, Copy, PartialEq, Eq, Structural, Debug)]
pub enum ButtonKind {
    /// The one action the surface is for: an accent fill.
    Primary,
    /// Another way on: the panel with a hairline, so it holds its edge on any surface.
    Secondary,
    /// A way out (Cancel): text only until the pointer is on it.
    Quiet,
    /// A way aside (the other way in, Open in editor): accent text with no pad, so its words start
    /// on the same edge as the text above them.
    Link,
}

/// How a button looks. Every kind wears a border (clear on a quiet one or a link) so they all stand
/// the same height side by side and the keyboard's focus hairline moves nothing.
#[derive(Clone, Copy, PartialEq, Eq, Structural, Debug)]
pub struct ButtonLook {
    pub border: Shade,
    pub fill: Option<Swatch>,
    pub text: Swatch,
    /// Room left and right of the words, and a border there too.
    pub padded: bool,
    pub hover_fill: Option<Swatch>,
    pub hover_text: Option<Swatch>,
    pub hover_underline: bool,
    pub pressed_fill: Option<Swatch>,
}

impl ButtonKind {
    /// How a button of this kind looks.
    pub open spec fn wears(self) -> ButtonLook {
        match self {
            ButtonKind::Primary => ButtonLook {
                border: opaque(Swatch::Accent),
                fill: Some(Swatch::Accent),
                text: Swatch::AccentFg,
                padded: true,
                hover_fill: None,
                hover_text: None,
                hover_underline: false,
                pressed_fill: None,
            },
            ButtonKind::Secondary => ButtonLook {
                border: opaque(Swatch::Border),
                fill: Some(Swatch::Panel),
                text: Swatch::Text,
                padded: true,
                hover_fill: Some(Swatch::Raised),
                hover_text: None,
                hover_underline: false,
                pressed_fill: Some(Swatch::Overlay),
            },
            ButtonKind::Quiet => ButtonLook {
                border: Shade { swatch: Swatch::Border, alpha: Alpha::Clear },
                fill: None,
                text: Swatch::TextSecondary,
                padded: true,
                hover_fill: Some(Swatch::Raised),
                hover_text: Some(Swatch::Text),
                hover_underline: false,
                pressed_fill: Some(Swatch::Overlay),
            },
            ButtonKind::Link => ButtonLook {
                border: Shade { swatch: Swatch::Border, alpha: Alpha::Clear },
                fill: None,
                text: Swatch::Accent,
                padded: false,
                hover_fill: None,
                hover_text: None,
                hover_underline: true,
                pressed_fill: None,
            },
        }
    }
}

/// How a text button looks, the one every dialog, panel and empty state draws.
pub fn button(kind: ButtonKind) -> (r: ButtonLook)
    ensures
        r == kind.wears(),
{
    let edge = Shade { swatch: Swatch::Border, alpha: Alpha::Opaque };
    let clear = Shade { swatch: Swatch::Border, alpha: Alpha::Clear };
    match kind {
        ButtonKind::Primary => ButtonLook {
            border: Shade { swatch: Swatch::Accent, alpha: Alpha::Opaque },
            fill: Some(Swatch::Accent),
            text: Swatch::AccentFg,
            padded: true,
            hover_fill: None,
            hover_text: None,
            hover_underline: false,
            pressed_fill: None,
        },
        ButtonKind::Secondary => ButtonLook {
            border: edge,
            fill: Some(Swatch::Panel),
            text: Swatch::Text,
            padded: true,
            hover_fill: Some(Swatch::Raised),
            hover_text: None,
            hover_underline: false,
            pressed_fill: Some(Swatch::Overlay),
        },
        ButtonKind::Quiet => ButtonLook {
            border: clear,
            fill: None,
            text: Swatch::TextSecondary,
            padded: true,
            hover_fill: Some(Swatch::Raised),
            hover_text: Some(Swatch::Text),
            hover_underline: false,
            pressed_fill: Some(Swatch::Overlay),
        },
        ButtonKind::Link => ButtonLook {
            border: clear,
            fill: None,
            text: Swatch::Accent,
            padded: false,
            hover_fill: None,
            hover_text: None,
            hover_underline: true,
            pressed_fill: None,
        },
    }
}

/// What a bar button does, and the key that does it, shown after a pause on the pointer.
///
/// The bar prints no keys of its own: the index of keys is the command palette. A hint needs a
/// pointer to hover; on a phone the palette is the only one.
#[derive(Debug, PartialEq, Eq)]
pub struct Hint {
    pub what: String,
    pub key: String,
}

impl Hint {
    /// `what` the button does, and the `key` that does it.
    pub fn new(what: String, key: String) -> (r: Hint)
        ensures
            r.what@ == what@,
            r.key@ == key@,
    {
        Hint { what, key }
    }
}

/// The colours the borrowed widgets read.
#[derive(Clone, Copy, PartialEq, Eq, Structural, Debug)]
pub struct KitColors {
    pub background: Shade,
    pub foreground: Shade,
    pub border: Shade,
    pub input: Shade,
    pub ring: Shade,
    pub caret: Shade,
    pub selection: Shade,
    pub accent: Shade,
    pub accent_foreground: Shade,
    pub muted: Shade,
    pub muted_foreground: Shade,
    pub secondary: Shade,
    pub secondary_foreground: Shade,
    pub secondary_hover: Shade,
    pub secondary_active: Shade,
    pub primary: Shade,
    pub primary_foreground: Shade,
    pub link: Shade,
    pub link_hover: Shade,
    pub link_active: Shade,
    pub popover: Shade,
    pub popover_foreground: Shade,
    pub list: Shade,
    pub list_hover: Shade,
    pub list_active: Shade,
    pub danger: Shade,
    pub success: Shade,
    pub warning: Shade,
    pub scrollbar_thumb: Shade,
}

/// The widgets' theme: its mode, its colours, and whether a focused field wears a halo besides its
/// hairline.
#[derive(Clone, Copy, PartialEq, Eq, Structural, Debug)]
pub struct KitTheme {
    pub dark: bool,
    pub colors: KitColors,
    pub focus_ring: bool,
}

/// The widgets' theme for a variant of the interface's.
pub open spec fn kit_theme(variant: Variant) -> KitTheme {
    KitTheme {
        dark: variant == Variant::Dark,
        colors: KitColors {
            background: opaque(Swatch::Panel),
            foreground: opaque(Swatch::Text),
            border: opaque(Swatch::Border),
            input: opaque(Swatch::Border),
            ring: opaque(Swatch::Accent),
            caret: opaque(Swatch::Accent),
            selection: Shade { swatch: Swatch::Accent, alpha: Alpha::Tint },
            accent: opaque(Swatch::Raised),
            accent_foreground: opaque(Swatch::Text),
            muted: opaque(Swatch::Raised),
            muted_foreground: opaque(Swatch::TextMuted),
            secondary: opaque(Swatch::Raised),
            secondary_foreground: opaque(Swatch::Text),
            secondary_hover: opaque(Swatch::Overlay),
            secondary_active: opaque(Swatch::Overlay),
            primary: opaque(Swatch::Accent),
            primary_foreground: opaque(Swatch::AccentFg),
            link: opaque(Swatch::Accent),
            link_hover: opaque(Swatch::Accent),
            link_active: opaque(Swatch::Accent),
            popover: opaque(Swatch::Panel),
            popover_foreground: opaque(Swatch::Text),
            list: opaque(Swatch::Panel),
            list_hover: opaque(Swatch::Raised),
            list_active: opaque(Swatch::Overlay),
            danger: opaque(Swatch::Error),
            success: opaque(Swatch::Success),
            warning: opaque(Swatch::Warn),
            scrollbar_thumb: Shade { swatch: Swatch::TextMuted, alpha: Alpha::Pressed },
        },
        focus_ring: false,
    }
}

/// The widgets' theme that matches the interface's: mode, then the colours its widgets read. Focus
/// is one accent hairline, so the wider halo is off.
pub fn sync(variant: Variant) -> (r: KitTheme)
    ensures
        r == kit_theme(variant),
{
    let panel = Shade { swatch: Swatch::Panel, alpha: Alpha::Opaque };
    let text = Shade { swatch: Swatch::Text, alpha: Alpha::Opaque };
    let border = Shade { swatch: Swatch::Border, alpha: Alpha::Opaque };
    let accent = Shade { swatch: Swatch::Accent, alpha: Alpha::Opaque };
    let raised = Shade { swatch: Swatch::Raised, alpha: Alpha::Opaque };
    let overlay = Shade { swatch: Swatch::Overlay, alpha: Alpha::Opaque };
    let dark = match variant {
        Variant::Dark => true,
        Variant::Light => false,
    };
    KitTheme {
        dark,
        colors: KitColors {
            background: panel,
            foreground: text,
            border,
            input: border,
            ring: accent,
            caret: accent,
            selection: Shade { swatch: Swatch::Accent, alpha: Alpha::Tint },
            accent: raised,
            accent_foreground: text,
            muted: raised,
            muted_foreground: Shade { swatch: Swatch::TextMuted, alpha: Alpha::Opaque },
            secondary: raised,
            secondary_foreground: text,
            secondary_hover: overlay,
            secondary_active: overlay,
            primary: accent,
            primary_foreground: Shade { swatch: Swatch::AccentFg, alpha: Alpha::Opaque },
            link: accent,
            link_hover: accent,
            link_active: accent,
            popover: panel,
            popover_foreground: text,
            list: panel,
            list_hover: raised,
            list_active: overlay,
            danger: Shade { swatch: Swatch::Error, alpha: Alpha::Opaque },
            success: Shade { swatch: Swatch::Success, alpha: Alpha::Opaque },
            warning: Shade { swatch: Swatch::Warn, alpha: Alpha::Opaque },
            scrollbar_thumb: Shade { swatch: Swatch::TextMuted, alpha: Alpha::Pressed },
        },
        focus_ring: false,
    }
}

} // verus!
