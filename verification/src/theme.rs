//! The theme's colours as plain values, and the names chrome picks them by.
use vstd::prelude::*;

verus! {

/// An opaque colour.
#[derive(Clone, Copy, PartialEq, Eq, Structural, Debug)]
pub struct Rgb {
    pub r: u8,
    pub g: u8,
    pub b: u8,
}

/// Whether the theme is light or dark.
#[derive(Clone, Copy, PartialEq, Eq, Structural, Debug)]
pub enum Variant {
    Dark,
    Light,
}

/// The surface tokens.
#[derive(Clone, Copy, PartialEq, Eq, Structural, Debug)]
pub struct Surfaces {
    pub canvas: Rgb,
    pub panel: Rgb,
    pub raised: Rgb,
    pub overlay: Rgb,
    pub border: Rgb,
    pub text: Rgb,
    pub text_secondary: Rgb,
    pub text_muted: Rgb,
    pub accent: Rgb,
    pub accent_fg: Rgb,
    pub success: Rgb,
    pub warn: Rgb,
    pub error: Rgb,
}

/// What chrome reads of the theme.
#[derive(Clone, Copy, PartialEq, Eq, Structural, Debug)]
pub struct Colours {
    pub variant: Variant,
    pub surfaces: Surfaces,
}

/// A colour of the interface's theme, by its name.
#[derive(Clone, Copy, PartialEq, Eq, Structural, Debug)]
pub enum Swatch {
    /// The plane behind everything.
    Canvas,
    /// A surface that holds text.
    Panel,
    /// A surface one step up.
    Raised,
    /// A surface two steps up.
    Overlay,
    /// A hairline.
    Border,
    /// Text on a surface.
    Text,
    /// Text that steps back.
    TextMuted,
    /// Text between the two.
    TextSecondary,
    /// What is chosen or active.
    Accent,
    /// Text on the accent.
    AccentFg,
    /// What went well.
    Success,
    /// What wants attention.
    Warn,
    /// What went wrong.
    Error,
    /// A colour of the terminal's palette.
    Ansi(u8),
}

/// The steps of transparency.
#[derive(Clone, Copy, PartialEq, Eq, Structural, Debug)]
pub enum Alpha {
    Opaque,
    Pressed,
    Tint,
    TintStrong,
    TintPressed,
    Scrim,
    Minimap,
    MinimapItem,
    MinimapLooker,
    LookerTag,
    /// Nothing is seen of the colour.
    Clear,
}

/// A colour and how much of it is seen.
#[derive(Clone, Copy, PartialEq, Eq, Structural, Debug)]
pub struct Shade {
    pub swatch: Swatch,
    pub alpha: Alpha,
}

impl Surfaces {
    /// The surface token with this name; a colour of the terminal's palette is none.
    pub open spec fn named(self, swatch: Swatch) -> Option<Rgb> {
        match swatch {
            Swatch::Canvas => Some(self.canvas),
            Swatch::Panel => Some(self.panel),
            Swatch::Raised => Some(self.raised),
            Swatch::Overlay => Some(self.overlay),
            Swatch::Border => Some(self.border),
            Swatch::Text => Some(self.text),
            Swatch::TextMuted => Some(self.text_muted),
            Swatch::TextSecondary => Some(self.text_secondary),
            Swatch::Accent => Some(self.accent),
            Swatch::AccentFg => Some(self.accent_fg),
            Swatch::Success => Some(self.success),
            Swatch::Warn => Some(self.warn),
            Swatch::Error => Some(self.error),
            Swatch::Ansi(_) => None,
        }
    }

    /// The surface token with this name; a colour of the terminal's palette is none.
    pub fn rgb(&self, swatch: Swatch) -> (r: Option<Rgb>)
        ensures
            r == self.named(swatch),
    {
        match swatch {
            Swatch::Canvas => Some(self.canvas),
            Swatch::Panel => Some(self.panel),
            Swatch::Raised => Some(self.raised),
            Swatch::Overlay => Some(self.overlay),
            Swatch::Border => Some(self.border),
            Swatch::Text => Some(self.text),
            Swatch::TextMuted => Some(self.text_muted),
            Swatch::TextSecondary => Some(self.text_secondary),
            Swatch::Accent => Some(self.accent),
            Swatch::AccentFg => Some(self.accent_fg),
            Swatch::Success => Some(self.success),
            Swatch::Warn => Some(self.warn),
            Swatch::Error => Some(self.error),
            Swatch::Ansi(_) => None,
        }
    }
}

/// The colour as it is.
pub open spec fn opaque(swatch: Swatch) -> Shade {
    Shade { swatch, alpha: Alpha::Opaque }
}

} // verus!
