//! The faces text is set in.
//!
//! The terminal face and the symbol fallback ship with every client, so all of them show the same
//! cell geometry and the same symbols, whatever the system has installed.
use vstd::prelude::*;

verus! {

/// The bundled monospace family.
pub const MONO_FAMILY: &'static str = "JetBrains Mono";

/// The bundled symbol family (powerline, devicons, box drawing extras).
pub const SYMBOLS_FAMILY: &'static str = "Symbols Nerd Font Mono";

/// A font as a run asks for it.
#[derive(Debug, PartialEq, Eq)]
pub struct Font {
    pub family: String,
    /// Programs' ligatures are drawn; without them `=>` stays two glyphs.
    pub ligatures: bool,
    pub bold: bool,
    pub italic: bool,
    pub fallbacks: Vec<String>,
}

/// The fallback chain: symbols first (they never collide with text glyphs), then the platform
/// monospace and colour emoji.
pub open spec fn fallback_chain() -> Seq<Seq<char>> {
    seq![SYMBOLS_FAMILY@, "Menlo"@, "Apple Color Emoji"@]
}

/// Fallback chain used by every terminal run.
pub fn terminal_fallbacks() -> (r: Vec<String>)
    ensures
        r.deep_view() == fallback_chain(),
{
    let mut out: Vec<String> = Vec::new();
    out.push(SYMBOLS_FAMILY.to_owned());
    out.push("Menlo".to_owned());
    out.push("Apple Color Emoji".to_owned());
    assert(out.deep_view() =~= fallback_chain());
    out
}

/// A terminal font for `family` with the given weight and style, carrying the fallback chain.
pub fn terminal_font(family: &str, bold: bool, italic: bool, ligatures: bool) -> (r: Font)
    ensures
        r.family@ == family@,
        r.ligatures == ligatures,
        r.bold == bold,
        r.italic == italic,
        r.fallbacks.deep_view() == fallback_chain(),
{
    Font { family: family.to_owned(), ligatures, bold, italic, fallbacks: terminal_fallbacks() }
}

} // verus!
