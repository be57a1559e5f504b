//! Syntax colouring for code: a file's lines and a fenced block in an answer.
//!
//! The grammars are syntect's bundled set. Its scopes are reduced to a handful of [`Token`]s, so
//! the colours come from the interface's own theme when the code is drawn: a change of theme
//! recolours without parsing again.
use std::str::FromStr;

use syntect::easy::HighlightLines;
use syntect::highlighting::{Color, FontStyle, ScopeSelectors, StyleModifier, Theme, ThemeItem};
use syntect::parsing::SyntaxSet;
use vstd::prelude::*;

pub use crate::theme::Swatch;

use crate::text::{
    after_last, byte_len, bytes, chars_of, held, last_at, lemma_pieces, lemma_starts_end,
    lemma_starts_grow, part, past_last, piece_spans, pieces, spans_pieces, start_of, string_of,
    trim, trimmed,
};

pub mod editor;

verus! {

/// Lines longer than this are left plain: a minified bundle or a data line would cost
/// seconds and read as noise anyway.
pub const LINE_MAX: usize = 4_000;

/// The kinds of text a theme colours apart.
#[derive(Clone, Copy, PartialEq, Eq, Structural, Debug)]
pub enum Token {
    /// Everything the grammar did not single out.
    Plain,
    /// A comment.
    Comment,
    /// A string or character literal.
    String,
    /// A number, or a language constant (`true`, `None`, `nil`).
    Constant,
    /// A keyword, or a storage word (`fn`, `let`, `pub`, `struct`).
    Keyword,
    /// A type, class, struct or enum name, or a markup tag.
    Type,
    /// A function or method name, or a markup attribute.
    Function,
    /// Punctuation and operators.
    Punctuation,
    /// What the grammar could not parse.
    Invalid,
}

impl Token {
    /// The token that the stand-in colour with this red encodes.
    pub open spec fn of_red(red: u8) -> Token {
        match red {
            1u8 => Token::Comment,
            2u8 => Token::String,
            3u8 => Token::Constant,
            4u8 => Token::Keyword,
            5u8 => Token::Type,
            6u8 => Token::Function,
            7u8 => Token::Punctuation,
            8u8 => Token::Invalid,
            _ => Token::Plain,
        }
    }

    /// The red of the stand-in colour that encodes the token.
    pub open spec fn red(self) -> u8 {
        match self {
            Token::Plain => 0,
            Token::Comment => 1,
            Token::String => 2,
            Token::Constant => 3,
            Token::Keyword => 4,
            Token::Type => 5,
            Token::Function => 6,
            Token::Punctuation => 7,
            Token::Invalid => 8,
        }
    }

    /// The token's colour: the terminal's palette for the code colours (so code reads as it does
    /// in the shell) and the greys for the rest.
    pub open spec fn swatch(self) -> Swatch {
        match self {
            Token::Plain => Swatch::Text,
            Token::Comment => Swatch::TextMuted,
            Token::String => Swatch::Ansi(2),
            Token::Constant => Swatch::Ansi(3),
            Token::Keyword => Swatch::Ansi(5),
            Token::Type => Swatch::Ansi(6),
            Token::Function => Swatch::Ansi(4),
            Token::Punctuation => Swatch::TextSecondary,
            Token::Invalid => Swatch::Error,
        }
    }

    /// The token that a stand-in colour encodes: each token is painted as a distinct colour by
    /// its red, and this reads it back.
    fn from_color(red: u8) -> (r: Token)
        ensures
            r == Token::of_red(red),
    {
        match red {
            1 => Token::Comment,
            2 => Token::String,
            3 => Token::Constant,
            4 => Token::Keyword,
            5 => Token::Type,
            6 => Token::Function,
            7 => Token::Punctuation,
            8 => Token::Invalid,
            _ => Token::Plain,
        }
    }

    /// The red of the colour that stands in for the token.
    fn as_color(self) -> (r: u8)
        ensures
            r == self.red(),
    {
        match self {
            Token::Plain => 0,
            Token::Comment => 1,
            Token::String => 2,
            Token::Constant => 3,
            Token::Keyword => 4,
            Token::Type => 5,
            Token::Function => 6,
            Token::Punctuation => 7,
            Token::Invalid => 8,
        }
    }

    /// The token's colour in the theme.
    pub fn color(self) -> (r: Swatch)
        ensures
            r == self.swatch(),
    {
        match self {
            Token::Plain => Swatch::Text,
            Token::Comment => Swatch::TextMuted,
            Token::String => Swatch::Ansi(2),
            Token::Constant => Swatch::Ansi(3),
            Token::Keyword => Swatch::Ansi(5),
            Token::Type => Swatch::Ansi(6),
            Token::Function => Swatch::Ansi(4),
            Token::Punctuation => Swatch::TextSecondary,
            Token::Invalid => Swatch::Error,
        }
    }
}

/// Every token is read back from the colour that stands in for it.
pub proof fn law_tokens_are_read_back(token: Token)
    ensures
        Token::of_red(token.red()) == token,
{
}

/// No two tokens share a colour of the theme.
pub proof fn law_tokens_are_coloured_apart(a: Token, b: Token)
    ensures
        a.swatch() == b.swatch() ==> a == b,
{
}

/// One run of a line, `len` bytes of one [`Token`].
#[derive(Clone, Copy, PartialEq, Eq, Structural, Debug)]
pub struct Span {
    /// Bytes of the line.
    pub len: usize,
    /// What they are.
    pub token: Token,
    /// The grammar's theme asked for italics (comments).
    pub italic: bool,
    /// The grammar's theme asked for bold (headings).
    pub bold: bool,
}

/// syntect's set of grammars.
#[verifier::external_type_specification]
#[verifier::external_body]
pub struct ExSyntaxSet(syntect::parsing::SyntaxSet);

/// syntect's theme: the paints that its scopes get.
#[verifier::external_type_specification]
#[verifier::external_body]
pub struct ExTheme(syntect::highlighting::Theme);

/// syntect's reader of a text, line by line.
#[verifier::external_type_specification]
#[verifier::external_body]
pub struct ExHighlightLines<'a>(syntect::easy::HighlightLines<'a>);

/// A grammar: what it is called, the file extensions it is for, the pattern its files start with,
/// and all it says about how to read one.
pub struct Grammar {
    pub name: Seq<char>,
    pub extensions: Seq<Seq<char>>,
    pub first_line: Option<Seq<char>>,
    pub definition: Seq<char>,
    /// Its main context is there, and its patterns are ones that can be matched.
    pub sound: bool,
}

/// A paint: the scopes it is for, the red of its colour, and its faces (bit 0 bold, bit 2
/// italic).
pub struct Paint {
    pub selector: Seq<char>,
    pub red: u8,
    pub faces: u8,
}

/// What a reader was told: the grammars and the paints it reads with, the grammar it reads under,
/// and then each line.
pub enum Told {
    Grammars(Seq<Grammar>),
    Paints(Seq<Paint>),
    Under(Seq<char>),
    Line(Seq<char>),
}

/// A piece of a line as syntect colours it: its bytes, the red of its colour, and its faces
/// (bit 0 bold, bit 2 italic).
#[derive(Clone, Copy, Debug)]
pub struct Coloured {
    pub len: usize,
    pub red: u8,
    pub faces: u8,
}

/// The grammars that a set holds, in its order.
pub uninterp spec fn grammars(set: syntect::parsing::SyntaxSet) -> Seq<Grammar>;

/// The paints that a theme holds, in its order; the first is for text that no other is for.
pub uninterp spec fn paints(theme: syntect::highlighting::Theme) -> Seq<Paint>;

/// What a reader was told, in the order it was.
pub uninterp spec fn told(reader: syntect::easy::HighlightLines<'_>) -> Seq<Told>;

/// The name of the grammar whose first-line pattern is found in `line`, the last such of `all`.
pub uninterp spec fn by_first_line(all: Seq<Grammar>, line: Seq<char>) -> Option<Seq<char>>;

/// How a reader that was told `before` colours `line`; `None` where it cannot parse it.
pub uninterp spec fn coloured_as(before: Seq<Told>, line: Seq<char>) -> Option<Seq<Coloured>>;

/// Every grammar can be read with.
pub open spec fn sound(all: Seq<Grammar>) -> bool {
    forall|i: int| 0 <= i < all.len() ==> (#[trigger] all[i]).sound
}

/// Some grammar of `all` is called `name`.
pub open spec fn has_name(all: Seq<Grammar>, name: Seq<char>) -> bool {
    exists|i: int| 0 <= i < all.len() && (#[trigger] all[i]).name == name
}

/// A character of the ASCII range with its letters small.
pub open spec fn small(c: char) -> char {
    if 'A' <= c && c <= 'Z' {
        (c as u8 + 32) as u8 as char
    } else {
        c
    }
}

/// The texts are the same but for the case of ASCII letters.
pub open spec fn same_but_case(a: Seq<char>, b: Seq<char>) -> bool {
    a.len() == b.len() && forall|i: int| 0 <= i < a.len() ==> small(#[trigger] a[i]) == small(b[i])
}

/// The grammar is for files with this extension.
pub open spec fn is_for(g: Grammar, ext: Seq<char>) -> bool {
    exists|i: int|
        0 <= i < g.extensions.len() && same_but_case(#[trigger] g.extensions[i], ext)
}

/// The name of the last grammar of `all` that is for files with this extension.
pub open spec fn by_extension(all: Seq<Grammar>, ext: Seq<char>) -> Option<Seq<char>>
    decreases all.len(),
{
    if all.len() == 0 {
        None
    } else if is_for(all.last(), ext) {
        Some(all.last().name)
    } else {
        by_extension(all.drop_last(), ext)
    }
}

/// The name of the last grammar of `all` that is called `name` but for case.
pub open spec fn by_name(all: Seq<Grammar>, name: Seq<char>) -> Option<Seq<char>>
    decreases all.len(),
{
    if all.len() == 0 {
        None
    } else if same_but_case(all.last().name, name) {
        Some(all.last().name)
    } else {
        by_name(all.drop_last(), name)
    }
}

/// The name of the grammar a short word means: one for files with that extension, else one of
/// that name.
pub open spec fn by_word(all: Seq<Grammar>, word: Seq<char>) -> Option<Seq<char>> {
    match by_extension(all, word) {
        Some(name) => Some(name),
        None => by_name(all, word),
    }
}

/// `SyntaxSet::load_defaults_newlines`: syntect's bundled grammars, each of which has its main
/// context and patterns that can be matched. Which grammars are bundled is left unsaid. They come
/// as a dump whose rest is read when a grammar is first used, and reading it names scopes, of which
/// a process can name some sixty thousand: what one that used them all up elsewhere finds is left
/// unsaid too.
#[verifier::external_body]
fn bundled() -> (r: SyntaxSet)
    ensures
        sound(grammars(r)),
{
    SyntaxSet::load_defaults_newlines()
}

/// `SyntaxSet::find_syntax_by_extension`: the last grammar that has the extension, whatever the
/// case of its letters.
#[verifier::external_body]
fn find_by_extension(set: &SyntaxSet, ext: &str) -> (r: Option<String>)
    ensures
        held(r) == by_extension(grammars(*set), ext@),
{
    set.find_syntax_by_extension(ext).map(|found| found.name.clone())
}

/// `SyntaxSet::find_syntax_by_token`: the last grammar that has the word as an extension, else
/// the last that is called so, whatever the case of the letters.
#[verifier::external_body]
fn find_by_token(set: &SyntaxSet, word: &str) -> (r: Option<String>)
    ensures
        held(r) == by_word(grammars(*set), word@),
{
    set.find_syntax_by_token(word).map(|found| found.name.clone())
}

/// `SyntaxSet::find_syntax_by_first_line`: a grammar of the set, by the pattern its files start
/// with; patterns that cannot be matched make it panic.
#[verifier::external_body]
fn find_by_first_line(set: &SyntaxSet, line: &str) -> (r: Option<String>)
    requires
        sound(grammars(*set)),
    ensures
        held(r) == by_first_line(grammars(*set), line@),
        r matches Some(name) ==> has_name(grammars(*set), name@),
{
    set.find_syntax_by_first_line(line).map(|found| found.name.clone())
}

/// `Theme::default` with a colour for all text: a theme of that one paint.
#[verifier::external_body]
fn bare_theme(red: u8) -> (r: Theme)
    ensures
        paints(r) == seq![Paint { selector: Seq::empty(), red, faces: 0 }],
{
    let mut theme = Theme::default();
    theme.settings.foreground = Some(Color { r: red, g: 0, b: 0, a: 255 });
    theme
}

/// `ScopeSelectors::from_str` may read `selector`, or may not, as `read` says. Both may hold of
/// one selector: the names of scopes are kept for the whole process, and no new one is read once
/// too many are.
pub uninterp spec fn may_answer(selector: Seq<char>, read: bool) -> bool;

/// `ScopeSelectors::from_str`, and a `ThemeItem` of what it reads at the end of the theme's
/// list; nothing where it reads no selectors. Says whether it read them, which is an answer that
/// it may give to these selectors; which of those answers is left open.
#[verifier::external_body]
fn add_paint(theme: &mut Theme, selector: &str, red: u8, faces: u8) -> (r: bool)
    requires
        faces == 0 || faces == 1 || faces == 4,
    ensures
        may_answer(selector@, r),
        paints(*final(theme)) == if r {
            paints(*old(theme)).push(Paint { selector: selector@, red, faces })
        } else {
            paints(*old(theme))
        },
{
    match ScopeSelectors::from_str(selector) {
        Ok(scope) => {
            let foreground = Some(Color { r: red, g: 0, b: 0, a: 255 });
            let font_style = Some(FontStyle::from_bits_truncate(faces));
            let style = StyleModifier { foreground, background: None, font_style };
            theme.scopes.push(ThemeItem { scope, style });
            true
        },
        Err(_) => false,
    }
}

/// `SyntaxSet::find_syntax_by_name` and `HighlightLines::new`: a reader under the set's grammar
/// of that name that was told no line yet; `None` where no grammar has the name.
#[verifier::external_body]
fn reader<'a>(set: &SyntaxSet, name: &str, theme: &'a Theme) -> (r: Option<HighlightLines<'a>>)
    requires
        sound(grammars(*set)),
    ensures
        r is Some == has_name(grammars(*set), name@),
        r matches Some(h) ==> told(h) == seq![
            Told::Grammars(grammars(*set)),
            Told::Paints(paints(*theme)),
            Told::Under(name@),
        ],
{
    set.find_syntax_by_name(name).map(|found| HighlightLines::new(found, theme))
}

/// All the bytes of `pieces`.
pub open spec fn total(pieces: Seq<Coloured>) -> nat
    decreases pieces.len(),
{
    if pieces.len() == 0 {
        0
    } else {
        total(pieces.drop_last()) + pieces.last().len as nat
    }
}

/// `HighlightLines::highlight_line`: the pieces of the line with their styles, by all the reader
/// was told before, or an error where the line cannot be parsed. The pieces follow one another
/// from the start of the line, none of them empty. That they reach its end is not claimed: the
/// iterator behind the call stops early on a change of scope that cannot be applied.
#[verifier::external_body]
fn read_line(h: &mut HighlightLines<'_>, line: &str, set: &SyntaxSet) -> (r: Option<Vec<Coloured>>)
    requires
        told(*old(h)).len() > 0,
        told(*old(h))[0] == Told::Grammars(grammars(*set)),
        sound(grammars(*set)),
    ensures
        told(*final(h)) == told(*old(h)).push(Told::Line(line@)),
        match r {
            Some(all) => coloured_as(told(*old(h)), line@) == Some(all@) && total(all@) <= bytes(
                line@,
            ) && forall|i: int| 0 <= i < all@.len() ==> (#[trigger] all@[i]).len > 0,
            None => coloured_as(told(*old(h)), line@) is None,
        },
{
    match h.highlight_line(line, set) {
        Ok(all) => Some(
            all.into_iter().map(
                |(style, piece)|
                    Coloured {
                        len: piece.len(),
                        red: style.foreground.r,
                        faces: style.font_style.bits(),
                    },
            ).collect(),
        ),
        Err(_) => None,
    }
}

/// A paint for the scopes of `selector`: the stand-in colour of `token`.
pub open spec fn rule(selector: Seq<char>, token: Token, faces: u8) -> Paint {
    Paint { selector, red: token.red(), faces }
}

/// The families of scopes that tokens come from. The selectors follow the conventions that the
/// bundled grammars share.
pub open spec fn rules() -> Seq<Paint> {
    seq![
        rule("comment, punctuation.definition.comment"@, Token::Comment, 4),
        rule("string, punctuation.definition.string"@, Token::String, 0),
        rule("constant.numeric, constant.language, constant.character, constant.other"@, Token::Constant, 0),
        rule("keyword, storage.type, storage.modifier, keyword.operator.new"@, Token::Keyword, 0),
        rule("entity.name.type, entity.name.class, entity.name.struct, entity.name.enum, entity.name.trait, entity.name.union, entity.name.tag, support.type, support.class, entity.other.inherited-class"@, Token::Type, 0),
        rule("entity.name.function, support.function, variable.function, entity.other.attribute-name, meta.function-call.generic"@, Token::Function, 0),
        rule("punctuation, keyword.operator, keyword.other.unit"@, Token::Punctuation, 0),
        rule("markup.heading"@, Token::Keyword, 1),
        rule("invalid"@, Token::Invalid, 0),
    ]
}

/// The paints of `all` that `took` says were taken.
pub open spec fn taken(all: Seq<Paint>, took: Seq<bool>) -> Seq<Paint>
    decreases took.len(),
{
    if took.len() == 0 {
        Seq::empty()
    } else if took.last() {
        taken(all, took.drop_last()).push(all[took.len() - 1])
    } else {
        taken(all, took.drop_last())
    }
}

/// The paints of a stand-in theme: plain text, then, in their order, the rules that were taken.
pub open spec fn scope_paints(took: Seq<bool>) -> Seq<Paint> {
    seq![rule(Seq::empty(), Token::Plain, 0)] + taken(rules(), took)
}

/// `took` says of each rule whether syntect read its selectors.
pub open spec fn each_asked(took: Seq<bool>) -> bool {
    &&& took.len() == rules().len()
    &&& forall|i: int|
        0 <= i < took.len() ==> may_answer((#[trigger] rules()[i]).selector, took[i])
}

/// The paints are those of a stand-in theme: each rule was asked for, and is there where syntect
/// reads its selectors.
pub open spec fn is_scope_theme(paints: Seq<Paint>) -> bool {
    exists|took: Seq<bool>| each_asked(took) && paints == #[trigger] scope_paints(took)
}

/// The rule at the place `i`.
fn rule_at(i: usize) -> (r: (&'static str, Token, u8))
    requires
        i < 9,
    ensures
        rules()[i as int] == rule(r.0@, r.1, r.2),
        r.2 == 0 || r.2 == 1 || r.2 == 4,
{
    match i {
        0 => ("comment, punctuation.definition.comment", Token::Comment, 4),
        1 => ("string, punctuation.definition.string", Token::String, 0),
        2 => ("constant.numeric, constant.language, constant.character, constant.other", Token::Constant, 0),
        3 => ("keyword, storage.type, storage.modifier, keyword.operator.new", Token::Keyword, 0),
        4 => ("entity.name.type, entity.name.class, entity.name.struct, entity.name.enum, entity.name.trait, entity.name.union, entity.name.tag, support.type, support.class, entity.other.inherited-class", Token::Type, 0),
        5 => ("entity.name.function, support.function, variable.function, entity.other.attribute-name, meta.function-call.generic", Token::Function, 0),
        6 => ("punctuation, keyword.operator, keyword.other.unit", Token::Punctuation, 0),
        7 => ("markup.heading", Token::Keyword, 1),
        _ => ("invalid", Token::Invalid, 0),
    }
}

/// The stand-in theme: each scope family paints as a colour whose red is the [`Token`], read
/// back by [`Token::from_color`]. With it comes which of the families syntect read.
fn scope_theme() -> (r: (Theme, Vec<bool>))
    ensures
        each_asked(r.1@),
        paints(r.0) == scope_paints(r.1@),
{
    let mut theme = bare_theme(Token::Plain.as_color());
    let mut took: Vec<bool> = Vec::new();
    let mut i: usize = 0;
    assert(paints(theme) == scope_paints(took@));
    while i < 9
        invariant
            i <= 9,
            took@.len() == i,
            forall|k: int|
                0 <= k < i ==> may_answer((#[trigger] rules()[k]).selector, took@[k]),
            paints(theme) == scope_paints(took@),
        decreases 9 - i,
    {
        let (selector, token, faces) = rule_at(i);
        let read = add_paint(&mut theme, selector, token.as_color(), faces);
        let ghost was = took@;
        took.push(read);
        assert(took@.drop_last() == was);
        assert(paints(theme) == scope_paints(took@));
        i += 1;
    }
    assert(rules().len() == 9);
    (theme, took)
}

/// Grammars and the paints they are read with.
pub struct Bundle {
    /// In the set's order.
    pub grammars: Seq<Grammar>,
    /// In the theme's order.
    pub paints: Seq<Paint>,
}

/// The bundled grammars with the paints they are read with. Loading takes a few tens of
/// milliseconds, so one is loaded and shared.
pub struct Grammars {
    set: SyntaxSet,
    theme: Theme,
    /// Which of the rules syntect read.
    took: Vec<bool>,
}

impl View for Grammars {
    type V = Bundle;

    closed spec fn view(&self) -> Bundle {
        Bundle { grammars: grammars(self.set), paints: paints(self.theme) }
    }
}

impl Grammars {
    #[verifier::type_invariant]
    spec fn wf(self) -> bool {
        &&& sound(grammars(self.set))
        &&& each_asked(self.took@)
        &&& paints(self.theme) == scope_paints(self.took@)
    }

    /// The bundled grammars.
    pub fn load() -> (r: Grammars)
        ensures
            sound(r@.grammars),
            is_scope_theme(r@.paints),
    {
        let (theme, took) = scope_theme();
        Grammars { set: bundled(), theme, took }
    }

    /// Of each rule of the stand-in theme, whether syntect read its selectors: the theme holds
    /// those that it read.
    pub fn took(&self) -> (r: &Vec<bool>)
        ensures
            each_asked(r@),
            self@.paints == scope_paints(r@),
    {
        proof {
            use_type_invariant(&*self);
        }
        &self.took
    }
}

/// Which grammar to parse with, by its name among the grammars it is one of.
pub struct Syntax<'a> {
    all: &'a Grammars,
    name: String,
}

/// The name that the bundle's plain text goes by.
pub open spec fn plain_text() -> Seq<char> {
    "Plain Text"@
}

/// The grammar `found`, unless it is the bundle's plain text, which colours nothing and would
/// only add a name to a summary.
pub open spec fn unless_plain(found: Option<Seq<char>>) -> Option<Seq<char>> {
    match found {
        Some(name) => if name == plain_text() {
            None
        } else {
            Some(name)
        },
        None => None,
    }
}

/// The grammar for a file: by its extension or name, else by its first line.
pub open spec fn for_file(all: Bundle, path: Seq<char>, first_line: Seq<char>) -> Option<
    Seq<char>,
> {
    let name = after_last(path, '/');
    let ext = if last_at(name, '.') >= 0 {
        by_extension(all.grammars, after_last(name, '.'))
    } else {
        None
    };
    unless_plain(
        match ext {
            Some(found) => Some(found),
            None => match by_extension(all.grammars, name) {
                Some(found) => Some(found),
                None => by_first_line(all.grammars, first_line),
            },
        },
    )
}

/// The grammar a fence names; none for an unknown or empty tag.
pub open spec fn for_tag(all: Bundle, lang: Seq<char>) -> Option<Seq<char>> {
    if trim(lang).len() == 0 {
        None
    } else {
        unless_plain(by_word(all.grammars, trim(lang)))
    }
}

/// The name of the grammar that `s` means.
pub open spec fn meant(s: Option<Syntax<'_>>) -> Option<Seq<char>> {
    match s {
        Some(s) => Some(s@),
        None => None,
    }
}

impl<'a> View for Syntax<'a> {
    type V = Seq<char>;

    /// The grammar's name.
    closed spec fn view(&self) -> Seq<char> {
        self.name@
    }
}

impl<'a> Syntax<'a> {
    #[verifier::type_invariant]
    spec fn wf(self) -> bool {
        has_name(self.all@.grammars, self.name@)
    }

    /// The grammars it is one of, and the paints they are read with.
    pub closed spec fn among(self) -> Bundle {
        self.all@
    }

    /// The grammar for a file at `path`, by its extension or name (`Makefile`), else by its
    /// first line (`#!/bin/sh`); none for a file the bundle knows nothing about.
    pub fn for_path(all: &'a Grammars, path: &str, first_line: &str) -> (r: Option<Syntax<'a>>)
        ensures
            meant(r) == for_file(all@, path@, first_line@),
            r matches Some(s) ==> s.among() == all@,
    {
        proof {
            use_type_invariant(all);
        }
        let chars = chars_of(path);
        let name = part(chars.as_slice(), past_last(chars.as_slice(), '/'), chars.len());
        let dot: usize = past_last(name, '.');
        let name_text = string_of(name);
        let by_ext: Option<String> = if dot > 0 {
            let ext = string_of(part(name, dot, name.len()));
            find_by_extension(&all.set, ext.as_str())
        } else {
            None
        };
        let found: Option<String> = match by_ext {
            Some(found) => Some(found),
            None => match find_by_extension(&all.set, name_text.as_str()) {
                Some(found) => Some(found),
                None => find_by_first_line(&all.set, first_line),
            },
        };
        proof {
            let n = name@;
            assert(n == after_last(path@, '/'));
            if dot > 0 {
                lemma_by_extension(all@.grammars, after_last(n, '.'));
            }
            lemma_by_extension(all@.grammars, n);
        }
        Self::coloured(all, found)
    }

    /// The grammar called `found` unless it is the bundle's plain text.
    fn coloured(all: &'a Grammars, found: Option<String>) -> (r: Option<Syntax<'a>>)
        requires
            found matches Some(name) ==> has_name(all@.grammars, name@),
        ensures
            meant(r) == unless_plain(held(found)),
            r matches Some(s) ==> s.among() == all@,
    {
        match found {
            Some(name) => {
                if name == "Plain Text".to_owned() {
                    None
                } else {
                    Some(Syntax { all, name })
                }
            },
            None => None,
        }
    }

    /// The grammar a fence names (`rust`, `sh`, `json`); none for an unknown or empty tag.
    pub fn for_token(all: &'a Grammars, lang: &str) -> (r: Option<Syntax<'a>>)
        ensures
            meant(r) == for_tag(all@, lang@),
            r matches Some(s) ==> s.among() == all@,
    {
        let chars = chars_of(lang);
        let word = trimmed(chars.as_slice());
        if word.len() == 0 {
            return None;
        }
        let text = string_of(word);
        let found = find_by_token(&all.set, text.as_str());
        proof {
            lemma_by_extension(all@.grammars, word@);
            lemma_by_name(all@.grammars, word@);
        }
        Self::coloured(all, found)
    }

    /// The grammar's name ("Rust").
    pub fn name(&self) -> (r: &str)
        ensures
            r@ == self@,
    {
        self.name.as_str()
    }
}

impl<'a> Clone for Syntax<'a> {
    fn clone(&self) -> (r: Syntax<'a>)
        ensures
            r@ == self@,
            r.among() == self.among(),
    {
        proof {
            use_type_invariant(self);
        }
        Syntax { all: self.all, name: self.name.clone() }
    }
}

/// What is found by an extension is one of the grammars.
proof fn lemma_by_extension(all: Seq<Grammar>, ext: Seq<char>)
    ensures
        by_extension(all, ext) matches Some(name) ==> has_name(all, name),
    decreases all.len(),
{
    if all.len() > 0 {
        if is_for(all.last(), ext) {
            assert(all[all.len() - 1].name == all.last().name);
        } else {
            lemma_by_extension(all.drop_last(), ext);
            lemma_has_name(all, by_extension(all, ext));
        }
    }
}

/// What is found by a name is one of the grammars.
proof fn lemma_by_name(all: Seq<Grammar>, name: Seq<char>)
    ensures
        by_name(all, name) matches Some(found) ==> has_name(all, found),
    decreases all.len(),
{
    if all.len() > 0 {
        if same_but_case(all.last().name, name) {
            assert(all[all.len() - 1].name == all.last().name);
        } else {
            lemma_by_name(all.drop_last(), name);
            lemma_has_name(all, by_name(all, name));
        }
    }
}

proof fn lemma_has_name(all: Seq<Grammar>, name: Option<Seq<char>>)
    requires
        all.len() > 0,
        name matches Some(n) ==> has_name(all.drop_last(), n),
    ensures
        name matches Some(n) ==> has_name(all, n),
{
    if let Some(n) = name {
        let i = choose|i: int|
            0 <= i < all.drop_last().len() && (#[trigger] all.drop_last()[i]).name == n;
        assert(all[i].name == n);
    }
}

/// `len` bytes of plain text.
pub open spec fn plain_span(len: nat) -> Span {
    Span { len: len as usize, token: Token::Plain, italic: false, bold: false }
}

/// The faces ask for italics.
pub open spec fn is_italic(faces: u8) -> bool {
    faces & 4 != 0
}

/// The faces ask for bold.
pub open spec fn is_bold(faces: u8) -> bool {
    faces & 1 != 0
}

/// The first `len` bytes of a piece, as a run of its token.
pub open spec fn span_of(piece: Coloured, len: nat) -> Span {
    Span {
        len: len as usize,
        token: Token::of_red(piece.red),
        italic: is_italic(piece.faces),
        bold: is_bold(piece.faces),
    }
}

/// Two runs look the same.
pub open spec fn alike(a: Span, b: Span) -> bool {
    a.token == b.token && a.italic == b.italic && a.bold == b.bold
}

/// How many of the first `n` bytes `pieces` take up.
pub open spec fn seen(pieces: Seq<Coloured>, n: nat) -> nat {
    if total(pieces) < n {
        total(pieces)
    } else {
        n
    }
}

/// The first `n` bytes of `pieces` as runs, neighbours that look the same put together.
pub open spec fn merged(pieces: Seq<Coloured>, n: nat) -> Seq<Span>
    decreases pieces.len(),
{
    if pieces.len() == 0 {
        Seq::empty()
    } else {
        let before = merged(pieces.drop_last(), n);
        let len = (seen(pieces, n) - seen(pieces.drop_last(), n)) as nat;
        let span = span_of(pieces.last(), len);
        if len == 0 {
            before
        } else if before.len() > 0 && alike(before.last(), span) {
            before.drop_last().push(
                Span { len: (before.last().len + len) as usize, ..before.last() },
            )
        } else {
            before.push(span)
        }
    }
}

/// The line `i` of `all` as the parser is given it: with its line feed, where it has one.
pub open spec fn fed(all: Seq<Seq<char>>, i: int) -> Seq<char> {
    if i < all.len() - 1 {
        all[i].push('\n')
    } else {
        all[i]
    }
}

/// The line `i` goes to the parser: it is not too long, and not the empty end of the text.
pub open spec fn is_fed(all: Seq<Seq<char>>, i: int) -> bool {
    bytes(all[i]) <= LINE_MAX && !(i == all.len() - 1 && all[i].len() == 0)
}

/// What the parser was told before the line `i`.
pub open spec fn told_before(start: Seq<Told>, all: Seq<Seq<char>>, i: int) -> Seq<Told>
    decreases i,
{
    if i <= 0 {
        start
    } else if is_fed(all, i - 1) {
        told_before(start, all, i - 1).push(Told::Line(fed(all, i - 1)))
    } else {
        told_before(start, all, i - 1)
    }
}

/// The runs of the line `i`: none for the empty end of the text; one plain run for a line that is
/// too long or cannot be parsed; what the parser made of it else.
pub open spec fn spans_of_line(start: Seq<Told>, all: Seq<Seq<char>>, i: int) -> Seq<Span> {
    if i == all.len() - 1 && all[i].len() == 0 {
        Seq::empty()
    } else if bytes(all[i]) > LINE_MAX {
        seq![plain_span(bytes(all[i]))]
    } else {
        match coloured_as(told_before(start, all, i), fed(all, i)) {
            Some(pieces) => merged(pieces, bytes(all[i])),
            None => seq![plain_span(bytes(all[i]))],
        }
    }
}

/// What a parser under the grammar `name` is told before the first line.
pub open spec fn told_first(all: Bundle, name: Seq<char>) -> Seq<Told> {
    seq![Told::Grammars(all.grammars), Told::Paints(all.paints), Told::Under(name)]
}

/// The runs of each line of `text`.
pub open spec fn spans_of(text: Seq<char>, all: Bundle, name: Seq<char>) -> Seq<Seq<Span>> {
    let lines = pieces(text, '\n');
    Seq::new(lines.len(), |i: int| spans_of_line(told_first(all, name), lines, i))
}

/// The runs that each vector of `all` holds.
pub open spec fn runs_held(all: Seq<Vec<Span>>) -> Seq<Seq<Span>> {
    all.map_values(|v: Vec<Span>| v@)
}

/// `pieces` from the start of a line of `n` bytes as runs, neighbours that look the same put
/// together; what reaches past the line's own bytes (its line feed) is left out.
pub fn merge(pieces: &Vec<Coloured>, n: usize) -> (r: Vec<Span>)
    ensures
        r@ == merged(pieces@, n as nat),
{
    let mut out: Vec<Span> = Vec::new();
    let mut at: usize = 0;
    let mut i: usize = 0;
    while i < pieces.len()
        invariant
            i <= pieces.len(),
            at == seen(pieces@.take(i as int), n as nat),
            at <= n,
            out@ == merged(pieces@.take(i as int), n as nat),
            covered(out@) == at,
        decreases pieces.len() - i,
    {
        let piece = pieces[i];
        let left: usize = n - at;
        let len: usize = if piece.len < left {
            piece.len
        } else {
            left
        };
        let ghost some = pieces@.take(i + 1);
        let ghost was = out@;
        proof {
            assert(some.drop_last() == pieces@.take(i as int));
            assert(some.last() == piece);
        }
        if len > 0 {
            at += len;
            let span = Span {
                len,
                token: Token::from_color(piece.red),
                italic: piece.faces & 4 != 0,
                bold: piece.faces & 1 != 0,
            };
            let last: usize = out.len();
            if last > 0 && out[last - 1].token == span.token && out[last - 1].italic == span.italic
                && out[last - 1].bold == span.bold {
                let before = out[last - 1];
                proof {
                    lemma_covered_last(was);
                }
                out.set(
                    last - 1,
                    Span {
                        len: before.len + len,
                        token: before.token,
                        italic: before.italic,
                        bold: before.bold,
                    },
                );
                proof {
                    assert(out@ == was.drop_last().push(out@.last()));
                    assert(out@.drop_last() == was.drop_last());
                    assert(out@ == merged(some, n as nat));
                }
            } else {
                out.push(span);
                assert(out@.drop_last() == was);
            }
        }
        i += 1;
    }
    assert(pieces@.take(i as int) == pieces@);
    out
}

/// All the bytes of `spans`.
pub open spec fn covered(spans: Seq<Span>) -> nat
    decreases spans.len(),
{
    if spans.len() == 0 {
        0
    } else {
        covered(spans.drop_last()) + spans.last().len as nat
    }
}

proof fn lemma_covered_last(spans: Seq<Span>)
    requires
        spans.len() > 0,
    ensures
        spans.last().len <= covered(spans),
{
}

/// The spans of every line of `text` under `syntax`, one `Vec` per line, in the order of
/// `text.split('\n')` (so a trailing newline yields a last, empty line).
///
/// Each line goes to the parser with its newline, as the grammars expect. A line past
/// [`LINE_MAX`] bytes is one plain span. Parsing state carries from line to line (a block comment
/// stays a comment), so the text must be whole.
pub fn spans(text: &str, syntax: &Syntax<'_>) -> (r: Vec<Vec<Span>>)
    ensures
        runs_held(r@) == spans_of(text@, syntax.among(), syntax@),
{
    proof {
        use_type_invariant(syntax);
        use_type_invariant(syntax.all);
        lemma_pieces(text@, '\n');
    }
    let chars = chars_of(text);
    let places = piece_spans(chars.as_slice(), '\n');
    let ghost all = pieces(text@, '\n');
    let ghost start = told_first(syntax.among(), syntax@);
    let mut out: Vec<Vec<Span>> = Vec::new();
    let set: &SyntaxSet = &syntax.all.set;
    match reader(set, syntax.name.as_str(), &syntax.all.theme) {
        None => {
            assert(false);
        },
        Some(h) => {
            let mut h = h;
            let mut i: usize = 0;
            let n: usize = places.len();
            assert(told(h) == start);
            while i < n
                invariant
                    i <= n == places.len(),
                    chars@ == text@,
                    spans_pieces(places@, chars@, '\n'),
                    all == pieces(text@, '\n'),
                    all.len() == n,
                    sound(grammars(*set)),
                    start[0] == Told::Grammars(grammars(*set)),
                    start.len() > 0,
                    told(h).len() > 0,
                    told(h)[0] == start[0],
                    told(h) == told_before(start, all, i as int),
                    out@.len() == i,
                    forall|k: int|
                        0 <= k < i ==> (#[trigger] out@[k])@ == spans_of_line(start, all, k),
                decreases n - i,
            {
                let (from, to) = places[i];
                let body = part(chars.as_slice(), from, to);
                assert(body@ == all[i as int]);
                let body_text = string_of(body);
                let len: usize = byte_len(body_text.as_str());
                assert(len == bytes(all[i as int]));
                let ghost was = out@;
                if i == n - 1 && body.len() == 0 {
                    out.push(Vec::new());
                } else if len > LINE_MAX {
                    let mut one: Vec<Span> = Vec::new();
                    one.push(Span { len, token: Token::Plain, italic: false, bold: false });
                    assert(one@ == seq![plain_span(len as nat)]);
                    out.push(one);
                } else {
                    let mut line = body_text;
                    if i < n - 1 {
                        line.push('\n');
                    }
                    assert(line@ == fed(all, i as int));
                    match read_line(&mut h, line.as_str(), set) {
                        Some(pieces) => {
                            let one = merge(&pieces, len);
                            out.push(one);
                        },
                        None => {
                            let mut one: Vec<Span> = Vec::new();
                            one.push(Span { len, token: Token::Plain, italic: false, bold: false });
                            assert(one@ == seq![plain_span(len as nat)]);
                            out.push(one);
                        },
                    }
                }
                i += 1;
            }
            assert(runs_held(out@) == spans_of(text@, syntax.among(), syntax@));
        },
    }
    out
}

/// The first `n` bytes of `pieces` are covered by their runs, no run is empty, and no two
/// neighbours look the same.
pub proof fn law_runs_cover_and_differ(pieces: Seq<Coloured>, n: nat)
    requires
        n <= usize::MAX,
    ensures
        covered(merged(pieces, n)) == seen(pieces, n),
        forall|i: int| 0 <= i < merged(pieces, n).len() ==> (#[trigger] merged(pieces, n)[i]).len > 0,
        forall|i: int, j: int|
            0 <= i && j == i + 1 && j < merged(pieces, n).len() ==> !alike(
                #[trigger] merged(pieces, n)[i],
                #[trigger] merged(pieces, n)[j],
            ),
    decreases pieces.len(),
{
    if pieces.len() > 0 {
        let init = pieces.drop_last();
        law_runs_cover_and_differ(init, n);
        let before = merged(init, n);
        let now = merged(pieces, n);
        let len = (seen(pieces, n) - seen(init, n)) as nat;
        if len > 0 {
            if before.len() > 0 && alike(before.last(), span_of(pieces.last(), len)) {
                assert(now.drop_last() == before.drop_last());
                assert(before.last().len <= covered(before));
            } else {
                assert(now.drop_last() == before);
            }
        }
    }
}

/// There is one list of spans per line of the text, and none for the empty end.
pub proof fn law_a_span_list_per_line(text: Seq<char>, all: Bundle, name: Seq<char>)
    ensures
        spans_of(text, all, name).len() == pieces(text, '\n').len(),
        pieces(text, '\n').last().len() == 0 ==> spans_of(text, all, name).last() == Seq::<
            Span,
        >::empty(),
{
    lemma_pieces(text, '\n');
}

/// A run of text as it is drawn: its bytes, its colour and its face.
#[derive(Clone, Copy, PartialEq, Eq, Structural, Debug)]
pub struct TextRun {
    /// Bytes of the line.
    pub len: usize,
    /// The colour of the theme.
    pub color: Swatch,
    /// In the italic face.
    pub italic: bool,
    /// In the bold face.
    pub bold: bool,
}

/// A span as it is drawn, cut to `len` bytes.
pub open spec fn drawn(span: Span, len: nat) -> TextRun {
    TextRun {
        len: len as usize,
        color: span.token.swatch(),
        italic: span.italic,
        bold: span.bold,
    }
}

/// `len` bytes of plain text as they are drawn.
pub open spec fn plain_run(len: nat) -> TextRun {
    TextRun { len: len as usize, color: Swatch::Text, italic: false, bold: false }
}

/// Every span as it is drawn.
pub open spec fn all_drawn(spans: Seq<Span>) -> Seq<TextRun> {
    spans.map_values(|s: Span| drawn(s, s.len as nat))
}

/// The spans as they are drawn over the first `n` bytes: those that start there, the last cut at
/// the end.
pub open spec fn cut_at(spans: Seq<Span>, n: nat) -> Seq<TextRun>
    decreases spans.len(),
{
    if spans.len() == 0 {
        Seq::empty()
    } else {
        let before = cut_at(spans.drop_last(), n);
        let at = covered(spans.drop_last());
        if at >= n {
            before
        } else if spans.last().len <= n - at {
            before.push(drawn(spans.last(), spans.last().len as nat))
        } else {
            before.push(drawn(spans.last(), (n - at) as nat))
        }
    }
}

/// The runs of a line of `n` bytes: the spans, padded with plain text or cut to the line's
/// length; one plain run where the line was not parsed.
pub open spec fn runs_of(n: nat, spans: Option<Seq<Span>>) -> Seq<TextRun> {
    match spans {
        None => seq![plain_run(n)],
        Some(spans) => if covered(spans) < n {
            all_drawn(spans).push(plain_run((n - covered(spans)) as nat))
        } else if covered(spans) == n {
            all_drawn(spans)
        } else {
            cut_at(spans, n)
        },
    }
}

/// The runs for one line's spans: the theme's colour per token, the italic or bold face where
/// the spans ask. A line with no spans (not parsed yet) is one plain run.
pub fn runs(line_len: usize, spans: Option<&[Span]>) -> (r: Vec<TextRun>)
    requires
        spans matches Some(s) ==> covered(s@) <= usize::MAX,
    ensures
        r@ == runs_of(
            line_len as nat,
            match spans {
                Some(s) => Some(s@),
                None => None,
            },
        ),
{
    let mut out: Vec<TextRun> = Vec::new();
    let Some(spans) = spans else {
        out.push(TextRun { len: line_len, color: Swatch::Text, italic: false, bold: false });
        assert(out@ == seq![plain_run(line_len as nat)]);
        return out;
    };
    let mut at: usize = 0;
    let mut i: usize = 0;
    while i < spans.len()
        invariant
            i <= spans.len(),
            covered(spans@) <= usize::MAX,
            at == covered(spans@.take(i as int)),
        decreases spans.len() - i,
    {
        proof {
            let some = spans@.take(i + 1);
            assert(some.drop_last() == spans@.take(i as int));
            lemma_covered_take(spans@, i + 1);
        }
        at += spans[i].len;
        i += 1;
    }
    assert(spans@.take(i as int) == spans@);
    let all: usize = at;
    at = 0;
    i = 0;
    while i < spans.len()
        invariant
            i <= spans.len(),
            covered(spans@) == all,
            at == covered(spans@.take(i as int)),
            all > line_len ==> out@ == cut_at(spans@.take(i as int), line_len as nat),
            all <= line_len ==> out@ == all_drawn(spans@.take(i as int)),
        decreases spans.len() - i,
    {
        let span = spans[i];
        let ghost some = spans@.take(i + 1);
        let ghost was = out@;
        proof {
            assert(some.drop_last() == spans@.take(i as int));
            lemma_covered_take(spans@, i + 1);
        }
        if all <= line_len || at < line_len {
            let len: usize = if all <= line_len || span.len <= line_len - at {
                span.len
            } else {
                line_len - at
            };
            out.push(
                TextRun { len, color: span.token.color(), italic: span.italic, bold: span.bold },
            );
            assert(all <= line_len ==> out@ == all_drawn(some));
        }
        at += span.len;
        i += 1;
    }
    assert(spans@.take(i as int) == spans@);
    if all < line_len {
        out.push(TextRun { len: line_len - all, color: Swatch::Text, italic: false, bold: false });
    }
    out
}

proof fn lemma_covered_take(spans: Seq<Span>, n: int)
    requires
        0 <= n <= spans.len(),
    ensures
        covered(spans.take(n)) <= covered(spans),
    decreases spans.len(),
{
    if n < spans.len() {
        lemma_covered_take(spans.drop_last(), n);
        assert(spans.drop_last().take(n) == spans.take(n));
    } else {
        assert(spans.take(n) == spans);
    }
}

/// All the bytes of `runs`.
pub open spec fn run_bytes(runs: Seq<TextRun>) -> nat
    decreases runs.len(),
{
    if runs.len() == 0 {
        0
    } else {
        run_bytes(runs.drop_last()) + runs.last().len as nat
    }
}

/// The runs cover the line exactly, whatever its spans.
pub proof fn law_runs_cover_the_line(n: nat, spans: Option<Seq<Span>>)
    requires
        n <= usize::MAX,
    ensures
        run_bytes(runs_of(n, spans)) == n,
{
    match spans {
        None => {
            assert(seq![plain_run(n)].drop_last() == Seq::<TextRun>::empty());
            reveal_with_fuel(run_bytes, 2);
        },
        Some(spans) => {
            lemma_drawn_bytes(spans);
            lemma_cut_bytes(spans, n);
            if covered(spans) < n {
                let last = plain_run((n - covered(spans)) as nat);
                assert(all_drawn(spans).push(last).drop_last() == all_drawn(spans));
            }
        },
    }
}

proof fn lemma_drawn_bytes(spans: Seq<Span>)
    ensures
        run_bytes(all_drawn(spans)) == covered(spans),
    decreases spans.len(),
{
    if spans.len() > 0 {
        lemma_drawn_bytes(spans.drop_last());
        assert(all_drawn(spans).drop_last() == all_drawn(spans.drop_last()));
    }
}

proof fn lemma_cut_bytes(spans: Seq<Span>, n: nat)
    requires
        n <= usize::MAX,
    ensures
        run_bytes(cut_at(spans, n)) == if covered(spans) < n {
            covered(spans)
        } else {
            n
        },
    decreases spans.len(),
{
    if spans.len() > 0 {
        lemma_cut_bytes(spans.drop_last(), n);
        let before = cut_at(spans.drop_last(), n);
        let now = cut_at(spans, n);
        if now != before {
            assert(now.drop_last() == before);
        }
    }
}

/// A range of a text that is drawn in a style of its own.
#[derive(Clone, Copy, PartialEq, Eq, Structural, Debug)]
pub struct StyledRange {
    /// Its first byte.
    pub start: usize,
    /// The byte behind its last.
    pub end: usize,
    /// The colour of the theme.
    pub color: Swatch,
    /// In the italic face.
    pub italic: bool,
    /// In the bold face.
    pub bold: bool,
}

/// The span is not drawn as plain text is.
pub open spec fn is_styled(span: Span) -> bool {
    span.token != Token::Plain || span.italic || span.bold
}

/// The styled ranges of a line that starts at the byte `from`.
pub open spec fn ranges_of_line(spans: Seq<Span>, from: nat) -> Seq<StyledRange>
    decreases spans.len(),
{
    if spans.len() == 0 {
        Seq::empty()
    } else {
        let before = ranges_of_line(spans.drop_last(), from);
        let at = from + covered(spans.drop_last());
        let span = spans.last();
        if is_styled(span) {
            before.push(
                StyledRange {
                    start: at as usize,
                    end: (at + span.len) as usize,
                    color: span.token.swatch(),
                    italic: span.italic,
                    bold: span.bold,
                },
            )
        } else {
            before
        }
    }
}

/// The styled ranges of the first `n` lines.
pub open spec fn ranges_of(lines: Seq<Seq<char>>, spans: Seq<Seq<Span>>, n: int) -> Seq<StyledRange>
    decreases n,
{
    if n <= 0 {
        Seq::empty()
    } else {
        ranges_of(lines, spans, n - 1) + ranges_of_line(spans[n - 1], start_of(lines, n - 1))
    }
}

/// The styled ranges of a fenced block.
pub open spec fn block_ranges(all: Bundle, code: Seq<char>, lang: Seq<char>) -> Seq<
    StyledRange,
> {
    match for_tag(all, lang) {
        None => Seq::empty(),
        Some(name) => ranges_of(
            pieces(code, '\n'),
            spans_of(code, all, name),
            pieces(code, '\n').len() as int,
        ),
    }
}

/// The runs of a line take up its bytes at most.
proof fn lemma_spans_fit(start: Seq<Told>, all: Seq<Seq<char>>, i: int)
    requires
        0 <= i < all.len(),
        bytes(all[i]) <= usize::MAX,
    ensures
        covered(spans_of_line(start, all, i)) <= bytes(all[i]),
{
    let n = bytes(all[i]);
    reveal_with_fuel(covered, 2);
    assert(seq![plain_span(n)].drop_last() == Seq::<Span>::empty());
    match coloured_as(told_before(start, all, i), fed(all, i)) {
        Some(pieces) => law_runs_cover_and_differ(pieces, n),
        None => {},
    }
}

/// The coloured byte ranges of a fenced block's `code` under the grammar `lang` names. Plain
/// runs are left out (the block's own colour shows), so an unknown language yields nothing.
pub fn code_ranges(all: &Grammars, code: &str, lang: &str) -> (r: Vec<StyledRange>)
    ensures
        r@ == block_ranges(all@, code@, lang@),
{
    let mut out: Vec<StyledRange> = Vec::new();
    let Some(syntax) = Syntax::for_token(all, lang) else {
        return out;
    };
    let lines = spans(code, &syntax);
    let chars = chars_of(code);
    let places = piece_spans(chars.as_slice(), '\n');
    let ghost parts = pieces(code@, '\n');
    let ghost want = spans_of(code@, all@, syntax@);
    let size: usize = byte_len(code);
    proof {
        lemma_starts_end(code@, '\n');
        assert(runs_held(lines@).len() == want.len());
    }
    let mut at: usize = 0;
    let mut i: usize = 0;
    while i < lines.len()
        invariant
            i <= lines.len(),
            lines@.len() == parts.len() == places@.len(),
            want == spans_of(code@, all@, syntax@),
            runs_held(lines@) == want,
            chars@ == code@,
            parts == pieces(code@, '\n'),
            spans_pieces(places@, chars@, '\n'),
            size == bytes(code@),
            start_of(parts, parts.len() as int) == size + 1,
            i < lines.len() ==> at == start_of(parts, i as int),
            out@ == ranges_of(parts, want, i as int),
        decreases lines.len() - i,
    {
        let line = &lines[i];
        let (from, to) = places[i];
        let text = string_of(part(chars.as_slice(), from, to));
        let len: usize = byte_len(text.as_str());
        proof {
            assert(text@ == parts[i as int]);
            lemma_starts_grow(parts, i as int, parts.len() as int);
            assert(want[i as int] == runs_held(lines@)[i as int]);
            assert(want[i as int] == spans_of_line(
                told_first(all@, syntax@),
                parts,
                i as int,
            ));
            lemma_spans_fit(told_first(all@, syntax@), parts, i as int);
        }
        let ghost before = out@;
        let mut k: usize = 0;
        let mut here: usize = at;
        assert(line@.take(0) == Seq::<Span>::empty());
        while k < line.len()
            invariant
                k <= line@.len(),
                at + covered(line@) <= usize::MAX,
                here == at + covered(line@.take(k as int)),
                out@ == before + ranges_of_line(line@.take(k as int), at as nat),
            decreases line.len() - k,
        {
            let span = line[k];
            let ghost some = line@.take(k + 1);
            let ghost was = out@;
            proof {
                assert(some.drop_last() == line@.take(k as int));
                lemma_covered_take(line@, k + 1);
            }
            let end: usize = here + span.len;
            if span.token != Token::Plain || span.italic || span.bold {
                out.push(
                    StyledRange {
                        start: here,
                        end,
                        color: span.token.color(),
                        italic: span.italic,
                        bold: span.bold,
                    },
                );
            }
            assert(out@ == before + ranges_of_line(some, at as nat));
            here = end;
            k += 1;
        }
        assert(line@.take(k as int) == line@);
        proof {
            if i + 1 < parts.len() {
                lemma_starts_grow(parts, i + 1, parts.len() as int);
            }
        }
        // The line and the newline behind it.
        at = at.saturating_add(len).saturating_add(1);
        i += 1;
    }
    out
}

/// The coloured byte ranges of a fenced block, which names a language or none.
pub fn code_block(all: &Grammars, lang: Option<&str>, code: &str) -> (r: Vec<StyledRange>)
    ensures
        match lang {
            Some(lang) => r@ == block_ranges(all@, code@, lang@),
            None => r@ == Seq::<StyledRange>::empty(),
        },
{
    match lang {
        Some(lang) => code_ranges(all, code, lang),
        None => Vec::new(),
    }
}

/// The ranges of a fenced block lie inside it, are not plain, and an unknown language has none.
pub proof fn law_code_ranges_lie_in_the_code(all: Bundle, code: Seq<char>, lang: Seq<char>)
    requires
        bytes(code) < usize::MAX,
    ensures
        for_tag(all, lang) is None ==> block_ranges(all, code, lang).len() == 0,
        forall|i: int|
            0 <= i < block_ranges(all, code, lang).len() ==> {
                let r = #[trigger] block_ranges(all, code, lang)[i];
                &&& r.start <= r.end <= bytes(code)
                &&& r.color != Swatch::Text || r.italic || r.bold
            },
{
    if let Some(name) = for_tag(all, lang) {
        let parts = pieces(code, '\n');
        lemma_starts_end(code, '\n');
        lemma_ranges_lie(all, code, name, parts.len() as int);
    }
}

proof fn lemma_ranges_lie(all: Bundle, code: Seq<char>, name: Seq<char>, n: int)
    requires
        bytes(code) < usize::MAX,
        0 <= n <= pieces(code, '\n').len(),
    ensures
        forall|i: int|
            0 <= i < ranges_of(pieces(code, '\n'), spans_of(code, all, name), n).len() ==> {
                let r = #[trigger] ranges_of(pieces(code, '\n'), spans_of(code, all, name), n)[i];
                &&& r.start <= r.end <= bytes(code)
                &&& r.color != Swatch::Text || r.italic || r.bold
            },
    decreases n,
{
    if n > 0 {
        let parts = pieces(code, '\n');
        let all_spans = spans_of(code, all, name);
        lemma_ranges_lie(all, code, name, n - 1);
        lemma_starts_end(code, '\n');
        lemma_starts_grow(parts, n - 1, parts.len() as int);
        lemma_spans_fit(told_first(all, name), parts, n - 1);
        lemma_line_ranges_lie(all_spans[n - 1], start_of(parts, n - 1), bytes(code));
    }
}

proof fn lemma_line_ranges_lie(spans: Seq<Span>, from: nat, size: nat)
    requires
        from + covered(spans) <= size < usize::MAX,
    ensures
        forall|i: int|
            0 <= i < ranges_of_line(spans, from).len() ==> {
                let r = #[trigger] ranges_of_line(spans, from)[i];
                &&& r.start <= r.end <= size
                &&& r.color != Swatch::Text || r.italic || r.bold
            },
    decreases spans.len(),
{
    if spans.len() > 0 {
        lemma_line_ranges_lie(spans.drop_last(), from, size);
    }
}

} // verus!
