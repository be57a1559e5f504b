//! Colours of source text.
use slopty_ui::highlight::editor::{splice, EditorHighlighter, InputEdit, Point};
use slopty_ui::highlight::{
    code_block, code_ranges, merge, runs, spans, Coloured, Grammars, Span, Syntax, Token, LINE_MAX,
};

fn tokens<'t>(line: &'t str, syntax: &Syntax) -> Vec<(&'t str, Token)> {
    let mut at = 0_usize;
    let mut out = Vec::new();
    for s in spans(line, syntax).into_iter().next().unwrap_or_default() {
        let end = at.saturating_add(s.len);
        if let Some(text) = line.get(at..end) {
            out.push((text, s.token));
        }
        at = end;
    }
    out
}

/// The token of the first span holding `word`.
fn token_of(line: &str, syntax: &Syntax, word: &str) -> Option<Token> {
    tokens(line, syntax).into_iter().find(|(t, _)| t.contains(word)).map(|(_, tok)| tok)
}

fn name_for(all: &Grammars, path: &str, first: &str) -> Option<String> {
    Syntax::for_path(all, path, first).map(|s| s.name().to_owned())
}

fn name_of(all: &Grammars, lang: &str) -> Option<String> {
    Syntax::for_token(all, lang).map(|s| s.name().to_owned())
}

#[test]
fn rust_by_extension_colours_keywords_strings_comments_and_numbers() {
    let all = Grammars::load();
    assert_eq!(name_for(&all, "/w/src/main.rs", "").as_deref(), Some("Rust"));
    let rust = match Syntax::for_token(&all, "rust") {
        Some(s) => s,
        None => panic!("no Rust"),
    };
    let line = r#"fn main() { let x = "hi"; // said"#;
    assert_eq!(token_of(line, &rust, "fn"), Some(Token::Keyword));
    assert_eq!(token_of(line, &rust, "let"), Some(Token::Keyword));
    assert_eq!(token_of(line, &rust, "main"), Some(Token::Function));
    assert_eq!(token_of(line, &rust, "hi"), Some(Token::String));
    assert_eq!(token_of(line, &rust, "said"), Some(Token::Comment));
    assert_eq!(token_of("let n = 42;", &rust, "42"), Some(Token::Constant));
    assert_eq!(token_of("struct Foo;", &rust, "Foo"), Some(Token::Type));
    // Spans cover the line exactly and merge equal neighbours.
    let first = spans(line, &rust).into_iter().next().unwrap_or_default();
    assert_eq!(first.iter().map(|s| s.len).sum::<usize>(), line.len());
    assert!(first.windows(2).all(|w| {
        w.first().zip(w.get(1)).is_none_or(|(a, b)| a.token != b.token || a.italic != b.italic)
    }));
}

#[test]
fn every_rule_of_the_stand_in_theme_is_read() {
    assert_eq!(Grammars::load().took(), &vec![true; 9]);
}

#[test]
fn a_block_comment_carries_across_lines_and_lines_match_the_split() {
    let all_grammars = Grammars::load();
    let rust = match Syntax::for_token(&all_grammars, "rust") {
        Some(s) => s,
        None => panic!("no Rust"),
    };
    let text = "/* one\ntwo */ let\n";
    let all = spans(text, &rust);
    assert_eq!(all.len(), text.split('\n').count(), "one span list per split line");
    assert_eq!(all.get(1).and_then(|l| l.first()).map(|s| s.token), Some(Token::Comment));
    assert!(all.get(1).is_some_and(|l| l.iter().any(|s| s.token == Token::Keyword)), "{all:?}");
    assert_eq!(all.get(2).map(Vec::len), Some(0), "the empty last line has no spans");
    assert_eq!(spans("", &rust).len(), 1, "an empty text is one empty line");
    assert_eq!(spans("a\nb", &rust).len(), 2);
}

#[test]
fn syntaxes_come_by_name_first_line_or_fence_and_a_long_line_stays_plain() {
    let all = Grammars::load();
    assert_eq!(name_for(&all, "Makefile", "").as_deref(), Some("Makefile"));
    assert_eq!(
        name_for(&all, "run", "#!/bin/bash").as_deref(),
        Some("Bourne Again Shell (bash)")
    );
    assert!(Syntax::for_path(&all, "notes.unknownext", "plain words").is_none());
    assert!(
        Syntax::for_path(&all, "notes.txt", "plain words").is_none(),
        "plain text is not a colouring"
    );
    assert!(Syntax::for_token(&all, "txt").is_none());
    assert_eq!(name_of(&all, "rust").as_deref(), Some("Rust"));
    assert_eq!(name_of(&all, "sh").as_deref(), Some("Bourne Again Shell (bash)"));
    assert_eq!(name_of(&all, "json").as_deref(), Some("JSON"));
    assert!(Syntax::for_token(&all, "").is_none());
    let rust = match Syntax::for_token(&all, "rs") {
        Some(s) => s,
        None => panic!("no Rust"),
    };
    let long = "x".repeat(LINE_MAX.saturating_add(1));
    assert_eq!(
        spans(&long, &rust).first().map(Vec::as_slice),
        Some(&[Span { len: long.len(), token: Token::Plain, italic: false, bold: false }][..])
    );
}

#[test]
fn a_fenced_block_yields_byte_ranges_across_its_lines_and_skips_plain_text() {
    let all = Grammars::load();
    let code = "let a = 1;\n// two\nfn b() {}";
    let ranges = code_ranges(&all, code, "rust");
    let at = |word: &str| code.find(word);
    let find = |word: &str| ranges.iter().find(|r| Some(r.start) == at(word)).copied();
    let colour = |word: &str| find(word).map(|r| r.color);
    assert_eq!(colour("let"), Some(Token::Keyword.color()), "{ranges:?}");
    assert_eq!(colour("1"), Some(Token::Constant.color()));
    assert_eq!(find("// two").map(|r| r.italic), Some(true));
    assert_eq!(colour("fn"), Some(Token::Keyword.color()));
    assert_eq!(find("b").map(|r| r.end - r.start), Some(1));
    assert!(ranges.iter().all(|r| r.end <= code.len()));
    assert!(
        ranges.iter().all(|r| r.color != Token::Plain.color()),
        "plain runs are left out"
    );
    assert!(code_ranges(&all, code, "").is_empty(), "no language, no colours");
    assert!(code_ranges(&all, code, "nosuchlang").is_empty());
    assert_eq!(code_block(&all, Some("rust"), code), ranges);
    assert!(code_block(&all, None, code).is_empty());
}

#[test]
fn runs_cover_the_line_exactly_with_the_theme_colours() {
    let spans = [
        Span { len: 2, token: Token::Keyword, italic: false, bold: false },
        Span { len: 3, token: Token::Comment, italic: true, bold: false },
    ];
    let padded = runs(7, Some(&spans));
    assert_eq!(padded.iter().map(|r| r.len).sum::<usize>(), 7, "padded to the line");
    assert_eq!(padded.first().map(|r| r.color), Some(Token::Keyword.color()));
    assert_eq!(padded.get(1).map(|r| r.italic), Some(true));
    assert_eq!(padded.get(2).map(|r| r.color), Some(Token::Plain.color()));
    let trimmed = runs(3, Some(&spans));
    assert_eq!(trimmed.iter().map(|r| r.len).sum::<usize>(), 3, "trimmed to the line");
    assert_eq!(runs(4, None).len(), 1, "unparsed: one plain run");
}

fn span(len: usize, token: Token) -> Span {
    Span { len, token, italic: false, bold: false }
}

fn edit(start: usize, old_end: usize, new_end: usize) -> InputEdit {
    InputEdit {
        start_position: Point { row: start, column: 0 },
        old_end_position: Point { row: old_end, column: 0 },
        new_end_position: Point { row: new_end, column: 0 },
    }
}

#[test]
fn an_edit_moves_the_colours_below_it_with_their_lines() {
    let mut lines =
        vec![vec![span(2, Token::Keyword)], Vec::new(), vec![span(3, Token::String)]];
    // A newline typed on row 1: two rows where there was one, the string one row down.
    splice(&mut lines, &edit(1, 1, 2));
    assert_eq!(lines.len(), 4);
    assert_eq!(lines.get(3).map(|l| l.len()), Some(1));
    assert_eq!(lines.get(3).and_then(|l| l.first()).map(|s| s.token), Some(Token::String));
    // Rows 0..=2 joined into one: the string moves up to row 1.
    splice(&mut lines, &edit(0, 2, 0));
    assert_eq!(lines.len(), 2);
    assert_eq!(lines.get(1).and_then(|l| l.first()).map(|s| s.token), Some(Token::String));
    assert!(lines.first().is_some_and(|l| l.is_empty()), "the edited row goes plain");
}

#[test]
fn styles_cover_the_range_exactly_and_colour_by_line() {
    let all = Grammars::load();
    let syntax = match Syntax::for_token(&all, "rust") {
        Some(s) => s,
        None => panic!("no Rust"),
    };
    let text = "fn a() {}\n// b\n";
    let parsed = spans(text, &syntax);
    let mut h = EditorHighlighter::new(syntax);
    assert_eq!(h.language(), "Rust");
    let (generation, _) = h.update(None, text);
    assert!(h.parsed(generation, parsed));
    let runs = h.styles(0, text.len());
    let mut at = 0;
    for run in &runs {
        assert_eq!(run.start, at, "runs are contiguous: {runs:?}");
        at = run.end;
    }
    assert_eq!(at, text.len(), "and reach the end");
    assert_eq!(
        runs.first().map(|r| (r.start, r.end, r.style.color)),
        Some((0, 2, Some(Token::Keyword.color())))
    );
    let comment = runs.iter().find(|r| r.start == 10).map(|r| r.style.italic);
    assert_eq!(comment, Some(true), "the comment line: {runs:?}");
    // A range in the middle is clipped to it.
    let mid = h.styles(3, 12);
    assert_eq!(mid.first().map(|r| r.start), Some(3));
    assert_eq!(mid.last().map(|r| r.end), Some(12));
}

#[test]
fn an_edit_overtakes_a_parse() {
    let all = Grammars::load();
    let syntax = match Syntax::for_token(&all, "rust") {
        Some(s) => s,
        None => panic!("no Rust"),
    };
    let old = spans("fn a() {}", &syntax);
    let mut h = EditorHighlighter::new(syntax);
    let (first, wait) = h.update(None, "fn a() {}");
    assert_eq!(wait, None, "the first text is parsed at once");
    let (second, wait) = h.update(Some(&edit(0, 0, 0)), "fn ab() {}");
    assert!(wait.is_some(), "a parse waits for a pause");
    assert_ne!(first, second);
    assert!(!h.parsed(first, old), "the parse of the older text is late");
}

#[test]
fn equal_neighbours_are_one_span() {
    let piece = |len, red| Coloured { len, red, faces: 0 };
    let merged = merge(&vec![piece(2, 1), piece(3, 1), piece(2, 4), piece(9, 4)], 8);
    let lens: Vec<usize> = merged.iter().map(|s| s.len).collect();
    assert_eq!(lens, [5, 3], "and the line's own bytes are all there is");
}

#[test]
fn every_bundled_grammar_can_be_read_with() {
    let all = Grammars::load();
    let set = syntect::parsing::SyntaxSet::load_defaults_newlines();
    let mut read = 0;
    for grammar in set.syntaxes() {
        let Some(syntax) = Syntax::for_token(&all, &grammar.name) else { continue };
        let lines = spans("a = \"b\" // c\n<d e='f'>\n", &syntax);
        assert_eq!(lines.len(), 3, "{}", grammar.name);
        read += 1;
    }
    assert!(read > 50, "{read}");
    for first in ["#!/bin/sh", "<?xml version='1.0'?>", "-*- mode: ruby -*-", "plain", ""] {
        let _named = name_for(&all, "/w/nothing-known", first);
    }
}
