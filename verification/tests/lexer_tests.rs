use html_formatter::input_stream::InputStream;
use html_formatter::lexer::{Lexer, LexerError};
use html_formatter::models::{
    Chars, Diagnostic, DiagnosticKind, EndTag, LexerToken, Location, LocationPos, StartTag,
    TagAttribute,
};

fn at(line: usize, column: usize) -> LocationPos {
    LocationPos { line, column }
}

fn span(start: (usize, usize), end: (usize, usize)) -> Option<Location> {
    Some(Location { start: at(start.0, start.1), end: at(end.0, end.1) })
}

fn attr(name: &str, value: &str) -> TagAttribute {
    TagAttribute { attribute_name: name.to_string(), attribute_value: value.to_string() }
}

fn start_tag(name: &str, attributes: Vec<TagAttribute>, self_closing: bool, loc: Option<Location>) -> LexerToken {
    LexerToken::StartTag(StartTag { tag_name: name.to_string(), attributes, self_closing, loc })
}

fn end_tag(name: &str, loc: Option<Location>) -> LexerToken {
    LexerToken::EndTag(EndTag { tag_name: name.to_string(), loc })
}

fn chars(data: &str, loc: Option<Location>) -> LexerToken {
    LexerToken::Chars(Chars { data: data.to_string(), loc })
}

fn tokens_of(content: &str) -> Vec<LexerToken> {
    let mut lexer = Lexer::new(InputStream::new(content));
    lexer.tokenize().unwrap().clone()
}

fn diagnostics_of(content: &str) -> Vec<Diagnostic> {
    let mut lexer = Lexer::new(InputStream::new(content));
    lexer.tokenize().unwrap();
    lexer.diagnostics().clone()
}

#[test]
fn attribute_without_quotes() {
    let content =
        "<html><body><a href=https://www.w3schools.com>This is a link</a></body></html>";

    let stream = InputStream::new(content);
    let mut lexer = Lexer::new(stream);
    let tokens = lexer.tokenize().unwrap();

    assert_eq!(
        tokens,
        &vec![
            start_tag("html", vec![], false, span((1, 0), (1, 6))),
            start_tag("body", vec![], false, span((1, 6), (1, 12))),
            start_tag(
                "a",
                vec![attr("href", "https://www.w3schools.com")],
                false,
                span((1, 12), (1, 46)),
            ),
            chars("This is a link", span((1, 46), (1, 60))),
            end_tag("a", span((1, 60), (1, 64))),
            end_tag("body", span((1, 64), (1, 71))),
            end_tag("html", span((1, 71), (1, 78))),
        ]
    );
}

#[test]
fn unquoted_value_stops_at_the_closing_bracket() {
    assert_eq!(
        tokens_of("<a href=https://example.com>text</a>"),
        vec![
            start_tag("a", vec![attr("href", "https://example.com")], false, span((1, 0), (1, 28))),
            chars("text", span((1, 28), (1, 32))),
            end_tag("a", span((1, 32), (1, 36))),
        ]
    );
}

#[test]
fn unquoted_value_stops_at_whitespace() {
    assert_eq!(
        tokens_of("<a b=c d=e>"),
        vec![start_tag("a", vec![attr("b", "c"), attr("d", "e")], false, span((1, 0), (1, 11)))]
    );
}

#[test]
fn unquoted_value_stops_at_a_slash_before_the_closing_bracket() {
    assert_eq!(
        tokens_of("<a b=c/>"),
        vec![start_tag("a", vec![attr("b", "c")], true, span((1, 0), (1, 8)))]
    );
}

#[test]
fn unquoted_value_keeps_a_slash_at_the_end_of_input() {
    let mut lexer = Lexer::new(InputStream::new("<a b=c/"));
    assert_eq!(lexer.tokenize().unwrap(), &vec![start_tag("a", vec![], false, None)]);
}

#[test]
fn equals_before_attribute_name_is_reported_and_kept() {
    let content = "<div =foo>";
    assert_eq!(
        tokens_of(content),
        vec![start_tag("div", vec![attr("=foo", "")], false, span((1, 0), (1, 10)))]
    );
    assert_eq!(
        diagnostics_of(content),
        vec![Diagnostic { kind: DiagnosticKind::AttributeNameStartsWithEquals, position: at(1, 5) }]
    );
}

#[test]
fn quote_in_attribute_name_is_reported_and_kept() {
    let content = "<p a\"b<'c=1>";
    assert_eq!(
        tokens_of(content),
        vec![start_tag("p", vec![attr("a\"b<'c", "1")], false, span((1, 0), (1, 12)))]
    );
    assert_eq!(
        diagnostics_of(content),
        vec![
            Diagnostic { kind: DiagnosticKind::InvalidCharInAttributeName, position: at(1, 4) },
            Diagnostic { kind: DiagnosticKind::InvalidCharInAttributeName, position: at(1, 6) },
            Diagnostic { kind: DiagnosticKind::InvalidCharInAttributeName, position: at(1, 7) },
        ]
    );
}

#[test]
fn well_formed_markup_has_no_diagnostics() {
    assert_eq!(diagnostics_of("<a b=\"c\" d='e' f=g h>text</a>"), vec![]);
}

#[test]
fn quoted_values_keep_whitespace_and_brackets() {
    assert_eq!(
        tokens_of("<a b=\"c d>\" e='f \"g\"'>"),
        vec![start_tag(
            "a",
            vec![attr("b", "c d>"), attr("e", "f \"g\"")],
            false,
            span((1, 0), (1, 22)),
        )]
    );
}

#[test]
fn attribute_without_value_has_an_empty_value() {
    assert_eq!(
        tokens_of("<div data-a data-b>"),
        vec![start_tag(
            "div",
            vec![attr("data-a", ""), attr("data-b", "")],
            false,
            span((1, 0), (1, 19)),
        )]
    );
}

#[test]
fn equals_may_stand_apart_from_name_and_value() {
    assert_eq!(
        tokens_of("<a b = \"c\">"),
        vec![start_tag("a", vec![attr("b", "c")], false, span((1, 0), (1, 11)))]
    );
}

#[test]
fn self_closing_tag_is_marked() {
    assert_eq!(tokens_of("<br/>"), vec![start_tag("br", vec![], true, span((1, 0), (1, 5)))]);
    assert_eq!(
        tokens_of("<img src=\"a.png\"/>"),
        vec![start_tag("img", vec![attr("src", "a.png")], true, span((1, 0), (1, 18)))]
    );
}

#[test]
fn closing_bracket_after_whitespace_ends_the_span_before_it() {
    assert_eq!(tokens_of("<a >"), vec![start_tag("a", vec![], false, span((1, 0), (1, 3)))]);
    assert_eq!(
        tokens_of("<a >x<"),
        vec![start_tag("a", vec![], false, span((1, 0), (1, 3))), chars("x", span((1, 3), (1, 5)))]
    );
}

#[test]
fn end_tag_drops_its_attributes() {
    assert_eq!(tokens_of("</a b=c>"), vec![end_tag("a", span((1, 0), (1, 8)))]);
}

#[test]
fn tag_open_skips_what_is_no_letter() {
    assert_eq!(tokens_of("<1 a>"), vec![start_tag("a", vec![], false, span((1, 0), (1, 5)))]);
    assert_eq!(tokens_of("</ 1a>"), vec![end_tag("a", span((1, 0), (1, 6)))]);
    assert_eq!(tokens_of("<"), vec![]);
    assert_eq!(tokens_of("</>"), vec![]);
    assert_eq!(tokens_of(""), vec![]);
}

#[test]
fn tag_name_takes_any_other_character() {
    assert_eq!(tokens_of("<a<b=1>"), vec![start_tag("a<b=1", vec![], false, span((1, 0), (1, 7)))]);
}

#[test]
fn open_token_at_the_end_stays_without_a_span() {
    assert_eq!(tokens_of("hello"), vec![chars("hello", None)]);
    assert_eq!(tokens_of("<div"), vec![start_tag("div", vec![], false, None)]);
    assert_eq!(tokens_of("<div class=\"a\" id"), vec![start_tag("div", vec![attr("class", "a")], false, None)]);
    assert_eq!(
        tokens_of("<p>a"),
        vec![start_tag("p", vec![], false, span((1, 0), (1, 3))), chars("a", None)]
    );
}

#[test]
fn spans_follow_lines_and_columns() {
    assert_eq!(
        tokens_of("<a>\n  b\n</a>"),
        vec![
            start_tag("a", vec![], false, span((1, 0), (1, 3))),
            chars("\n  b\n", span((1, 3), (3, 0))),
            end_tag("a", span((3, 0), (3, 4))),
        ]
    );
}

#[test]
fn whitespace_between_attributes_may_be_any_unicode_space() {
    assert_eq!(
        tokens_of("<a\tb=1\u{a0}c=2\u{3000}d=3\n>"),
        vec![start_tag(
            "a",
            vec![attr("b", "1"), attr("c", "2"), attr("d", "3")],
            false,
            span((1, 0), (2, 0)),
        )]
    );
}

#[test]
fn tag_name_begins_with_an_ascii_letter() {
    assert_eq!(tokens_of("<é>"), vec![]);
    assert_eq!(tokens_of("<Zé>"), vec![start_tag("Zé", vec![], false, span((1, 0), (1, 4)))]);
}

#[test]
fn slash_before_attribute_name_stalls() {
    let mut lexer = Lexer::new(InputStream::new("<br />"));
    assert_eq!(lexer.tokenize(), Err(LexerError::Stalled { position: at(1, 4) }));
    assert!(lexer.stalled());
    assert_eq!(lexer.tokens(), &vec![start_tag("br", vec![], false, None)]);

    let mut lexer = Lexer::new(InputStream::new("<a//>"));
    assert_eq!(lexer.tokenize(), Err(LexerError::Stalled { position: at(1, 3) }));

    let mut lexer = Lexer::new(InputStream::new("<a b=\"c\" />"));
    assert_eq!(lexer.tokenize(), Err(LexerError::Stalled { position: at(1, 9) }));
}

#[test]
fn slash_then_space_after_a_quoted_value_does_not_close_the_tag_itself() {
    assert_eq!(
        tokens_of("<a b=\"c\"/ >"),
        vec![start_tag("a", vec![attr("b", "c")], false, span((1, 0), (1, 10)))]
    );
}

#[test]
fn tokenize_again_changes_nothing() {
    let mut lexer = Lexer::new(InputStream::new("<a>b</a>"));
    let first = lexer.tokenize().unwrap().clone();
    let second = lexer.tokenize().unwrap().clone();
    assert_eq!(first, second);
    assert!(!lexer.stalled());
}

#[test]
fn into_tokens_hands_the_tokens_over() {
    let mut lexer = Lexer::new(InputStream::new("<a>"));
    lexer.tokenize().unwrap();
    assert_eq!(lexer.into_tokens(), vec![start_tag("a", vec![], false, span((1, 0), (1, 3)))]);
}

#[test]
fn lexer_starts_spans_at_the_first_line_wherever_the_stream_stands() {
    let mut stream = InputStream::new("\n\n<a>");
    stream.next().unwrap();
    stream.next().unwrap();
    let mut lexer = Lexer::new(stream);
    assert_eq!(
        lexer.tokenize().unwrap(),
        &vec![start_tag("a", vec![], false, span((1, 0), (3, 3)))]
    );
}
