use html_formatter::config::Config;
use html_formatter::formatter::Formatter;
use html_formatter::input_stream::InputStream;
use html_formatter::lexer::Lexer;
use html_formatter::models::{Chars, EndTag, LexerToken, StartTag, TagAttribute};

fn attr(name: &str, value: &str) -> TagAttribute {
    TagAttribute { attribute_name: name.to_string(), attribute_value: value.to_string() }
}

fn start_tag(name: &str, attributes: Vec<TagAttribute>, self_closing: bool) -> LexerToken {
    LexerToken::StartTag(StartTag { tag_name: name.to_string(), attributes, self_closing, loc: None })
}

fn end_tag(name: &str) -> LexerToken {
    LexerToken::EndTag(EndTag { tag_name: name.to_string(), loc: None })
}

fn chars(data: &str) -> LexerToken {
    LexerToken::Chars(Chars { data: data.to_string(), loc: None })
}

fn tabs(max_line_length: i32) -> Config {
    Config::new(vec![]).set_max_line_length(max_line_length)
}

fn spaces(max_line_length: i32) -> Config {
    Config::new(vec![]).set_indent_style(Some("space".to_string())).set_max_line_length(max_line_length)
}

fn render(tokens: Vec<LexerToken>, config: &Config) -> String {
    let mut formatter = Formatter::new(tokens, config);
    assert!(formatter.can_format());
    formatter.format()
}

fn tokens_of(content: &str) -> Vec<LexerToken> {
    let mut lexer = Lexer::new(InputStream::new(content));
    lexer.tokenize().unwrap();
    lexer.into_tokens()
}

fn attributes_of(token: &LexerToken) -> Vec<(String, String)> {
    match token {
        LexerToken::StartTag(tag) => tag
            .attributes
            .iter()
            .map(|a| (a.attribute_name.clone(), a.attribute_value.clone()))
            .collect(),
        _ => panic!("no start tag"),
    }
}

#[test]
fn minimal_roundtrip() {
    let tokens = tokens_of("<html>hello<div class=\"wrapper\"><span>world</span></div></html>");
    assert_eq!(
        render(tokens, &tabs(80)),
        "<html>\n\thello\n\t<div class=\"wrapper\">\n\t\t<span>\n\t\t\tworld\n\t\t</span>\n\t</div>\n</html>\n"
    );
}

#[test]
fn space_style_indents_with_one_space_per_level() {
    let tokens = tokens_of("<a><b>c</b></a>");
    assert_eq!(render(tokens, &spaces(80)), "<a>\n <b>\n  c\n </b>\n</a>\n");
}

#[test]
fn no_tokens_give_no_text() {
    assert_eq!(render(vec![], &tabs(80)), "");
}

#[test]
fn character_data_is_kept_verbatim() {
    assert_eq!(render(vec![chars("a < b &amp;\n  c")], &tabs(80)), "a < b &amp;\n  c\n");
}

#[test]
fn depth_of_character_data_counts_open_start_tags() {
    let tokens = vec![
        start_tag("a", vec![], false),
        start_tag("b", vec![], false),
        end_tag("b"),
        chars("x"),
        start_tag("c", vec![], false),
        chars("y"),
        end_tag("c"),
        end_tag("a"),
        chars("z"),
    ];
    assert_eq!(
        render(tokens, &tabs(80)),
        "<a>\n\t<b>\n\t</b>\n\tx\n\t<c>\n\t\ty\n\t</c>\n</a>\nz\n"
    );
}

#[test]
fn self_closing_tag_opens_a_level_too() {
    let tokens = vec![start_tag("br", vec![], true), chars("x")];
    assert_eq!(render(tokens, &tabs(80)), "<br/>\n\tx\n");
}

#[test]
fn negative_depth_is_not_indented() {
    let tokens = vec![end_tag("a"), chars("x"), start_tag("b", vec![], false), chars("y"), start_tag("c", vec![], false), chars("z")];
    assert_eq!(render(tokens, &tabs(80)), "</a>\nx\n<b>\ny\n<c>\n\tz\n");
}

#[test]
fn attributes_that_fit_stay_on_the_line() {
    // id="ab" c="d" takes 13 bytes.
    let tokens = vec![start_tag("p", vec![attr("id", "ab"), attr("c", "d")], false)];
    assert_eq!(render(tokens, &tabs(13)), "<p id=\"ab\" c=\"d\">\n");
}

#[test]
fn attributes_one_byte_too_long_take_a_line_each() {
    let tokens = vec![start_tag("p", vec![attr("id", "ab"), attr("c", "d")], false)];
    assert_eq!(render(tokens, &tabs(12)), "<p\n\tid=\"ab\"\n\tc=\"d\">\n");
}

#[test]
fn broken_attributes_stand_one_level_deeper_than_their_tag() {
    let tokens = vec![
        start_tag("a", vec![], false),
        start_tag("b", vec![attr("x", "1"), attr("y", "2")], true),
    ];
    assert_eq!(render(tokens, &spaces(0)), "<a>\n <b\n  x=\"1\"\n  y=\"2\"/>\n");
}

#[test]
fn length_counts_the_spaces_between_attributes() {
    // a="" b="" c="" takes 14 bytes, 12 of them in the attributes.
    let tokens = vec![start_tag("p", vec![attr("a", ""), attr("b", ""), attr("c", "")], false)];
    assert_eq!(render(tokens.clone(), &tabs(14)), "<p a=\"\" b=\"\" c=\"\">\n");
    assert_eq!(render(tokens, &tabs(13)), "<p\n\ta=\"\"\n\tb=\"\"\n\tc=\"\">\n");
}

#[test]
fn length_is_counted_in_bytes_of_utf8() {
    // é="越" takes 2 + 2 + 3 + 1 = 8 bytes in 5 characters.
    let tokens = vec![start_tag("p", vec![attr("é", "越")], false)];
    assert_eq!(render(tokens.clone(), &tabs(8)), "<p é=\"越\">\n");
    assert_eq!(render(tokens, &tabs(7)), "<p\n\té=\"越\">\n");
}

#[test]
fn negative_line_length_breaks_any_attributes() {
    let tokens = vec![start_tag("p", vec![attr("a", "")], false), start_tag("q", vec![], false)];
    assert_eq!(render(tokens, &tabs(-1)), "<p\n\ta=\"\">\n\t<q>\n");
}

#[test]
fn tag_without_attributes_has_no_gap() {
    assert_eq!(render(vec![start_tag("p", vec![], false)], &tabs(0)), "<p>\n");
    assert_eq!(render(vec![start_tag("p", vec![], true)], &tabs(0)), "<p/>\n");
}

#[test]
fn self_closing_rendering_ends_in_slash_bracket() {
    for max in [0, 80] {
        let text = render(vec![start_tag("img", vec![attr("src", "a.png"), attr("alt", "")], true)], &tabs(max));
        assert!(text.ends_with("/>\n"));
    }
    assert_eq!(
        render(vec![start_tag("img", vec![attr("src", "a.png")], true)], &tabs(80)),
        "<img src=\"a.png\"/>\n"
    );
}

#[test]
fn duplicate_attributes_are_kept_in_order() {
    let tokens = tokens_of("<a b=1 b=2 a=3>");
    assert_eq!(render(tokens, &tabs(80)), "<a b=\"1\" b=\"2\" a=\"3\">\n");
}

#[test]
fn attributes_survive_formatting_and_tokenizing_again() {
    let tag = start_tag("div", vec![attr("class", "a b"), attr("=x", ""), attr("data-q", "it's <ok>")], true);
    let expected = attributes_of(&tag);
    for max in [0, 80] {
        let text = render(vec![tag.clone()], &tabs(max));
        let again = tokens_of(&text);
        assert_eq!(attributes_of(&again[0]), expected);
        match &again[0] {
            LexerToken::StartTag(t) => {
                assert_eq!(t.tag_name, "div");
                assert!(t.self_closing);
            }
            _ => panic!("no start tag"),
        }
    }
}

#[test]
fn double_quote_in_a_value_does_not_survive() {
    let tag = start_tag("a", vec![attr("b", "x\"y")], false);
    let text = render(vec![tag.clone()], &tabs(80));
    assert_eq!(text, "<a b=\"x\"y\">\n");
    let again = tokens_of(&text);
    assert_eq!(attributes_of(&again[0]), vec![("b".to_string(), "x".to_string()), ("y\"".to_string(), "".to_string())]);
}

#[test]
fn formatting_without_tokens_is_a_fixed_point() {
    for content in ["", "<", "</ 1>", "<<<"] {
        let once = render(tokens_of(content), &tabs(80));
        assert_eq!(once, "");
        let twice = render(tokens_of(&once), &tabs(80));
        assert_eq!(twice, once);
    }
}

#[test]
fn formatting_again_adds_lines_for_the_line_breaks() {
    let once = render(tokens_of("<a>b</a>"), &tabs(80));
    assert_eq!(once, "<a>\n\tb\n</a>\n");
    let twice = render(tokens_of(&once), &tabs(80));
    assert_eq!(twice, "<a>\n\t\n\tb\n\n</a>\n\n\n");
}

#[test]
fn format_continues_from_the_depth_it_left() {
    let config = tabs(80);
    let mut formatter = Formatter::new(vec![start_tag("a", vec![], false), chars("x")], &config);
    assert_eq!(formatter.format(), "<a>\n\tx\n");
    assert!(formatter.can_format());
    assert_eq!(formatter.format(), "\t<a>\n\t\tx\n");
}
