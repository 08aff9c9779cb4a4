use html_formatter::args::Args;
use html_formatter::config::Config;
use html_formatter::models::{
    Chars, DiagnosticKind, EndTag, IndentStyle, Location, LocationPos, StartTag, TagAttribute,
    Token,
};
use html_formatter::utils::{is_alphabet, is_whitespace};
use std::str::FromStr;

fn location() -> Location {
    Location { start: LocationPos { line: 1, column: 2 }, end: LocationPos { line: 3, column: 4 } }
}

#[test]
fn attribute_grows_by_one_character() {
    let mut attribute = TagAttribute { attribute_name: "i".to_string(), attribute_value: "".to_string() };
    attribute.append_to_attribute_name('d');
    attribute.append_to_attribute_value('é');
    attribute.append_to_attribute_value('1');
    assert_eq!(
        attribute,
        TagAttribute { attribute_name: "id".to_string(), attribute_value: "é1".to_string() }
    );
}

#[test]
fn start_tag_grows_and_closes() {
    let mut tag = StartTag { tag_name: "".to_string(), attributes: vec![], self_closing: false, loc: None };
    tag.append_to_tag_name('h');
    tag.append_to_tag_name('r');
    let attribute = TagAttribute { attribute_name: "a".to_string(), attribute_value: "b".to_string() };
    tag.append_to_attributes(attribute.clone());
    tag.append_to_attributes(attribute.clone());
    tag.mark_as_self_closing();
    tag.add_loc(location());
    assert_eq!(
        tag,
        StartTag {
            tag_name: "hr".to_string(),
            attributes: vec![attribute.clone(), attribute],
            self_closing: true,
            loc: Some(location()),
        }
    );
}

#[test]
fn end_tag_grows_and_closes() {
    let mut tag = EndTag { tag_name: "".to_string(), loc: None };
    tag.append_to_tag_name('p');
    tag.add_loc(location());
    assert_eq!(tag, EndTag { tag_name: "p".to_string(), loc: Some(location()) });
}

#[test]
fn chars_grow_and_close() {
    let mut chars = Chars { data: "a".to_string(), loc: None };
    chars.append_to_chars('\n');
    chars.add_loc(location());
    assert_eq!(chars, Chars { data: "a\n".to_string(), loc: Some(location()) });
}

#[test]
fn repeat_writes_the_unit_once_per_level() {
    assert_eq!(IndentStyle::Tab.repeat(3), "\t\t\t");
    assert_eq!(IndentStyle::Space.repeat(2), "  ");
    assert_eq!(IndentStyle::Tab.repeat(0), "");
}

#[test]
fn repeat_writes_nothing_below_zero() {
    assert_eq!(IndentStyle::Tab.repeat(-1), "");
    assert_eq!(IndentStyle::Space.repeat(i32::MIN), "");
}

#[test]
fn indent_style_is_read_from_its_name() {
    assert_eq!(IndentStyle::from_str("tab"), Ok(IndentStyle::Tab));
    assert_eq!(IndentStyle::from_str("space"), Ok(IndentStyle::Space));
    assert_eq!(IndentStyle::from_str("Tab"), Err("Not valid indent style"));
    assert_eq!(IndentStyle::from_str(""), Err("Not valid indent style"));
    assert_eq!(IndentStyle::parse("spaces"), Err("Not valid indent style"));
    assert_eq!(IndentStyle::parse("space"), Ok(IndentStyle::Space));
}

#[test]
fn default_indent_style_is_tab() {
    assert_eq!(IndentStyle::default(), IndentStyle::Tab);
}

#[test]
fn new_config_has_tabs_and_lines_of_80() {
    let config = Config::new(vec!["a.html".to_string()]);
    assert_eq!(config.indent_style, IndentStyle::Tab);
    assert_eq!(config.max_line_length, 80);
    assert_eq!(config.files, vec!["a.html".to_string()]);
}

#[test]
fn set_indent_style_falls_back_to_tab() {
    let config = Config::new(vec![]).set_indent_style(Some("space".to_string()));
    assert_eq!(config.indent_style, IndentStyle::Space);
    let config = config.set_indent_style(Some("wide".to_string()));
    assert_eq!(config.indent_style, IndentStyle::Tab);
    let config = Config::new(vec![]).set_indent_style(Some("space".to_string())).set_indent_style(None);
    assert_eq!(config.indent_style, IndentStyle::Tab);
    let config = Config::new(vec![]).set_indent_style(Some("tab".to_string()));
    assert_eq!(config.indent_style, IndentStyle::Tab);
}

#[test]
fn set_max_line_length_keeps_the_rest() {
    let config = Config::new(vec!["x".to_string()])
        .set_indent_style(Some("space".to_string()))
        .set_max_line_length(120);
    assert_eq!(config.max_line_length, 120);
    assert_eq!(config.indent_style, IndentStyle::Space);
    assert_eq!(config.files, vec!["x".to_string()]);
}

#[test]
fn args_become_a_config() {
    let args = Args {
        files: vec!["a".to_string(), "b".to_string()],
        indent_style: Some("space".to_string()),
        max_line_length: 100,
    };
    let config = args.config();
    assert_eq!(config.files, vec!["a".to_string(), "b".to_string()]);
    assert_eq!(config.indent_style, IndentStyle::Space);
    assert_eq!(config.max_line_length, 100);
}

#[test]
fn whitespace_is_the_unicode_white_space_property() {
    let mut count = 0;
    for code in 0..=0x10ffffu32 {
        if let Some(c) = char::from_u32(code) {
            assert_eq!(is_whitespace(c), c.is_whitespace());
            if is_whitespace(c) {
                count += 1;
            }
        }
    }
    assert_eq!(count, 25);
}

#[test]
fn letters_are_ascii_letters() {
    let mut count = 0;
    for code in 0..=0x10ffffu32 {
        if let Some(c) = char::from_u32(code) {
            assert_eq!(is_alphabet(c), c.is_ascii_alphabetic());
            if is_alphabet(c) {
                count += 1;
            }
        }
    }
    assert_eq!(count, 52);
}

#[test]
fn diagnostics_have_a_message() {
    assert_eq!(
        DiagnosticKind::AttributeNameStartsWithEquals.message(),
        "attribute name can't start with equals sign"
    );
    assert_eq!(DiagnosticKind::InvalidCharInAttributeName.message(), "invalid char in attribute name");
}
