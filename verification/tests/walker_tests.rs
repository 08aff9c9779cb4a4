use html_formatter::config::Config;
use html_formatter::models::{Diagnostic, DiagnosticKind, LocationPos};
use html_formatter::walker::{FormatError, Formatted, Walker};

fn clean(text: &str) -> Formatted {
    Formatted { text: text.to_string(), diagnostics: vec![] }
}

#[test]
fn format_file_tokenizes_and_renders() {
    let walker = Walker::new(Config::new(vec![]));
    assert_eq!(
        walker.format_file("<ul><li class=\"x\">one</li></ul>"),
        Ok(clean("<ul>\n\t<li class=\"x\">\n\t\tone\n\t</li>\n</ul>\n"))
    );
}

#[test]
fn format_file_follows_the_config() {
    let config = Config::new(vec![]).set_indent_style(Some("space".to_string())).set_max_line_length(5);
    let walker = Walker::new(config);
    assert_eq!(
        walker.format_file("<p><a href=x id=y>t</a></p>"),
        Ok(clean("<p>\n <a\n  href=\"x\"\n  id=\"y\">\n  t\n </a>\n</p>\n"))
    );
}

#[test]
fn format_file_fails_where_the_tokenizer_stalls() {
    let walker = Walker::new(Config::new(vec![]));
    assert_eq!(
        walker.format_file("<p>\n<br />"),
        Err(FormatError::Stalled { position: LocationPos { line: 2, column: 4 } })
    );
}

#[test]
fn run_formats_each_document() {
    let walker = Walker::new(Config::new(vec![]));
    let documents = vec!["<a>".to_string(), "".to_string(), "b".to_string()];
    assert_eq!(walker.run(&documents), Ok(vec![clean("<a>\n"), clean(""), clean("b\n")]));
    assert_eq!(walker.run(&vec![]), Ok(vec![]));
}

#[test]
fn run_stops_at_the_first_failure() {
    let walker = Walker::new(Config::new(vec![]));
    let documents = vec!["<a>".to_string(), "<a /".to_string(), "<b /".to_string()];
    assert_eq!(
        walker.run(&documents),
        Err((1, FormatError::Stalled { position: LocationPos { line: 1, column: 3 } }))
    );
}

#[test]
fn format_file_hands_the_diagnostics_on() {
    let walker = Walker::new(Config::new(vec![]));
    assert_eq!(
        walker.format_file("<div =foo>"),
        Ok(Formatted {
            text: "<div =foo=\"\">\n".to_string(),
            diagnostics: vec![Diagnostic {
                kind: DiagnosticKind::AttributeNameStartsWithEquals,
                position: LocationPos { line: 1, column: 5 },
            }],
        })
    );
}

#[test]
fn walker_keeps_its_files() {
    let walker = Walker::new(Config::new(vec!["a.html".to_string(), "b.html".to_string()]));
    assert_eq!(walker.files(), &vec!["a.html".to_string(), "b.html".to_string()]);
}
