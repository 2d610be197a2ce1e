use k_language_server::diagnostics::{
    get_diagnostics, parse_diagnostics_from_stderr, translate, CheckerOutcome, Severity,
};
use k_language_server::position::{Position, Span};
use k_language_server::text::Glyph;

/// Glyphs marked by hand: dots count as whitespace, and nothing else does.
fn marked(text: &str) -> Vec<Glyph> {
    text.chars()
        .map(|c| Glyph { value: c, word: c.is_ascii_uppercase(), blank: c == '.' })
        .collect()
}

fn span(line: usize, from: usize, to: usize) -> Span {
    Span::new(Position::new(line, from), Position::new(line, to))
}

fn lines(lines: &[&str]) -> Vec<String> {
    lines.iter().map(|line| line.to_string()).collect()
}

#[test]
fn caret_line_gives_the_column() {
    let output = "bad token\n    ^\n";
    let found = parse_diagnostics_from_stderr(output, &lines(&["bad token"]));
    assert_eq!(found.len(), 1);
    assert_eq!(found[0].range, span(0, 4, 5));
    assert_eq!(found[0].severity, Severity::Error);
    assert_eq!(found[0].source, "k-language-server");
    assert_eq!(found[0].message, "Syntax error at: bad token\n    ^\n");
}

#[test]
fn echo_line_gives_the_line_number() {
    let doc = lines(&["x: 1", "y: (", "z: 3", ""]);
    let found = parse_diagnostics_from_stderr("  y: (  \n     ^\n", &doc);
    assert_eq!(found.len(), 1);
    assert_eq!(found[0].range, span(1, 5, 6));
}

#[test]
fn echo_matches_the_first_equal_line() {
    let doc = lines(&["a", "dup", "b", "dup"]);
    let found = parse_diagnostics_from_stderr("dup\n ^", &doc);
    assert_eq!(found[0].range, span(1, 1, 2));
}

#[test]
fn echo_is_compared_trimmed() {
    let doc = lines(&["first", "  second\t", "third"]);
    let found = parse_diagnostics_from_stderr("\tsecond   \n^\n", &doc);
    assert_eq!(found[0].range, span(1, 0, 1));
}

#[test]
fn unmatched_echo_falls_back_to_line_zero() {
    let doc = lines(&["x: 1", "y: 2"]);
    let found = parse_diagnostics_from_stderr("nothing like it\n  ^\n", &doc);
    assert_eq!(found[0].range, span(0, 2, 3));
    let found = parse_diagnostics_from_stderr("y: 2\nnothing like it\n  ^\n", &doc);
    assert_eq!(found[0].range, span(0, 2, 3));
}

#[test]
fn marker_line_is_skipped() {
    let doc = lines(&["x: 1", "y: )", "'parse"]);
    let found = parse_diagnostics_from_stderr("y: )\n   ^\n'parse error\n", &doc);
    assert_eq!(found[0].range, span(1, 3, 4));
    let found = parse_diagnostics_from_stderr("y: )\n   ^\n   'parse\n", &doc);
    assert_eq!(found[0].range, span(1, 3, 4));
    let found = parse_diagnostics_from_stderr("y: )\n   ^\n'pars\n", &doc);
    assert_eq!(found[0].range, span(0, 3, 4));
}

#[test]
fn later_lines_override_earlier_ones() {
    let doc = lines(&["a", "b", "c"]);
    let found = parse_diagnostics_from_stderr("b\n ^\nc\n      ^\n", &doc);
    assert_eq!(found.len(), 1);
    assert_eq!(found[0].range, span(2, 6, 7));
    let found = parse_diagnostics_from_stderr("c\n      ^\nb\n", &doc);
    assert_eq!(found[0].range, span(1, 6, 7));
}

#[test]
fn output_without_structure_anchors_at_the_origin() {
    let doc = lines(&["x: 1", "y: 2"]);
    let found = parse_diagnostics_from_stderr("", &doc);
    assert_eq!(found.len(), 1);
    assert_eq!(found[0].range, span(0, 0, 1));
    assert_eq!(found[0].message, "Syntax error at: ");
    let found = parse_diagnostics_from_stderr("segmentation fault", &doc);
    assert_eq!(found[0].range, span(0, 0, 1));
    assert_eq!(found[0].message, "Syntax error at: segmentation fault");
    let found = parse_diagnostics_from_stderr("anything", &Vec::new());
    assert_eq!(found[0].range, span(0, 0, 1));
}

#[test]
fn final_line_feed_starts_no_line() {
    let doc = lines(&["x: 1", "bad token", ""]);
    let found = parse_diagnostics_from_stderr("bad token\n    ^\n", &doc);
    assert_eq!(found[0].range, span(1, 4, 5));
    let found = parse_diagnostics_from_stderr("bad token\n    ^\n\n", &doc);
    assert_eq!(found[0].range, span(2, 4, 5));
}

#[test]
fn caret_column_is_counted_in_the_raw_line() {
    let doc = lines(&["q"]);
    let found = parse_diagnostics_from_stderr("q\n\t\t^^^ here ^\n", &doc);
    assert_eq!(found[0].range, span(0, 2, 3));
    let found = parse_diagnostics_from_stderr("q\n^\n", &doc);
    assert_eq!(found[0].range, span(0, 0, 1));
    let found = parse_diagnostics_from_stderr("q\n\u{a0}\u{2003}^\n", &doc);
    assert_eq!(found[0].range, span(0, 2, 3));
}

#[test]
fn caret_inside_a_line_is_an_echo() {
    let doc = lines(&["a", "x ^ y"]);
    let found = parse_diagnostics_from_stderr("x ^ y\n", &doc);
    assert_eq!(found[0].range, span(1, 0, 1));
}

#[test]
fn carriage_returns_do_not_disturb() {
    let doc = lines(&["x: 1", "bad token"]);
    let found = parse_diagnostics_from_stderr("bad token\r\n    ^\r\n", &doc);
    assert_eq!(found[0].range, span(1, 4, 5));
}

#[test]
fn checker_outcomes_decide_what_is_published() {
    let doc = lines(&["bad token"]);
    assert!(get_diagnostics(&CheckerOutcome::Unavailable, &doc).is_none());
    assert_eq!(get_diagnostics(&CheckerOutcome::Accepted, &doc).unwrap().len(), 0);
    let rejected = CheckerOutcome::Rejected("bad token\n    ^\n".to_string());
    let found = get_diagnostics(&rejected, &doc).unwrap();
    assert_eq!(found.len(), 1);
    assert_eq!(found[0].range, span(0, 4, 5));
    assert_eq!(found[0].severity, Severity::Error);
    assert_eq!(found[0].source, "k-language-server");
    assert_eq!(found[0].message, "Syntax error at: bad token\n    ^\n");
}

#[test]
fn translation_follows_the_marks() {
    let doc = vec![marked("a"), marked("..b c.")];
    let found = translate(&marked(".b c..\n..^\n"), &doc);
    assert_eq!(found.range, span(1, 2, 3));
    assert_eq!(found.severity, Severity::Error);
    assert_eq!(found.source, "k-language-server");
    assert_eq!(found.message, "Syntax error at: .b c..\n..^\n");
    let found = translate(&marked(" b c\n ^\n"), &doc);
    assert_eq!(found.range, span(0, 0, 1));
    let found = translate(&marked("'parse\n.'parsed\n'pars"), &vec![marked("x"), marked("'pars")]);
    assert_eq!(found.range, span(1, 0, 1));
    let found = translate(&marked(""), &Vec::new());
    assert_eq!(found.range, span(0, 0, 1));
    assert_eq!(found.message, "Syntax error at: ");
}
