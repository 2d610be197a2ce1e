use k_language_server::text::{
    chars_of, classify, glyphs, same_values, split_lines, string_of, trim_bounds, trim_line,
    trimmed_lines, Glyph,
};
use k_language_server::token::{extract_variable_at_position, token_bounds};

/// Glyphs marked by hand: upper-case letters count as identifier characters,
/// dots as whitespace, whatever Unicode says of them.
fn marked(text: &str) -> Vec<Glyph> {
    text.chars()
        .map(|c| Glyph { value: c, word: c.is_ascii_uppercase(), blank: c == '.' })
        .collect()
}

fn spell(glyphs: &[Glyph]) -> String {
    glyphs.iter().map(|glyph| glyph.value).collect()
}

#[test]
fn token_under_cursor_is_the_whole_word() {
    let line = "total = price + tax_1";
    assert_eq!(extract_variable_at_position(line, 0), "total");
    assert_eq!(extract_variable_at_position(line, 2), "total");
    assert_eq!(extract_variable_at_position(line, 4), "total");
    assert_eq!(extract_variable_at_position(line, 8), "price");
    assert_eq!(extract_variable_at_position(line, 12), "price");
    assert_eq!(extract_variable_at_position(line, 16), "tax_1");
    assert_eq!(extract_variable_at_position(line, 20), "tax_1");
}

#[test]
fn token_is_empty_on_other_characters() {
    let line = "total = price + tax_1";
    assert_eq!(extract_variable_at_position(line, 5), "");
    assert_eq!(extract_variable_at_position(line, 6), "");
    assert_eq!(extract_variable_at_position(line, 7), "");
    assert_eq!(extract_variable_at_position(line, 14), "");
    assert_eq!(extract_variable_at_position("foo: 1", 3), "");
}

#[test]
fn token_at_line_end_is_the_last_word() {
    assert_eq!(extract_variable_at_position("y: x", 4), "x");
    assert_eq!(extract_variable_at_position("total", 5), "total");
    assert_eq!(extract_variable_at_position("y: x ", 5), "");
    assert_eq!(extract_variable_at_position("y: x;", 5), "");
}

#[test]
fn token_at_position_zero() {
    assert_eq!(extract_variable_at_position("x: 1", 0), "x");
    assert_eq!(extract_variable_at_position(": 1", 0), "");
    assert_eq!(extract_variable_at_position("", 0), "");
}

#[test]
fn token_beyond_the_line_is_empty() {
    assert_eq!(extract_variable_at_position("abc", 4), "");
    assert_eq!(extract_variable_at_position("abc", 100), "");
    assert_eq!(extract_variable_at_position("", 1), "");
    assert_eq!(extract_variable_at_position("abc", usize::MAX), "");
}

#[test]
fn token_counts_characters_not_bytes() {
    let line = "\u{e9}t\u{e9} = na\u{ef}ve";
    assert_eq!(extract_variable_at_position(line, 1), "\u{e9}t\u{e9}");
    assert_eq!(extract_variable_at_position(line, 6), "na\u{ef}ve");
    assert_eq!(extract_variable_at_position(line, 10), "na\u{ef}ve");
    assert_eq!(extract_variable_at_position(line, 11), "na\u{ef}ve");
    assert_eq!(extract_variable_at_position(line, 4), "");
}

#[test]
fn token_is_a_maximal_piece_of_the_line() {
    let line = "a1_b+c2 (d)";
    let chars: Vec<char> = line.chars().collect();
    let is_identifier = |c: char| c == '_' || c.is_alphanumeric();
    for position in 0..=chars.len() + 2 {
        let token = extract_variable_at_position(line, position);
        assert!(line.contains(token));
        assert!(token.chars().all(is_identifier));
        if !token.is_empty() {
            let start = (0..=position)
                .find(|&s| chars[s..].iter().collect::<String>().starts_with(token)
                    && s + token.chars().count() >= position)
                .unwrap();
            let end = start + token.chars().count();
            assert!(start == 0 || !is_identifier(chars[start - 1]));
            assert!(end == chars.len() || !is_identifier(chars[end]));
        }
    }
}

#[test]
fn token_stops_at_every_separator() {
    for separator in ['-', ' ', ':', '+', '(', ')', '.', '\t', '^', '\''] {
        let line = format!("ab{}cd", separator);
        assert_eq!(extract_variable_at_position(&line, 1), "ab");
        assert_eq!(extract_variable_at_position(&line, 2), "");
        assert_eq!(extract_variable_at_position(&line, 3), "cd");
    }
    assert_eq!(extract_variable_at_position("ab_cd", 2), "ab_cd");
    assert_eq!(extract_variable_at_position("ab7cd", 2), "ab7cd");
}

#[test]
fn lines_are_split_on_line_feeds() {
    let lines = split_lines(&glyphs("x: 1\ny: x + 2\n"));
    let lines: Vec<String> = lines.iter().map(|line| spell(line)).collect();
    assert_eq!(lines, vec!["x: 1", "y: x + 2", ""]);
    assert_eq!(split_lines(&glyphs("")).len(), 1);
    assert_eq!(split_lines(&glyphs("\n")).len(), 2);
    assert_eq!(split_lines(&glyphs("a\n\nb")).len(), 3);
    assert_eq!(split_lines(&glyphs("no line feed")).len(), 1);
    assert_eq!(split_lines(&glyphs("tail\r\n"))[0].len(), 5);
}

#[test]
fn characters_are_classified_one_by_one() {
    assert_eq!(classify('a'), Glyph { value: 'a', word: true, blank: false });
    assert_eq!(classify('Z'), Glyph { value: 'Z', word: true, blank: false });
    assert_eq!(classify('7'), Glyph { value: '7', word: true, blank: false });
    assert_eq!(classify('_'), Glyph { value: '_', word: true, blank: false });
    assert_eq!(classify('\u{e9}'), Glyph { value: '\u{e9}', word: true, blank: false });
    assert_eq!(classify(':'), Glyph { value: ':', word: false, blank: false });
    assert_eq!(classify('-'), Glyph { value: '-', word: false, blank: false });
    assert_eq!(classify('^'), Glyph { value: '^', word: false, blank: false });
    assert_eq!(classify(' '), Glyph { value: ' ', word: false, blank: true });
    assert_eq!(classify('\t'), Glyph { value: '\t', word: false, blank: true });
    assert_eq!(classify('\n'), Glyph { value: '\n', word: false, blank: true });
    assert_eq!(classify('\u{a0}'), Glyph { value: '\u{a0}', word: false, blank: true });
    let all = glyphs("a :");
    assert_eq!(all, vec![classify('a'), classify(' '), classify(':')]);
    assert!(glyphs("").is_empty());
}

#[test]
fn glyphs_spell_their_text() {
    let all = glyphs("h\u{e9}llo w");
    assert_eq!(string_of(&all, 0, all.len()), "h\u{e9}llo w");
    assert_eq!(string_of(&all, 1, 4), "\u{e9}ll");
    assert_eq!(string_of(&all, 3, 3), "");
    assert_eq!(chars_of(&all, 4, 7), vec!['o', ' ', 'w']);
    assert!(chars_of(&all, 0, 0).is_empty());
    assert!(same_values(&glyphs("abc"), &glyphs("abc")));
    assert!(!same_values(&glyphs("abc"), &glyphs("abd")));
    assert!(!same_values(&glyphs("abc"), &glyphs("ab")));
    assert!(same_values(&marked("AB"), &glyphs("AB")));
}

#[test]
fn token_bounds_follow_the_marks() {
    let line = marked("abCDe.FG");
    assert_eq!(token_bounds(&line, 2), (2, 4));
    assert_eq!(token_bounds(&line, 3), (2, 4));
    assert_eq!(token_bounds(&line, 4), (0, 0));
    assert_eq!(token_bounds(&line, 0), (0, 0));
    assert_eq!(token_bounds(&line, 6), (6, 8));
    assert_eq!(token_bounds(&line, 8), (6, 8));
    assert_eq!(token_bounds(&line, 9), (0, 0));
    assert_eq!(token_bounds(&marked("ab"), 2), (2, 2));
    assert_eq!(token_bounds(&marked(""), 0), (0, 0));
}

#[test]
fn trimming_follows_the_marks() {
    assert_eq!(trim_bounds(&marked("..a b..")), (2, 5));
    assert_eq!(trim_bounds(&marked("....")), (4, 4));
    assert_eq!(trim_bounds(&marked("")), (0, 0));
    assert_eq!(trim_bounds(&marked(" a ")), (0, 3));
    assert_eq!(spell(&trim_line(&marked(".a.b.."))), "a.b");
    assert_eq!(spell(&trim_line(&glyphs("\t a b \r"))), "a b");
}

#[test]
fn lines_are_trimmed_on_both_sides() {
    assert_eq!(trimmed_lines("  a b \n\tc\r\n\n   \nd"), vec!["a b", "c", "", "", "d"]);
    assert_eq!(trimmed_lines(""), vec![""]);
    assert_eq!(trimmed_lines(" \u{a0}x\u{2003} "), vec!["x"]);
}
