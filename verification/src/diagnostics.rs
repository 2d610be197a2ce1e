//! From a checker's error output to a diagnostic anchored in the document.

use vstd::prelude::*;
use crate::position::{span_on_line, Span};
use crate::text::{
    glyphs, glyphs_of, lemma_glyphs_spell_text, lemma_trim_bounds, lines_of, lines_view,
    same_values, split_lines, string_of, strings_view, trim_line, trim_start, trimmed, values_of,
    Glyph,
};

verus! {

/// How grave a diagnostic is.
#[derive(Clone, Copy, Debug, PartialEq, Eq, Structural)]
pub enum Severity {
    Error,
    Warning,
    Information,
    Hint,
}

/// A finding anchored to a span of the document.
#[derive(Clone, Debug)]
pub struct Diagnostic {
    pub range: Span,
    pub severity: Severity,
    pub source: String,
    pub message: String,
}

/// What a [`Diagnostic`] says, as plain values.
pub struct Finding {
    pub range: Span,
    pub severity: Severity,
    pub source: Seq<char>,
    pub message: Seq<char>,
}

impl View for Diagnostic {
    type V = Finding;

    open spec fn view(&self) -> Finding {
        Finding {
            range: self.range,
            severity: self.severity,
            source: self.source@,
            message: self.message@,
        }
    }
}

/// The views of a vector of diagnostics.
pub open spec fn findings(diagnostics: Seq<Diagnostic>) -> Seq<Finding> {
    Seq::new(diagnostics.len(), |i: int| diagnostics[i]@)
}

/// The glyphs of each of a list of lines.
pub open spec fn glyph_lines(lines: Seq<Seq<char>>) -> Seq<Seq<Glyph>> {
    Seq::new(lines.len(), |i: int| glyphs_of(lines[i]))
}

/// The tag that marks a diagnostic as coming from this service.
pub open spec fn source_tag() -> Seq<char> {
    "k-language-server"@
}

/// What every message starts with; the checker's raw output follows.
pub open spec fn message_prefix() -> Seq<char> {
    "Syntax error at: "@
}

/// How a line of checker output starts that is neither a column marker nor an
/// echo of the source.
pub open spec fn parse_marker() -> Seq<char> {
    seq!['\'', 'p', 'a', 'r', 's', 'e']
}

/// The lines of the checker's output: the pieces between its line feeds,
/// where a line feed at the very end starts no further line.
pub open spec fn output_lines(output: Seq<Glyph>) -> Seq<Seq<Glyph>> {
    let lines = lines_of(output);
    if lines.last().len() == 0 {
        lines.drop_last()
    } else {
        lines
    }
}

/// A line that points at a column: trimmed, it begins with `^`.
pub open spec fn is_caret_line(line: Seq<Glyph>) -> bool {
    trimmed(line).len() > 0 && trimmed(line)[0].value == '^'
}

/// A line that carries the checker's own marker: trimmed, it begins with `'parse`.
pub open spec fn is_marker_line(line: Seq<Glyph>) -> bool {
    &&& trimmed(line).len() >= parse_marker().len()
    &&& values_of(trimmed(line).subrange(0, parse_marker().len() as int)) == parse_marker()
}

/// A line that echoes the offending source line: any line that is neither of
/// the other two kinds.
pub open spec fn is_echo_line(line: Seq<Glyph>) -> bool {
    !is_caret_line(line) && !is_marker_line(line)
}

/// The index of the first `^` at or after `from`; the length of the line where
/// there is none.
pub open spec fn first_caret(line: Seq<Glyph>, from: int) -> int
    decreases line.len() - from,
{
    if 0 <= from < line.len() && line[from].value != '^' {
        first_caret(line, from + 1)
    } else {
        from
    }
}

/// The index of the first document line at or after `from` whose trimmed text
/// is `wanted`; the number of lines where there is none.
pub open spec fn first_match(doc_lines: Seq<Seq<Glyph>>, wanted: Seq<char>, from: int) -> int
    decreases doc_lines.len() - from,
{
    if 0 <= from < doc_lines.len() && values_of(trimmed(doc_lines[from])) != wanted {
        first_match(doc_lines, wanted, from + 1)
    } else {
        from
    }
}

/// The document line that an echo line names: the first whose trimmed text
/// equals the trimmed echo, or line 0 where none does.
pub open spec fn echoed_line(doc_lines: Seq<Seq<Glyph>>, echo: Seq<Glyph>) -> int {
    let found = first_match(doc_lines, values_of(trimmed(echo)), 0);
    if found < doc_lines.len() {
        found
    } else {
        0
    }
}

/// The column that the output reports: where the `^` stands in the last caret
/// line, or 0 where the output has no caret line.
pub open spec fn reported_column(lines: Seq<Seq<Glyph>>) -> int
    decreases lines.len(),
{
    if lines.len() == 0 {
        0
    } else if is_caret_line(lines.last()) {
        first_caret(lines.last(), 0)
    } else {
        reported_column(lines.drop_last())
    }
}

/// The line that the output reports: the document line that the last echo
/// line names, or 0 where the output has no echo line.
pub open spec fn reported_line(lines: Seq<Seq<Glyph>>, doc_lines: Seq<Seq<Glyph>>) -> int
    decreases lines.len(),
{
    if lines.len() == 0 {
        0
    } else if is_echo_line(lines.last()) {
        echoed_line(doc_lines, lines.last())
    } else {
        reported_line(lines.drop_last(), doc_lines)
    }
}

/// The one diagnostic that stands for a rejected document: an error, one
/// character wide, at the reported line and column, with the raw output in
/// its message.
pub open spec fn translation(output: Seq<Glyph>, doc_lines: Seq<Seq<Glyph>>) -> Finding {
    let line = reported_line(output_lines(output), doc_lines);
    let column = reported_column(output_lines(output));
    Finding {
        range: span_on_line(line, column, column + 1),
        severity: Severity::Error,
        source: source_tag(),
        message: message_prefix() + values_of(output),
    }
}

/// The first `^` is found within the line wherever the line holds one.
proof fn lemma_first_caret_bounds(line: Seq<Glyph>, from: int)
    requires
        0 <= from <= line.len(),
    ensures
        from <= first_caret(line, from) <= line.len(),
        forall|i: int|
            from <= i < line.len() && line[i].value == '^' ==> first_caret(line, from) <= i,
    decreases line.len() - from,
{
    if from < line.len() && line[from].value != '^' {
        lemma_first_caret_bounds(line, from + 1);
    }
}

/// Decides [`is_caret_line`] and [`is_marker_line`] for a line given trimmed.
fn line_kind(content: &Vec<Glyph>) -> (kind: (bool, bool))
    ensures
        kind.0 == (content@.len() > 0 && content@[0].value == '^'),
        kind.1 == (content@.len() >= parse_marker().len() && values_of(
            content@.subrange(0, parse_marker().len() as int),
        ) == parse_marker()),
{
    let caret = content.len() > 0 && content[0].value == '^';
    let marker = content.len() >= 6 && content[0].value == '\'' && content[1].value == 'p'
        && content[2].value == 'a' && content[3].value == 'r' && content[4].value == 's'
        && content[5].value == 'e';
    proof {
        if content@.len() >= 6 {
            let head = values_of(content@.subrange(0, 6));
            if marker {
                assert(head =~= parse_marker());
            } else {
                assert(head[0] == content@[0].value);
                assert(head[1] == content@[1].value);
                assert(head[2] == content@[2].value);
                assert(head[3] == content@[3].value);
                assert(head[4] == content@[4].value);
                assert(head[5] == content@[5].value);
            }
        }
    }
    (caret, marker)
}

/// The document line that `echo`, given trimmed, names.
fn find_echoed_line(trimmed_doc: &Vec<Vec<Glyph>>, echo: &Vec<Glyph>) -> (found: usize)
    ensures
        forall|doc_lines: Seq<Seq<Glyph>>, raw: Seq<Glyph>|
            doc_lines.len() == trimmed_doc.len() && trimmed(raw) == echo@ && (forall|i: int|
                0 <= i < doc_lines.len() ==> trimmed(#[trigger] doc_lines[i])
                    == trimmed_doc@[i]@) ==> found == #[trigger] echoed_line(doc_lines, raw),
{
    let mut i: usize = 0;
    while i < trimmed_doc.len()
        invariant
            i <= trimmed_doc.len(),
            forall|doc_lines: Seq<Seq<Glyph>>|
                doc_lines.len() == trimmed_doc.len() && (forall|j: int|
                    0 <= j < doc_lines.len() ==> trimmed(#[trigger] doc_lines[j])
                        == trimmed_doc@[j]@) ==> #[trigger] first_match(
                    doc_lines,
                    values_of(echo@),
                    0,
                ) == first_match(doc_lines, values_of(echo@), i as int),
        decreases trimmed_doc.len() - i,
    {
        if same_values(&trimmed_doc[i], echo) {
            return i;
        }
        i += 1;
    }
    0
}

/// Folds the checker's error output into one diagnostic. A line that, trimmed,
/// begins with `^` gives the column: the place of the first `^` in that line
/// as the checker wrote it. Any other line, but one that begins with
/// `'parse`, is taken for an echo of the offending source line and gives the
/// line number: the first of `doc_lines` whose trimmed text equals the
/// trimmed echo, or 0 where none does. Later lines override earlier ones, and
/// output that yields neither leaves the diagnostic at line 0, column 0.
pub fn translate(output: &Vec<Glyph>, doc_lines: &Vec<Vec<Glyph>>) -> (diagnostic: Diagnostic)
    ensures
        diagnostic@ == translation(output@, lines_view(doc_lines@)),
{
    let ghost doc = lines_view(doc_lines@);
    let mut trimmed_doc: Vec<Vec<Glyph>> = Vec::new();
    let mut d: usize = 0;
    while d < doc_lines.len()
        invariant
            d <= doc_lines.len(),
            doc == lines_view(doc_lines@),
            trimmed_doc.len() == d,
            forall|j: int| 0 <= j < d ==> trimmed(#[trigger] doc[j]) == trimmed_doc@[j]@,
        decreases doc_lines.len() - d,
    {
        trimmed_doc.push(trim_line(&doc_lines[d]));
        d += 1;
    }
    let mut lines = split_lines(output);
    let ghost split = lines_view(lines@);
    if lines[lines.len() - 1].len() == 0 {
        lines.pop();
        proof {
            assert(lines_view(lines@) =~= split.drop_last());
        }
    }
    let ghost all = lines_view(lines@);
    assert(all == output_lines(output@));
    let mut character: usize = 0;
    let mut line_number: usize = 0;
    let mut n: usize = 0;
    while n < lines.len()
        invariant
            n <= lines.len(),
            all == lines_view(lines@),
            doc.len() == trimmed_doc.len(),
            forall|j: int| 0 <= j < doc.len() ==> trimmed(#[trigger] doc[j]) == trimmed_doc@[j]@,
            character == reported_column(all.take(n as int)),
            line_number == reported_line(all.take(n as int), doc),
            character < usize::MAX,
        decreases lines.len() - n,
    {
        let line = &lines[n];
        proof {
            assert(all.take(n + 1).drop_last() =~= all.take(n as int));
            assert(all.take(n + 1).last() == line@);
        }
        let content = trim_line(line);
        let (caret, marker) = line_kind(&content);
        if caret {
            let mut column: usize = 0;
            while column < line.len() && line[column].value != '^'
                invariant
                    column <= line.len(),
                    first_caret(line@, 0) == first_caret(line@, column as int),
                decreases line.len() - column,
            {
                column += 1;
            }
            proof {
                lemma_first_caret_bounds(line@, 0);
                lemma_trim_bounds(line@);
                assert(trimmed(line@)[0] == line@[trim_start(line@)]);
            }
            character = column;
        } else if !marker {
            line_number = find_echoed_line(&trimmed_doc, &content);
        }
        n += 1;
    }
    proof {
        assert(all.take(n as int) =~= all);
        assert(output@.subrange(0, output@.len() as int) =~= output@);
    }
    let raw = string_of(output, 0, output.len());
    Diagnostic {
        range: Span::on_line(line_number, character, character + 1),
        severity: Severity::Error,
        source: String::from_str("k-language-server"),
        message: String::from_str("Syntax error at: ").concat(raw.as_str()),
    }
}

/// The diagnostics for a document that the checker rejected: the one
/// diagnostic that [`translate`] folds the checker's error output into, with
/// the characters classed as Unicode classes them. `doc_lines` are the lines
/// of the document; they are compared trimmed.
pub fn parse_diagnostics_from_stderr(stderr_output: &str, doc_lines: &Vec<String>) -> (diagnostics:
    Vec<Diagnostic>)
    ensures
        diagnostics.len() == 1,
        diagnostics[0]@ == translation(
            glyphs_of(stderr_output@),
            glyph_lines(strings_view(doc_lines@)),
        ),
        diagnostics[0]@.message == message_prefix() + stderr_output@,
{
    let mut doc: Vec<Vec<Glyph>> = Vec::new();
    let mut d: usize = 0;
    while d < doc_lines.len()
        invariant
            d <= doc_lines.len(),
            doc.len() == d,
            forall|j: int| 0 <= j < d ==> (#[trigger] doc@[j])@ == glyphs_of(doc_lines@[j]@),
        decreases doc_lines.len() - d,
    {
        doc.push(glyphs(doc_lines[d].as_str()));
        d += 1;
    }
    proof {
        assert(lines_view(doc@) =~= glyph_lines(strings_view(doc_lines@)));
        lemma_glyphs_spell_text(stderr_output@, Seq::empty());
    }
    let mut diagnostics: Vec<Diagnostic> = Vec::new();
    diagnostics.push(translate(&glyphs(stderr_output), &doc));
    diagnostics
}

/// How a run of the checker ended.
#[derive(Clone, Debug)]
pub enum CheckerOutcome {
    /// The checker could not be started, or did not come back.
    Unavailable,
    /// The checker accepted the document.
    Accepted,
    /// The checker rejected the document; this is what it wrote to its error stream.
    Rejected(String),
}

/// What a run of the checker leaves to publish: nothing at all where the
/// checker was unavailable, an empty list where it accepted the document, and
/// the translation of its output where it rejected it.
pub open spec fn verdict(outcome: CheckerOutcome, doc_lines: Seq<Seq<char>>) -> Option<
    Seq<Finding>,
> {
    match outcome {
        CheckerOutcome::Unavailable => None,
        CheckerOutcome::Accepted => Some(Seq::empty()),
        CheckerOutcome::Rejected(output) => Some(
            seq![translation(glyphs_of(output@), glyph_lines(doc_lines))],
        ),
    }
}

/// The findings of an optional list of diagnostics.
pub open spec fn published(diagnostics: Option<Vec<Diagnostic>>) -> Option<Seq<Finding>> {
    match diagnostics {
        Some(list) => Some(findings(list@)),
        None => None,
    }
}

/// The diagnostics to publish after a run of the checker against a document
/// whose trimmed lines are `doc_lines`. `None` means that this pass publishes
/// nothing; a list, even an empty one, replaces what was published before.
pub fn get_diagnostics(outcome: &CheckerOutcome, doc_lines: &Vec<String>) -> (diagnostics: Option<
    Vec<Diagnostic>,
>)
    ensures
        published(diagnostics) == verdict(*outcome, strings_view(doc_lines@)),
{
    match outcome {
        CheckerOutcome::Unavailable => None,
        CheckerOutcome::Accepted => {
            let list: Vec<Diagnostic> = Vec::new();
            proof {
                assert(findings(list@) =~= Seq::<Finding>::empty());
            }
            Some(list)
        },
        CheckerOutcome::Rejected(output) => {
            let list = parse_diagnostics_from_stderr(output.as_str(), doc_lines);
            proof {
                assert(findings(list@) =~= seq![
                    translation(glyphs_of(output@), glyph_lines(strings_view(doc_lines@))),
                ]);
            }
            Some(list)
        },
    }
}

} // verus!
