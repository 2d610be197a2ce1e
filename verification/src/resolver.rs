//! From a cursor to the definition of the symbol under it.

use vstd::prelude::*;
use crate::position::{Position, Span};
use crate::scanner::{definitions, scan};
use crate::text::{chars_of, glyphs, lines_view, split_lines, string_of, text_lines, Glyph};
use crate::token::{token_at, token_bounds};

verus! {

/// Line `n` of a document; the empty line where the document has no such line.
pub open spec fn line_at(lines: Seq<Seq<Glyph>>, n: int) -> Seq<Glyph> {
    if 0 <= n < lines.len() {
        lines[n]
    } else {
        Seq::empty()
    }
}

/// The token under the cursor at `position`.
pub open spec fn symbol_at(lines: Seq<Seq<Glyph>>, position: Position) -> Seq<char> {
    token_at(line_at(lines, position.line as int), position.character as int)
}

/// The definition of the symbol under the cursor: the span recorded for the
/// token at `position`, or nothing where that token is empty or not defined.
pub open spec fn definition_at(lines: Seq<Seq<Glyph>>, position: Position) -> Option<Span> {
    let name = symbol_at(lines, position);
    if definitions(lines).contains_key(name) {
        Some(definitions(lines)[name])
    } else {
        None
    }
}

/// The token under the cursor at `position`, as a string and as characters.
pub fn symbol_under_cursor(lines: &Vec<Vec<Glyph>>, position: Position) -> (symbol: (
    String,
    Vec<char>,
))
    ensures
        symbol.0@ == symbol_at(lines_view(lines@), position),
        symbol.1@ == symbol_at(lines_view(lines@), position),
{
    if position.line < lines.len() {
        let line = &lines[position.line];
        let (start, end) = token_bounds(line, position.character);
        (string_of(line, start, end), chars_of(line, start, end))
    } else {
        proof {
            let none = Seq::<Glyph>::empty();
            assert(token_at(none, position.character as int) =~= Seq::<char>::empty());
        }
        (String::new(), Vec::new())
    }
}

/// Resolves the symbol under the cursor against the definitions among
/// `lines`. A line beyond the end of the document counts as empty; a cursor
/// that touches no token, or a token that is not defined, gives `None`.
pub fn resolve_in_lines(lines: &Vec<Vec<Glyph>>, position: Position) -> (found: Option<Span>)
    ensures
        found == definition_at(lines_view(lines@), position),
{
    let index = scan(lines);
    let (name, _) = symbol_under_cursor(lines, position);
    index.get(name.as_str())
}

/// Resolves the symbol under the cursor against the definitions of `text`.
/// A line beyond the end of the document counts as empty; a cursor that
/// touches no token, or a token that is not defined, gives `None`.
pub fn resolve(text: &str, position: Position) -> (found: Option<Span>)
    ensures
        found == definition_at(text_lines(text@), position),
{
    let lines = split_lines(&glyphs(text));
    resolve_in_lines(&lines, position)
}

} // verus!
