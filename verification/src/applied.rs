//! What a document reads once the edits of a rename are applied to it.

use vstd::prelude::*;
use crate::position::Position;
use crate::rename::{
    document_edits, edit_at, fits_positions, is_document_edit, is_line_edit, is_whole_token_at,
    lemma_document_edits, lemma_line_edits, line_edits, rename_edits, whole_line_edits,
    Replacement,
};
use crate::resolver::{definition_at, symbol_at};
use crate::scanner::{
    defines, definitions, is_symbol_name, last_definition, lemma_defining_line,
    lemma_definitions_lie_in_document,
};
use crate::text::{
    glyphs_of, is_classified, is_single_line, join_lines, lemma_glyphs_spell_text,
    lemma_lines_are_single, lemma_lines_of_join, text_lines, values_of, Glyph,
};
use crate::token::{lemma_run_end, lemma_run_end_at, run_end, token_at};

verus! {

/// The edit lies within one line of the document.
pub open spec fn edit_fits(lines: Seq<Seq<Glyph>>, edit: Replacement) -> bool {
    &&& edit.range.start.line == edit.range.end.line
    &&& edit.range.start.line < lines.len()
    &&& edit.range.start.character <= edit.range.end.character
    &&& edit.range.end.character <= lines[edit.range.start.line as int].len()
}

/// The lines after one edit: on its line, the characters of its span give way
/// to its new text. An edit that does not lie within one line of the document
/// changes nothing.
pub open spec fn apply_edit(lines: Seq<Seq<Glyph>>, edit: Replacement) -> Seq<Seq<Glyph>> {
    if edit_fits(lines, edit) {
        let n = edit.range.start.line as int;
        lines.update(
            n,
            lines[n].subrange(0, edit.range.start.character as int) + glyphs_of(edit.new_text)
                + lines[n].subrange(edit.range.end.character as int, lines[n].len() as int),
        )
    } else {
        lines
    }
}

/// The lines after a list of edits in reading order. The last edit is applied
/// first, so that the spans of the earlier ones still mean what they meant.
pub open spec fn apply_edits(lines: Seq<Seq<Glyph>>, edits: Seq<Replacement>) -> Seq<Seq<Glyph>>
    decreases edits.len(),
{
    if edits.len() == 0 {
        lines
    } else {
        apply_edits(apply_edit(lines, edits.last()), edits.drop_last())
    }
}

/// The text of a document after the rename at `position` has been applied.
pub open spec fn renamed_text(text: Seq<char>, position: Position, new_name: Seq<char>) -> Seq<
    char,
> {
    let lines = text_lines(text);
    values_of(join_lines(apply_edits(lines, rename_edits(lines, position, new_name))))
}

proof fn lemma_apply_concat(
    lines: Seq<Seq<Glyph>>,
    first: Seq<Replacement>,
    second: Seq<Replacement>,
)
    ensures
        apply_edits(lines, first + second) == apply_edits(apply_edits(lines, second), first),
    decreases second.len(),
{
    if second.len() == 0 {
        assert(first + second =~= first);
    } else {
        assert((first + second).last() == second.last());
        assert((first + second).drop_last() =~= first + second.drop_last());
        lemma_apply_concat(apply_edit(lines, second.last()), first, second.drop_last());
    }
}

proof fn lemma_apply_keeps_prefix(
    lines: Seq<Seq<Glyph>>,
    edits: Seq<Replacement>,
    n: int,
    width: int,
)
    requires
        0 <= n < lines.len(),
        0 <= width <= lines[n].len(),
        forall|i: int|
            0 <= i < edits.len() ==> (#[trigger] edits[i]).range.start.line != n
                || edits[i].range.start.character >= width,
    ensures
        apply_edits(lines, edits).len() == lines.len(),
        apply_edits(lines, edits)[n].len() >= width,
        apply_edits(lines, edits)[n].subrange(0, width) == lines[n].subrange(0, width),
    decreases edits.len(),
{
    if edits.len() > 0 {
        let next = apply_edit(lines, edits.last());
        assert(next[n].subrange(0, width) =~= lines[n].subrange(0, width));
        lemma_apply_keeps_prefix(next, edits.drop_last(), n, width);
    }
}

proof fn lemma_apply_keeps_line(lines: Seq<Seq<Glyph>>, edits: Seq<Replacement>, n: int)
    requires
        0 <= n < lines.len(),
        forall|i: int| 0 <= i < edits.len() ==> (#[trigger] edits[i]).range.start.line != n,
    ensures
        apply_edits(lines, edits).len() == lines.len(),
        apply_edits(lines, edits)[n] == lines[n],
    decreases edits.len(),
{
    if edits.len() > 0 {
        lemma_apply_keeps_line(apply_edit(lines, edits.last()), edits.drop_last(), n);
    }
}

/// Edits whose new text holds no line feed leave every line a single line,
/// and leave classified lines classified.
proof fn lemma_apply_keeps_lines_whole(lines: Seq<Seq<Glyph>>, edits: Seq<Replacement>)
    requires
        forall|n: int| 0 <= n < lines.len() ==> is_single_line(#[trigger] lines[n]),
        forall|n: int| 0 <= n < lines.len() ==> is_classified(#[trigger] lines[n]),
        forall|i: int|
            0 <= i < edits.len() ==> is_single_line(glyphs_of((#[trigger] edits[i]).new_text)),
    ensures
        apply_edits(lines, edits).len() == lines.len(),
        forall|n: int|
            0 <= n < lines.len() ==> is_single_line(#[trigger] apply_edits(lines, edits)[n]),
        forall|n: int|
            0 <= n < lines.len() ==> is_classified(#[trigger] apply_edits(lines, edits)[n]),
    decreases edits.len(),
{
    if edits.len() > 0 {
        let edit = edits.last();
        let next = apply_edit(lines, edit);
        lemma_glyphs_spell_text(edit.new_text, Seq::empty());
        lemma_apply_keeps_lines_whole(next, edits.drop_last());
    }
}

/// Classified lines join to classified text.
proof fn lemma_join_is_classified(lines: Seq<Seq<Glyph>>)
    requires
        forall|n: int| 0 <= n < lines.len() ==> is_classified(#[trigger] lines[n]),
    ensures
        is_classified(join_lines(lines)),
    decreases lines.len(),
{
    if lines.len() > 1 {
        lemma_join_is_classified(lines.drop_last());
        assert(is_classified(lines.last()));
    } else if lines.len() == 1 {
        assert(is_classified(lines[0]));
    }
}

proof fn lemma_line_edits_split(
    line: Seq<Glyph>,
    n: int,
    name: Seq<char>,
    new_name: Seq<char>,
    from: int,
    mid: int,
    upto: int,
)
    requires
        from <= mid <= upto,
    ensures
        line_edits(line, n, name, new_name, from, upto) == line_edits(
            line,
            n,
            name,
            new_name,
            from,
            mid,
        ) + line_edits(line, n, name, new_name, mid, upto),
    decreases upto - mid,
{
    let left = line_edits(line, n, name, new_name, from, mid);
    if upto == mid {
        assert(left + line_edits(line, n, name, new_name, mid, upto) =~= left);
    } else {
        lemma_line_edits_split(line, n, name, new_name, from, mid, upto - 1);
        let right = line_edits(line, n, name, new_name, mid, upto - 1);
        let edit = edit_at(n, upto - 1, name, new_name);
        assert((left + right).push(edit) =~= left + right.push(edit));
    }
}

proof fn lemma_document_edits_split(
    lines: Seq<Seq<Glyph>>,
    name: Seq<char>,
    new_name: Seq<char>,
    from: int,
    mid: int,
    upto: int,
)
    requires
        from <= mid <= upto,
    ensures
        document_edits(lines, name, new_name, from, upto) == document_edits(
            lines,
            name,
            new_name,
            from,
            mid,
        ) + document_edits(lines, name, new_name, mid, upto),
    decreases upto - mid,
{
    let left = document_edits(lines, name, new_name, from, mid);
    if upto == mid {
        assert(left + document_edits(lines, name, new_name, mid, upto) =~= left);
    } else {
        lemma_document_edits_split(lines, name, new_name, from, mid, upto - 1);
        let right = document_edits(lines, name, new_name, mid, upto - 1);
        let here = whole_line_edits(lines[upto - 1], upto - 1, name, new_name);
        assert((left + right) + here =~= left + (right + here));
    }
}

/// Once the rename of `name` has been applied, a line that defined `name`
/// starts with the new name, and the colon follows as before.
pub proof fn lemma_renamed_definition_line(
    lines: Seq<Seq<Glyph>>,
    name: Seq<char>,
    new_name: Seq<char>,
    n: int,
)
    requires
        fits_positions(lines),
        defines(lines, n, name),
    ensures
        ({
            let changed = apply_edits(
                lines,
                document_edits(lines, name, new_name, 0, lines.len() as int),
            );
            &&& changed.len() == lines.len()
            &&& changed[n].len() > new_name.len()
            &&& changed[n].subrange(0, new_name.len() as int) == glyphs_of(new_name)
            &&& changed[n][new_name.len() as int] == lines[n][name.len() as int]
        }),
{
    let line = lines[n];
    let k = name.len() as int;
    let count = lines.len() as int;
    lemma_defining_line(line, name);
    assert(is_whole_token_at(line, name, 0));

    // The edits, in three parts: the lines above, this line, the lines below.
    let above = document_edits(lines, name, new_name, 0, n);
    let here = whole_line_edits(line, n, name, new_name);
    let below = document_edits(lines, name, new_name, n + 1, count);
    lemma_document_edits_split(lines, name, new_name, 0, n + 1, count);
    assert(document_edits(lines, name, new_name, 0, n + 1) == above + here);
    let all = document_edits(lines, name, new_name, 0, count);
    assert(all == (above + here) + below);

    // On this line: the edit at its start, then those further right.
    let first = edit_at(n, 0, name, new_name);
    let right = line_edits(line, n, name, new_name, 1, line.len() as int);
    lemma_line_edits_split(line, n, name, new_name, 0, 1, line.len() as int);
    assert(line_edits(line, n, name, new_name, 0, 1) =~= seq![first]) by {
        assert(line_edits(line, n, name, new_name, 0, 0) =~= Seq::<Replacement>::empty());
    }
    assert(here == seq![first] + right);

    lemma_document_edits(lines, name, new_name, 0, n);
    lemma_document_edits(lines, name, new_name, n + 1, count);
    lemma_line_edits(line, n, name, new_name, 1, line.len() as int);

    // No later edit starts on this line at or before the colon: the character
    // before such a start would belong to the name.
    let after = right + below;
    assert forall|i: int| 0 <= i < after.len() implies (#[trigger] after[i]).range.start.line != n
        || after[i].range.start.character >= k + 1 by {
        if i < right.len() {
            let edit = right[i];
            assert(after[i] == edit);
            assert(is_line_edit(line, n, name, new_name, 1, line.len() as int, edit));
        } else {
            let edit = below[i - right.len()];
            assert(after[i] == edit);
            assert(is_document_edit(lines, name, new_name, n + 1, count, edit));
        }
    }
    assert forall|i: int| 0 <= i < above.len() implies (#[trigger] above[i]).range.start.line
        != n by {
        assert(is_document_edit(lines, name, new_name, 0, n, above[i]));
    }

    assert(all =~= (above + seq![first]) + after);
    lemma_apply_concat(lines, above + seq![first], after);
    let lower = apply_edits(lines, after);
    lemma_apply_keeps_prefix(lines, after, n, k + 1);
    assert(lower[n].subrange(0, k + 1)[k] == line.subrange(0, k + 1)[k]);

    lemma_apply_concat(lower, above, seq![first]);
    assert(seq![first].drop_last() =~= Seq::<Replacement>::empty());
    assert(seq![first].last() == first);
    let middle = apply_edit(lower, first);
    assert(apply_edits(middle, seq![first].drop_last()) == middle);
    assert(apply_edits(lower, seq![first]) == middle);
    assert(edit_fits(lower, first));
    let changed = lower[n].subrange(0, 0) + glyphs_of(new_name) + lower[n].subrange(
        k,
        lower[n].len() as int,
    );
    assert(middle[n] == changed);
    assert(changed.subrange(0, new_name.len() as int) =~= glyphs_of(new_name));
    assert(changed[new_name.len() as int] == lower[n][k]);

    lemma_apply_keeps_line(middle, above, n);
}

/// Renaming and then looking up the new name finds a definition: the span
/// recorded for it lies in the renamed document and covers exactly the new
/// name, and a cursor at the start of that span resolves to it. This holds
/// where the rename resolves, for a new name that is a symbol name and holds
/// no line feed.
pub proof fn lemma_rename_round_trip(text: Seq<char>, position: Position, new_name: Seq<char>)
    requires
        text.len() < usize::MAX,
        new_name.len() <= usize::MAX,
        definitions(text_lines(text)).contains_key(symbol_at(text_lines(text), position)),
        is_symbol_name(new_name),
        forall|i: int| 0 <= i < new_name.len() ==> new_name[i] != '\n',
    ensures
        definitions(text_lines(renamed_text(text, position, new_name))).contains_key(new_name),
        ({
            let after = text_lines(renamed_text(text, position, new_name));
            let span = definitions(after)[new_name];
            &&& span.start.line == span.end.line
            &&& span.start.line < after.len()
            &&& span.start.character == 0
            &&& span.end.character == new_name.len()
            &&& span.end.character < after[span.start.line as int].len()
            &&& values_of(after[span.start.line as int].subrange(0, span.end.character as int))
                == new_name
            &&& definition_at(after, span.start) == Some(span)
        }),
{
    let lines = text_lines(text);
    let name = symbol_at(lines, position);
    lemma_glyphs_spell_text(text, Seq::empty());
    lemma_lines_are_single(glyphs_of(text));
    lemma_definitions_lie_in_document(lines, name);
    let n = last_definition(lines, name);
    lemma_defining_line(lines[n], name);
    let edits = document_edits(lines, name, new_name, 0, lines.len() as int);
    assert(rename_edits(lines, position, new_name) == edits);
    let changed = apply_edits(lines, edits);
    lemma_renamed_definition_line(lines, name, new_name, n);
    lemma_document_edits(lines, name, new_name, 0, lines.len() as int);
    lemma_apply_keeps_lines_whole(lines, edits);
    lemma_lines_of_join(changed);
    lemma_join_is_classified(changed);
    lemma_glyphs_spell_text(Seq::empty(), join_lines(changed));
    let after = text_lines(renamed_text(text, position, new_name));
    assert(after == changed);
    assert(defines(after, n, new_name)) by {
        let head = after[n].subrange(0, new_name.len() as int);
        assert forall|i: int| 0 <= i < new_name.len() implies (#[trigger] after[n][i]).word by {
            assert(head[i] == glyphs_of(new_name)[i]);
        }
        lemma_run_end_at(after[n], 0, new_name.len() as int);
        lemma_glyphs_spell_text(new_name, Seq::empty());
    }
    lemma_definitions_lie_in_document(after, new_name);
    let last = last_definition(after, new_name);
    let span = definitions(after)[new_name];
    assert(symbol_at(after, span.start) == new_name) by {
        let line = after[last];
        lemma_defining_line(line, new_name);
        lemma_run_end(line, 0);
        assert(token_at(line, 0) == values_of(line.subrange(0, run_end(line, 0))));
    }
}

} // verus!
