//! The token under a cursor: the run of identifier characters it stands on.

use vstd::prelude::*;
use crate::text::{glyphs, glyphs_of, values_of, Glyph};

verus! {

/// Where the run of identifier characters that ends just before `pos` begins.
pub open spec fn run_start(line: Seq<Glyph>, pos: int) -> int
    decreases pos,
{
    if 0 < pos <= line.len() && line[pos - 1].word {
        run_start(line, pos - 1)
    } else {
        pos
    }
}

/// Where the run of identifier characters that begins at `pos` ends.
pub open spec fn run_end(line: Seq<Glyph>, pos: int) -> int
    decreases line.len() - pos,
{
    if 0 <= pos < line.len() && line[pos].word {
        run_end(line, pos + 1)
    } else {
        pos
    }
}

/// The cursor touches a token: it stands on an identifier character, or at the
/// end of the line. A cursor on any other character, or beyond the line, touches none.
pub open spec fn stands_on_token(line: Seq<Glyph>, pos: int) -> bool {
    0 <= pos <= line.len() && (pos == line.len() || line[pos].word)
}

/// Where the token at `pos` begins.
pub open spec fn token_start(line: Seq<Glyph>, pos: int) -> int {
    if stands_on_token(line, pos) {
        run_start(line, pos)
    } else {
        0
    }
}

/// Where the token at `pos` ends.
pub open spec fn token_end(line: Seq<Glyph>, pos: int) -> int {
    if stands_on_token(line, pos) {
        run_end(line, pos)
    } else {
        0
    }
}

/// The token at `pos`: the longest run of identifier characters around the
/// cursor, or the empty token where the cursor touches none.
pub open spec fn token_at(line: Seq<Glyph>, pos: int) -> Seq<char> {
    values_of(line.subrange(token_start(line, pos), token_end(line, pos)))
}

/// `[from, to)` holds identifier characters only and cannot grow on either side.
pub open spec fn is_maximal_run(line: Seq<Glyph>, from: int, to: int) -> bool {
    &&& 0 <= from <= to <= line.len()
    &&& forall|i: int| from <= i < to ==> (#[trigger] line[i]).word
    &&& (from == 0 || !line[from - 1].word)
    &&& (to == line.len() || !line[to].word)
}

/// The run that ends at `pos` starts within the line, holds identifier
/// characters only, and cannot grow to the left.
pub proof fn lemma_run_start(line: Seq<Glyph>, pos: int)
    requires
        0 <= pos <= line.len(),
    ensures
        0 <= run_start(line, pos) <= pos,
        forall|i: int| run_start(line, pos) <= i < pos ==> (#[trigger] line[i]).word,
        run_start(line, pos) == 0 || !line[run_start(line, pos) - 1].word,
    decreases pos,
{
    if 0 < pos && line[pos - 1].word {
        lemma_run_start(line, pos - 1);
    }
}

/// The run that begins at `pos` ends within the line, holds identifier
/// characters only, and cannot grow to the right.
pub proof fn lemma_run_end(line: Seq<Glyph>, pos: int)
    requires
        0 <= pos <= line.len(),
    ensures
        pos <= run_end(line, pos) <= line.len(),
        forall|i: int| pos <= i < run_end(line, pos) ==> (#[trigger] line[i]).word,
        run_end(line, pos) == line.len() || !line[run_end(line, pos)].word,
    decreases line.len() - pos,
{
    if pos < line.len() && line[pos].word {
        lemma_run_end(line, pos + 1);
    }
}

/// A run that starts at `from` ends where the first other character stands.
pub proof fn lemma_run_end_at(line: Seq<Glyph>, from: int, end: int)
    requires
        0 <= from <= end <= line.len(),
        forall|i: int| from <= i < end ==> (#[trigger] line[i]).word,
        end == line.len() || !line[end].word,
    ensures
        run_end(line, from) == end,
    decreases end - from,
{
    if from < end {
        lemma_run_end_at(line, from + 1, end);
    }
}

/// The token at any position of any line is a piece of the line, holds
/// identifier characters only, and, unless it is empty, contains the cursor
/// and is a maximal run. It is empty exactly where the cursor stands on a
/// character that is no identifier character, beyond the line, or at the end
/// of a line that does not end in an identifier character.
pub proof fn lemma_token_is_maximal(line: Seq<Glyph>, pos: int)
    ensures
        0 <= token_start(line, pos) <= token_end(line, pos) <= line.len(),
        token_at(line, pos) == values_of(line).subrange(
            token_start(line, pos),
            token_end(line, pos),
        ),
        forall|i: int|
            token_start(line, pos) <= i < token_end(line, pos) ==> (#[trigger] line[i]).word,
        token_at(line, pos).len() > 0 ==> {
            &&& token_start(line, pos) <= pos <= token_end(line, pos)
            &&& is_maximal_run(line, token_start(line, pos), token_end(line, pos))
        },
        token_at(line, pos).len() > 0 <==> {
            ||| 0 <= pos < line.len() && line[pos].word
            ||| 0 < pos == line.len() && line[pos - 1].word
        },
{
    if stands_on_token(line, pos) {
        lemma_run_start(line, pos);
        lemma_run_end(line, pos);
    }
    assert(token_at(line, pos) =~= values_of(line).subrange(
        token_start(line, pos),
        token_end(line, pos),
    ));
}

/// The bounds of the token at `pos` in `line`.
pub fn token_bounds(line: &Vec<Glyph>, pos: usize) -> (bounds: (usize, usize))
    ensures
        bounds.0 == token_start(line@, pos as int),
        bounds.1 == token_end(line@, pos as int),
        bounds.0 <= bounds.1 <= line.len(),
{
    let len = line.len();
    if pos > len {
        return (0, 0);
    }
    if pos < len && !line[pos].word {
        return (0, 0);
    }
    let mut start: usize = pos;
    while start > 0 && line[start - 1].word
        invariant
            start <= pos <= line.len(),
            run_start(line@, pos as int) == run_start(line@, start as int),
        decreases start,
    {
        start -= 1;
    }
    let mut end: usize = pos;
    while end < len && line[end].word
        invariant
            len == line.len(),
            pos <= end <= len,
            run_end(line@, pos as int) == run_end(line@, end as int),
        decreases len - end,
    {
        end += 1;
    }
    (start, end)
}

/// The token that the cursor at `char_position` touches in `line`: the longest
/// run of letters, digits and `_` around it. Empty where the cursor stands on
/// another character or beyond the end of the line.
pub fn extract_variable_at_position(line: &str, char_position: usize) -> (token: &str)
    ensures
        token@ == token_at(glyphs_of(line@), char_position as int),
{
    let marked = glyphs(line);
    let (start, end) = token_bounds(&marked, char_position);
    proof {
        assert(line@.subrange(start as int, end as int) =~= values_of(
            marked@.subrange(start as int, end as int),
        ));
    }
    line.substring_char(start, end)
}

} // verus!
