//! Characters as the library reads them, lines, and whitespace: the vocabulary
//! every other module speaks.

use vstd::prelude::*;

verus! {

/// What `char::is_alphanumeric` answers for `c`: whether Unicode classes it as a
/// letter or a number. The tables behind it are not restated here.
pub uninterp spec fn is_alphanumeric(c: char) -> bool;

/// What `char::is_whitespace` answers for `c`: whether Unicode gives it the
/// `White_Space` property.
pub uninterp spec fn is_whitespace(c: char) -> bool;

/// `char::is_alphanumeric` of std. Trusted: its answer depends on the character
/// alone, so it is the same on every call.
pub assume_specification[ char::is_alphanumeric ](c: char) -> (b: bool)
    ensures
        b == is_alphanumeric(c),
;

/// `char::is_whitespace` of std. Trusted: its answer depends on the character
/// alone, so it is the same on every call.
pub assume_specification[ char::is_whitespace ](c: char) -> (b: bool)
    ensures
        b == is_whitespace(c),
;

/// `String::push` of std. Trusted: the character is appended at the end and
/// nothing else changes.
pub assume_specification[ String::push ](s: &mut String, c: char)
    ensures
        final(s)@ == old(s)@.push(c),
;

/// A character together with what the library needs to know of it: whether it
/// may stand in a symbol name, and whether it is whitespace. Everything past
/// the classification of single characters works on glyphs, and holds for
/// every way of marking them.
#[derive(Clone, Copy, Debug, PartialEq, Eq, Structural)]
pub struct Glyph {
    pub value: char,
    /// An identifier character: a letter, a digit or `_`.
    pub word: bool,
    /// A whitespace character.
    pub blank: bool,
}

/// A character that may stand in a symbol name: a letter, a digit or `_`.
pub open spec fn is_identifier_char(c: char) -> bool {
    c == '_' || is_alphanumeric(c)
}

/// The glyph of a character, as Unicode classes it.
pub open spec fn glyph_of(c: char) -> Glyph {
    Glyph { value: c, word: is_identifier_char(c), blank: is_whitespace(c) }
}

/// The glyphs of a text.
pub open spec fn glyphs_of(text: Seq<char>) -> Seq<Glyph> {
    Seq::new(text.len(), |i: int| glyph_of(text[i]))
}

/// The characters of a sequence of glyphs.
pub open spec fn values_of(glyphs: Seq<Glyph>) -> Seq<char> {
    Seq::new(glyphs.len(), |i: int| glyphs[i].value)
}

/// Each glyph is marked as Unicode classes its character.
pub open spec fn is_classified(glyphs: Seq<Glyph>) -> bool {
    forall|i: int| 0 <= i < glyphs.len() ==> #[trigger] glyphs[i] == glyph_of(glyphs[i].value)
}

/// The glyphs of a text spell that text, and they are the only classified
/// glyphs that do.
pub proof fn lemma_glyphs_spell_text(text: Seq<char>, glyphs: Seq<Glyph>)
    ensures
        values_of(glyphs_of(text)) == text,
        is_classified(glyphs_of(text)),
        is_classified(glyphs) ==> glyphs_of(values_of(glyphs)) == glyphs,
{
    assert(values_of(glyphs_of(text)) =~= text);
    if is_classified(glyphs) {
        assert(glyphs_of(values_of(glyphs)) =~= glyphs);
    }
}

/// Classifies one character.
pub fn classify(c: char) -> (glyph: Glyph)
    ensures
        glyph == glyph_of(c),
{
    Glyph { value: c, word: c == '_' || c.is_alphanumeric(), blank: c.is_whitespace() }
}

/// Classifies the characters of a text, in order.
pub fn glyphs(text: &str) -> (out: Vec<Glyph>)
    ensures
        out@ == glyphs_of(text@),
{
    let mut out: Vec<Glyph> = Vec::new();
    for c in it: text.chars()
        invariant
            out.len() == it.index(),
            it.seq() == text@,
            forall|j: int| 0 <= j < out.len() ==> out@[j] == glyph_of(text@[j]),
    {
        out.push(classify(c));
    }
    proof {
        assert(out@ =~= glyphs_of(text@));
    }
    out
}

/// The string that `glyphs[from..to]` spell.
pub fn string_of(glyphs: &Vec<Glyph>, from: usize, to: usize) -> (out: String)
    requires
        from <= to <= glyphs.len(),
    ensures
        out@ == values_of(glyphs@.subrange(from as int, to as int)),
{
    let mut out = String::new();
    let mut i: usize = from;
    proof {
        assert(out@ =~= values_of(glyphs@.subrange(from as int, i as int)));
    }
    while i < to
        invariant
            from <= i <= to <= glyphs.len(),
            out@ == values_of(glyphs@.subrange(from as int, i as int)),
        decreases to - i,
    {
        out.push(glyphs[i].value);
        proof {
            assert(values_of(glyphs@.subrange(from as int, i + 1)) =~= values_of(
                glyphs@.subrange(from as int, i as int),
            ).push(glyphs@[i as int].value));
        }
        i += 1;
    }
    out
}

/// The characters that `glyphs[from..to]` spell.
pub fn chars_of(glyphs: &Vec<Glyph>, from: usize, to: usize) -> (out: Vec<char>)
    requires
        from <= to <= glyphs.len(),
    ensures
        out@ == values_of(glyphs@.subrange(from as int, to as int)),
{
    let mut out: Vec<char> = Vec::new();
    let mut i: usize = from;
    while i < to
        invariant
            from <= i <= to <= glyphs.len(),
            out.len() == i - from,
            forall|j: int| 0 <= j < out.len() ==> out@[j] == glyphs@[from + j].value,
        decreases to - i,
    {
        out.push(glyphs[i].value);
        i += 1;
    }
    proof {
        assert(out@ =~= values_of(glyphs@.subrange(from as int, to as int)));
    }
    out
}

/// Whether two runs of glyphs spell the same characters.
pub fn same_values(a: &Vec<Glyph>, b: &Vec<Glyph>) -> (same: bool)
    ensures
        same == (values_of(a@) == values_of(b@)),
{
    if a.len() != b.len() {
        proof {
            assert(values_of(a@).len() != values_of(b@).len());
        }
        return false;
    }
    let mut i: usize = 0;
    while i < a.len()
        invariant
            i <= a.len(),
            a.len() == b.len(),
            forall|j: int| 0 <= j < i ==> a@[j].value == b@[j].value,
        decreases a.len() - i,
    {
        if a[i].value != b[i].value {
            proof {
                assert(values_of(a@)[i as int] != values_of(b@)[i as int]);
            }
            return false;
        }
        i += 1;
    }
    proof {
        assert(values_of(a@) =~= values_of(b@));
    }
    true
}

/// The lines of a text: the pieces between its line feeds. A text without a line
/// feed is one line; a text that ends in a line feed has an empty last line.
pub open spec fn lines_of(text: Seq<Glyph>) -> Seq<Seq<Glyph>>
    decreases text.len(),
{
    if text.len() == 0 {
        seq![Seq::empty()]
    } else {
        let before = lines_of(text.drop_last());
        if text.last().value == '\n' {
            before.push(Seq::empty())
        } else {
            before.update(before.len() - 1, before.last().push(text.last()))
        }
    }
}

/// The text whose lines are `lines`: the lines in order, a line feed between
/// each two neighbours.
pub open spec fn join_lines(lines: Seq<Seq<Glyph>>) -> Seq<Glyph>
    decreases lines.len(),
{
    if lines.len() == 0 {
        Seq::empty()
    } else if lines.len() == 1 {
        lines[0]
    } else {
        join_lines(lines.drop_last()) + seq![glyph_of('\n')] + lines.last()
    }
}

/// No line feed occurs in `line`.
pub open spec fn is_single_line(line: Seq<Glyph>) -> bool {
    forall|i: int| 0 <= i < line.len() ==> (#[trigger] line[i]).value != '\n'
}

/// The views of a vector of lines.
pub open spec fn lines_view(lines: Seq<Vec<Glyph>>) -> Seq<Seq<Glyph>> {
    Seq::new(lines.len(), |i: int| lines[i]@)
}

/// The lines of a text, as Unicode classes its characters.
pub open spec fn text_lines(text: Seq<char>) -> Seq<Seq<Glyph>> {
    lines_of(glyphs_of(text))
}

/// A text has at least one line, and no line holds a line feed. It has no more
/// lines than characters and one, and no line is longer than the text. The
/// lines of classified glyphs are classified.
pub proof fn lemma_lines_are_single(text: Seq<Glyph>)
    ensures
        1 <= lines_of(text).len() <= text.len() + 1,
        forall|n: int|
            0 <= n < lines_of(text).len() ==> is_single_line(#[trigger] lines_of(text)[n]),
        forall|n: int|
            0 <= n < lines_of(text).len() ==> (#[trigger] lines_of(text)[n]).len() <= text.len(),
        is_classified(text) ==> forall|n: int|
            0 <= n < lines_of(text).len() ==> is_classified(#[trigger] lines_of(text)[n]),
    decreases text.len(),
{
    if text.len() > 0 {
        lemma_lines_are_single(text.drop_last());
        if is_classified(text) {
            assert(is_classified(text.drop_last()));
        }
    }
}

/// Appending glyphs other than line feeds extends the last line and leaves
/// the lines before it alone.
pub proof fn lemma_lines_of_append(text: Seq<Glyph>, tail: Seq<Glyph>)
    requires
        is_single_line(tail),
    ensures
        lines_of(text).len() >= 1,
        lines_of(text + tail) == lines_of(text).update(
            lines_of(text).len() - 1,
            lines_of(text).last() + tail,
        ),
    decreases tail.len(),
{
    lemma_lines_are_single(text);
    let base = lines_of(text);
    if tail.len() == 0 {
        assert(text + tail =~= text);
        assert(base.last() + tail =~= base.last());
        assert(base.update(base.len() - 1, base.last()) =~= base);
    } else {
        let shorter = tail.drop_last();
        lemma_lines_of_append(text, shorter);
        assert((text + tail).drop_last() =~= text + shorter);
        assert((text + tail).last() == tail.last());
        let mid = lines_of(text + shorter);
        assert(mid.last().push(tail.last()) =~= base.last() + tail);
        assert(mid.update(mid.len() - 1, mid.last().push(tail.last())) =~= base.update(
            base.len() - 1,
            base.last() + tail,
        ));
    }
}

/// Splitting undoes joining: lines without line feeds, at least one of them,
/// are the lines of their joined text.
pub proof fn lemma_lines_of_join(lines: Seq<Seq<Glyph>>)
    requires
        lines.len() >= 1,
        forall|n: int| 0 <= n < lines.len() ==> is_single_line(#[trigger] lines[n]),
    ensures
        lines_of(join_lines(lines)) == lines,
    decreases lines.len(),
{
    let empty = Seq::<Glyph>::empty();
    if lines.len() == 1 {
        lemma_lines_of_append(empty, lines[0]);
        assert(empty + lines[0] =~= lines[0]);
        assert(lines_of(empty) =~= seq![empty]);
        assert(lines_of(lines[0]) =~= lines);
    } else {
        let front = lines.drop_last();
        lemma_lines_of_join(front);
        let head = join_lines(front) + seq![glyph_of('\n')];
        assert(head.drop_last() =~= join_lines(front));
        assert(lines_of(head) == front.push(empty));
        lemma_lines_of_append(head, lines.last());
        assert(empty + lines.last() =~= lines.last());
        assert(lines_of(head + lines.last()) =~= lines);
    }
}

/// Joining undoes splitting, for glyphs marked as Unicode classes them.
pub proof fn lemma_join_lines_of(text: Seq<Glyph>)
    requires
        is_classified(text),
    ensures
        join_lines(lines_of(text)) == text,
    decreases text.len(),
{
    if text.len() == 0 {
        assert(join_lines(lines_of(text)) =~= text);
    } else {
        let shorter = text.drop_last();
        assert(is_classified(shorter));
        lemma_join_lines_of(shorter);
        lemma_lines_are_single(shorter);
        let before = lines_of(shorter);
        if text.last().value == '\n' {
            let after = before.push(Seq::empty());
            assert(text.last() == glyph_of('\n'));
            assert(after.drop_last() =~= before);
            assert(join_lines(after) =~= shorter + seq![glyph_of('\n')] + Seq::<Glyph>::empty());
            assert(shorter + seq![glyph_of('\n')] + Seq::<Glyph>::empty() =~= text);
        } else {
            let after = before.update(before.len() - 1, before.last().push(text.last()));
            if before.len() == 1 {
                assert(join_lines(before) == before[0]);
                assert(join_lines(after) == after[0]);
                assert(shorter.push(text.last()) =~= text);
            } else {
                assert(after.drop_last() =~= before.drop_last());
                assert(after.last() == before.last().push(text.last()));
                assert(join_lines(before) == join_lines(before.drop_last()) + seq![
                    glyph_of('\n'),
                ] + before.last());
                assert(join_lines(after) == join_lines(before.drop_last()) + seq![
                    glyph_of('\n'),
                ] + after.last());
                assert(join_lines(after) =~= shorter.push(text.last()));
                assert(shorter.push(text.last()) =~= text);
            }
        }
    }
}

/// Splits a text into its lines, in one pass.
pub fn split_lines(text: &Vec<Glyph>) -> (lines: Vec<Vec<Glyph>>)
    ensures
        lines_view(lines@) == lines_of(text@),
        lines.len() >= 1,
{
    let mut lines: Vec<Vec<Glyph>> = Vec::new();
    let mut current: Vec<Glyph> = Vec::new();
    let mut i: usize = 0;
    proof {
        assert(text@.take(0) =~= Seq::<Glyph>::empty());
        assert(lines_view(lines@).push(current@) =~= lines_of(text@.take(0)));
    }
    while i < text.len()
        invariant
            i <= text.len(),
            lines_view(lines@).push(current@) == lines_of(text@.take(i as int)),
        decreases text.len() - i,
    {
        let glyph = text[i];
        proof {
            assert(text@.take(i + 1).drop_last() =~= text@.take(i as int));
            assert(text@.take(i + 1).last() == glyph);
        }
        let ghost before = lines_view(lines@).push(current@);
        if glyph.value == '\n' {
            lines.push(current);
            current = Vec::new();
            proof {
                assert(lines_view(lines@) =~= before);
                assert(lines_view(lines@).push(current@) =~= before.push(Seq::empty()));
            }
        } else {
            current.push(glyph);
            proof {
                assert(lines_view(lines@).push(current@) =~= before.update(
                    before.len() - 1,
                    before.last().push(glyph),
                ));
            }
        }
        i += 1;
    }
    proof {
        assert(text@.take(i as int) =~= text@);
    }
    let ghost before = lines_view(lines@).push(current@);
    lines.push(current);
    proof {
        assert(lines_view(lines@) =~= before);
    }
    lines
}

/// The first index at or after `from` that holds no whitespace; the length of
/// the line where only whitespace follows.
pub open spec fn skip_whitespace(line: Seq<Glyph>, from: int) -> int
    decreases line.len() - from,
{
    if 0 <= from < line.len() && line[from].blank {
        skip_whitespace(line, from + 1)
    } else {
        from
    }
}

/// The end of `line[floor..upto]` once the whitespace at its end is dropped.
pub open spec fn drop_whitespace(line: Seq<Glyph>, floor: int, upto: int) -> int
    decreases upto,
{
    if 0 <= floor < upto <= line.len() && line[upto - 1].blank {
        drop_whitespace(line, floor, upto - 1)
    } else {
        upto
    }
}

/// Where the trimmed text of `line` begins.
pub open spec fn trim_start(line: Seq<Glyph>) -> int {
    skip_whitespace(line, 0)
}

/// Where the trimmed text of `line` ends.
pub open spec fn trim_end(line: Seq<Glyph>) -> int {
    drop_whitespace(line, trim_start(line), line.len() as int)
}

/// `line` without the whitespace at its start and at its end.
pub open spec fn trimmed(line: Seq<Glyph>) -> Seq<Glyph> {
    line.subrange(trim_start(line), trim_end(line))
}

/// The trimmed text lies within the line.
pub proof fn lemma_trim_bounds(line: Seq<Glyph>)
    ensures
        0 <= trim_start(line) <= trim_end(line) <= line.len(),
{
    lemma_skip_whitespace_bounds(line, 0);
    lemma_drop_whitespace_bounds(line, trim_start(line), line.len() as int);
}

proof fn lemma_skip_whitespace_bounds(line: Seq<Glyph>, from: int)
    requires
        0 <= from <= line.len(),
    ensures
        from <= skip_whitespace(line, from) <= line.len(),
    decreases line.len() - from,
{
    if from < line.len() && line[from].blank {
        lemma_skip_whitespace_bounds(line, from + 1);
    }
}

proof fn lemma_drop_whitespace_bounds(line: Seq<Glyph>, floor: int, upto: int)
    requires
        0 <= floor <= upto <= line.len(),
    ensures
        floor <= drop_whitespace(line, floor, upto) <= upto,
    decreases upto,
{
    if floor < upto && line[upto - 1].blank {
        lemma_drop_whitespace_bounds(line, floor, upto - 1);
    }
}

/// The bounds of the trimmed text of `line`.
pub fn trim_bounds(line: &Vec<Glyph>) -> (bounds: (usize, usize))
    ensures
        bounds.0 == trim_start(line@),
        bounds.1 == trim_end(line@),
        bounds.0 <= bounds.1 <= line.len(),
{
    let len = line.len();
    let mut start: usize = 0;
    while start < len && line[start].blank
        invariant
            len == line.len(),
            start <= len,
            skip_whitespace(line@, 0) == skip_whitespace(line@, start as int),
        decreases len - start,
    {
        start += 1;
    }
    let mut end: usize = len;
    while end > start && line[end - 1].blank
        invariant
            len == line.len(),
            start <= end <= len,
            drop_whitespace(line@, start as int, len as int) == drop_whitespace(
                line@,
                start as int,
                end as int,
            ),
        decreases end,
    {
        end -= 1;
    }
    (start, end)
}

/// The trimmed text of `line`.
pub fn trim_line(line: &Vec<Glyph>) -> (out: Vec<Glyph>)
    ensures
        out@ == trimmed(line@),
{
    let (start, end) = trim_bounds(line);
    let mut out: Vec<Glyph> = Vec::new();
    let mut i: usize = start;
    while i < end
        invariant
            start <= i <= end <= line.len(),
            out@ == line@.subrange(start as int, i as int),
        decreases end - i,
    {
        out.push(line[i]);
        i += 1;
    }
    out
}

/// The views of a vector of strings.
pub open spec fn strings_view(strings: Seq<String>) -> Seq<Seq<char>> {
    Seq::new(strings.len(), |i: int| strings[i]@)
}

/// The lines of a text, each trimmed, as characters.
pub open spec fn trimmed_lines_of(text: Seq<char>) -> Seq<Seq<char>> {
    Seq::new(text_lines(text).len(), |n: int| values_of(trimmed(text_lines(text)[n])))
}

/// The lines of a text, each without the whitespace at its start and end.
pub fn trimmed_lines(text: &str) -> (out: Vec<String>)
    ensures
        strings_view(out@) == trimmed_lines_of(text@),
{
    let lines = split_lines(&glyphs(text));
    let mut out: Vec<String> = Vec::new();
    let mut n: usize = 0;
    while n < lines.len()
        invariant
            n <= lines.len(),
            lines_view(lines@) == text_lines(text@),
            out.len() == n,
            forall|j: int|
                0 <= j < n ==> (#[trigger] out@[j])@ == values_of(trimmed(text_lines(text@)[j])),
        decreases lines.len() - n,
    {
        let (start, end) = trim_bounds(&lines[n]);
        proof {
            assert(lines_view(lines@)[n as int] == lines@[n as int]@);
        }
        out.push(string_of(&lines[n], start, end));
        n += 1;
    }
    proof {
        assert(lines_view(lines@).len() == lines.len());
        assert(strings_view(out@) =~= trimmed_lines_of(text@));
    }
    out
}

} // verus!
