//! Renaming a symbol: every place where its name stands as a whole token.

use vstd::prelude::*;
use crate::position::{reads_before, span_on_line, Position, Span};
use crate::resolver::{symbol_at, symbol_under_cursor};
use crate::scanner::{definitions, lemma_definitions_lie_in_document, scan};
use crate::text::{glyphs, lines_view, split_lines, text_lines, values_of, Glyph};

verus! {

/// One replacement: the text of `range` becomes `new_text`.
#[derive(Clone, Debug)]
pub struct TextEdit {
    pub range: Span,
    pub new_text: String,
}

/// What a [`TextEdit`] says, as plain values.
pub struct Replacement {
    pub range: Span,
    pub new_text: Seq<char>,
}

impl View for TextEdit {
    type V = Replacement;

    open spec fn view(&self) -> Replacement {
        Replacement { range: self.range, new_text: self.new_text@ }
    }
}

/// The outcome of a rename: for each document that changes, its edits in
/// reading order. A rename works on one document, so at most one is named.
#[derive(Clone, Debug)]
pub struct EditSet {
    document: String,
    edits: Vec<TextEdit>,
}

impl View for EditSet {
    type V = Map<Seq<char>, Seq<Replacement>>;

    closed spec fn view(&self) -> Map<Seq<char>, Seq<Replacement>> {
        if self.edits.len() == 0 {
            Map::empty()
        } else {
            Map::empty().insert(self.document@, edits_view(self.edits@))
        }
    }
}

/// The edit set that holds `edits` for `document`; the empty set where there
/// are no edits.
pub open spec fn edit_set_of(document: Seq<char>, edits: Seq<Replacement>) -> Map<
    Seq<char>,
    Seq<Replacement>,
> {
    if edits.len() == 0 {
        Map::empty()
    } else {
        Map::empty().insert(document, edits)
    }
}

impl EditSet {
    /// The edit set that holds `edits` for `document`.
    pub fn new(document: String, edits: Vec<TextEdit>) -> (set: EditSet)
        ensures
            set@ == edit_set_of(document@, edits_view(edits@)),
    {
        EditSet { document, edits }
    }

    /// Whether no document changes.
    pub fn is_empty(&self) -> (empty: bool)
        ensures
            empty == (self@ == (Map::<Seq<char>, Seq<Replacement>>::empty())),
    {
        proof {
            if self.edits.len() != 0 {
                assert(self@.contains_key(self.document@));
            }
        }
        self.edits.len() == 0
    }

    /// The edits for `document`, if it changes.
    pub fn edits_for(&self, document: &str) -> (edits: Option<&Vec<TextEdit>>)
        ensures
            match edits {
                Some(found) => self@.contains_key(document@) && self@[document@] == edits_view(
                    found@,
                ),
                None => !self@.contains_key(document@),
            },
    {
        if self.edits.len() > 0 && self.document == document.to_owned() {
            Some(&self.edits)
        } else {
            None
        }
    }
}

/// The views of a vector of edits.
pub open spec fn edits_view(edits: Seq<TextEdit>) -> Seq<Replacement> {
    Seq::new(edits.len(), |i: int| edits[i]@)
}

/// `name` stands in `line` at `at` as a whole token: its characters are
/// there, and neither the character before nor the one after, where the line
/// has one, is an identifier character.
pub open spec fn is_whole_token_at(line: Seq<Glyph>, name: Seq<char>, at: int) -> bool {
    &&& name.len() > 0
    &&& 0 <= at
    &&& at + name.len() <= line.len()
    &&& values_of(line.subrange(at, at + name.len())) == name
    &&& (at == 0 || !line[at - 1].word)
    &&& (at + name.len() == line.len() || !line[at + name.len()].word)
}

/// The edit that replaces the occurrence of `name` at column `at` of line `n`.
pub open spec fn edit_at(n: int, at: int, name: Seq<char>, new_name: Seq<char>) -> Replacement {
    Replacement { range: span_on_line(n, at, at + name.len()), new_text: new_name }
}

/// The edits that rename `name` on line `n`, for the occurrences that start
/// at a column from `from` up to, not including, `upto`, from left to right.
pub open spec fn line_edits(
    line: Seq<Glyph>,
    n: int,
    name: Seq<char>,
    new_name: Seq<char>,
    from: int,
    upto: int,
) -> Seq<Replacement>
    decreases upto - from,
{
    if upto <= from {
        Seq::empty()
    } else {
        let before = line_edits(line, n, name, new_name, from, upto - 1);
        if is_whole_token_at(line, name, upto - 1) {
            before.push(edit_at(n, upto - 1, name, new_name))
        } else {
            before
        }
    }
}

/// The edits that rename `name` on a whole line.
pub open spec fn whole_line_edits(
    line: Seq<Glyph>,
    n: int,
    name: Seq<char>,
    new_name: Seq<char>,
) -> Seq<Replacement> {
    line_edits(line, n, name, new_name, 0, line.len() as int)
}

/// The edits that rename `name` on the lines from `from` up to, not
/// including, `upto`, from top to bottom.
pub open spec fn document_edits(
    lines: Seq<Seq<Glyph>>,
    name: Seq<char>,
    new_name: Seq<char>,
    from: int,
    upto: int,
) -> Seq<Replacement>
    decreases upto - from,
{
    if upto <= from {
        Seq::empty()
    } else {
        document_edits(lines, name, new_name, from, upto - 1) + whole_line_edits(
            lines[upto - 1],
            upto - 1,
            name,
            new_name,
        )
    }
}

/// The edits of a rename at `position`: where the symbol under the cursor is
/// defined, one edit for each whole-token occurrence of its name in the
/// document; otherwise none.
pub open spec fn rename_edits(
    lines: Seq<Seq<Glyph>>,
    position: Position,
    new_name: Seq<char>,
) -> Seq<Replacement> {
    let name = symbol_at(lines, position);
    if definitions(lines).contains_key(name) {
        document_edits(lines, name, new_name, 0, lines.len() as int)
    } else {
        Seq::empty()
    }
}

/// `edit` renames a whole-token occurrence of `name` that starts on `line`,
/// which is line `n`, at a column from `from` up to, not including, `upto`.
pub open spec fn is_line_edit(
    line: Seq<Glyph>,
    n: int,
    name: Seq<char>,
    new_name: Seq<char>,
    from: int,
    upto: int,
    edit: Replacement,
) -> bool {
    let at = edit.range.start.character as int;
    &&& edit == edit_at(n, at, name, new_name)
    &&& from <= at < upto
    &&& is_whole_token_at(line, name, at)
}

/// `edit` renames a whole-token occurrence of `name` on one of the lines from
/// `from` up to, not including, `upto`.
pub open spec fn is_document_edit(
    lines: Seq<Seq<Glyph>>,
    name: Seq<char>,
    new_name: Seq<char>,
    from: int,
    upto: int,
    edit: Replacement,
) -> bool {
    let n = edit.range.start.line as int;
    &&& from <= n < upto
    &&& is_line_edit(lines[n], n, name, new_name, 0, lines[n].len() as int, edit)
}

/// Every line and every column of the document can be written as a position.
pub open spec fn fits_positions(lines: Seq<Seq<Glyph>>) -> bool {
    &&& lines.len() <= usize::MAX
    &&& forall|n: int| 0 <= n < lines.len() ==> (#[trigger] lines[n]).len() <= usize::MAX
}

/// The edits of a line rename whole tokens only, never a piece of a longer
/// identifier; they come from left to right; and no whole-token occurrence is
/// left out.
pub proof fn lemma_line_edits(
    line: Seq<Glyph>,
    n: int,
    name: Seq<char>,
    new_name: Seq<char>,
    from: int,
    upto: int,
)
    requires
        0 <= from,
        upto <= line.len() <= usize::MAX,
    ensures
        forall|i: int|
            0 <= i < line_edits(line, n, name, new_name, from, upto).len() ==> is_line_edit(
                line,
                n,
                name,
                new_name,
                from,
                upto,
                #[trigger] line_edits(line, n, name, new_name, from, upto)[i],
            ),
        forall|i: int, j: int|
            #![trigger
                line_edits(line, n, name, new_name, from, upto)[i],
                line_edits(line, n, name, new_name, from, upto)[j]
            ]
            0 <= i < j < line_edits(line, n, name, new_name, from, upto).len() ==> line_edits(
                line,
                n,
                name,
                new_name,
                from,
                upto,
            )[i].range.start.character < line_edits(
                line,
                n,
                name,
                new_name,
                from,
                upto,
            )[j].range.start.character,
        forall|at: int|
            from <= at < upto && #[trigger] is_whole_token_at(line, name, at) ==> line_edits(
                line,
                n,
                name,
                new_name,
                from,
                upto,
            ).contains(edit_at(n, at, name, new_name)),
    decreases upto - from,
{
    if upto > from {
        lemma_line_edits(line, n, name, new_name, from, upto - 1);
        let before = line_edits(line, n, name, new_name, from, upto - 1);
        let all = line_edits(line, n, name, new_name, from, upto);
        assert forall|at: int|
            from <= at < upto && #[trigger] is_whole_token_at(line, name, at) implies all.contains(
            edit_at(n, at, name, new_name),
        ) by {
            if at < upto - 1 {
                let i = choose|i: int|
                    0 <= i < before.len() && before[i] == edit_at(n, at, name, new_name);
                assert(all[i] == edit_at(n, at, name, new_name));
            } else {
                assert(all[all.len() - 1] == edit_at(n, at, name, new_name));
            }
        }
    }
}

/// The edits of a document rename whole tokens only, never a piece of a
/// longer identifier; they come in reading order; and no whole-token
/// occurrence is left out.
pub proof fn lemma_document_edits(
    lines: Seq<Seq<Glyph>>,
    name: Seq<char>,
    new_name: Seq<char>,
    from: int,
    upto: int,
)
    requires
        0 <= from,
        upto <= lines.len(),
        fits_positions(lines),
    ensures
        forall|i: int|
            0 <= i < document_edits(lines, name, new_name, from, upto).len() ==> is_document_edit(
                lines,
                name,
                new_name,
                from,
                upto,
                #[trigger] document_edits(lines, name, new_name, from, upto)[i],
            ),
        forall|i: int, j: int|
            #![trigger
                document_edits(lines, name, new_name, from, upto)[i],
                document_edits(lines, name, new_name, from, upto)[j]
            ]
            0 <= i < j < document_edits(lines, name, new_name, from, upto).len() ==> reads_before(
                document_edits(lines, name, new_name, from, upto)[i].range.start,
                document_edits(lines, name, new_name, from, upto)[j].range.start,
            ),
        forall|n: int, at: int|
            from <= n < upto && #[trigger] is_whole_token_at(lines[n], name, at) ==> document_edits(
                lines,
                name,
                new_name,
                from,
                upto,
            ).contains(edit_at(n, at, name, new_name)),
    decreases upto - from,
{
    if upto > from {
        lemma_document_edits(lines, name, new_name, from, upto - 1);
        let last = upto - 1;
        lemma_line_edits(lines[last], last, name, new_name, 0, lines[last].len() as int);
        let before = document_edits(lines, name, new_name, from, last);
        let here = whole_line_edits(lines[last], last, name, new_name);
        let all = document_edits(lines, name, new_name, from, upto);
        assert forall|i: int| 0 <= i < all.len() implies is_document_edit(
            lines,
            name,
            new_name,
            from,
            upto,
            #[trigger] all[i],
        ) by {
            if i < before.len() {
                assert(all[i] == before[i]);
            } else {
                assert(all[i] == here[i - before.len()]);
            }
        }
        assert forall|i: int, j: int| 0 <= i < j < all.len() implies reads_before(
            #[trigger] all[i].range.start,
            #[trigger] all[j].range.start,
        ) by {
            if j < before.len() {
                assert(all[i] == before[i] && all[j] == before[j]);
            } else if i < before.len() {
                assert(all[i] == before[i] && all[j] == here[j - before.len()]);
                assert(is_document_edit(lines, name, new_name, from, last, before[i]));
            } else {
                assert(all[i] == here[i - before.len()] && all[j] == here[j - before.len()]);
            }
        }
        assert forall|n: int, at: int|
            from <= n < upto && #[trigger] is_whole_token_at(
                lines[n],
                name,
                at,
            ) implies all.contains(edit_at(n, at, name, new_name)) by {
            let wanted = edit_at(n, at, name, new_name);
            if n < last {
                let i = choose|i: int| 0 <= i < before.len() && before[i] == wanted;
                assert(all[i] == wanted);
            } else {
                let i = choose|i: int| 0 <= i < here.len() && here[i] == wanted;
                assert(all[before.len() + i] == wanted);
            }
        }
    }
}

/// A rename changes nothing where the cursor touches no token, and nothing
/// where the token under it is not defined.
pub proof fn lemma_rename_without_symbol(
    lines: Seq<Seq<Glyph>>,
    position: Position,
    new_name: Seq<char>,
    document: Seq<char>,
)
    requires
        symbol_at(lines, position).len() == 0 || !definitions(lines).contains_key(
            symbol_at(lines, position),
        ),
    ensures
        rename_edits(lines, position, new_name) == Seq::<Replacement>::empty(),
        edit_set_of(document, rename_edits(lines, position, new_name)) == (Map::<
            Seq<char>,
            Seq<Replacement>,
        >::empty()),
{
    let name = symbol_at(lines, position);
    if definitions(lines).contains_key(name) {
        lemma_definitions_lie_in_document(lines, name);
    }
}

/// Decides [`is_whole_token_at`].
pub fn whole_token_at(line: &Vec<Glyph>, name: &Vec<char>, at: usize) -> (found: bool)
    ensures
        found == is_whole_token_at(line@, name@, at as int),
{
    let len = line.len();
    let k = name.len();
    if k == 0 || at > len || k > len - at {
        return false;
    }
    if at > 0 && line[at - 1].word {
        return false;
    }
    if at + k < len && line[at + k].word {
        return false;
    }
    let mut i: usize = 0;
    while i < k
        invariant
            i <= k,
            k == name.len(),
            at + k <= line.len(),
            forall|j: int| 0 <= j < i ==> line@[at + j].value == name@[j],
        decreases k - i,
    {
        if line[at + i].value != name[i] {
            proof {
                assert(values_of(line@.subrange(at as int, at + k))[i as int] == line@[at
                    + i].value);
            }
            return false;
        }
        i += 1;
    }
    proof {
        assert(values_of(line@.subrange(at as int, at + k)) =~= name@);
    }
    true
}

/// The edits that rename `name` to `new_name` wherever it stands as a whole
/// token in `lines`, from top to bottom and from left to right.
pub fn rename_occurrences(lines: &Vec<Vec<Glyph>>, name: &Vec<char>, new_name: &str) -> (edits:
    Vec<TextEdit>)
    ensures
        edits_view(edits@) == document_edits(
            lines_view(lines@),
            name@,
            new_name@,
            0,
            lines.len() as int,
        ),
{
    let ghost all = lines_view(lines@);
    let mut edits: Vec<TextEdit> = Vec::new();
    let mut n: usize = 0;
    proof {
        assert(edits_view(edits@) =~= document_edits(all, name@, new_name@, 0, 0));
    }
    while n < lines.len()
        invariant
            n <= lines.len(),
            all == lines_view(lines@),
            edits_view(edits@) == document_edits(all, name@, new_name@, 0, n as int),
        decreases lines.len() - n,
    {
        let line = &lines[n];
        let ghost done = document_edits(all, name@, new_name@, 0, n as int);
        let mut at: usize = 0;
        proof {
            assert(edits_view(edits@) =~= done + line_edits(
                line@,
                n as int,
                name@,
                new_name@,
                0,
                0,
            ));
        }
        while at < line.len()
            invariant
                at <= line.len(),
                n < lines.len(),
                line == &lines@[n as int],
                edits_view(edits@) == done + line_edits(
                    line@,
                    n as int,
                    name@,
                    new_name@,
                    0,
                    at as int,
                ),
            decreases line.len() - at,
        {
            let ghost so_far = line_edits(line@, n as int, name@, new_name@, 0, at as int);
            if whole_token_at(line, name, at) {
                let ghost before = edits_view(edits@);
                let edit = TextEdit {
                    range: Span::on_line(n, at, at + name.len()),
                    new_text: new_name.to_owned(),
                };
                edits.push(edit);
                proof {
                    assert(edits_view(edits@) =~= before.push(edit@));
                    assert(before.push(edit@) =~= done + so_far.push(edit@));
                }
            }
            at += 1;
        }
        proof {
            assert(all[n as int] == line@);
        }
        n += 1;
    }
    edits
}

/// The edits that rename the symbol under the cursor to `new_name` among
/// `lines`. Where the cursor touches no token, or the token is not defined,
/// no edit comes back. Otherwise each whole-token occurrence of the name gets
/// one edit, in reading order; a name that is part of a longer run of
/// identifier characters is left alone.
pub fn rename_in_lines(lines: &Vec<Vec<Glyph>>, position: Position, new_name: &str) -> (edits: Vec<
    TextEdit,
>)
    ensures
        edits_view(edits@) == rename_edits(lines_view(lines@), position, new_name@),
{
    let index = scan(lines);
    let (name, name_chars) = symbol_under_cursor(lines, position);
    if index.contains_key(name.as_str()) {
        rename_occurrences(lines, &name_chars, new_name)
    } else {
        let edits: Vec<TextEdit> = Vec::new();
        proof {
            assert(edits_view(edits@) =~= Seq::<Replacement>::empty());
        }
        edits
    }
}

/// The edits that rename the symbol under the cursor to `new_name`. Where the
/// cursor touches no token, or the token is not defined in `text`, there is
/// nothing to rename and no edit comes back. Otherwise each whole-token
/// occurrence of the name gets one edit, in the order in which a reader meets
/// them; a name that is part of a longer identifier is left alone.
pub fn rename_in_text(text: &str, position: Position, new_name: &str) -> (edits: Vec<TextEdit>)
    ensures
        edits_view(edits@) == rename_edits(text_lines(text@), position, new_name@),
{
    let lines = split_lines(&glyphs(text));
    rename_in_lines(&lines, position, new_name)
}

} // verus!
