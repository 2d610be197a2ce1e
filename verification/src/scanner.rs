//! Definition sites: which lines define a symbol, and where.

use vstd::prelude::*;
use vstd::hash_map::StringHashMap;
use crate::position::{span_on_line, Span};
use crate::text::{
    glyph_of, glyphs, glyphs_of, is_identifier_char, lemma_glyphs_spell_text,
    lemma_lines_are_single, lines_view, split_lines, string_of, text_lines, values_of, Glyph,
};
use crate::token::{lemma_run_end, run_end};

verus! {

/// A symbol name: one or more identifier characters.
pub open spec fn is_symbol_name(name: Seq<char>) -> bool {
    &&& name.len() > 0
    &&& forall|i: int| 0 <= i < name.len() ==> is_identifier_char(#[trigger] name[i])
}

/// The name that a line defines: the token at its first column, where a colon
/// follows that token at once. Other lines define nothing.
pub open spec fn defined_name(line: Seq<Glyph>) -> Option<Seq<char>> {
    let end = run_end(line, 0);
    if 0 < end < line.len() && line[end].value == ':' {
        Some(values_of(line.subrange(0, end)))
    } else {
        None
    }
}

/// Line `n` defines `name`.
pub open spec fn defines(lines: Seq<Seq<Glyph>>, n: int, name: Seq<char>) -> bool {
    0 <= n < lines.len() && defined_name(lines[n]) == Some(name)
}

/// Line `n` defines `name`, and no later line does.
pub open spec fn is_last_definition(lines: Seq<Seq<Glyph>>, n: int, name: Seq<char>) -> bool {
    &&& defines(lines, n, name)
    &&& forall|m: int| n < m < lines.len() ==> !defines(lines, m, name)
}

/// The last line that defines `name`.
pub open spec fn last_definition(lines: Seq<Seq<Glyph>>, name: Seq<char>) -> int {
    choose|n: int| is_last_definition(lines, n, name)
}

/// The definitions of a document: each name that some line defines, with the
/// span of the name on the last line that defines it.
pub open spec fn definitions(lines: Seq<Seq<Glyph>>) -> Map<Seq<char>, Span> {
    Map::new(
        |name: Seq<char>| exists|n: int| defines(lines, n, name),
        |name: Seq<char>| span_on_line(last_definition(lines, name), 0, name.len() as int),
    )
}

/// A name that some line defines has a last defining line.
pub proof fn lemma_last_definition_exists(lines: Seq<Seq<Glyph>>, name: Seq<char>, n: int)
    requires
        defines(lines, n, name),
    ensures
        is_last_definition(lines, last_definition(lines, name), name),
        n <= last_definition(lines, name) < lines.len(),
    decreases lines.len() - n,
{
    if exists|m: int| n < m < lines.len() && defines(lines, m, name) {
        let m = choose|m: int| n < m < lines.len() && defines(lines, m, name);
        lemma_last_definition_exists(lines, name, m);
    } else {
        assert(is_last_definition(lines, n, name));
    }
}

/// A line that defines a name starts with that name, made of identifier
/// characters, and a colon that is none.
pub proof fn lemma_defining_line(line: Seq<Glyph>, name: Seq<char>)
    requires
        defined_name(line) == Some(name),
    ensures
        0 < name.len() < line.len(),
        values_of(line.subrange(0, name.len() as int)) == name,
        forall|i: int| 0 <= i < name.len() ==> (#[trigger] line[i]).word,
        line[name.len() as int].value == ':',
        !line[name.len() as int].word,
{
    lemma_run_end(line, 0);
}

/// Every defined name is recorded with the span that it covers at the start
/// of the last line that defines it.
pub proof fn lemma_definitions_lie_in_document(lines: Seq<Seq<Glyph>>, name: Seq<char>)
    requires
        definitions(lines).contains_key(name),
    ensures
        is_last_definition(lines, last_definition(lines, name), name),
        0 <= last_definition(lines, name) < lines.len(),
        definitions(lines)[name] == span_on_line(
            last_definition(lines, name),
            0,
            name.len() as int,
        ),
        0 < name.len() < lines[last_definition(lines, name)].len(),
        values_of(lines[last_definition(lines, name)].subrange(0, name.len() as int)) == name,
{
    let n = choose|n: int| defines(lines, n, name);
    lemma_last_definition_exists(lines, name, n);
    lemma_defining_line(lines[last_definition(lines, name)], name);
}

/// Every name defined in a text is a symbol name.
pub proof fn lemma_defined_names_are_symbol_names(text: Seq<char>, name: Seq<char>)
    requires
        definitions(text_lines(text)).contains_key(name),
    ensures
        is_symbol_name(name),
{
    let lines = text_lines(text);
    lemma_definitions_lie_in_document(lines, name);
    let line = lines[last_definition(lines, name)];
    lemma_defining_line(line, name);
    lemma_glyphs_spell_text(text, Seq::empty());
    lemma_lines_are_single(glyphs_of(text));
    assert forall|i: int| 0 <= i < name.len() implies is_identifier_char(#[trigger] name[i]) by {
        assert(values_of(line.subrange(0, name.len() as int))[i] == line[i].value);
        assert(line[i] == glyph_of(line[i].value));
    }
}

/// What one more line adds to the definitions of the lines before it.
pub proof fn lemma_definitions_step(lines: Seq<Seq<Glyph>>, n: int)
    requires
        0 <= n < lines.len(),
    ensures
        definitions(lines.take(n + 1)) == match defined_name(lines[n]) {
            Some(name) => definitions(lines.take(n)).insert(
                name,
                span_on_line(n, 0, name.len() as int),
            ),
            None => definitions(lines.take(n)),
        },
{
    let before = lines.take(n);
    let after = lines.take(n + 1);
    let expected = match defined_name(lines[n]) {
        Some(name) => definitions(before).insert(name, span_on_line(n, 0, name.len() as int)),
        None => definitions(before),
    };
    assert forall|m: int, name: Seq<char>| defines(before, m, name) implies defines(
        after,
        m,
        name,
    ) by {}
    assert forall|m: int, name: Seq<char>| defines(after, m, name) && m != n implies defines(
        before,
        m,
        name,
    ) by {}
    assert forall|name: Seq<char>| definitions(after).contains_key(name) implies #[trigger]
    expected.contains_key(name) && expected[name] == definitions(after)[name] by {
        let m = choose|m: int| defines(after, m, name);
        lemma_last_definition_exists(after, name, m);
        let last = last_definition(after, name);
        if defined_name(lines[n]) == Some(name) {
            assert(defines(after, n, name));
            assert(last == n);
        } else {
            assert(m != n);
            assert(defines(before, m, name));
            lemma_last_definition_exists(before, name, m);
            let earlier = last_definition(before, name);
            assert(defines(after, earlier, name));
            assert(defines(before, last, name));
            assert(last == earlier);
        }
    }
    assert forall|name: Seq<char>| expected.contains_key(name) implies #[trigger] definitions(
        after,
    ).contains_key(name) by {
        if defined_name(lines[n]) == Some(name) {
            assert(defines(after, n, name));
        } else {
            let m = choose|m: int| defines(before, m, name);
            assert(defines(after, m, name));
        }
    }
    assert(definitions(after) =~= expected);
}

/// Scanning depends on the text alone: two indexes that each hold the
/// definitions of one text hold the same names with the same spans.
pub proof fn lemma_scan_is_repeatable(
    text: Seq<char>,
    first: Map<Seq<char>, Span>,
    second: Map<Seq<char>, Span>,
)
    requires
        first == definitions(text_lines(text)),
        second == definitions(text_lines(text)),
    ensures
        first == second,
        first.dom() == second.dom(),
        forall|name: Seq<char>| first.contains_key(name) ==> first[name] == second[name],
{
}

/// The definitions found in one document.
pub struct DefinitionIndex {
    entries: StringHashMap<Span>,
}

impl View for DefinitionIndex {
    type V = Map<Seq<char>, Span>;

    closed spec fn view(&self) -> Map<Seq<char>, Span> {
        self.entries@
    }
}

impl DefinitionIndex {
    /// Where `name` is defined, if it is.
    pub fn get(&self, name: &str) -> (span: Option<Span>)
        ensures
            span == if self@.contains_key(name@) {
                Some(self@[name@])
            } else {
                None::<Span>
            },
    {
        match self.entries.get(name) {
            Some(span) => Some(*span),
            None => None,
        }
    }

    /// Whether `name` is defined.
    pub fn contains_key(&self, name: &str) -> (found: bool)
        ensures
            found == self@.contains_key(name@),
    {
        self.entries.contains_key(name)
    }

    /// How many names are defined.
    pub fn len(&self) -> (count: usize)
        ensures
            count == self@.len(),
    {
        self.entries.len()
    }
}

/// The length of the name that `line` defines, if it defines one.
pub fn defined_name_len(line: &Vec<Glyph>) -> (len: Option<usize>)
    ensures
        match len {
            Some(k) => defined_name(line@) == Some(values_of(line@.subrange(0, k as int))) && 0
                < k < line.len(),
            None => defined_name(line@) is None,
        },
{
    let mut end: usize = 0;
    while end < line.len() && line[end].word
        invariant
            end <= line.len(),
            run_end(line@, 0) == run_end(line@, end as int),
        decreases line.len() - end,
    {
        end += 1;
    }
    if end > 0 && end < line.len() && line[end].value == ':' {
        Some(end)
    } else {
        None
    }
}

/// The definitions among `lines`: a line defines a name where it starts with
/// a run of identifier characters that a colon follows at once. Where several
/// lines define one name, the last of them is recorded.
pub fn scan(lines: &Vec<Vec<Glyph>>) -> (index: DefinitionIndex)
    ensures
        index@ == definitions(lines_view(lines@)),
{
    let mut entries: StringHashMap<Span> = StringHashMap::new();
    let ghost all = lines_view(lines@);
    let mut n: usize = 0;
    proof {
        assert(definitions(all.take(0)) =~= Map::empty());
    }
    while n < lines.len()
        invariant
            n <= lines.len(),
            all == lines_view(lines@),
            entries@ == definitions(all.take(n as int)),
        decreases lines.len() - n,
    {
        proof {
            lemma_definitions_step(all, n as int);
        }
        match defined_name_len(&lines[n]) {
            Some(len) => {
                let name = string_of(&lines[n], 0, len);
                entries.insert(name, Span::on_line(n, 0, len));
            },
            None => {},
        }
        n += 1;
    }
    proof {
        assert(all.take(n as int) =~= all);
    }
    DefinitionIndex { entries }
}

/// Scans a document for definitions. A line defines a name where it starts, at
/// its first column, with a run of letters, digits and `_` that a colon follows
/// at once. Each name is recorded with the span it covers on its line; where
/// several lines define one name, the last of them is recorded.
pub fn parse(text: &str) -> (index: DefinitionIndex)
    ensures
        index@ == definitions(text_lines(text@)),
{
    let lines = split_lines(&glyphs(text));
    scan(&lines)
}

} // verus!
