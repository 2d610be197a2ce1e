//! The open documents: the current text of each, and the generation of that text.

use vstd::prelude::*;
use dashmap::DashMap;
use crate::diagnostics::{get_diagnostics, published, verdict, CheckerOutcome, Diagnostic};
use crate::position::{Position, Span};
use crate::rename::{edit_set_of, rename_edits, rename_in_text, EditSet};
use crate::resolver::{definition_at, resolve};
use crate::text::{strings_view, text_lines, trimmed_lines, trimmed_lines_of};

verus! {

/// `dashmap::DashMap`, the concurrent hash map that holds the documents. Its
/// inside is not described here: what it holds is named by [`entries`].
#[verifier::external_type_specification]
#[verifier::external_body]
#[verifier::reject_recursive_types(K)]
#[verifier::reject_recursive_types(V)]
#[verifier::reject_recursive_types(S)]
pub struct ExDashMap<K, V, S>(DashMap<K, V, S>);

/// What a table of documents holds: for each identifier in it, the generation
/// and the text stored under it.
pub uninterp spec fn entries(table: DashMap<String, (u64, String)>) -> Map<
    Seq<char>,
    (u64, Seq<char>),
>;

/// `DashMap::new`. Trusted: the new table holds nothing.
#[verifier::external_body]
fn table_new() -> (table: DashMap<String, (u64, String)>)
    ensures
        entries(table) == (Map::<Seq<char>, (u64, Seq<char>)>::empty()),
{
    DashMap::new()
}

/// `DashMap::insert`. Trusted: afterwards `key` maps to the new value, whether
/// or not it was present, and every other entry is as before.
#[verifier::external_body]
fn table_insert(
    table: &mut DashMap<String, (u64, String)>,
    key: String,
    generation: u64,
    text: String,
)
    ensures
        entries(*final(table)) == entries(*old(table)).insert(key@, (generation, text@)),
{
    table.insert(key, (generation, text));
}

/// `DashMap::get`, with the entry copied out. Trusted: the value stored under
/// `key` comes back, or `None` where the table has no such key.
#[verifier::external_body]
fn table_get(table: &DashMap<String, (u64, String)>, key: &str) -> (entry: Option<(u64, String)>)
    ensures
        match entry {
            Some(found) => entries(*table).contains_key(key@) && entries(*table)[key@] == (
                found.0,
                found.1@,
            ),
            None => !entries(*table).contains_key(key@),
        },
{
    match table.get(key) {
        Some(entry) => Some(entry.value().clone()),
        None => None,
    }
}

/// `DashMap::remove`. Trusted: afterwards the table has no entry for `key`, and
/// every other entry is as before.
#[verifier::external_body]
fn table_remove(table: &mut DashMap<String, (u64, String)>, key: &str)
    ensures
        entries(*final(table)) == entries(*old(table)).remove(key@),
{
    table.remove(key);
}

/// Why a request could not be served.
#[derive(Clone, Copy, Debug, PartialEq, Eq, Structural)]
pub enum StoreError {
    /// The request names a document that is not open.
    UnknownDocument,
}

/// The generation that follows `clock`. The counter stops at its largest value
/// instead of starting over.
pub open spec fn next_clock(clock: u64) -> u64 {
    if clock < u64::MAX {
        (clock + 1) as u64
    } else {
        clock
    }
}

/// What the store holds of one open document.
pub struct Snapshot {
    /// The generation at which the text was set.
    pub generation: u64,
    /// The full current text.
    pub text: Seq<char>,
}

/// The table of open documents. Each document carries the generation at which
/// its text was last set; generations are handed out from one counter, so a
/// later change always carries a larger one.
pub struct DocumentStore {
    documents: DashMap<String, (u64, String)>,
    clock: u64,
}

impl View for DocumentStore {
    type V = Map<Seq<char>, Snapshot>;

    closed spec fn view(&self) -> Map<Seq<char>, Snapshot> {
        Map::new(
            |id: Seq<char>| entries(self.documents).contains_key(id),
            |id: Seq<char>|
                Snapshot {
                    generation: entries(self.documents)[id].0,
                    text: entries(self.documents)[id].1,
                },
        )
    }
}

impl DocumentStore {
    /// The generation that the next change will carry.
    pub closed spec fn clock(&self) -> u64 {
        self.clock
    }

    /// Every generation in the store was handed out by its counter: it lies
    /// below the counter, unless the counter has reached its largest value.
    pub open spec fn wf(&self) -> bool {
        forall|id: Seq<char>| #[trigger]
            self@.contains_key(id) ==> self@[id].generation < self.clock() || self.clock()
                == u64::MAX
    }

    /// `generation` is the generation of the current text of `id`.
    pub open spec fn is_current_for(&self, id: Seq<char>, generation: u64) -> bool {
        self@.contains_key(id) && self@[id].generation == generation
    }

    /// A change retires what came before it: in a well-formed store whose
    /// counter has not run out, the generation of the new text is larger than
    /// every generation in the store before, so none of those is current for
    /// the changed document afterwards.
    pub proof fn lemma_change_retires_generations(
        before: &DocumentStore,
        after: &DocumentStore,
        id: Seq<char>,
        text: Seq<char>,
    )
        requires
            before.wf(),
            before.clock() < u64::MAX,
            after@ == before@.insert(id, (Snapshot { generation: before.clock(), text })),
        ensures
            forall|other: Seq<char>| #[trigger]
                before@.contains_key(other) ==> before@[other].generation < after@[id].generation,
            forall|other: Seq<char>| #[trigger]
                before@.contains_key(other) ==> !after.is_current_for(
                    id,
                    before@[other].generation,
                ),
    {
    }

    /// A store with no open document.
    pub fn new() -> (store: DocumentStore)
        ensures
            store@ == (Map::<Seq<char>, Snapshot>::empty()),
            store.clock() == 0,
            store.wf(),
    {
        let store = DocumentStore { documents: table_new(), clock: 0 };
        proof {
            assert(store@ =~= Map::<Seq<char>, Snapshot>::empty());
        }
        store
    }

    /// Sets the text of `id`, opening the document if need be, and returns the
    /// generation that this text carries.
    fn set_text(&mut self, id: String, text: String) -> (generation: u64)
        ensures
            final(self)@ == old(self)@.insert(id@, (Snapshot { generation, text: text@ })),
            generation == old(self).clock(),
            final(self).clock() == next_clock(old(self).clock()),
            old(self).wf() ==> final(self).wf(),
    {
        let generation = self.clock;
        table_insert(&mut self.documents, id, generation, text);
        if self.clock < u64::MAX {
            self.clock = self.clock + 1;
        }
        proof {
            assert(final(self)@ =~= old(self)@.insert(
                id@,
                Snapshot { generation, text: text@ },
            ));
        }
        generation
    }

    /// A document was opened with `text` as its content. Returns the
    /// generation of that content.
    pub fn did_open(&mut self, id: String, text: String) -> (generation: u64)
        ensures
            final(self)@ == old(self)@.insert(id@, (Snapshot { generation, text: text@ })),
            generation == old(self).clock(),
            final(self).clock() == next_clock(old(self).clock()),
            old(self).wf() ==> final(self).wf(),
    {
        self.set_text(id, text)
    }

    /// The content of a document changed to `text`, which replaces the old
    /// content as a whole. Returns the generation of the new content.
    pub fn did_change(&mut self, id: String, text: String) -> (generation: u64)
        ensures
            final(self)@ == old(self)@.insert(id@, (Snapshot { generation, text: text@ })),
            generation == old(self).clock(),
            final(self).clock() == next_clock(old(self).clock()),
            old(self).wf() ==> final(self).wf(),
    {
        self.set_text(id, text)
    }

    /// A document was closed: the store forgets it.
    pub fn did_close(&mut self, id: &str)
        ensures
            final(self)@ == old(self)@.remove(id@),
            final(self).clock() == old(self).clock(),
            old(self).wf() ==> final(self).wf(),
    {
        table_remove(&mut self.documents, id);
        proof {
            assert(final(self)@ =~= old(self)@.remove(id@));
        }
    }

    /// The current text of a document, if it is open.
    pub fn text(&self, id: &str) -> (text: Option<String>)
        ensures
            match text {
                Some(found) => self@.contains_key(id@) && found@ == self@[id@].text,
                None => !self@.contains_key(id@),
            },
    {
        match table_get(&self.documents, id) {
            Some(entry) => Some(entry.1),
            None => None,
        }
    }

    /// The generation of a document's current text, if it is open.
    pub fn generation(&self, id: &str) -> (generation: Option<u64>)
        ensures
            match generation {
                Some(found) => self@.contains_key(id@) && found == self@[id@].generation,
                None => !self@.contains_key(id@),
            },
    {
        match table_get(&self.documents, id) {
            Some(entry) => Some(entry.0),
            None => None,
        }
    }

    /// Whether `generation` is still the generation of `id`: the document is
    /// open and its text has not been set since.
    pub fn is_current(&self, id: &str, generation: u64) -> (current: bool)
        ensures
            current == self.is_current_for(id@, generation),
    {
        match table_get(&self.documents, id) {
            Some(entry) => entry.0 == generation,
            None => false,
        }
    }

    /// Where the symbol under the cursor is defined. `Ok(None)` where the
    /// cursor touches no token or the token is not defined in the document.
    pub fn goto_definition(&self, id: &str, position: Position) -> (found: Result<
        Option<Span>,
        StoreError,
    >)
        ensures
            match found {
                Ok(span) => self@.contains_key(id@) && span == definition_at(
                    text_lines(self@[id@].text),
                    position,
                ),
                Err(error) => error == StoreError::UnknownDocument && !self@.contains_key(id@),
            },
    {
        match table_get(&self.documents, id) {
            Some(entry) => Ok(resolve(entry.1.as_str(), position)),
            None => Err(StoreError::UnknownDocument),
        }
    }

    /// The edits that rename the symbol under the cursor to `new_name`
    /// throughout the document. The set is empty where the cursor touches no
    /// token or the token is not defined. The store itself is not changed.
    pub fn rename(&self, id: &str, position: Position, new_name: &str) -> (changes: Result<
        EditSet,
        StoreError,
    >)
        ensures
            match changes {
                Ok(set) => self@.contains_key(id@) && set@ == edit_set_of(
                    id@,
                    rename_edits(text_lines(self@[id@].text), position, new_name@),
                ),
                Err(error) => error == StoreError::UnknownDocument && !self@.contains_key(id@),
            },
    {
        match table_get(&self.documents, id) {
            Some(entry) => {
                let edits = rename_in_text(entry.1.as_str(), position, new_name);
                Ok(EditSet::new(id.to_owned(), edits))
            },
            None => Err(StoreError::UnknownDocument),
        }
    }

    /// What a diagnostics pass over a document starts from: the generation of
    /// its text, by which the result is judged later, and its trimmed lines.
    pub fn diagnostics_input(&self, id: &str) -> (input: Result<(u64, Vec<String>), StoreError>)
        ensures
            match input {
                Ok(found) => {
                    &&& self@.contains_key(id@)
                    &&& found.0 == self@[id@].generation
                    &&& strings_view(found.1@) == trimmed_lines_of(self@[id@].text)
                },
                Err(error) => error == StoreError::UnknownDocument && !self@.contains_key(id@),
            },
    {
        match table_get(&self.documents, id) {
            Some(entry) => Ok((entry.0, trimmed_lines(entry.1.as_str()))),
            None => Err(StoreError::UnknownDocument),
        }
    }

    /// The diagnostics to publish for `id` once the checker has run on the
    /// text of generation `generation`. A pass whose text has been replaced
    /// or closed in the meantime publishes nothing, and so does one whose
    /// checker was unavailable.
    pub fn diagnostics(
        &self,
        id: &str,
        generation: u64,
        outcome: &CheckerOutcome,
        doc_lines: &Vec<String>,
    ) -> (diagnostics: Option<Vec<Diagnostic>>)
        ensures
            published(diagnostics) == if self.is_current_for(id@, generation) {
                verdict(*outcome, strings_view(doc_lines@))
            } else {
                None
            },
    {
        if self.is_current(id, generation) {
            get_diagnostics(outcome, doc_lines)
        } else {
            None
        }
    }
}

} // verus!
