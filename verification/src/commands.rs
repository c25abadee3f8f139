//! What the note commands decide, apart from reading and writing files:
//! how a new note looks, and which notes a text query selects.

use vstd::prelude::*;
use vstd::string::StringExecFns;
use crate::note::Note;

verus! {

/// Number of characters of a note identifier: 32 hexadecimal digits in five
/// groups, with four hyphens between them.
pub const NOTE_ID_LENGTH: usize = 36;

/// The lower-case form of a text as the standard library computes it.
pub uninterp spec fn lowercase(text: Seq<char>) -> Seq<char>;

/// Draws a random identifier: `uuid::Uuid::new_v4`, written out by its
/// `Display` form. Believed, not proved: that form always has
/// [`NOTE_ID_LENGTH`] characters. Which identifier comes out is left open.
#[verifier::external_body]
fn random_note_id() -> (id: String)
    ensures
        id@.len() == NOTE_ID_LENGTH,
{
    uuid::Uuid::new_v4().to_string()
}

/// Calls `str::to_lowercase`. Believed, not proved: the result depends on
/// the characters of the text alone, and [`lowercase`] is the name of it.
#[verifier::external_body]
fn to_lowercase(text: &str) -> (lower: String)
    ensures
        lower@ == lowercase(text@),
{
    text.to_lowercase()
}

/// Calls `str::contains` with a string pattern. Believed, not proved: it
/// tells whether the pattern stands somewhere in the text, character for
/// character.
#[verifier::external_body]
fn contains(text: &str, pattern: &str) -> (found: bool)
    ensures
        found == occurs_in(pattern@, text@),
{
    text.contains(pattern)
}

/// Whether `pattern` stands somewhere in `text`.
pub open spec fn occurs_in(pattern: Seq<char>, text: Seq<char>) -> bool {
    exists|i: int|
        0 <= i && i + pattern.len() <= text.len() && #[trigger] text.subrange(
            i,
            i + pattern.len(),
        ) == pattern
}

/// Whether a note is selected by a query already in lower case: the query
/// stands in the lower-case title or in the lower-case content.
pub open spec fn selected(note: Note, query: Seq<char>) -> bool {
    occurs_in(query, lowercase(note.title@)) || occurs_in(query, lowercase(note.content@))
}

/// The notes a query in lower case selects, in their order.
pub open spec fn selection(notes: Seq<Note>, query: Seq<char>) -> Seq<Note>
    decreases notes.len(),
{
    if notes.len() == 0 {
        Seq::empty()
    } else {
        let rest = selection(notes.drop_last(), query);
        if selected(notes.last(), query) {
            rest.push(notes.last())
        } else {
            rest
        }
    }
}

/// A note with the given identifier, titled "New Note", without content.
pub fn new_note(id: String) -> (note: Note)
    ensures
        note.id == id,
        note.title@ == "New Note"@,
        note.content@ == Seq::<char>::empty(),
{
    Note { id, title: String::from_str("New Note"), content: String::new() }
}

/// Creates a note under a fresh random identifier, titled "New Note",
/// without content.
pub fn create_note() -> (note: Note)
    ensures
        note.id@.len() == NOTE_ID_LENGTH,
        note.title@ == "New Note"@,
        note.content@ == Seq::<char>::empty(),
{
    new_note(random_note_id())
}

/// Tells whether a query stands in a title or in a content, all three taken
/// as they are.
pub fn holds_query(title: &str, content: &str, query: &str) -> (found: bool)
    ensures
        found == (occurs_in(query@, title@) || occurs_in(query@, content@)),
{
    contains(title, query) || contains(content, query)
}

/// Tells whether a note is selected by a query already in lower case.
pub fn note_matches(note: &Note, query: &str) -> (found: bool)
    ensures
        found == selected(*note, query@),
{
    let title = to_lowercase(note.title.as_str());
    let content = to_lowercase(note.content.as_str());
    holds_query(title.as_str(), content.as_str(), query)
}

/// The notes whose title or content holds the query, whatever the case of
/// either; every note for an empty query. The order of the notes is kept.
pub fn search_notes(notes: &[Note], query: &str) -> (found: Vec<Note>)
    ensures
        found@ == (if query@.len() == 0 {
            notes@
        } else {
            selection(notes@, lowercase(query@))
        }),
{
    let all: bool = query.is_empty();
    let lowered = to_lowercase(query);
    let mut found: Vec<Note> = Vec::new();
    let mut i: usize = 0;
    assert(notes@.take(0) =~= Seq::empty());
    while i < notes.len()
        invariant
            i <= notes@.len(),
            all == (query@.len() == 0),
            lowered@ == lowercase(query@),
            found@ == (if all {
                notes@.take(i as int)
            } else {
                selection(notes@.take(i as int), lowered@)
            }),
        decreases notes@.len() - i,
    {
        let note = &notes[i];
        proof {
            let head = notes@.take(i as int + 1);
            assert(head.drop_last() =~= notes@.take(i as int));
            assert(head.last() == notes@[i as int]);
        }
        if all || note_matches(note, lowered.as_str()) {
            found.push(note.copy());
            assert(all ==> found@ =~= notes@.take(i as int + 1));
        }
        i += 1;
    }
    assert(notes@.take(i as int) =~= notes@);
    found
}

} // verus!
