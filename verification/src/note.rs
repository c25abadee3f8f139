//! The document that gets indexed.

use vstd::prelude::*;
use vstd::string::StringExecFns;

verus! {

/// A note: a stable identifier, a title and a body.
#[derive(Clone, Debug)]
pub struct Note {
    pub id: String,
    pub title: String,
    pub content: String,
}

impl Note {
    /// The text a note is indexed under: title, one space, body.
    pub open spec fn text(&self) -> Seq<char> {
        self.title@ + seq![' '] + self.content@
    }

    /// Makes a second note with the same identifier, title and content.
    pub fn copy(&self) -> (note: Note)
        ensures
            note == *self,
    {
        Note { id: self.id.clone(), title: self.title.clone(), content: self.content.clone() }
    }

    /// Builds the text a note is indexed under.
    pub fn indexed_text(&self) -> (text: String)
        ensures
            text@ == self.text(),
    {
        proof {
            reveal_strlit(" ");
        }
        let text = self.title.clone().concat(" ").concat(self.content.as_str());
        proof {
            assert(" "@ =~= seq![' ']);
        }
        text
    }
}

/// The identifiers of a list of notes, in order.
pub open spec fn note_ids(notes: Seq<Note>) -> Seq<Seq<char>> {
    Seq::new(notes.len(), |i: int| notes[i].id@)
}

} // verus!
