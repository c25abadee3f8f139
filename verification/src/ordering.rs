//! Notes in the order they are listed: by identifier, greatest first.

use vstd::prelude::*;
use vstd::multiset::Multiset;
use vstd::seq_lib::to_multiset_build;
use vstd::seq_lib::to_multiset_remove;
use crate::note::Note;
use crate::text::lemma_text_before_chain;
use crate::text::lemma_text_before_irreflexive;
use crate::text::stands_before;
use crate::text::text_before;

verus! {

/// Whether identifiers never rise along a list of notes.
pub open spec fn newest_first(notes: Seq<Note>) -> bool {
    forall|i: int, j: int|
        0 <= i < j < notes.len() ==> !text_before(
            (#[trigger] notes[i]).id@,
            (#[trigger] notes[j]).id@,
        )
}

/// Position of a note whose identifier no other note's identifier stands
/// after; the first such position.
fn greatest(notes: &Vec<Note>) -> (best: usize)
    requires
        notes@.len() > 0,
    ensures
        best < notes@.len(),
        forall|j: int|
            0 <= j < notes@.len() ==> !text_before(notes@[best as int].id@, (#[trigger] notes@[j]).id@),
{
    let mut best: usize = 0;
    let mut k: usize = 1;
    proof {
        lemma_text_before_irreflexive(notes@[0].id@);
    }
    while k < notes.len()
        invariant
            best < k <= notes@.len(),
            forall|j: int|
                0 <= j < k ==> !text_before(notes@[best as int].id@, (#[trigger] notes@[j]).id@),
        decreases notes@.len() - k,
    {
        if stands_before(notes[best].id.as_str(), notes[k].id.as_str()) {
            proof {
                lemma_text_before_irreflexive(notes@[k as int].id@);
                assert forall|j: int| 0 <= j < k implies !text_before(
                    notes@[k as int].id@,
                    (#[trigger] notes@[j]).id@,
                ) by {
                    lemma_text_before_chain(
                        notes@[best as int].id@,
                        notes@[j].id@,
                        notes@[k as int].id@,
                    );
                }
            }
            best = k;
        }
        k += 1;
    }
    best
}

/// Puts notes in listing order: the same notes, identifiers never rising.
pub fn sort_newest_first(notes: Vec<Note>) -> (sorted: Vec<Note>)
    ensures
        sorted@.to_multiset() == notes@.to_multiset(),
        newest_first(sorted@),
{
    let mut rest = notes;
    let mut sorted: Vec<Note> = Vec::new();
    assert(sorted@.to_multiset().add(rest@.to_multiset()) =~= notes@.to_multiset()) by {
        assert(sorted@.to_multiset() =~= Seq::<Note>::empty().to_multiset());
        Seq::<Note>::empty().to_multiset_ensures();
        assert(Seq::<Note>::empty().to_multiset().len() == 0);
    }
    while rest.len() > 0
        invariant
            sorted@.to_multiset().add(rest@.to_multiset()) == notes@.to_multiset(),
            newest_first(sorted@),
            forall|i: int, k: int|
                0 <= i < sorted@.len() && 0 <= k < rest@.len() ==> !text_before(
                    (#[trigger] sorted@[i]).id@,
                    (#[trigger] rest@[k]).id@,
                ),
        decreases rest@.len(),
    {
        let best = greatest(&rest);
        let ghost before = rest@;
        let ghost done = sorted@;
        let note = rest.remove(best);
        sorted.push(note);
        proof {
            broadcast use vstd::multiset::group_multiset_axioms;

            to_multiset_remove(before, best as int);
            to_multiset_build(done, note);
            before.to_multiset_ensures();
            assert(before.contains(before[best as int]));
            assert(sorted@.to_multiset().add(rest@.to_multiset()) =~= done.to_multiset().add(
                before.to_multiset(),
            ));
            assert forall|i: int, k: int|
                0 <= i < sorted@.len() && 0 <= k < rest@.len() implies !text_before(
                (#[trigger] sorted@[i]).id@,
                (#[trigger] rest@[k]).id@,
            ) by {
                let k0 = if k < best { k } else { k + 1 };
                assert(rest@[k] == before[k0]);
                if i < done.len() {
                    assert(sorted@[i] == done[i]);
                }
            }
            assert forall|i: int, j: int| 0 <= i < j < sorted@.len() implies !text_before(
                (#[trigger] sorted@[i]).id@,
                (#[trigger] sorted@[j]).id@,
            ) by {
                assert(sorted@[i] == done[i]);
                if j < done.len() {
                    assert(sorted@[j] == done[j]);
                }
            }
        }
    }
    assert(rest@.to_multiset() =~= Multiset::<Note>::empty()) by {
        rest@.to_multiset_ensures();
    }
    assert(sorted@.to_multiset().add(Multiset::<Note>::empty()) =~= sorted@.to_multiset());
    sorted
}

} // verus!
