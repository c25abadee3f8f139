//! The index manager: which internal id stands for which note, which ids are
//! live, and what the nearest-neighbour graph is asked to do.
//!
//! The graph cannot delete. A removed note keeps its vector in the graph; the
//! manager forgets the id, and a neighbour whose id it has forgotten is never
//! shown.

use vstd::prelude::*;
use vstd::string::StringExecFns;
use std::collections::HashMap;
use crate::distance::Distance;
use crate::note::Note;
use crate::note::note_ids;

verus! {

broadcast use {vstd::std_specs::hash::group_hash_axioms, vstd::string::group_string_axioms};

/// Number of components of an embedding vector.
pub const EMBEDDING_DIMENSION: usize = 128;

/// Number of vectors the graph is sized for.
pub const MAX_ELEMENTS: usize = 10000;

/// Most neighbours a graph node keeps per layer.
pub const MAX_NB_CONNECTION: usize = 16;

/// Number of layers of the graph.
pub const NB_LAYER: usize = 16;

/// Size of the candidate list while the graph is built.
pub const EF_CONSTRUCTION: usize = 200;

/// Size of the candidate list while the graph is searched.
pub const EF_SEARCH: usize = 50;

/// What can go wrong when the index is asked about a note.
#[derive(Clone, Copy, Debug, PartialEq, Eq, Structural)]
pub enum EmbeddingError {
    /// The note is not among the live ones.
    NotFound,
}

impl EmbeddingError {
    /// The message shown for this error.
    pub fn message(&self) -> (text: String)
        ensures
            text@ == "Item not found"@,
    {
        match self {
            EmbeddingError::NotFound => String::from_str("Item not found"),
        }
    }
}

/// The parameters a graph is allocated with.
#[derive(Clone, Copy, Debug, PartialEq, Eq, Structural)]
pub struct IndexConfig {
    pub max_nb_connection: usize,
    pub max_elements: usize,
    pub nb_layer: usize,
    pub ef_construction: usize,
}

impl IndexConfig {
    /// The one configuration this crate uses.
    pub open spec fn fixed() -> IndexConfig {
        IndexConfig {
            max_nb_connection: MAX_NB_CONNECTION,
            max_elements: MAX_ELEMENTS,
            nb_layer: NB_LAYER,
            ef_construction: EF_CONSTRUCTION,
        }
    }

    /// Returns the one configuration this crate uses.
    pub fn standard() -> (config: IndexConfig)
        ensures
            config == IndexConfig::fixed(),
    {
        IndexConfig {
            max_nb_connection: MAX_NB_CONNECTION,
            max_elements: MAX_ELEMENTS,
            nb_layer: NB_LAYER,
            ef_construction: EF_CONSTRUCTION,
        }
    }
}

/// One vector to put into the graph: the text to embed and the id to store
/// it under.
#[derive(Clone, Debug)]
pub struct IndexInsert {
    pub id: usize,
    pub text: String,
}

/// What the graph's owner has to do after a change of the manager: allocate
/// a fresh graph first if `allocate` says so, then insert in order.
#[derive(Clone, Debug)]
pub struct IndexPlan {
    pub allocate: Option<IndexConfig>,
    pub inserts: Vec<IndexInsert>,
}

/// A query for the graph: the text to embed, how many neighbours to ask for,
/// and how wide to search.
#[derive(Clone, Debug)]
pub struct IndexQuery {
    pub text: String,
    pub k: usize,
    pub ef_search: usize,
}

/// One answer of the graph: an internal id and its distance to the query.
#[derive(Clone, Copy, Debug)]
pub struct Neighbour {
    pub id: usize,
    pub distance: Distance,
}

/// Whether a distance passes an optional cutoff: only a distance strictly
/// greater than the cutoff is turned away.
pub open spec fn within(distance: Distance, cutoff: Option<Distance>) -> bool {
    match cutoff {
        Some(c) => !distance.greater_than(c),
        None => true,
    }
}

/// The bucket of each character of a text: its code point modulo the
/// embedding dimension.
pub open spec fn buckets(text: Seq<char>) -> Seq<usize> {
    Seq::new(text.len(), |i: int| ((text[i] as u32) % (EMBEDDING_DIMENSION as u32)) as usize)
}

/// Computes the bucket of each character of a text, in order. The character
/// at position `i` adds `1 / (i + 1)` to its bucket when the text is embedded.
pub fn bucket_indices(text: &str) -> (out: Vec<usize>)
    ensures
        out@ == buckets(text@),
        forall|i: int| 0 <= i < out@.len() ==> out@[i] < EMBEDDING_DIMENSION,
{
    let mut out: Vec<usize> = Vec::new();
    for c in it: text.chars()
        invariant
            it.seq() == text@,
            out@ == buckets(text@).take(it.index() as int),
    {
        let bucket: usize = ((c as u32) % (EMBEDDING_DIMENSION as u32)) as usize;
        out.push(bucket);
        assert(out@ =~= buckets(text@).take(it.index() + 1));
    }
    assert(out@ =~= buckets(text@));
    out
}

/// The manager's state as mathematics.
pub struct ManagerState {
    /// Whether a graph has been allocated.
    pub ready: bool,
    /// Live notes: external id to the internal id it currently has.
    pub forward: Map<Seq<char>, usize>,
    /// Ids that may be shown: internal id to external id.
    pub reverse: Map<usize, Seq<char>>,
    /// The internal id the next insertion gets.
    pub next_id: usize,
}

impl ManagerState {
    /// No graph, no notes.
    pub open spec fn empty() -> ManagerState {
        ManagerState { ready: false, forward: Map::empty(), reverse: Map::empty(), next_id: 0 }
    }

    /// What always holds: a live note's internal id leads back to the note,
    /// every id that may be shown was handed out before, and without a graph
    /// there is nothing.
    pub open spec fn wf(self) -> bool {
        &&& forall|e: Seq<char>| #[trigger]
            self.forward.contains_key(e) ==> self.reverse.contains_key(self.forward[e])
                && self.reverse[self.forward[e]] == e
        &&& forall|i: usize| #[trigger] self.reverse.contains_key(i) ==> i < self.next_id
        &&& !self.ready ==> self == ManagerState::empty()
    }

    /// Every id that may be shown belongs to a live note, and is the id that
    /// note currently has: no note is reachable under two ids.
    pub open spec fn single_valued(self) -> bool {
        forall|i: usize| #[trigger]
            self.reverse.contains_key(i) ==> self.forward.contains_key(self.reverse[i])
                && self.forward[self.reverse[i]] == i
    }

    /// The state once a graph is allocated.
    pub open spec fn initialize(self) -> ManagerState {
        ManagerState { ready: true, ..self }
    }

    /// The state after a note is added under the next id.
    pub open spec fn add(self, id: Seq<char>) -> ManagerState {
        ManagerState {
            ready: true,
            forward: self.forward.insert(id, self.next_id),
            reverse: self.reverse.insert(self.next_id, id),
            next_id: (self.next_id + 1) as usize,
        }
    }

    /// The state after a note is removed; unchanged when the note is not live.
    pub open spec fn remove(self, id: Seq<char>) -> ManagerState {
        if self.forward.contains_key(id) {
            ManagerState {
                forward: self.forward.remove(id),
                reverse: self.reverse.remove(self.forward[id]),
                ..self
            }
        } else {
            self
        }
    }

    /// The state after a note is updated: removed if live, then added.
    pub open spec fn update(self, id: Seq<char>) -> ManagerState {
        self.remove(id).add(id)
    }

    /// The state after a rebuild from the given notes, added in order to a
    /// fresh state.
    pub open spec fn rebuilt(ids: Seq<Seq<char>>) -> ManagerState
        decreases ids.len(),
    {
        if ids.len() == 0 {
            ManagerState::empty().initialize()
        } else {
            ManagerState::rebuilt(ids.drop_last()).add(ids.last())
        }
    }

    /// Whether a neighbour is shown: it passes the cutoff and its id has not
    /// been forgotten.
    pub open spec fn shown(self, n: Neighbour, cutoff: Option<Distance>) -> bool {
        within(n.distance, cutoff) && self.reverse.contains_key(n.id)
    }

    /// The neighbours that are shown, in the order the graph gave them.
    pub open spec fn kept(self, ns: Seq<Neighbour>, cutoff: Option<Distance>) -> Seq<Neighbour>
        decreases ns.len(),
    {
        if ns.len() == 0 {
            Seq::empty()
        } else {
            let rest = self.kept(ns.drop_last(), cutoff);
            if self.shown(ns.last(), cutoff) {
                rest.push(ns.last())
            } else {
                rest
            }
        }
    }

    /// The external ids a search returns: the note behind each neighbour that
    /// is shown, in the order the graph gave them.
    pub open spec fn search(self, ns: Seq<Neighbour>, cutoff: Option<Distance>) -> Seq<Seq<char>> {
        self.kept(ns, cutoff).map_values(|n: Neighbour| self.reverse[n.id])
    }
}

/// The forward mapping is held as a list of entries; this ties the list to
/// the map it stands for: same pairs, no external id twice.
pub open spec fn entries_match(entries: Seq<(String, usize)>, m: Map<Seq<char>, usize>) -> bool {
    &&& forall|i: int|
        0 <= i < entries.len() ==> m.contains_key((#[trigger] entries[i]).0@)
            && m[entries[i].0@] == entries[i].1
    &&& forall|e: Seq<char>| #[trigger]
        m.contains_key(e) ==> exists|i: int|
            0 <= i < entries.len() && (#[trigger] entries[i]).0@ == e
    &&& forall|i: int, j: int|
        0 <= i < j < entries.len() ==> (#[trigger] entries[i]).0@ != (#[trigger] entries[j]).0@
}

/// Owns the identifier mappings of one index.
pub struct EmbeddingManager {
    ready: bool,
    note_to_id: Vec<(String, usize)>,
    id_to_note: HashMap<usize, String>,
    next_id: usize,
    forward: Ghost<Map<Seq<char>, usize>>,
}

impl View for EmbeddingManager {
    type V = ManagerState;

    closed spec fn view(&self) -> ManagerState {
        ManagerState {
            ready: self.ready,
            forward: self.forward@,
            reverse: self.id_to_note@.map_values(|s: String| s@),
            next_id: self.next_id,
        }
    }
}

impl EmbeddingManager {
    /// The representation is sound: the state is well-formed and the entry
    /// list stands for the forward mapping.
    pub closed spec fn wf(&self) -> bool {
        &&& self@.wf()
        &&& entries_match(self.note_to_id@, self.forward@)
    }

    /// What `wf` promises of the state.
    pub proof fn lemma_wf_state(&self)
        requires
            self.wf(),
        ensures
            self@.wf(),
    {
    }

    /// A manager with no graph and no notes.
    pub fn new() -> (m: EmbeddingManager)
        ensures
            m.wf(),
            m@ == ManagerState::empty(),
    {
        let m = EmbeddingManager {
            ready: false,
            note_to_id: Vec::new(),
            id_to_note: HashMap::new(),
            next_id: 0,
            forward: Ghost(Map::empty()),
        };
        assert(m@.reverse =~= Map::empty());
        m
    }

    /// Whether a graph has been allocated.
    pub fn is_ready(&self) -> (r: bool)
        ensures
            r == self@.ready,
    {
        self.ready
    }

    /// The internal id the next insertion gets.
    pub fn next_id(&self) -> (r: usize)
        ensures
            r == self@.next_id,
    {
        self.next_id
    }

    /// Position of a note's entry in the forward list.
    fn find(&self, id: &String) -> (r: Option<usize>)
        requires
            self.wf(),
        ensures
            match r {
                Some(i) => i < self.note_to_id@.len() && self.note_to_id@[i as int].0@ == id@,
                None => !self@.forward.contains_key(id@),
            },
    {
        let mut i: usize = 0;
        while i < self.note_to_id.len()
            invariant
                self.wf(),
                i <= self.note_to_id@.len(),
                forall|j: int| 0 <= j < i ==> (#[trigger] self.note_to_id@[j]).0@ != id@,
            decreases self.note_to_id@.len() - i,
        {
            if self.note_to_id[i].0 == *id {
                return Some(i);
            }
            i += 1;
        }
        None
    }

    /// The internal id a live note currently has.
    pub fn internal_id(&self, id: &String) -> (r: Option<usize>)
        requires
            self.wf(),
        ensures
            r == (if self@.forward.contains_key(id@) {
                Some(self@.forward[id@])
            } else {
                None
            }),
    {
        match self.find(id) {
            Some(i) => Some(self.note_to_id[i].1),
            None => None,
        }
    }

    /// The note behind an internal id, if the id may still be shown.
    pub fn external_id(&self, id: usize) -> (r: Option<String>)
        requires
            self.wf(),
        ensures
            match r {
                Some(e) => self@.reverse.contains_key(id) && self@.reverse[id] == e@,
                None => !self@.reverse.contains_key(id),
            },
    {
        match self.id_to_note.get(&id) {
            Some(e) => Some(e.clone()),
            None => None,
        }
    }

    /// Marks the graph as allocated and tells with which parameters to
    /// allocate it. The mappings stay as they are.
    pub fn initialize(&mut self) -> (r: Result<IndexConfig, EmbeddingError>)
        requires
            old(self).wf(),
        ensures
            final(self).wf(),
            final(self)@ == old(self)@.initialize(),
            r == Ok::<IndexConfig, EmbeddingError>(IndexConfig::fixed()),
    {
        self.ready = true;
        Ok(IndexConfig::standard())
    }

    /// Forgets a note's forward entry, if it has one.
    fn forget(&mut self, id: &String) -> (r: Option<usize>)
        requires
            old(self).wf(),
        ensures
            final(self).ready == old(self).ready,
            final(self).next_id == old(self).next_id,
            final(self).id_to_note == old(self).id_to_note,
            final(self).forward@ == old(self).forward@.remove(id@),
            entries_match(final(self).note_to_id@, final(self).forward@),
            r == (if old(self)@.forward.contains_key(id@) {
                Some(old(self)@.forward[id@])
            } else {
                None
            }),
    {
        match self.find(id) {
            Some(i) => {
                let ghost before = self.note_to_id@;
                let ghost map_before = self.forward@;
                let entry = self.note_to_id.remove(i);
                proof {
                    self.forward = Ghost(map_before.remove(id@));
                    let after = self.note_to_id@;
                    assert(after =~= before.remove(i as int));
                    assert forall|j: int| 0 <= j < after.len() implies self.forward@.contains_key(
                        (#[trigger] after[j]).0@,
                    ) && self.forward@[after[j].0@] == after[j].1 by {
                        if j < i {
                            assert(after[j] == before[j]);
                        } else {
                            assert(after[j] == before[j + 1]);
                        }
                    }
                    assert forall|e: Seq<char>| #[trigger]
                        self.forward@.contains_key(e) implies exists|j: int|
                        0 <= j < after.len() && (#[trigger] after[j]).0@ == e by {
                        let k = choose|k: int|
                            0 <= k < before.len() && (#[trigger] before[k]).0@ == e;
                        if k < i {
                            assert(after[k] == before[k]);
                        } else {
                            assert(after[k - 1] == before[k]);
                        }
                    }
                    assert forall|a: int, b: int| 0 <= a < b < after.len() implies (
                    #[trigger] after[a]).0@ != (#[trigger] after[b]).0@ by {
                        let a0 = if a < i { a } else { a + 1 };
                        let b0 = if b < i { b } else { b + 1 };
                        assert(after[a] == before[a0]);
                        assert(after[b] == before[b0]);
                    }
                }
                Some(entry.1)
            },
            None => {
                proof {
                    assert(self.forward@.remove(id@) =~= self.forward@);
                }
                None
            },
        }
    }

    /// Hands the next internal id to a note and records both directions.
    fn assign(&mut self, note: &Note) -> (insert: IndexInsert)
        requires
            old(self).wf(),
            old(self).ready,
            old(self)@.next_id < usize::MAX,
        ensures
            final(self).wf(),
            final(self)@ == old(self)@.add(note.id@),
            insert.id == old(self)@.next_id,
            insert.text@ == note.text(),
    {
        let ghost state = self@;
        let text = note.indexed_text();
        let id: usize = self.next_id;
        let _ = self.forget(&note.id);
        let ghost entries = self.note_to_id@;
        let ghost map_before = self.forward@;
        self.note_to_id.push((note.id.clone(), id));
        self.id_to_note.insert(id, note.id.clone());
        self.next_id = id + 1;
        proof {
            self.forward = Ghost(map_before.insert(note.id@, id));
            assert(self.forward@ =~= state.forward.insert(note.id@, id));
            assert(self@.reverse =~= state.reverse.insert(id, note.id@));
            let after = self.note_to_id@;
            assert forall|j: int| 0 <= j < after.len() implies self.forward@.contains_key(
                (#[trigger] after[j]).0@,
            ) && self.forward@[after[j].0@] == after[j].1 by {
                if j < entries.len() {
                    assert(after[j] == entries[j]);
                }
            }
            assert forall|e: Seq<char>| #[trigger]
                self.forward@.contains_key(e) implies exists|j: int|
                0 <= j < after.len() && (#[trigger] after[j]).0@ == e by {
                if e == note.id@ {
                    assert(after[entries.len() as int].0@ == e);
                } else {
                    let k = choose|k: int| 0 <= k < entries.len() && (#[trigger] entries[k]).0@ == e;
                    assert(after[k] == entries[k]);
                }
            }
            assert forall|a: int, b: int| 0 <= a < b < after.len() implies (#[trigger] after[a]).0@
                != (#[trigger] after[b]).0@ by {
                assert(after[a] == entries[a]);
                if b < entries.len() {
                    assert(after[b] == entries[b]);
                }
            }
        }
        IndexInsert { id, text }
    }

    /// Adds a note: it gets the next internal id, and the plan says what to
    /// put into the graph, after allocating one if there was none.
    pub fn add_note(&mut self, note: &Note) -> (r: Result<IndexPlan, EmbeddingError>)
        requires
            old(self).wf(),
            old(self)@.next_id < usize::MAX,
        ensures
            final(self).wf(),
            final(self)@ == old(self)@.add(note.id@),
            r is Ok,
            r->Ok_0.allocate == (if old(self)@.ready {
                None
            } else {
                Some(IndexConfig::fixed())
            }),
            r->Ok_0.inserts@.len() == 1,
            r->Ok_0.inserts@[0].id == old(self)@.next_id,
            r->Ok_0.inserts@[0].text@ == note.text(),
    {
        let mut allocate: Option<IndexConfig> = None;
        if !self.ready {
            match self.initialize() {
                Ok(config) => {
                    allocate = Some(config);
                },
                Err(e) => {
                    return Err(e);
                },
            }
        }
        let insert = self.assign(note);
        let mut inserts: Vec<IndexInsert> = Vec::new();
        inserts.push(insert);
        Ok(IndexPlan { allocate, inserts })
    }

    /// Removes a note from the live ones. Its vector stays in the graph, but
    /// its internal id is forgotten and never shown again.
    pub fn remove_note(&mut self, note: &Note) -> (r: Result<(), EmbeddingError>)
        requires
            old(self).wf(),
        ensures
            final(self).wf(),
            final(self)@ == old(self)@.remove(note.id@),
            old(self)@.forward.contains_key(note.id@) ==> r is Ok,
            !old(self)@.forward.contains_key(note.id@) ==> r == Err::<(), EmbeddingError>(
                EmbeddingError::NotFound,
            ),
    {
        let ghost state = self@;
        match self.forget(&note.id) {
            Some(id) => {
                let _ = self.id_to_note.remove(&id);
                proof {
                    assert(self@.reverse =~= state.reverse.remove(id));
                    assert(self@ == state.remove(note.id@));
                }
                Ok(())
            },
            None => {
                proof {
                    assert(self@.forward =~= state.forward);
                    assert(self@ == state);
                }
                Err(EmbeddingError::NotFound)
            },
        }
    }

    /// Replaces a note: its old internal id, if it had one, is forgotten, and
    /// it is added again under the next id.
    pub fn update_note(&mut self, note: &Note) -> (r: Result<IndexPlan, EmbeddingError>)
        requires
            old(self).wf(),
            old(self)@.next_id < usize::MAX,
        ensures
            final(self).wf(),
            final(self)@ == old(self)@.update(note.id@),
            r is Ok,
            r->Ok_0.allocate == (if old(self)@.ready {
                None
            } else {
                Some(IndexConfig::fixed())
            }),
            r->Ok_0.inserts@.len() == 1,
            r->Ok_0.inserts@[0].id == old(self)@.next_id,
            r->Ok_0.inserts@[0].text@ == note.text(),
    {
        let _ = self.remove_note(note);
        self.add_note(note)
    }

    /// Prepares a query for the graph, or `None` when no graph was ever
    /// allocated: the search then has no result.
    pub fn search_query(&self, query: &str, k: usize) -> (r: Option<IndexQuery>)
        ensures
            r is Some <==> self@.ready,
            r is Some ==> r->Some_0.text@ == query@ && r->Some_0.k == k && r->Some_0.ef_search
                == EF_SEARCH,
    {
        if !self.ready {
            return None;
        }
        Some(IndexQuery { text: String::from_str(query), k, ef_search: EF_SEARCH })
    }

    /// Turns the graph's answer into external ids. A neighbour beyond the
    /// cutoff is skipped, and so is one whose id was forgotten; the others
    /// keep the graph's order. Nothing is fetched to fill the gaps.
    pub fn search(&self, neighbours: &Vec<Neighbour>, distance_cutoff: Option<Distance>) -> (r:
        Result<Vec<String>, EmbeddingError>)
        requires
            self.wf(),
        ensures
            r is Ok,
            r->Ok_0.deep_view() == self@.search(neighbours@, distance_cutoff),
            r->Ok_0@.len() <= neighbours@.len(),
            !self@.ready ==> r->Ok_0@.len() == 0,
    {
        let mut result: Vec<String> = Vec::new();
        if !self.ready {
            proof {
                lemma_kept_without_ids(self@, neighbours@, distance_cutoff);
                assert(result.deep_view() =~= self@.search(neighbours@, distance_cutoff));
            }
            return Ok(result);
        }
        let mut i: usize = 0;
        assert(neighbours@.take(0) =~= Seq::empty());
        assert(result.deep_view() =~= self@.search(neighbours@.take(0), distance_cutoff));
        while i < neighbours.len()
            invariant
                i <= neighbours@.len(),
                self.wf(),
                self.ready,
                result@.len() <= i,
                result.deep_view() == self@.search(neighbours@.take(i as int), distance_cutoff),
            decreases neighbours@.len() - i,
        {
            let neighbour = neighbours[i];
            let ghost before = result.deep_view();
            let mut skip = false;
            if let Some(cutoff) = distance_cutoff {
                if neighbour.distance.exceeds(&cutoff) {
                    skip = true;
                }
            }
            if !skip {
                if let Some(note_id) = self.id_to_note.get(&neighbour.id) {
                    result.push(note_id.clone());
                    proof {
                        assert(result.deep_view() =~= before.push(self@.reverse[neighbour.id]));
                    }
                }
            }
            proof {
                let ns = neighbours@.take(i as int + 1);
                assert(ns.drop_last() =~= neighbours@.take(i as int));
                assert(ns.last() == neighbour);
                assert(result.deep_view() =~= self@.search(ns, distance_cutoff));
            }
            i += 1;
        }
        assert(neighbours@.take(i as int) =~= neighbours@);
        Ok(result)
    }

    /// Starts over from the given notes: both mappings are emptied, ids start
    /// again at zero, and the notes get the ids `0, 1, 2, ...` in the order
    /// given. The plan allocates a fresh graph and inserts every note.
    pub fn rebuild_index(&mut self, notes: &[Note]) -> (r: Result<IndexPlan, EmbeddingError>)
        requires
            old(self).wf(),
        ensures
            final(self).wf(),
            final(self)@ == ManagerState::rebuilt(note_ids(notes@)),
            final(self)@.next_id == notes@.len(),
            r is Ok,
            r->Ok_0.allocate == Some(IndexConfig::fixed()),
            r->Ok_0.inserts@.len() == notes@.len(),
            forall|i: int|
                0 <= i < notes@.len() ==> (#[trigger] r->Ok_0.inserts@[i]).id == i
                    && r->Ok_0.inserts@[i].text@ == notes@[i].text(),
    {
        self.ready = false;
        self.note_to_id = Vec::new();
        self.id_to_note.clear();
        self.next_id = 0;
        proof {
            self.forward = Ghost(Map::empty());
            assert(self@.reverse =~= Map::empty());
        }
        let config = match self.initialize() {
            Ok(config) => config,
            Err(e) => {
                return Err(e);
            },
        };
        let ghost ids = note_ids(notes@);
        assert(ids.take(0) =~= Seq::empty());
        let mut inserts: Vec<IndexInsert> = Vec::new();
        let mut i: usize = 0;
        while i < notes.len()
            invariant
                i <= notes@.len(),
                ids == note_ids(notes@),
                self.wf(),
                self.ready,
                self@ == ManagerState::rebuilt(ids.take(i as int)),
                self@.next_id == i,
                inserts@.len() == i,
                forall|j: int|
                    0 <= j < i ==> (#[trigger] inserts@[j]).id == j && inserts@[j].text@
                        == notes@[j].text(),
            decreases notes@.len() - i,
        {
            let insert = self.assign(&notes[i]);
            inserts.push(insert);
            proof {
                let next = ids.take(i as int + 1);
                assert(next.drop_last() =~= ids.take(i as int));
                assert(next.last() == notes@[i as int].id@);
            }
            i += 1;
        }
        assert(ids.take(i as int) =~= ids);
        Ok(IndexPlan { allocate: Some(config), inserts })
    }
}

/// Where no id may be shown, no neighbour is kept.
pub proof fn lemma_kept_without_ids(state: ManagerState, ns: Seq<Neighbour>, cutoff: Option<Distance>)
    requires
        state.reverse == Map::<usize, Seq<char>>::empty(),
    ensures
        state.kept(ns, cutoff) == Seq::<Neighbour>::empty(),
    decreases ns.len(),
{
    if ns.len() > 0 {
        lemma_kept_without_ids(state, ns.drop_last(), cutoff);
    }
}

} // verus!
