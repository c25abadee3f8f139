//! What holds of the manager's state across operations, proved over
//! [`ManagerState`].

use vstd::prelude::*;
use crate::distance::Distance;
use crate::distance::lemma_not_greater_is_at_most;
use crate::embeddings::ManagerState;
use crate::embeddings::Neighbour;

verus! {

/// Allocating, adding, removing and updating all keep a state well-formed.
pub proof fn lemma_operations_keep_wf(s: ManagerState, id: Seq<char>)
    requires
        s.wf(),
    ensures
        s.initialize().wf(),
        s.remove(id).wf(),
        s.next_id < usize::MAX ==> s.add(id).wf() && s.update(id).wf(),
{
    let r = s.remove(id);
    assert(r.wf()) by {
        if s.forward.contains_key(id) {
            assert forall|e: Seq<char>| #[trigger] r.forward.contains_key(e) implies r.reverse.contains_key(
                r.forward[e],
            ) && r.reverse[r.forward[e]] == e by {
                assert(s.forward.contains_key(e));
            }
        }
    }
    if s.next_id < usize::MAX {
        lemma_add_keeps_wf(s, id);
        lemma_add_keeps_wf(r, id);
    }
}

/// Adding keeps a state well-formed, as long as an id is left to hand out.
pub proof fn lemma_add_keeps_wf(s: ManagerState, id: Seq<char>)
    requires
        s.wf(),
        s.next_id < usize::MAX,
    ensures
        s.add(id).wf(),
{
    let a = s.add(id);
    assert forall|e: Seq<char>| #[trigger] a.forward.contains_key(e) implies a.reverse.contains_key(
        a.forward[e],
    ) && a.reverse[a.forward[e]] == e by {
        if e != id {
            assert(s.forward.contains_key(e));
            assert(s.reverse.contains_key(s.forward[e]));
        }
    }
    assert forall|i: usize| #[trigger] a.reverse.contains_key(i) implies i < a.next_id by {
        if i != s.next_id {
            assert(s.reverse.contains_key(i));
        }
    }
}

/// Every neighbour that is kept was among those given, and is shown.
pub proof fn lemma_kept_elements(s: ManagerState, ns: Seq<Neighbour>, cutoff: Option<Distance>)
    ensures
        s.kept(ns, cutoff).len() <= ns.len(),
        forall|i: int|
            0 <= i < s.kept(ns, cutoff).len() ==> s.shown(#[trigger] s.kept(ns, cutoff)[i], cutoff)
                && ns.contains(s.kept(ns, cutoff)[i]),
    decreases ns.len(),
{
    if ns.len() > 0 {
        let rest = ns.drop_last();
        lemma_kept_elements(s, rest, cutoff);
        assert forall|i: int| 0 <= i < s.kept(ns, cutoff).len() implies s.shown(
            #[trigger] s.kept(ns, cutoff)[i],
            cutoff,
        ) && ns.contains(s.kept(ns, cutoff)[i]) by {
            let n = s.kept(ns, cutoff)[i];
            if i < s.kept(rest, cutoff).len() {
                assert(n == s.kept(rest, cutoff)[i]);
                assert(rest.contains(n));
                let k = choose|k: int| 0 <= k < rest.len() && rest[k] == n;
                assert(ns[k] == n);
            } else {
                assert(n == ns.last());
                assert(ns[ns.len() - 1] == n);
            }
        }
    }
}

/// A search never returns more ids than the graph gave neighbours.
pub proof fn lemma_search_len(s: ManagerState, ns: Seq<Neighbour>, cutoff: Option<Distance>)
    ensures
        s.search(ns, cutoff).len() <= ns.len(),
{
    lemma_kept_elements(s, ns, cutoff);
}

/// Before any graph is allocated a search is empty, whatever the graph's
/// owner passes in.
pub proof fn lemma_search_before_allocation(
    s: ManagerState,
    ns: Seq<Neighbour>,
    cutoff: Option<Distance>,
)
    requires
        s.wf(),
        !s.ready,
    ensures
        s.search(ns, cutoff) == Seq::<Seq<char>>::empty(),
{
    crate::embeddings::lemma_kept_without_ids(s, ns, cutoff);
    assert(s.search(ns, cutoff) =~= Seq::<Seq<char>>::empty());
}

/// Every id a search returns is the note behind one of the given neighbours,
/// and that neighbour is shown.
pub proof fn lemma_search_origin(
    s: ManagerState,
    ns: Seq<Neighbour>,
    cutoff: Option<Distance>,
    e: Seq<char>,
)
    requires
        s.search(ns, cutoff).contains(e),
    ensures
        exists|k: int|
            0 <= k < ns.len() && s.shown(#[trigger] ns[k], cutoff) && s.reverse[ns[k].id] == e,
{
    lemma_kept_elements(s, ns, cutoff);
    let kept = s.kept(ns, cutoff);
    let i = choose|i: int| 0 <= i < s.search(ns, cutoff).len() && s.search(ns, cutoff)[i] == e;
    let n = kept[i];
    assert(s.shown(n, cutoff) && ns.contains(n));
    let k = choose|k: int| 0 <= k < ns.len() && ns[k] == n;
    assert(s.shown(ns[k], cutoff) && s.reverse[ns[k].id] == e);
}

/// Once a note is removed, no search returns it, provided no forgotten
/// double of it was left reachable: in a state where every id that may be
/// shown is its note's current id.
pub proof fn lemma_remove_hides(
    s: ManagerState,
    id: Seq<char>,
    ns: Seq<Neighbour>,
    cutoff: Option<Distance>,
)
    requires
        s.wf(),
        s.single_valued(),
    ensures
        !s.remove(id).search(ns, cutoff).contains(id),
{
    let r = s.remove(id);
    if r.search(ns, cutoff).contains(id) {
        lemma_search_origin(r, ns, cutoff, id);
        let k = choose|k: int|
            0 <= k < ns.len() && r.shown(#[trigger] ns[k], cutoff) && r.reverse[ns[k].id] == id;
        assert(r.reverse.contains_key(ns[k].id));
        assert(s.reverse.contains_key(ns[k].id));
    }
}

/// A note that is added and then removed is never returned by a search, even
/// though the graph still holds its vector. This needs the note not to be
/// reachable under an older id before it is added.
pub proof fn lemma_add_then_remove_hides(
    s: ManagerState,
    id: Seq<char>,
    ns: Seq<Neighbour>,
    cutoff: Option<Distance>,
)
    requires
        s.wf(),
        s.next_id < usize::MAX,
        forall|i: usize| s.reverse.contains_key(i) ==> s.reverse[i] != id,
    ensures
        !s.add(id).remove(id).search(ns, cutoff).contains(id),
{
    let r = s.add(id).remove(id);
    if r.search(ns, cutoff).contains(id) {
        lemma_search_origin(r, ns, cutoff, id);
        let k = choose|k: int|
            0 <= k < ns.len() && r.shown(#[trigger] ns[k], cutoff) && r.reverse[ns[k].id] == id;
        assert(r.reverse.contains_key(ns[k].id));
        assert(s.reverse.contains_key(ns[k].id));
    }
}

/// After a removal the note is no longer live, so a second removal finds
/// nothing.
pub proof fn lemma_remove_twice(s: ManagerState, id: Seq<char>)
    ensures
        !s.remove(id).forward.contains_key(id),
        s.remove(id).remove(id) == s.remove(id),
{
}

/// In a fresh state no note is live, so any removal finds nothing.
pub proof fn lemma_nothing_live_at_start(id: Seq<char>)
    ensures
        !ManagerState::empty().forward.contains_key(id),
        !ManagerState::empty().initialize().forward.contains_key(id),
{
}

/// Removing and updating keep every shown id the current id of its note;
/// adding does so for a note that is not live.
pub proof fn lemma_single_valued_kept(s: ManagerState, id: Seq<char>)
    requires
        s.wf(),
        s.single_valued(),
    ensures
        s.remove(id).single_valued(),
        s.next_id < usize::MAX ==> s.update(id).single_valued(),
        s.next_id < usize::MAX && !s.forward.contains_key(id) ==> s.add(id).single_valued(),
{
    let r = s.remove(id);
    assert(r.single_valued()) by {
        assert forall|i: usize| #[trigger] r.reverse.contains_key(i) implies r.forward.contains_key(
            r.reverse[i],
        ) && r.forward[r.reverse[i]] == i by {
            assert(s.reverse.contains_key(i));
        }
    }
    lemma_operations_keep_wf(s, id);
    if s.next_id < usize::MAX {
        lemma_add_absent_single_valued(r, id);
        if !s.forward.contains_key(id) {
            lemma_add_absent_single_valued(s, id);
        }
    }
}

/// Adding a note that is not live keeps every shown id the current id of its
/// note.
pub proof fn lemma_add_absent_single_valued(s: ManagerState, id: Seq<char>)
    requires
        s.wf(),
        s.single_valued(),
        s.next_id < usize::MAX,
        !s.forward.contains_key(id),
    ensures
        s.add(id).single_valued(),
{
    let a = s.add(id);
    assert forall|i: usize| #[trigger] a.reverse.contains_key(i) implies a.forward.contains_key(
        a.reverse[i],
    ) && a.forward[a.reverse[i]] == i by {
        if i != s.next_id {
            assert(s.reverse.contains_key(i));
        }
    }
}

/// After an update the note has exactly one shown id, the one just handed
/// out; the id it had before is forgotten.
pub proof fn lemma_update_replaces(s: ManagerState, id: Seq<char>)
    requires
        s.wf(),
        s.single_valued(),
        s.next_id < usize::MAX,
    ensures
        s.update(id).forward.contains_key(id),
        s.update(id).forward[id] == s.next_id,
        forall|i: usize|
            s.update(id).reverse.contains_key(i) && s.update(id).reverse[i] == id ==> i
                == s.next_id,
        s.forward.contains_key(id) ==> !s.update(id).reverse.contains_key(s.forward[id]),
{
    let u = s.update(id);
    assert forall|i: usize| u.reverse.contains_key(i) && u.reverse[i] == id implies i
        == s.next_id by {
        if i != s.next_id {
            assert(s.reverse.contains_key(i));
        }
    }
    if s.forward.contains_key(id) {
        assert(s.reverse.contains_key(s.forward[id]));
    }
}

/// A rebuild hands out the ids `0, 1, 2, ...` in the order of the notes: the
/// next id is the number of notes, id `i` shows note `i`, and a note's
/// current id is the last place it stands at.
pub proof fn lemma_rebuilt_ids(ids: Seq<Seq<char>>)
    requires
        ids.len() <= usize::MAX,
    ensures
        ManagerState::rebuilt(ids).wf(),
        ManagerState::rebuilt(ids).ready,
        ManagerState::rebuilt(ids).next_id == ids.len(),
        forall|i: usize| #[trigger]
            ManagerState::rebuilt(ids).reverse.contains_key(i) <==> 0 <= i < ids.len(),
        forall|i: usize|
            0 <= i < ids.len() ==> #[trigger] ManagerState::rebuilt(ids).reverse[i] == ids[i as int],
        forall|e: Seq<char>| #[trigger]
            ManagerState::rebuilt(ids).forward.contains_key(e) <==> ids.contains(e),
        forall|i: int|
            0 <= i < ids.len() ==> i <= ManagerState::rebuilt(ids).forward[#[trigger] ids[i]],
    decreases ids.len(),
{
    let t = ManagerState::rebuilt(ids);
    if ids.len() > 0 {
        let rest = ids.drop_last();
        let p = ManagerState::rebuilt(rest);
        lemma_rebuilt_ids(rest);
        lemma_add_keeps_wf(p, ids.last());
        assert forall|e: Seq<char>| #[trigger] t.forward.contains_key(e) <==> ids.contains(e) by {
            assert(p.forward.contains_key(e) <==> rest.contains(e));
            if e == ids.last() {
                assert(ids[ids.len() - 1] == e);
            } else if ids.contains(e) {
                let k = choose|k: int| 0 <= k < ids.len() && ids[k] == e;
                assert(rest[k] == e);
            } else if rest.contains(e) {
                let k = choose|k: int| 0 <= k < rest.len() && rest[k] == e;
                assert(ids[k] == e);
            }
        }
        assert forall|i: int| 0 <= i < ids.len() implies i <= t.forward[#[trigger] ids[i]] by {
            if ids[i] != ids.last() {
                assert(rest[i] == ids[i]);
                assert(i <= p.forward[rest[i]]);
            }
        }
        assert forall|i: usize| 0 <= i < ids.len() implies #[trigger] t.reverse[i] == ids[i as int] by {
            if i < rest.len() {
                assert(rest[i as int] == ids[i as int]);
            }
        }
    }
}

/// A rebuild from notes with distinct ids leaves every shown id the current
/// id of its note.
pub proof fn lemma_rebuilt_single_valued(ids: Seq<Seq<char>>)
    requires
        ids.len() <= usize::MAX,
        ids.no_duplicates(),
    ensures
        ManagerState::rebuilt(ids).single_valued(),
    decreases ids.len(),
{
    if ids.len() > 0 {
        let rest = ids.drop_last();
        lemma_rebuilt_single_valued(rest);
        lemma_rebuilt_ids(rest);
        if rest.contains(ids.last()) {
            let k = choose|k: int| 0 <= k < rest.len() && rest[k] == ids.last();
            assert(ids[k] == ids[ids.len() - 1]);
        }
        lemma_add_absent_single_valued(ManagerState::rebuilt(rest), ids.last());
    }
}

/// With a cutoff, every neighbour behind a result is at most the cutoff
/// away, as far as both are numbers.
pub proof fn lemma_kept_within_cutoff(s: ManagerState, ns: Seq<Neighbour>, cutoff: Distance, i: int)
    requires
        0 <= i < s.kept(ns, Some(cutoff)).len(),
        !cutoff.is_nan(),
        !s.kept(ns, Some(cutoff))[i].distance.is_nan(),
    ensures
        s.kept(ns, Some(cutoff))[i].distance.at_most(cutoff),
        s.search(ns, Some(cutoff))[i] == s.reverse[s.kept(ns, Some(cutoff))[i].id],
{
    lemma_kept_elements(s, ns, Some(cutoff));
    lemma_not_greater_is_at_most(s.kept(ns, Some(cutoff))[i].distance, cutoff);
}

/// Raising the cutoff only adds results: what a search keeps under the lower
/// cutoff is what it keeps under the higher one, filtered again by the
/// lower. The same holds of no cutoff in place of the higher one.
pub proof fn lemma_cutoff_monotone(
    s: ManagerState,
    ns: Seq<Neighbour>,
    low: Distance,
    high: Option<Distance>,
)
    requires
        match high {
            Some(h) => low.at_most(h),
            None => true,
        },
    ensures
        s.kept(ns, Some(low)) == s.kept(s.kept(ns, high), Some(low)),
        s.kept(ns, Some(low)).len() <= s.kept(ns, high).len(),
        s.search(ns, Some(low)).len() <= s.search(ns, high).len(),
    decreases ns.len(),
{
    if ns.len() > 0 {
        let rest = ns.drop_last();
        let n = ns.last();
        lemma_cutoff_monotone(s, rest, low, high);
        if s.shown(n, high) {
            let wide = s.kept(ns, high);
            assert(wide.drop_last() =~= s.kept(rest, high));
            assert(wide.last() == n);
        }
    }
    lemma_kept_elements(s, s.kept(ns, high), Some(low));
}

/// Raising the cutoff never removes a result: an id returned under the lower
/// cutoff is returned under the higher one, and without a cutoff.
pub proof fn lemma_cutoff_keeps_results(
    s: ManagerState,
    ns: Seq<Neighbour>,
    low: Distance,
    high: Option<Distance>,
    e: Seq<char>,
)
    requires
        match high {
            Some(h) => low.at_most(h),
            None => true,
        },
        s.search(ns, Some(low)).contains(e),
    ensures
        s.search(ns, high).contains(e),
{
    lemma_cutoff_monotone(s, ns, low, high);
    let wide = s.kept(ns, high);
    lemma_search_origin(s, wide, Some(low), e);
    let k = choose|k: int|
        0 <= k < wide.len() && s.shown(#[trigger] wide[k], Some(low)) && s.reverse[wide[k].id]
            == e;
    assert(s.search(ns, high)[k] == e);
}

/// The id handed out next is new: nothing is shown under it and no live note
/// has it. Ids are therefore never used twice between two rebuilds.
pub proof fn lemma_next_id_is_fresh(s: ManagerState)
    requires
        s.wf(),
    ensures
        !s.reverse.contains_key(s.next_id),
        forall|e: Seq<char>| s.forward.contains_key(e) ==> s.forward[e] != s.next_id,
{
    assert forall|e: Seq<char>| s.forward.contains_key(e) implies s.forward[e] != s.next_id by {
        assert(s.reverse.contains_key(s.forward[e]));
    }
}

/// Whether `at` gives, for each element of `part`, a place in `whole` where
/// it stands, the places rising.
pub open spec fn stands_at(at: Seq<int>, part: Seq<Neighbour>, whole: Seq<Neighbour>) -> bool {
    &&& at.len() == part.len()
    &&& forall|i: int|
        0 <= i < at.len() ==> 0 <= #[trigger] at[i] < whole.len() && whole[at[i]] == part[i]
    &&& forall|i: int, j: int| 0 <= i < j < at.len() ==> #[trigger] at[i] < #[trigger] at[j]
}

/// Whether `part` can be had from `whole` by leaving elements out.
pub open spec fn is_selection_of(part: Seq<Neighbour>, whole: Seq<Neighbour>) -> bool {
    exists|at: Seq<int>| #[trigger] stands_at(at, part, whole)
}

/// A search keeps the graph's order: the neighbours it keeps are the given
/// ones with some left out, none moved and none repeated.
pub proof fn lemma_kept_keeps_order(s: ManagerState, ns: Seq<Neighbour>, cutoff: Option<Distance>)
    ensures
        is_selection_of(s.kept(ns, cutoff), ns),
    decreases ns.len(),
{
    if ns.len() == 0 {
        assert(stands_at(Seq::<int>::empty(), s.kept(ns, cutoff), ns));
    } else {
        let rest = ns.drop_last();
        lemma_kept_keeps_order(s, rest, cutoff);
        let before = choose|at: Seq<int>| #[trigger] stands_at(at, s.kept(rest, cutoff), rest);
        let at = if s.shown(ns.last(), cutoff) {
            before.push(ns.len() - 1)
        } else {
            before
        };
        let part = s.kept(ns, cutoff);
        assert(at.len() == part.len());
        assert forall|i: int| 0 <= i < at.len() implies 0 <= #[trigger] at[i] < ns.len()
            && ns[at[i]] == part[i] by {
            if i < before.len() {
                assert(at[i] == before[i]);
                assert(rest[before[i]] == s.kept(rest, cutoff)[i]);
            }
        }
        assert forall|i: int, j: int| 0 <= i < j < at.len() implies #[trigger] at[i]
            < #[trigger] at[j] by {
            assert(at[i] == before[i]);
            if j < before.len() {
                assert(at[j] == before[j]);
            }
        }
        assert(stands_at(at, part, ns));
    }
}

/// Whether distances never fall along a list of neighbours.
pub open spec fn ascending(ns: Seq<Neighbour>) -> bool {
    forall|i: int, j: int|
        0 <= i < j < ns.len() ==> (#[trigger] ns[i]).distance.at_most((#[trigger] ns[j]).distance)
}

/// Where the graph gives its neighbours nearest first, the search returns
/// them nearest first.
pub proof fn lemma_kept_ascending(s: ManagerState, ns: Seq<Neighbour>, cutoff: Option<Distance>)
    requires
        ascending(ns),
    ensures
        ascending(s.kept(ns, cutoff)),
{
    lemma_kept_keeps_order(s, ns, cutoff);
    let part = s.kept(ns, cutoff);
    let at = choose|at: Seq<int>| #[trigger] stands_at(at, part, ns);
    assert forall|i: int, j: int| 0 <= i < j < part.len() implies (#[trigger] part[i]).distance.at_most(
        (#[trigger] part[j]).distance,
    ) by {
        assert(at[i] < at[j]);
        assert(ns[at[i]] == part[i] && ns[at[j]] == part[j]);
    }
}

} // verus!
