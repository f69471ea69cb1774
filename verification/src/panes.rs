//! What the status panes hold, stated against the status bits alone.
use vstd::prelude::*;
use crate::status::{Pane, StatusFlags, conflicted_paths, first_occurrences, lemma_first_occurrences, listed_in, pane_paths};

verus! {

proof fn lemma_pane_is_filter(entries: Seq<(Seq<char>, StatusFlags)>, pane: Pane)
    ensures
        pane_paths(entries, pane) == entries.filter(|e: (Seq<char>, StatusFlags)| listed_in(e.1, pane)).map_values(
            |e: (Seq<char>, StatusFlags)| e.0,
        ),
    decreases entries.len(),
{
    let p = |e: (Seq<char>, StatusFlags)| listed_in(e.1, pane);
    let f = |e: (Seq<char>, StatusFlags)| e.0;
    reveal(Seq::filter);
    if entries.len() == 0 {
        assert(entries.filter(p).map_values(f) =~= Seq::<Seq<char>>::empty());
    } else {
        let init = entries.drop_last();
        lemma_pane_is_filter(init, pane);
        if p(entries.last()) {
            assert(entries.filter(p) == init.filter(p).push(entries.last()));
            assert(init.filter(p).push(entries.last()).map_values(f) =~= init.filter(p).map_values(f).push(entries.last().0));
        } else {
            assert(entries.filter(p) == init.filter(p));
        }
    }
}

/// Each pane lists, in the order they were reported, exactly the paths that are not conflicted
/// and carry that pane's bit: the index bits fill the staged panes and the working-tree bits the
/// unstaged ones, each pane reading its own bit alone.
pub proof fn lemma_panes_follow_their_bits(entries: Seq<(Seq<char>, StatusFlags)>)
    ensures
        pane_paths(entries, Pane::StagedModified) == entries.filter(
            |e: (Seq<char>, StatusFlags)| !e.1.conflicted && e.1.index_modified,
        ).map_values(|e: (Seq<char>, StatusFlags)| e.0),
        pane_paths(entries, Pane::StagedAdded) == entries.filter(
            |e: (Seq<char>, StatusFlags)| !e.1.conflicted && e.1.index_new,
        ).map_values(|e: (Seq<char>, StatusFlags)| e.0),
        pane_paths(entries, Pane::StagedDeleted) == entries.filter(
            |e: (Seq<char>, StatusFlags)| !e.1.conflicted && e.1.index_deleted,
        ).map_values(|e: (Seq<char>, StatusFlags)| e.0),
        pane_paths(entries, Pane::UnstagedModified) == entries.filter(
            |e: (Seq<char>, StatusFlags)| !e.1.conflicted && e.1.wt_modified,
        ).map_values(|e: (Seq<char>, StatusFlags)| e.0),
        pane_paths(entries, Pane::UnstagedAdded) == entries.filter(
            |e: (Seq<char>, StatusFlags)| !e.1.conflicted && e.1.wt_new,
        ).map_values(|e: (Seq<char>, StatusFlags)| e.0),
        pane_paths(entries, Pane::UnstagedDeleted) == entries.filter(
            |e: (Seq<char>, StatusFlags)| !e.1.conflicted && e.1.wt_deleted,
        ).map_values(|e: (Seq<char>, StatusFlags)| e.0),
{
    lemma_pane_is_filter(entries, Pane::StagedModified);
    lemma_pane_is_filter(entries, Pane::StagedAdded);
    lemma_pane_is_filter(entries, Pane::StagedDeleted);
    lemma_pane_is_filter(entries, Pane::UnstagedModified);
    lemma_pane_is_filter(entries, Pane::UnstagedAdded);
    lemma_pane_is_filter(entries, Pane::UnstagedDeleted);
    assert((|e: (Seq<char>, StatusFlags)| listed_in(e.1, Pane::StagedModified)) =~= (|e: (Seq<char>, StatusFlags)| !e.1.conflicted && e.1.index_modified));
    assert((|e: (Seq<char>, StatusFlags)| listed_in(e.1, Pane::StagedAdded)) =~= (|e: (Seq<char>, StatusFlags)| !e.1.conflicted && e.1.index_new));
    assert((|e: (Seq<char>, StatusFlags)| listed_in(e.1, Pane::StagedDeleted)) =~= (|e: (Seq<char>, StatusFlags)| !e.1.conflicted && e.1.index_deleted));
    assert((|e: (Seq<char>, StatusFlags)| listed_in(e.1, Pane::UnstagedModified)) =~= (|e: (Seq<char>, StatusFlags)| !e.1.conflicted && e.1.wt_modified));
    assert((|e: (Seq<char>, StatusFlags)| listed_in(e.1, Pane::UnstagedAdded)) =~= (|e: (Seq<char>, StatusFlags)| !e.1.conflicted && e.1.wt_new));
    assert((|e: (Seq<char>, StatusFlags)| listed_in(e.1, Pane::UnstagedDeleted)) =~= (|e: (Seq<char>, StatusFlags)| !e.1.conflicted && e.1.wt_deleted));
}

proof fn lemma_conflicted_paths_listed(entries: Seq<(Seq<char>, StatusFlags)>)
    ensures
        forall|p: Seq<char>| conflicted_paths(entries).contains(p) <==> exists|i: int|
            0 <= i < entries.len() && (#[trigger] entries[i]).0 == p && entries[i].1.conflicted,
    decreases entries.len(),
{
    if entries.len() > 0 {
        let init = entries.drop_last();
        lemma_conflicted_paths_listed(init);
        let rest = conflicted_paths(init);
        let all = conflicted_paths(entries);
        let last = entries.last();
        if last.1.conflicted {
            assert(all == rest.push(last.0));
        } else {
            assert(all == rest);
        }
        assert forall|p: Seq<char>| all.contains(p) <==> exists|i: int|
            0 <= i < entries.len() && (#[trigger] entries[i]).0 == p && entries[i].1.conflicted by {
            if all.contains(p) {
                let k = choose|k: int| 0 <= k < all.len() && all[k] == p;
                if k < rest.len() {
                    assert(all[k] == rest[k]);
                    assert(rest.contains(p));
                    let i = choose|i: int| 0 <= i < init.len() && (#[trigger] init[i]).0 == p && init[i].1.conflicted;
                    assert(entries[i] == init[i]);
                } else {
                    assert(entries[entries.len() - 1] == last);
                }
            }
            if exists|i: int| 0 <= i < entries.len() && (#[trigger] entries[i]).0 == p && entries[i].1.conflicted {
                let i = choose|i: int| 0 <= i < entries.len() && (#[trigger] entries[i]).0 == p && entries[i].1.conflicted;
                if i < init.len() {
                    assert(init[i] == entries[i]);
                    assert(rest.contains(p));
                    let k = choose|k: int| 0 <= k < rest.len() && rest[k] == p;
                    assert(all[k] == p);
                } else {
                    assert(entries[i] == last);
                    assert(all[all.len() - 1] == p);
                }
            }
        }
    }
}

/// The conflicts pane names each path once, and exactly the paths reported as conflicted or
/// held as conflicted by the index.
pub proof fn lemma_conflicts_pane(entries: Seq<(Seq<char>, StatusFlags)>, index_conflicts: Seq<Seq<char>>)
    ensures
        first_occurrences(conflicted_paths(entries) + index_conflicts).no_duplicates(),
        forall|p: Seq<char>| first_occurrences(conflicted_paths(entries) + index_conflicts).contains(p) <==> (
            (exists|i: int| 0 <= i < entries.len() && (#[trigger] entries[i]).0 == p && entries[i].1.conflicted)
                || index_conflicts.contains(p)),
{
    let all = conflicted_paths(entries) + index_conflicts;
    lemma_first_occurrences(all);
    lemma_conflicted_paths_listed(entries);
    let f = first_occurrences(all);
    assert forall|p: Seq<char>| f.contains(p) <==> (
        (exists|i: int| 0 <= i < entries.len() && (#[trigger] entries[i]).0 == p && entries[i].1.conflicted)
            || index_conflicts.contains(p)) by {
        assert(f.to_set().contains(p) == f.contains(p));
        assert(all.to_set().contains(p) == all.contains(p));
        if all.contains(p) {
            let k = choose|k: int| 0 <= k < all.len() && all[k] == p;
            if k < conflicted_paths(entries).len() {
                assert(conflicted_paths(entries)[k] == p);
                assert(conflicted_paths(entries).contains(p));
            } else {
                assert(index_conflicts[k - conflicted_paths(entries).len()] == p);
            }
        }
        if conflicted_paths(entries).contains(p) {
            let k = choose|k: int| 0 <= k < conflicted_paths(entries).len() && conflicted_paths(entries)[k] == p;
            assert(all[k] == p);
        }
        if index_conflicts.contains(p) {
            let k = choose|k: int| 0 <= k < index_conflicts.len() && index_conflicts[k] == p;
            assert(all[k + conflicted_paths(entries).len()] == p);
        }
    }
}

} // verus!
