//! The linked worktrees of a repository, and which graph rows they sit on.
use vstd::prelude::*;
use std::collections::HashMap;
use crate::oids::{Oid, Oids};

verus! {

broadcast use vstd::std_specs::hash::group_hash_axioms;

#[derive(Clone, Copy, Debug, PartialEq, Eq, Structural)]
pub enum WorktreeKind {
    Main,
    Linked,
}

/// One worktree as `git worktree list` reports it, with the alias of its head once known.
#[derive(Debug)]
pub struct WorktreeEntry {
    pub name: String,
    pub path: String,
    pub branch: Option<String>,
    pub head: Option<Oid>,
    pub alias: Option<u32>,
    pub kind: WorktreeKind,
    pub is_current: bool,
    pub is_valid: bool,
    pub is_prunable: bool,
    pub locked_reason: Option<String>,
    pub is_dirty: bool,
}

/// Only a linked worktree that is neither the current one nor locked can be removed.
pub open spec fn entry_can_remove(e: WorktreeEntry) -> bool {
    e.kind == WorktreeKind::Linked && !e.is_current && e.locked_reason is None
}

/// Only a valid linked worktree can be locked or unlocked.
pub open spec fn entry_can_lock(e: WorktreeEntry) -> bool {
    e.is_valid && e.kind == WorktreeKind::Linked
}

impl WorktreeEntry {
    pub fn can_remove(&self) -> (b: bool)
        ensures
            b == entry_can_remove(*self),
    {
        self.kind == WorktreeKind::Linked && !self.is_current && self.locked_reason.is_none()
    }

    pub fn can_lock(&self) -> (b: bool)
        ensures
            b == entry_can_lock(*self),
    {
        self.is_valid && self.kind == WorktreeKind::Linked
    }
}

/// The positions among the first `n` entries whose head has alias `a`, in order.
pub open spec fn indices_upto(entries: Seq<WorktreeEntry>, a: u32, n: int) -> Seq<usize>
    decreases n,
{
    if n <= 0 {
        Seq::empty()
    } else if entries[n - 1].alias == Some(a) {
        indices_upto(entries, a, n - 1).push((n - 1) as usize)
    } else {
        indices_upto(entries, a, n - 1)
    }
}

/// The positions of the entries whose head has alias `a`, in order.
pub open spec fn indices_with_alias(entries: Seq<WorktreeEntry>, a: u32) -> Seq<usize> {
    indices_upto(entries, a, entries.len() as int)
}

/// The worktrees, and for each alias the worktrees whose head it is.
pub struct Worktrees {
    pub entries: Vec<WorktreeEntry>,
    by_alias: HashMap<u32, Vec<usize>>,
}

impl Default for Worktrees {
    fn default() -> (w: Worktrees)
        ensures
            w.wf(),
            w.entry_list() == Seq::<WorktreeEntry>::empty(),
    {
        Worktrees::from_entries(Vec::new())
    }
}

impl Worktrees {
    pub closed spec fn entry_list(&self) -> Seq<WorktreeEntry> {
        self.entries@
    }

    pub fn entries(&self) -> (r: &Vec<WorktreeEntry>)
        ensures
            r@ == self.entry_list(),
    {
        &self.entries
    }

    /// The index by alias lists exactly the worktrees that sit on each alias.
    pub closed spec fn wf(&self) -> bool {
        forall|a: u32| {
            &&& #[trigger] self.by_alias@.contains_key(a) <==> indices_with_alias(self.entries@, a).len() > 0
            &&& self.by_alias@.contains_key(a) ==> self.by_alias@[a]@ == indices_with_alias(self.entries@, a)
        }
    }

    /// Rebuilds the index by alias from the entries.
    fn index_by_alias(entries: &Vec<WorktreeEntry>) -> (by_alias: HashMap<u32, Vec<usize>>)
        ensures
            forall|a: u32| {
                &&& #[trigger] by_alias@.contains_key(a) <==> indices_with_alias(entries@, a).len() > 0
                &&& by_alias@.contains_key(a) ==> by_alias@[a]@ == indices_with_alias(entries@, a)
            },
    {
        let mut by_alias: HashMap<u32, Vec<usize>> = HashMap::new();
        let mut i: usize = 0;
        while i < entries.len()
            invariant
                i <= entries@.len(),
                forall|a: u32| {
                    &&& #[trigger] by_alias@.contains_key(a) <==> indices_upto(entries@, a, i as int).len() > 0
                    &&& by_alias@.contains_key(a) ==> by_alias@[a]@ == indices_upto(entries@, a, i as int)
                },
            decreases entries@.len() - i,
        {
            if let Some(alias) = entries[i].alias {
                let ghost before = by_alias@;
                let mut list = match by_alias.remove(&alias) {
                    Some(list) => list,
                    None => Vec::new(),
                };
                list.push(i);
                by_alias.insert(alias, list);
                proof {
                    assert forall|a: u32| {
                        &&& #[trigger] by_alias@.contains_key(a) <==> indices_upto(entries@, a, i + 1).len() > 0
                        &&& by_alias@.contains_key(a) ==> by_alias@[a]@ == indices_upto(entries@, a, i + 1)
                    } by {
                        if a != alias {
                            assert(before.contains_key(a) == by_alias@.contains_key(a));
                        }
                    }
                }
            }
            i = i + 1;
        }
        by_alias
    }

    pub fn from_entries(entries: Vec<WorktreeEntry>) -> (w: Worktrees)
        ensures
            w.wf(),
            w.entry_list() == entries@,
    {
        let by_alias = Self::index_by_alias(&entries);
        Worktrees { entries, by_alias }
    }

    /// Gives each worktree the alias of its head, where its head has one, and reindexes.
    pub fn refresh_aliases(&mut self, oids: &Oids)
        requires
            oids.wf(),
        ensures
            final(self).wf(),
            final(self).entry_list().len() == old(self).entry_list().len(),
            forall|i: int| 0 <= i < final(self).entry_list().len() ==> {
                let before = #[trigger] old(self).entry_list()[i];
                let after = final(self).entry_list()[i];
                &&& after == WorktreeEntry { alias: after.alias, ..before }
                &&& after.alias == match before.head {
                    Some(h) => match oids.stored().index_of_first(h) {
                        Some(a) => Some(a as u32),
                        None => None,
                    },
                    None => None,
                }
            },
    {
        let n = self.entries.len();
        let mut i: usize = 0;
        while i < n
            invariant
                n == self.entries@.len(),
                n == old(self).entries@.len(),
                oids.wf(),
                i <= n,
                forall|j: int| i <= j < n ==> #[trigger] self.entries@[j] == old(self).entries@[j],
                forall|j: int| 0 <= j < i ==> {
                    let before = #[trigger] old(self).entries@[j];
                    let after = self.entries@[j];
                    &&& after == WorktreeEntry { alias: after.alias, ..before }
                    &&& after.alias == match before.head {
                        Some(h) => match oids.stored().index_of_first(h) {
                            Some(a) => Some(a as u32),
                            None => None,
                        },
                        None => None,
                    }
                },
            decreases n - i,
        {
            let alias = match self.entries[i].head {
                Some(head) => {
                    proof {
                        oids.stored().index_of_first_ensures(head);
                    }
                    oids.get_existing_alias(head)
                },
                None => None,
            };
            let ghost before = self.entries@;
            self.entries[i].alias = alias;
            proof {
                assert(self.entries@[i as int] == WorktreeEntry { alias, ..before[i as int] });
                assert forall|j: int| 0 <= j < n && j != i implies #[trigger] self.entries@[j] == before[j] by {}
            }
            i = i + 1;
        }
        self.by_alias = Self::index_by_alias(&self.entries);
    }

    /// The positions of the worktrees whose head is `alias`, in order.
    pub fn indices_for_alias(&self, alias: u32) -> (r: Vec<usize>)
        requires
            self.wf(),
        ensures
            r@ == indices_with_alias(self.entry_list(), alias),
    {
        match self.by_alias.get(&alias) {
            Some(list) => list.clone(),
            None => Vec::new(),
        }
    }

    /// The name of the worktree that is checked out here, if the list has it.
    pub fn current_name(&self) -> (r: Option<&str>)
        ensures
            r matches Some(name) ==> exists|i: int| 0 <= i < self.entry_list().len()
                && (#[trigger] self.entry_list()[i]).is_current && name@ == self.entry_list()[i].name@
                && forall|j: int| 0 <= j < i ==> !(#[trigger] self.entry_list()[j]).is_current,
            r is None ==> forall|i: int| 0 <= i < self.entry_list().len() ==> !(#[trigger] self.entry_list()[i]).is_current,
    {
        let mut i: usize = 0;
        while i < self.entries.len()
            invariant
                i <= self.entries@.len(),
                forall|j: int| 0 <= j < i ==> !(#[trigger] self.entries@[j]).is_current,
            decreases self.entries@.len() - i,
        {
            if self.entries[i].is_current {
                return Some(self.entries[i].name.as_str());
            }
            i = i + 1;
        }
        None
    }
}

} // verus!
