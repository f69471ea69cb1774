//! The history queue: the commits to load, in the order the graph shows them, handed out a page
//! at a time; and the branch tips the walk that fills it starts from.
use vstd::prelude::*;
use std::collections::VecDeque;
use crate::oids::Oid;

verus! {

#[verifier::external_type_specification]
#[verifier::external_body]
#[verifier::reject_recursive_types(A)]
#[verifier::reject_recursive_types(S)]
pub struct ExImHashSet<A, S>(im::HashSet<A, S>);

/// The names a set of branch names holds.
pub uninterp spec fn name_set(set: im::HashSet<String>) -> Set<Seq<char>>;

/// `im::HashSet::contains`: whether the set holds a name equal to `name`. The contract says so
/// over `name_set`.
#[verifier::external_body]
fn holds_name(set: &im::HashSet<String>, name: &String) -> (b: bool)
    ensures
        b == name_set(*set).contains(name@),
{
    set.contains(name)
}

/// The tips of the branches that are not hidden, in the order the branches are listed.
pub open spec fn visible_tips(branches: Seq<(String, Oid)>, hidden: Set<Seq<char>>) -> Seq<Oid>
    decreases branches.len(),
{
    if branches.len() == 0 {
        Seq::empty()
    } else {
        let rest = visible_tips(branches.drop_last(), hidden);
        if hidden.contains(branches.last().0@) {
            rest
        } else {
            rest.push(branches.last().1)
        }
    }
}

/// The extra roots not already among `seen`, each once, in order.
pub open spec fn new_roots(seen: Seq<Oid>, roots: Seq<Oid>) -> Seq<Oid>
    decreases roots.len(),
{
    if roots.len() == 0 {
        Seq::empty()
    } else {
        let rest = new_roots(seen, roots.drop_last());
        if (seen + rest).contains(roots.last()) {
            rest
        } else {
            rest.push(roots.last())
        }
    }
}

/// The tips a history walk starts from: every visible branch tip, then each extra root that is
/// not one of them.
pub open spec fn walk_tips(branches: Seq<(String, Oid)>, hidden: Set<Seq<char>>, roots: Seq<Oid>) -> Seq<Oid> {
    visible_tips(branches, hidden) + new_roots(visible_tips(branches, hidden), roots)
}

fn contains_oid(oids: &Vec<Oid>, oid: &Oid) -> (b: bool)
    ensures
        b == oids@.contains(*oid),
{
    let mut i: usize = 0;
    while i < oids.len()
        invariant
            i <= oids@.len(),
            forall|j: int| 0 <= j < i ==> oids@[j] != *oid,
        decreases oids@.len() - i,
    {
        if oids[i] == *oid {
            return true;
        }
        i = i + 1;
    }
    false
}

/// The commits the graph shows, still to be loaded, in order.
pub struct Batcher {
    commits: VecDeque<Oid>,
}

impl Batcher {
    pub closed spec fn queue(&self) -> Seq<Oid> {
        self.commits@
    }

    /// A queue of `commits`, in the order given.
    pub fn new(commits: Vec<Oid>) -> (b: Batcher)
        ensures
            b.queue() == commits@,
    {
        let mut queue: VecDeque<Oid> = VecDeque::new();
        let mut i: usize = 0;
        while i < commits.len()
            invariant
                i <= commits@.len(),
                queue@ == commits@.take(i as int),
            decreases commits@.len() - i,
        {
            queue.push_back(commits[i]);
            i = i + 1;
            proof {
                assert(queue@ =~= commits@.take(i as int));
            }
        }
        proof {
            assert(commits@.take(commits@.len() as int) =~= commits@);
        }
        Batcher { commits: queue }
    }

    /// Starts over with the commits of a fresh walk; when the walk failed, the queue is kept as
    /// it was, so later pages carry on where they were, and the walk's error is handed back.
    pub fn reset<E>(&mut self, walk: Result<Vec<Oid>, E>) -> (r: Result<(), E>)
        ensures
            match walk {
                Ok(commits) => r is Ok && final(self).queue() == commits@,
                Err(e) => r == Err::<(), E>(e) && final(self).queue() == old(self).queue(),
            },
    {
        match walk {
            Ok(commits) => {
                *self = Batcher::new(commits);
                Ok(())
            },
            Err(e) => Err(e),
        }
    }

    /// The tips the walk that fills the queue starts from: the branches' tips, except those of
    /// the hidden branches, and then the extra roots that are not among them.
    pub fn tips(branches: &Vec<(String, Oid)>, hidden: &im::HashSet<String>, extra_roots: &[Oid]) -> (tips: Vec<Oid>)
        ensures
            tips@ == walk_tips(branches@, name_set(*hidden), extra_roots@),
    {
        let ghost hidden_names = name_set(*hidden);
        let mut tips: Vec<Oid> = Vec::new();
        let mut i: usize = 0;
        while i < branches.len()
            invariant
                i <= branches@.len(),
                hidden_names == name_set(*hidden),
                tips@ == visible_tips(branches@.take(i as int), hidden_names),
            decreases branches@.len() - i,
        {
            proof {
                assert(branches@.take(i + 1).drop_last() =~= branches@.take(i as int));
                assert(branches@.take(i + 1).last() == branches@[i as int]);
            }
            if !holds_name(hidden, &branches[i].0) {
                tips.push(branches[i].1);
            }
            i = i + 1;
        }
        proof {
            assert(branches@.take(branches@.len() as int) =~= branches@);
        }
        let ghost visible = tips@;
        let mut k: usize = 0;
        while k < extra_roots.len()
            invariant
                k <= extra_roots@.len(),
                tips@ == visible + new_roots(visible, extra_roots@.take(k as int)),
            decreases extra_roots@.len() - k,
        {
            let root = extra_roots[k];
            proof {
                assert(extra_roots@.take(k + 1).drop_last() =~= extra_roots@.take(k as int));
                assert(extra_roots@.take(k + 1).last() == root);
            }
            if !contains_oid(&tips, &root) {
                tips.push(root);
                proof {
                    assert(tips@ =~= visible + new_roots(visible, extra_roots@.take(k + 1)));
                }
            }
            k = k + 1;
        }
        proof {
            assert(extra_roots@.take(extra_roots@.len() as int) =~= extra_roots@);
        }
        tips
    }

    /// The next page of at most `count` commits, taken off the front of the queue.
    pub fn next(&mut self, count: usize) -> (page: Vec<Oid>)
        ensures
            page@.len() == if count < old(self).queue().len() { count as int } else { old(self).queue().len() as int },
            old(self).queue() == page@ + final(self).queue(),
    {
        let mut page: Vec<Oid> = Vec::new();
        let mut taken: usize = 0;
        while taken < count && self.commits.len() > 0
            invariant
                taken <= count,
                page@.len() == taken,
                old(self).queue() == page@ + self.commits@,
            decreases count - taken,
        {
            if let Some(oid) = self.commits.pop_front() {
                page.push(oid);
                proof {
                    assert(old(self).queue() =~= page@ + self.commits@);
                }
            }
            taken = taken + 1;
        }
        page
    }

    /// Takes the next page of at most `count` commits onto the end of `out`, and says how many
    /// it took.
    pub fn next_into(&mut self, count: usize, out: &mut Vec<Oid>) -> (n: usize)
        ensures
            n == if count < old(self).queue().len() { count as int } else { old(self).queue().len() as int },
            final(out)@ == old(out)@ + old(self).queue().take(n as int),
            final(self).queue() == old(self).queue().skip(n as int),
    {
        let page = self.next(count);
        let n = page.len();
        let mut i: usize = 0;
        let ghost start = out@;
        while i < page.len()
            invariant
                i <= page@.len(),
                out@ == start + page@.take(i as int),
            decreases page@.len() - i,
        {
            out.push(page[i]);
            i = i + 1;
            proof {
                assert(out@ =~= start + page@.take(i as int));
            }
        }
        proof {
            assert(page@.take(page@.len() as int) =~= page@);
            assert(old(self).queue().take(n as int) =~= page@);
            assert(old(self).queue().skip(n as int) =~= self.queue());
        }
        n
    }
}

} // verus!
