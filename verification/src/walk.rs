//! The walk over the commit graph: every commit that the heads lead to is
//! visited once, however many heads and parent links lead to it.

use vstd::hash_set::StringHashSet;
use vstd::prelude::*;

use crate::graph::{
    all_readable, contributors, has_parent, is_part_of, lemma_contributors_with_one_more,
    lemma_head_is_reachable, lemma_parent_is_reachable, lemma_reach_is_least,
    lemma_reachable_in_larger, reach, reachable, CommitData, Graph,
};
use crate::id::CommitId;
use crate::identity::{canonical, Author};
use crate::table::IdTable;

verus! {

/// A commit as the store hands it out.
#[derive(Clone, Debug, PartialEq, Eq)]
pub struct CommitRecord {
    /// The identifiers of the parents, in the order of the commit.
    pub parents: Vec<CommitId>,
    /// The author, or `None` where the author could not be read.
    pub author: Option<Author>,
}

impl View for CommitRecord {
    type V = CommitData;

    open spec fn view(&self) -> CommitData {
        CommitData {
            parents: self.parents@,
            author: match self.author {
                Some(author) => Some(author@),
                None => None,
            },
        }
    }
}

/// The two counts that a walk yields.
#[derive(Clone, Copy, Debug, PartialEq, Eq)]
pub struct Statistics {
    /// The number of distinct commits visited.
    pub unique_commit_count: usize,
    /// The number of distinct author identities among the visited commits
    /// whose author could be read.
    pub unique_contributor_count: usize,
}

/// The statistics of the commits that `heads` lead to in `graph`, which are
/// finitely many.
pub open spec fn statistics_of(graph: Graph, heads: Set<CommitId>, stats: Statistics) -> bool {
    &&& reach(graph, heads).finite()
    &&& stats.unique_commit_count == reach(graph, heads).len()
    &&& stats.unique_contributor_count == contributors(graph, reach(graph, heads)).len()
}

/// A walk in progress. It holds the commits visited so far, the work list of
/// identifiers still to look at, and the identities met so far. The caller
/// asks for the next commit that is due, reads it from the store, and hands
/// it over; the walk never reads anything itself.
pub struct Walk {
    visited: IdTable,
    pending: Vec<CommitId>,
    authors: StringHashSet,
    heads: Ghost<Set<CommitId>>,
    seen: Ghost<Graph>,
}

/// What the identities of a graph become when one more commit is read.
pub proof fn lemma_contributors_after_visit(graph: Graph, id: CommitId, data: CommitData)
    requires
        !graph.contains_key(id),
    ensures
        contributors(graph.insert(id, data), graph.dom().insert(id)) == match data.author {
            Some(who) => contributors(graph, graph.dom()).insert(canonical(who)),
            None => contributors(graph, graph.dom()),
        },
{
    lemma_contributors_with_one_more(graph, graph.dom(), id, data);
}

impl Walk {
    /// The heads that the walk started from.
    pub closed spec fn heads(&self) -> Set<CommitId> {
        self.heads@
    }

    /// The commits visited so far, each with what the caller read of it.
    pub closed spec fn graph(&self) -> Graph {
        self.seen@
    }

    /// The work list: identifiers still to look at, the next one last.
    pub closed spec fn pending(&self) -> Seq<CommitId> {
        self.pending@
    }

    /// The identities met so far.
    pub closed spec fn authors(&self) -> Set<Seq<char>> {
        self.authors@
    }

    /// `id` is on the work list and has not been visited.
    pub open spec fn is_due(&self, id: CommitId) -> bool {
        self.pending().contains(id) && !self.graph().contains_key(id)
    }

    /// The invariant of the walk.
    pub closed spec fn wf(&self) -> bool {
        &&& self.visited.wf()
        &&& self.visited.members() == self.seen@.dom()
        &&& forall|head: CommitId| #[trigger]
            self.heads@.contains(head) ==> self.seen@.contains_key(head) || self.pending@.contains(
                head,
            )
        &&& forall|child: CommitId, parent: CommitId|
            self.seen@.contains_key(child) && #[trigger] has_parent(self.seen@, child, parent)
                ==> self.seen@.contains_key(parent) || self.pending@.contains(parent)
        &&& forall|i: int|
            0 <= i < self.pending@.len() ==> reachable(
                self.seen@,
                self.heads@,
                #[trigger] self.pending@[i],
            )
        &&& forall|commit: CommitId| #[trigger]
            self.seen@.contains_key(commit) ==> reachable(self.seen@, self.heads@, commit)
        &&& self.authors@ == contributors(self.seen@, self.seen@.dom())
        &&& self.authors@.finite()
        &&& self.authors@.len() <= self.seen@.dom().len()
    }

    /// What the invariant says to the outside: only reachable commits are
    /// visited or on the work list, the identities are those of the visited
    /// commits, and the visited commits can be counted.
    pub proof fn lemma_invariant(&self)
        requires
            self.wf(),
        ensures
            self.graph().dom().finite(),
            self.graph().dom().len() <= usize::MAX,
            self.graph().dom().subset_of(reach(self.graph(), self.heads())),
            forall|id: CommitId|
                self.pending().contains(id) ==> #[trigger] reachable(
                    self.graph(),
                    self.heads(),
                    id,
                ),
            self.authors() == contributors(self.graph(), self.graph().dom()),
            self.authors().finite(),
            self.authors().len() <= self.graph().dom().len(),
    {
        self.visited.lemma_len_is_cardinality();
        assert forall|id: CommitId| self.pending().contains(id) implies #[trigger] reachable(
            self.graph(),
            self.heads(),
            id,
        ) by {
            let i = choose|i: int| 0 <= i < self.pending@.len() && self.pending@[i] == id;
            assert(reachable(self.seen@, self.heads@, self.pending@[i]));
        }
    }

    /// When the work list holds nothing that is due, the visited commits are
    /// exactly the heads and all their ancestors.
    pub proof fn lemma_done(&self)
        requires
            self.wf(),
            forall|id: CommitId| !self.is_due(id),
        ensures
            self.graph().dom() == reach(self.graph(), self.heads()),
            all_readable(self.graph(), reach(self.graph(), self.heads())),
    {
        let done = self.seen@.dom();
        assert forall|child: CommitId, parent: CommitId|
            done.contains(child) && #[trigger] has_parent(
                self.seen@,
                child,
                parent,
            ) implies done.contains(parent) by {
            assert(!self.is_due(parent));
        }
        assert forall|head: CommitId| self.heads@.contains(head) implies done.contains(head) by {
            assert(!self.is_due(head));
        }
        lemma_reach_is_least(self.seen@, self.heads@, done);
        assert(done =~= reach(self.seen@, self.heads@));
    }

    /// A walk that starts from `heads` and has visited nothing.
    pub fn new(heads: &Vec<CommitId>) -> (walk: Walk)
        ensures
            walk.wf(),
            walk.heads() == heads@.to_set(),
            walk.graph() == Map::<CommitId, CommitData>::empty(),
            walk.pending() == heads@,
            walk.authors() == Set::<Seq<char>>::empty(),
    {
        let mut pending: Vec<CommitId> = Vec::new();
        let mut i: usize = 0;
        while i < heads.len()
            invariant
                i <= heads.len(),
                pending@ == heads@.subrange(0, i as int),
            decreases heads.len() - i,
        {
            pending.push(heads[i]);
            i = i + 1;
            assert(pending@ =~= heads@.subrange(0, i as int));
        }
        assert(pending@ =~= heads@);
        let walk = Walk {
            visited: IdTable::new(),
            pending,
            authors: StringHashSet::new(),
            heads: Ghost(heads@.to_set()),
            seen: Ghost(Map::empty()),
        };
        proof {
            let graph = walk.seen@;
            let start = walk.heads@;
            assert(walk.visited.members() =~= graph.dom());
            assert forall|i: int| 0 <= i < walk.pending@.len() implies reachable(
                graph,
                start,
                #[trigger] walk.pending@[i],
            ) by {
                assert(start.contains(heads@[i]));
                lemma_head_is_reachable(graph, start, walk.pending@[i]);
            }
            assert(contributors(graph, graph.dom()) =~= Set::<Seq<char>>::empty());
        }
        walk
    }

    /// The number of commits visited so far.
    pub fn count(&self) -> (n: usize)
        requires
            self.wf(),
        ensures
            n == self.graph().dom().len(),
    {
        proof {
            self.visited.lemma_len_is_cardinality();
        }
        self.visited.len()
    }

    /// The next commit that is due, or `None` when the walk is over. What
    /// lies at the end of the work list and was visited meanwhile is dropped;
    /// a commit that is due stays on the list until it is handed to
    /// [`Walk::visit`].
    pub fn next(&mut self) -> (due: Option<CommitId>)
        requires
            old(self).wf(),
        ensures
            final(self).wf(),
            final(self).heads() == old(self).heads(),
            final(self).graph() == old(self).graph(),
            final(self).authors() == old(self).authors(),
            final(self).pending().len() <= old(self).pending().len(),
            final(self).pending() == old(self).pending().subrange(
                0,
                final(self).pending().len() as int,
            ),
            forall|i: int|
                final(self).pending().len() <= i < old(self).pending().len() ==> old(
                    self,
                ).graph().contains_key(#[trigger] old(self).pending()[i]),
            match due {
                Some(id) => {
                    &&& final(self).pending().len() > 0
                    &&& final(self).pending().last() == id
                    &&& final(self).is_due(id)
                    &&& reachable(final(self).graph(), final(self).heads(), id)
                },
                None => {
                    &&& final(self).pending().len() == 0
                    &&& final(self).graph().dom() == reach(
                        final(self).graph(),
                        final(self).heads(),
                    )
                },
            },
    {
        loop
            invariant
                self.wf(),
                self.heads() == old(self).heads(),
                self.graph() == old(self).graph(),
                self.authors() == old(self).authors(),
                self.pending@.len() <= old(self).pending@.len(),
                self.pending@ == old(self).pending@.subrange(0, self.pending@.len() as int),
                forall|i: int|
                    self.pending@.len() <= i < old(self).pending@.len() ==> old(
                        self,
                    ).seen@.contains_key(#[trigger] old(self).pending@[i]),
            decreases self.pending.len(),
        {
            let n = self.pending.len();
            if n == 0 {
                proof {
                    assert forall|id: CommitId| !self.is_due(id) by {}
                    self.lemma_done();
                }
                return None;
            }
            let top = self.pending[n - 1];
            if !self.visited.contains(&top) {
                proof {
                    assert(self.pending@[n - 1] == top);
                    assert(reachable(self.seen@, self.heads@, self.pending@[n - 1]));
                }
                return Some(top);
            }
            let ghost before = self.pending@;
            self.pending.pop();
            proof {
                assert(self.pending@ =~= before.drop_last());
                assert(self.pending@ =~= old(self).pending@.subrange(0, self.pending@.len() as int));
                assert(old(self).pending@[n - 1] == top);
                assert forall|id: CommitId| before.contains(id) implies self.seen@.contains_key(id)
                    || self.pending@.contains(id) by {
                    let i = choose|i: int| 0 <= i < before.len() && before[i] == id;
                    if i < n - 1 {
                        assert(self.pending@[i] == id);
                    }
                }
                assert forall|i: int| 0 <= i < self.pending@.len() implies reachable(
                    self.seen@,
                    self.heads@,
                    #[trigger] self.pending@[i],
                ) by {
                    assert(self.pending@[i] == before[i]);
                }
            }
        }
    }

    /// Takes what the store holds for a commit that is due: the commit counts
    /// as visited, its author's identity is noted where there is one, and all
    /// its parents go on the work list, visited or not.
    pub fn visit(&mut self, id: CommitId, commit: &CommitRecord)
        requires
            old(self).wf(),
            old(self).is_due(id),
        ensures
            final(self).wf(),
            final(self).heads() == old(self).heads(),
            final(self).graph() == old(self).graph().insert(id, commit@),
            final(self).pending() == old(self).pending() + commit.parents@,
            final(self).authors() == match commit@.author {
                Some(who) => old(self).authors().insert(canonical(who)),
                None => old(self).authors(),
            },
    {
        let ghost graph0 = self.seen@;
        let ghost pending0 = self.pending@;
        let ghost start = self.heads@;
        let ghost graph1 = graph0.insert(id, commit@);
        proof {
            self.visited.lemma_len_is_cardinality();
            lemma_contributors_after_visit(graph0, id, commit@);
        }
        self.visited.append(id);
        match &commit.author {
            Some(author) => {
                self.authors.insert(author.canonical());
            },
            None => {},
        }
        let ghost visited1 = self.visited;
        let ghost authors1 = self.authors;
        let mut i: usize = 0;
        while i < commit.parents.len()
            invariant
                i <= commit.parents.len(),
                self.pending@ == pending0 + commit.parents@.subrange(0, i as int),
                self.visited == visited1,
                self.authors == authors1,
                self.heads == old(self).heads,
                self.seen == old(self).seen,
            decreases commit.parents.len() - i,
        {
            self.pending.push(commit.parents[i]);
            i = i + 1;
            assert(self.pending@ =~= pending0 + commit.parents@.subrange(0, i as int));
        }
        assert(commit.parents@.subrange(0, i as int) =~= commit.parents@);
        self.seen = Ghost(graph1);
        proof {
            let pending1 = self.pending@;
            assert(is_part_of(graph0, graph1));
            assert(graph1.dom() =~= graph0.dom().insert(id));
            assert forall|other: CommitId| pending0.contains(other) implies pending1.contains(
                other,
            ) by {
                let i = choose|i: int| 0 <= i < pending0.len() && pending0[i] == other;
                assert(pending1[i] == other);
            }
            assert(reachable(graph1, start, id)) by {
                let i = choose|i: int| 0 <= i < pending0.len() && pending0[i] == id;
                assert(reachable(graph0, start, pending0[i]));
                lemma_reachable_in_larger(graph0, graph1, start, id);
            }
            assert forall|child: CommitId, parent: CommitId|
                graph1.contains_key(child) && #[trigger] has_parent(
                    graph1,
                    child,
                    parent,
                ) implies graph1.contains_key(parent) || pending1.contains(parent) by {
                if child == id {
                    let j = choose|j: int|
                        0 <= j < commit.parents@.len() && commit.parents@[j] == parent;
                    assert(pending1[pending0.len() + j] == parent);
                } else {
                    assert(has_parent(graph0, child, parent));
                }
            }
            assert forall|i: int| 0 <= i < pending1.len() implies reachable(
                graph1,
                start,
                #[trigger] pending1[i],
            ) by {
                if i < pending0.len() {
                    assert(pending1[i] == pending0[i]);
                    assert(reachable(graph0, start, pending0[i]));
                    lemma_reachable_in_larger(graph0, graph1, start, pending1[i]);
                } else {
                    let j = i - pending0.len();
                    assert(pending1[i] == commit.parents@[j]);
                    assert(has_parent(graph1, id, pending1[i]));
                    lemma_parent_is_reachable(graph1, start, id, pending1[i]);
                }
            }
            assert forall|other: CommitId| #[trigger] graph1.contains_key(other) implies reachable(
                graph1,
                start,
                other,
            ) by {
                if other != id {
                    lemma_reachable_in_larger(graph0, graph1, start, other);
                }
            }
        }
    }

    /// The counts of what has been visited so far.
    pub fn statistics(&self) -> (stats: Statistics)
        requires
            self.wf(),
        ensures
            stats.unique_commit_count == self.graph().dom().len(),
            stats.unique_contributor_count == contributors(self.graph(), self.graph().dom()).len(),
            stats.unique_contributor_count <= stats.unique_commit_count,
    {
        Statistics {
            unique_commit_count: self.count(),
            unique_contributor_count: self.authors.len(),
        }
    }
}

} // verus!
