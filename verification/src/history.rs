//! A history held in memory: commits by identifier, and named references.

use vstd::prelude::*;
use vstd::string::*;

use crate::error::StatsError;
use crate::graph::{
    all_readable, is_part_of, lemma_contributors_are_finite, lemma_merge_adds_one,
    lemma_reach_of_nothing, lemma_reach_within_part, lemma_reachable_in_larger, reach, reachable,
    CommitData, Graph,
};
use crate::id::CommitId;
use crate::table::IdTable;
use crate::walk::{statistics_of, CommitRecord, Statistics, Walk};

verus! {

/// Commits and references in memory. It answers what a store answers: which
/// commits the references point to, and what a commit holds.
pub struct History {
    table: IdTable,
    records: Vec<CommitRecord>,
    names: Vec<String>,
    targets: Vec<CommitId>,
    model: Ghost<Graph>,
}

/// Those of `targets` that name a commit of `graph`, in their order.
pub open spec fn resolvable(targets: Seq<CommitId>, graph: Graph) -> Seq<CommitId> {
    targets.filter(|id: CommitId| graph.contains_key(id))
}

/// The name is that of a local branch: it begins with `refs/heads/`.
pub open spec fn is_local_branch(name: Seq<char>) -> bool {
    name.len() >= 11 && name.subrange(0, 11) == "refs/heads/"@
}

/// Tells whether a reference of this name is a local branch.
pub fn names_local_branch(name: &str) -> (local: bool)
    ensures
        local == is_local_branch(name@),
{
    let prefix = "refs/heads/";
    proof {
        reveal_strlit("refs/heads/");
    }
    if name.unicode_len() < 11 {
        return false;
    }
    let mut i: usize = 0;
    while i < 11
        invariant
            i <= 11,
            name@.len() >= 11,
            prefix@.len() == 11,
            prefix@ == "refs/heads/"@,
            forall|j: int| 0 <= j < i ==> name@[j] == prefix@[j],
        decreases 11 - i,
    {
        if name.get_char(i) != prefix.get_char(i) {
            proof {
                assert(name@.subrange(0, 11)[i as int] == name@[i as int]);
            }
            return false;
        }
        i = i + 1;
    }
    assert(name@.subrange(0, 11) =~= prefix@);
    true
}

/// What a walk over `graph` from `heads` has to return: the counts of what
/// the heads lead to where all of that can be read, and else a commit that
/// they lead to and that is not there.
pub open spec fn is_walk_outcome(
    graph: Graph,
    heads: Set<CommitId>,
    outcome: Result<Statistics, StatsError>,
) -> bool {
    match outcome {
        Ok(stats) => {
            &&& all_readable(graph, reach(graph, heads))
            &&& statistics_of(graph, heads, stats)
        },
        Err(StatsError::MissingCommit { id }) => {
            &&& reachable(graph, heads, id)
            &&& !graph.contains_key(id)
        },
        Err(_) => false,
    }
}

/// Two walks over one graph from the same heads both succeed or both fail,
/// and where they succeed they give the same counts.
pub proof fn lemma_outcome_is_determined(
    graph: Graph,
    heads: Set<CommitId>,
    first: Result<Statistics, StatsError>,
    second: Result<Statistics, StatsError>,
)
    requires
        is_walk_outcome(graph, heads, first),
        is_walk_outcome(graph, heads, second),
    ensures
        first is Ok <==> second is Ok,
        first is Ok ==> first == second,
{
    if first is Err {
        let id = first->Err_0->MissingCommit_id;
        assert(reach(graph, heads).contains(id));
    }
    if second is Err {
        let id = second->Err_0->MissingCommit_id;
        assert(reach(graph, heads).contains(id));
    }
}

/// A commit is among the resolvable targets exactly when it is a target and
/// a commit of the graph.
pub proof fn lemma_resolvable_members(targets: Seq<CommitId>, graph: Graph, id: CommitId)
    ensures
        resolvable(targets, graph).contains(id) <==> targets.contains(id) && graph.contains_key(id),
    decreases targets.len(),
{
    reveal(Seq::filter);
    let keep = |id: CommitId| graph.contains_key(id);
    if targets.len() > 0 {
        let before = targets.drop_last();
        lemma_resolvable_members(before, graph, id);
        let kept = before.filter(keep);
        if targets.contains(id) {
            let i = choose|i: int| 0 <= i < targets.len() && targets[i] == id;
            if i < before.len() {
                assert(before[i] == id);
            }
        }
        if before.contains(id) {
            let i = choose|i: int| 0 <= i < before.len() && before[i] == id;
            assert(targets[i] == id);
        }
        if keep(targets.last()) {
            assert(targets.filter(keep) == kept.push(targets.last()));
            if kept.contains(id) {
                let i = choose|i: int| 0 <= i < kept.len() && kept[i] == id;
                assert(kept.push(targets.last())[i] == id);
            }
            if kept.push(targets.last()).contains(id) {
                let i = choose|i: int|
                    0 <= i < kept.push(targets.last()).len() && kept.push(targets.last())[i] == id;
                if i < kept.len() {
                    assert(kept[i] == id);
                }
            }
            assert(kept.push(targets.last())[kept.len() as int] == targets.last());
        }
        assert(targets[targets.len() - 1] == targets.last());
    }
}

/// A reference to a new commit adds that commit to the heads and leaves
/// the other heads as they were.
pub proof fn lemma_heads_with_new_commit(
    targets: Seq<CommitId>,
    graph: Graph,
    id: CommitId,
    data: CommitData,
)
    requires
        !graph.contains_key(id),
    ensures
        resolvable(targets.push(id), graph.insert(id, data)).to_set() == resolvable(
            targets,
            graph,
        ).to_set().insert(id),
{
    let more = targets.push(id);
    let larger = graph.insert(id, data);
    assert forall|other: CommitId|
        resolvable(more, larger).to_set().contains(other) <==> resolvable(
            targets,
            graph,
        ).to_set().insert(id).contains(other) by {
        lemma_resolvable_members(more, larger, other);
        lemma_resolvable_members(targets, graph, other);
        if targets.contains(other) {
            let i = choose|i: int| 0 <= i < targets.len() && targets[i] == other;
            assert(more[i] == other);
        }
        if more.contains(other) && other != id {
            let i = choose|i: int| 0 <= i < more.len() && more[i] == other;
            assert(targets[i] == other);
        }
        assert(more[targets.len() as int] == id);
    }
    assert(resolvable(more, larger).to_set() =~= resolvable(targets, graph).to_set().insert(id));
}

/// A new merge of commits that the walk reaches already is counted once:
/// the walk that follows counts one commit more, and as many contributors
/// as before or, where the author of the merge is new, one more.
pub proof fn lemma_merge_is_counted_once(
    graph: Graph,
    heads: Set<CommitId>,
    merge: CommitId,
    data: CommitData,
    before: Result<Statistics, StatsError>,
    after: Result<Statistics, StatsError>,
)
    requires
        is_walk_outcome(graph, heads, before),
        before is Ok,
        !graph.contains_key(merge),
        forall|i: int|
            0 <= i < data.parents.len() ==> reach(graph, heads).contains(#[trigger] data.parents[i]),
        is_walk_outcome(graph.insert(merge, data), heads.insert(merge), after),
    ensures
        after is Ok,
        after->Ok_0.unique_commit_count == before->Ok_0.unique_commit_count + 1,
        after->Ok_0.unique_contributor_count == before->Ok_0.unique_contributor_count
            || after->Ok_0.unique_contributor_count == before->Ok_0.unique_contributor_count + 1,
{
    let larger = graph.insert(merge, data);
    let more = heads.insert(merge);
    lemma_merge_adds_one(graph, heads, merge, data);
    assert(all_readable(larger, reach(larger, more)));
    if after is Err {
        let id = after->Err_0->MissingCommit_id;
        assert(reach(larger, more).contains(id));
    }
    lemma_contributors_are_finite(graph, reach(graph, heads));
}

/// A walk from no head counts no commit and no contributor.
pub proof fn lemma_nothing_to_walk(graph: Graph, outcome: Result<Statistics, StatsError>)
    requires
        is_walk_outcome(graph, Set::empty(), outcome),
    ensures
        outcome == Ok::<Statistics, StatsError>(
            Statistics { unique_commit_count: 0, unique_contributor_count: 0 },
        ),
{
    lemma_reach_of_nothing(graph);
}

impl History {
    /// A history holds finitely many commits: as many as its table has places.
    pub proof fn lemma_commits_are_finite(&self)
        requires
            self.wf(),
        ensures
            self.commits().dom().finite(),
            self.commits().dom().len() <= usize::MAX,
    {
        self.table.lemma_len_is_cardinality();
    }

    /// The commits of the history.
    pub closed spec fn commits(&self) -> Graph {
        self.model@
    }

    /// The targets of the references, in the order in which they were added.
    pub closed spec fn targets(&self) -> Seq<CommitId> {
        self.targets@
    }

    /// The names of the references, in the order in which they were added.
    pub closed spec fn names(&self) -> Seq<Seq<char>> {
        Seq::new(self.names@.len(), |i: int| self.names@[i]@)
    }

    /// The invariant of the history.
    pub closed spec fn wf(&self) -> bool {
        &&& self.table.wf()
        &&& self.records@.len() == self.table@.len()
        &&& self.names@.len() == self.targets@.len()
        &&& self.model@.dom() == self.table.members()
        &&& forall|p: int|
            0 <= p < self.table@.len() ==> self.model@[#[trigger] self.table@[p]]
                == self.records@[p]@
    }

    /// The history without commits or references.
    pub fn new() -> (history: History)
        ensures
            history.wf(),
            history.commits() == Map::<CommitId, CommitData>::empty(),
            history.targets() == Seq::<CommitId>::empty(),
            history.names() == Seq::<Seq<char>>::empty(),
    {
        let history = History {
            table: IdTable::new(),
            records: Vec::new(),
            names: Vec::new(),
            targets: Vec::new(),
            model: Ghost(Map::empty()),
        };
        proof {
            assert(history.model@.dom() =~= history.table.members());
            assert(history.names() =~= Seq::<Seq<char>>::empty());
        }
        history
    }

    /// The number of commits.
    pub fn len(&self) -> (n: usize)
        requires
            self.wf(),
        ensures
            n == self.commits().dom().len(),
    {
        proof {
            self.table.lemma_len_is_cardinality();
        }
        self.table.len()
    }

    /// Adds a commit. A commit never changes: where the history holds one
    /// under `id` already, it stays as it is and the result is `false`.
    pub fn add_commit(&mut self, id: CommitId, record: CommitRecord) -> (added: bool)
        requires
            old(self).wf(),
        ensures
            final(self).wf(),
            final(self).targets() == old(self).targets(),
            final(self).names() == old(self).names(),
            added == !old(self).commits().contains_key(id),
            final(self).commits() == if added {
                old(self).commits().insert(id, record@)
            } else {
                old(self).commits()
            },
    {
        if self.table.contains(&id) {
            return false;
        }
        let ghost table0 = self.table@;
        let ghost records0 = self.records@;
        let ghost model0 = self.model@;
        self.table.append(id);
        self.records.push(record);
        self.model = Ghost(model0.insert(id, record@));
        proof {
            assert(self.model@.dom() =~= self.table.members());
            assert forall|p: int| 0 <= p < self.table@.len() implies self.model@[
            #[trigger] self.table@[p]] == self.records@[p]@ by {
                if p < table0.len() {
                    assert(self.table@[p] == table0[p]);
                    assert(table0.contains(table0[p]));
                    assert(model0[table0[p]] == records0[p]@);
                }
            }
        }
        true
    }

    /// Adds a reference with the given name to the commit `target`. The
    /// commit need not be in the history.
    pub fn add_reference(&mut self, name: &str, target: CommitId)
        requires
            old(self).wf(),
        ensures
            final(self).wf(),
            final(self).commits() == old(self).commits(),
            final(self).targets() == old(self).targets().push(target),
            final(self).names() == old(self).names().push(name@),
    {
        self.names.push(String::from_str(name));
        self.targets.push(target);
        proof {
            assert(self.names() =~= old(self).names().push(name@));
        }
    }

    /// What the history holds under `id`.
    pub fn commit(&self, id: &CommitId) -> (found: Option<&CommitRecord>)
        requires
            self.wf(),
        ensures
            match found {
                Some(record) => self.commits().contains_key(*id) && record@ == self.commits()[*id],
                None => !self.commits().contains_key(*id),
            },
    {
        match self.table.position(id) {
            Some(p) => {
                assert(self.table@[p as int] == *id);
                assert(self.table@.contains(*id));
                Some(&self.records[p])
            },
            None => None,
        }
    }

    /// The commits that the references point to, one for each reference whose
    /// target is a commit of the history; a reference to anything else is
    /// passed over.
    pub fn heads(&self) -> (heads: Vec<CommitId>)
        requires
            self.wf(),
        ensures
            heads@ == resolvable(self.targets(), self.commits()),
    {
        let mut heads: Vec<CommitId> = Vec::new();
        let ghost keep = |id: CommitId| self.commits().contains_key(id);
        let mut i: usize = 0;
        proof {
            reveal(Seq::filter);
            assert(self.targets@.subrange(0, 0) =~= Seq::<CommitId>::empty());
        }
        while i < self.targets.len()
            invariant
                self.wf(),
                i <= self.targets.len(),
                keep == |id: CommitId| self.commits().contains_key(id),
                heads@ == self.targets@.subrange(0, i as int).filter(keep),
            decreases self.targets.len() - i,
        {
            let target = self.targets[i];
            proof {
                reveal(Seq::filter);
                let longer = self.targets@.subrange(0, i + 1);
                assert(longer.drop_last() =~= self.targets@.subrange(0, i as int));
                assert(longer.last() == target);
            }
            if self.table.contains(&target) {
                heads.push(target);
            }
            i = i + 1;
        }
        assert(self.targets@.subrange(0, i as int) =~= self.targets@);
        heads
    }

    /// The number of references that are local branches.
    pub fn branch_count(&self) -> (n: usize)
        requires
            self.wf(),
        ensures
            n == self.names().filter(|name: Seq<char>| is_local_branch(name)).len(),
    {
        let ghost local = |name: Seq<char>| is_local_branch(name);
        let ghost names = self.names();
        let mut n: usize = 0;
        let mut i: usize = 0;
        proof {
            reveal(Seq::filter);
            assert(names.subrange(0, 0) =~= Seq::<Seq<char>>::empty());
        }
        while i < self.names.len()
            invariant
                i <= self.names.len(),
                names == self.names(),
                names.len() == self.names@.len(),
                local == |name: Seq<char>| is_local_branch(name),
                n == names.subrange(0, i as int).filter(local).len(),
                n <= i,
            decreases self.names.len() - i,
        {
            proof {
                reveal(Seq::filter);
                let longer = names.subrange(0, i + 1);
                assert(longer.drop_last() =~= names.subrange(0, i as int));
                assert(longer.last() == self.names@[i as int]@);
            }
            if names_local_branch(self.names[i].as_str()) {
                n = n + 1;
            }
            i = i + 1;
        }
        assert(names.subrange(0, i as int) =~= names);
        n
    }

    /// Walks the history from `heads` and counts the commits that they lead
    /// to and the identities of their authors. Each commit is counted once,
    /// whatever leads to it. The walk fails at a commit that it has reached
    /// and that the history does not hold.
    pub fn walk_from(&self, heads: &Vec<CommitId>) -> (outcome: Result<Statistics, StatsError>)
        requires
            self.wf(),
        ensures
            is_walk_outcome(self.commits(), heads@.to_set(), outcome),
    {
        let mut walk = Walk::new(heads);
        let ghost start = heads@.to_set();
        loop
            invariant
                self.wf(),
                walk.wf(),
                walk.heads() == start,
                start == heads@.to_set(),
                is_part_of(walk.graph(), self.commits()),
            decreases usize::MAX - walk.graph().dom().len(),
        {
            proof {
                walk.lemma_invariant();
            }
            match walk.next() {
                None => {
                    proof {
                        lemma_reach_within_part(walk.graph(), self.commits(), start);
                        assert forall|id: CommitId|
                            reach(self.commits(), start).contains(id) implies self.commits().dom().contains(
                            id,
                        ) by {
                            assert(walk.graph().contains_key(id));
                        }
                    }
                    return Ok(walk.statistics());
                },
                Some(id) => {
                    match self.commit(&id) {
                        None => {
                            proof {
                                lemma_reachable_in_larger(walk.graph(), self.commits(), start, id);
                            }
                            return Err(StatsError::MissingCommit { id });
                        },
                        Some(record) => {
                            proof {
                                walk.lemma_invariant();
                            }
                            walk.visit(id, record);
                            proof {
                                walk.lemma_invariant();
                            }
                        },
                    }
                },
            }
        }
    }

    /// The statistics of the whole history: one walk from all the commits
    /// that its references point to.
    pub fn compute_statistics(&self) -> (outcome: Result<Statistics, StatsError>)
        requires
            self.wf(),
        ensures
            is_walk_outcome(
                self.commits(),
                resolvable(self.targets(), self.commits()).to_set(),
                outcome,
            ),
    {
        let heads = self.heads();
        self.walk_from(&heads)
    }
}

} // verus!
