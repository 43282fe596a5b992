//! The commit graph as a mathematical object, and what is reachable in it.

use vstd::prelude::*;

use crate::id::CommitId;
use crate::identity::{canonical, lemma_canonical_is_injective, lemma_emails_tell_apart, Identity};

verus! {

/// What the walk reads of a commit: its parents, and its author where the
/// author could be read.
pub struct CommitData {
    pub parents: Seq<CommitId>,
    pub author: Option<Identity>,
}

/// A commit graph: the commits that can be read, by identifier.
pub type Graph = Map<CommitId, CommitData>;

/// `child` can be read and names `parent` among its parents.
pub open spec fn has_parent(graph: Graph, child: CommitId, parent: CommitId) -> bool {
    graph.contains_key(child) && graph[child].parents.contains(parent)
}

/// Each commit of `chain` after the first is a parent of the one before it.
pub open spec fn is_chain(graph: Graph, chain: Seq<CommitId>) -> bool {
    forall|i: int|
        #![trigger chain[i]]
        0 < i < chain.len() ==> has_parent(graph, chain[i - 1], chain[i])
}

/// `chain` leads from one of `heads` to `commit` along parent links.
pub open spec fn leads_to(
    graph: Graph,
    heads: Set<CommitId>,
    chain: Seq<CommitId>,
    commit: CommitId,
) -> bool {
    &&& chain.len() > 0
    &&& heads.contains(chain[0])
    &&& chain.last() == commit
    &&& is_chain(graph, chain)
}

/// `commit` is one of `heads` or an ancestor of one.
pub open spec fn reachable(graph: Graph, heads: Set<CommitId>, commit: CommitId) -> bool {
    exists|chain: Seq<CommitId>| leads_to(graph, heads, chain, commit)
}

/// The heads and all their ancestors.
pub open spec fn reach(graph: Graph, heads: Set<CommitId>) -> Set<CommitId> {
    Set::new(|commit: CommitId| reachable(graph, heads, commit))
}

/// Every commit of `commits` can be read.
pub open spec fn all_readable(graph: Graph, commits: Set<CommitId>) -> bool {
    commits.subset_of(graph.dom())
}

/// `commits` holds the parents of each of its commits that can be read.
pub open spec fn closed_under_parents(graph: Graph, commits: Set<CommitId>) -> bool {
    forall|child: CommitId, parent: CommitId|
        commits.contains(child) && #[trigger] has_parent(graph, child, parent) ==> commits.contains(
            parent,
        )
}

/// `commit` is in `commits`, can be read, and has `who` for its author.
pub open spec fn is_author_of(
    graph: Graph,
    commits: Set<CommitId>,
    commit: CommitId,
    who: Seq<char>,
) -> bool {
    &&& commits.contains(commit)
    &&& graph.contains_key(commit)
    &&& graph[commit].author matches Some(identity)
    &&& canonical(identity) == who
}

/// The identities, each in its canonical form, of the authors of those of
/// `commits` whose author could be read.
pub open spec fn contributors(graph: Graph, commits: Set<CommitId>) -> Set<Seq<char>> {
    Set::new(|who: Seq<char>| exists|commit: CommitId| is_author_of(graph, commits, commit, who))
}

/// `small` holds some of the commits of `large`, each with the same data.
pub open spec fn is_part_of(small: Graph, large: Graph) -> bool {
    forall|commit: CommitId| #[trigger]
        small.contains_key(commit) ==> large.contains_key(commit) && large[commit] == small[commit]
}

/// Every head is reachable.
pub proof fn lemma_head_is_reachable(graph: Graph, heads: Set<CommitId>, head: CommitId)
    requires
        heads.contains(head),
    ensures
        reachable(graph, heads, head),
{
    assert(leads_to(graph, heads, seq![head], head));
}

/// A parent of a reachable commit is reachable.
pub proof fn lemma_parent_is_reachable(
    graph: Graph,
    heads: Set<CommitId>,
    child: CommitId,
    parent: CommitId,
)
    requires
        reachable(graph, heads, child),
        has_parent(graph, child, parent),
    ensures
        reachable(graph, heads, parent),
{
    let chain = choose|chain: Seq<CommitId>| leads_to(graph, heads, chain, child);
    let longer = chain.push(parent);
    assert forall|i: int| #![trigger longer[i]] 0 < i < longer.len() implies has_parent(
        graph,
        longer[i - 1],
        longer[i],
    ) by {
        if i < chain.len() {
            assert(has_parent(graph, chain[i - 1], chain[i]));
        }
    }
    assert(leads_to(graph, heads, longer, parent));
}

/// A chain that starts inside a set closed under parents stays inside it.
proof fn lemma_chain_stays_inside(
    graph: Graph,
    commits: Set<CommitId>,
    chain: Seq<CommitId>,
    i: int,
)
    requires
        closed_under_parents(graph, commits),
        is_chain(graph, chain),
        chain.len() > 0,
        commits.contains(chain[0]),
        0 <= i < chain.len(),
    ensures
        commits.contains(chain[i]),
    decreases i,
{
    if i > 0 {
        lemma_chain_stays_inside(graph, commits, chain, i - 1);
        assert(has_parent(graph, chain[i - 1], chain[i]));
    }
}

/// What is reachable lies in every set that holds the heads and is closed
/// under parents.
pub proof fn lemma_reach_is_least(graph: Graph, heads: Set<CommitId>, commits: Set<CommitId>)
    requires
        heads.subset_of(commits),
        closed_under_parents(graph, commits),
    ensures
        reach(graph, heads).subset_of(commits),
{
    assert forall|commit: CommitId| reach(graph, heads).contains(commit) implies commits.contains(
        commit,
    ) by {
        let chain = choose|chain: Seq<CommitId>| leads_to(graph, heads, chain, commit);
        lemma_chain_stays_inside(graph, commits, chain, chain.len() - 1);
    }
}

/// What is reachable holds the heads and is closed under parents.
pub proof fn lemma_reach_is_closed(graph: Graph, heads: Set<CommitId>)
    ensures
        heads.subset_of(reach(graph, heads)),
        closed_under_parents(graph, reach(graph, heads)),
{
    assert forall|head: CommitId| heads.contains(head) implies reach(graph, heads).contains(
        head,
    ) by {
        lemma_head_is_reachable(graph, heads, head);
    }
    assert forall|child: CommitId, parent: CommitId|
        reach(graph, heads).contains(child) && #[trigger] has_parent(
            graph,
            child,
            parent,
        ) implies reach(graph, heads).contains(parent) by {
        lemma_parent_is_reachable(graph, heads, child, parent);
    }
}

/// With no head nothing is reachable.
pub proof fn lemma_reach_of_nothing(graph: Graph)
    ensures
        reach(graph, Set::empty()) == Set::<CommitId>::empty(),
        contributors(graph, Set::empty()) == Set::<Seq<char>>::empty(),
{
    assert(reach(graph, Set::empty()) =~= Set::<CommitId>::empty());
    assert(contributors(graph, Set::empty()) =~= Set::<Seq<char>>::empty());
}

/// One walk from several heads reaches exactly what the walks from each of
/// them reach together: shared ancestors are in the result once.
pub proof fn lemma_reach_of_union(graph: Graph, first: Set<CommitId>, second: Set<CommitId>)
    ensures
        reach(graph, first.union(second)) == reach(graph, first).union(reach(graph, second)),
{
    let both = first.union(second);
    assert forall|commit: CommitId| reach(graph, both).contains(commit) implies reach(
        graph,
        first,
    ).union(reach(graph, second)).contains(commit) by {
        let chain = choose|chain: Seq<CommitId>| leads_to(graph, both, chain, commit);
        if first.contains(chain[0]) {
            assert(leads_to(graph, first, chain, commit));
        } else {
            assert(leads_to(graph, second, chain, commit));
        }
    }
    assert forall|commit: CommitId|
        reach(graph, first).union(reach(graph, second)).contains(commit) implies reach(
        graph,
        both,
    ).contains(commit) by {
        if reach(graph, first).contains(commit) {
            let chain = choose|chain: Seq<CommitId>| leads_to(graph, first, chain, commit);
            assert(leads_to(graph, both, chain, commit));
        } else {
            let chain = choose|chain: Seq<CommitId>| leads_to(graph, second, chain, commit);
            assert(leads_to(graph, both, chain, commit));
        }
    }
    assert(reach(graph, both) =~= reach(graph, first).union(reach(graph, second)));
}

/// What is reachable in a part of a graph is reachable in the graph.
pub proof fn lemma_reachable_in_larger(
    small: Graph,
    large: Graph,
    heads: Set<CommitId>,
    commit: CommitId,
)
    requires
        is_part_of(small, large),
        reachable(small, heads, commit),
    ensures
        reachable(large, heads, commit),
{
    let chain = choose|chain: Seq<CommitId>| leads_to(small, heads, chain, commit);
    assert forall|i: int| #![trigger chain[i]] 0 < i < chain.len() implies has_parent(
        large,
        chain[i - 1],
        chain[i],
    ) by {
        assert(has_parent(small, chain[i - 1], chain[i]));
        assert(small.contains_key(chain[i - 1]));
    }
    assert(leads_to(large, heads, chain, commit));
}

/// Where a part of a graph holds everything that is reachable in the part,
/// the rest of the graph adds nothing: the same commits are reachable in both.
pub proof fn lemma_reach_within_part(small: Graph, large: Graph, heads: Set<CommitId>)
    requires
        is_part_of(small, large),
        all_readable(small, reach(small, heads)),
    ensures
        reach(large, heads) == reach(small, heads),
        contributors(large, reach(large, heads)) == contributors(small, reach(small, heads)),
{
    let inner = reach(small, heads);
    lemma_reach_is_closed(small, heads);
    assert forall|child: CommitId, parent: CommitId|
        inner.contains(child) && #[trigger] has_parent(large, child, parent) implies inner.contains(
        parent,
    ) by {
        assert(small.contains_key(child));
        assert(has_parent(small, child, parent));
    }
    lemma_reach_is_least(large, heads, inner);
    assert forall|commit: CommitId| inner.contains(commit) implies reach(large, heads).contains(
        commit,
    ) by {
        lemma_reachable_in_larger(small, large, heads, commit);
    }
    assert(reach(large, heads) =~= inner);
    assert forall|who: Seq<char>| contributors(large, inner).contains(who) implies contributors(
        small,
        inner,
    ).contains(who) by {
        let commit = choose|commit: CommitId| is_author_of(large, inner, commit, who);
        assert(small.contains_key(commit));
        assert(is_author_of(small, inner, commit, who));
    }
    assert forall|who: Seq<char>| contributors(small, inner).contains(who) implies contributors(
        large,
        inner,
    ).contains(who) by {
        let commit = choose|commit: CommitId| is_author_of(small, inner, commit, who);
        assert(small.contains_key(commit));
        assert(is_author_of(large, inner, commit, who));
    }
    assert(contributors(large, inner) =~= contributors(small, inner));
}

/// A commit whose author cannot be read adds nothing to the contributors,
/// whatever it adds to the commits.
pub proof fn lemma_unread_author_adds_no_contributor(
    graph: Graph,
    commits: Set<CommitId>,
    commit: CommitId,
)
    requires
        graph.contains_key(commit) ==> graph[commit].author is None,
    ensures
        contributors(graph, commits.insert(commit)) == contributors(graph, commits),
{
    assert forall|who: Seq<char>|
        contributors(graph, commits.insert(commit)).contains(who) implies contributors(
        graph,
        commits,
    ).contains(who) by {
        let c = choose|c: CommitId| is_author_of(graph, commits.insert(commit), c, who);
        assert(is_author_of(graph, commits, c, who));
    }
    assert forall|who: Seq<char>| contributors(graph, commits).contains(who) implies contributors(
        graph,
        commits.insert(commit),
    ).contains(who) by {
        let c = choose|c: CommitId| is_author_of(graph, commits, c, who);
        assert(is_author_of(graph, commits.insert(commit), c, who));
    }
    assert(contributors(graph, commits.insert(commit)) =~= contributors(graph, commits));
}

/// What is reachable depends on the parents alone: two graphs that hold the
/// same commits with the same parents reach the same commits, whatever they
/// hold of the authors.
pub proof fn lemma_reach_ignores_authors(first: Graph, second: Graph, heads: Set<CommitId>)
    requires
        first.dom() == second.dom(),
        forall|commit: CommitId| #[trigger]
            first.contains_key(commit) ==> first[commit].parents == second[commit].parents,
    ensures
        reach(first, heads) == reach(second, heads),
{
    assert forall|commit: CommitId| reach(first, heads).contains(commit) implies reach(
        second,
        heads,
    ).contains(commit) by {
        let chain = choose|chain: Seq<CommitId>| leads_to(first, heads, chain, commit);
        assert forall|i: int| #![trigger chain[i]] 0 < i < chain.len() implies has_parent(
            second,
            chain[i - 1],
            chain[i],
        ) by {
            assert(has_parent(first, chain[i - 1], chain[i]));
            assert(first.contains_key(chain[i - 1]));
            assert(second.dom().contains(chain[i - 1]));
        }
        assert(leads_to(second, heads, chain, commit));
    }
    assert forall|commit: CommitId| reach(second, heads).contains(commit) implies reach(
        first,
        heads,
    ).contains(commit) by {
        let chain = choose|chain: Seq<CommitId>| leads_to(second, heads, chain, commit);
        assert forall|i: int| #![trigger chain[i]] 0 < i < chain.len() implies has_parent(
            first,
            chain[i - 1],
            chain[i],
        ) by {
            assert(has_parent(second, chain[i - 1], chain[i]));
            assert(second.dom().contains(chain[i - 1]));
            assert(first.contains_key(chain[i - 1]));
        }
        assert(leads_to(first, heads, chain, commit));
    }
    assert(reach(first, heads) =~= reach(second, heads));
}

/// What the contributors become when one more commit joins the commits:
/// the identity of its author joins them where its author can be read, and
/// nothing changes where it cannot.
pub proof fn lemma_contributors_with_one_more(
    graph: Graph,
    commits: Set<CommitId>,
    id: CommitId,
    data: CommitData,
)
    requires
        !graph.contains_key(id),
    ensures
        contributors(graph.insert(id, data), commits.insert(id)) == match data.author {
            Some(who) => contributors(graph, commits).insert(canonical(who)),
            None => contributors(graph, commits),
        },
{
    let before = contributors(graph, commits);
    let larger = graph.insert(id, data);
    let after = contributors(larger, commits.insert(id));
    let expected = match data.author {
        Some(who) => before.insert(canonical(who)),
        None => before,
    };
    assert forall|who: Seq<char>| after.contains(who) implies expected.contains(who) by {
        let c = choose|c: CommitId| is_author_of(larger, commits.insert(id), c, who);
        if c != id {
            assert(is_author_of(graph, commits, c, who));
        }
    }
    assert forall|who: Seq<char>| expected.contains(who) implies after.contains(who) by {
        if before.contains(who) {
            let c = choose|c: CommitId| is_author_of(graph, commits, c, who);
            assert(is_author_of(larger, commits.insert(id), c, who));
        } else {
            assert(is_author_of(larger, commits.insert(id), id, who));
        }
    }
    assert(after =~= expected);
}

/// A new commit whose parents are all reachable already, such as the merge
/// of branches that have been walked, adds itself to what is reachable and
/// nothing else: no parent and no ancestor is there a second time.
pub proof fn lemma_merge_adds_one(
    graph: Graph,
    heads: Set<CommitId>,
    merge: CommitId,
    data: CommitData,
)
    requires
        !graph.contains_key(merge),
        !reach(graph, heads).contains(merge),
        forall|i: int|
            0 <= i < data.parents.len() ==> reach(graph, heads).contains(#[trigger] data.parents[i]),
    ensures
        reach(graph.insert(merge, data), heads.insert(merge)) == reach(graph, heads).insert(merge),
        reach(graph, heads).finite() ==> reach(graph.insert(merge, data), heads.insert(merge)).len()
            == reach(graph, heads).len() + 1,
        contributors(
            graph.insert(merge, data),
            reach(graph.insert(merge, data), heads.insert(merge)),
        ) == match data.author {
            Some(who) => contributors(graph, reach(graph, heads)).insert(canonical(who)),
            None => contributors(graph, reach(graph, heads)),
        },
{
    let larger = graph.insert(merge, data);
    let more = heads.insert(merge);
    let before = reach(graph, heads);
    let expected = before.insert(merge);
    lemma_reach_is_closed(graph, heads);
    assert forall|child: CommitId, parent: CommitId|
        expected.contains(child) && #[trigger] has_parent(
            larger,
            child,
            parent,
        ) implies expected.contains(parent) by {
        if child == merge {
            let i = choose|i: int| 0 <= i < data.parents.len() && data.parents[i] == parent;
            assert(before.contains(data.parents[i]));
        } else {
            assert(has_parent(graph, child, parent));
        }
    }
    lemma_reach_is_least(larger, more, expected);
    assert forall|commit: CommitId| expected.contains(commit) implies reach(larger, more).contains(
        commit,
    ) by {
        if commit == merge {
            lemma_head_is_reachable(larger, more, merge);
        } else {
            lemma_reachable_in_larger(graph, larger, heads, commit);
            let chain = choose|chain: Seq<CommitId>| leads_to(larger, heads, chain, commit);
            assert(leads_to(larger, more, chain, commit));
        }
    }
    assert(reach(larger, more) =~= expected);
    lemma_contributors_with_one_more(graph, before, merge, data);
}

/// Where all that is reachable can be read in a graph of finitely many
/// commits, finitely many commits are reachable.
pub proof fn lemma_reach_is_finite(graph: Graph, heads: Set<CommitId>)
    requires
        graph.dom().finite(),
        all_readable(graph, reach(graph, heads)),
    ensures
        reach(graph, heads).finite(),
        reach(graph, heads).len() <= graph.dom().len(),
{
    vstd::set_lib::lemma_len_subset(reach(graph, heads), graph.dom());
}

/// `commit` is in `commits`, can be read, and has `who` for its author.
pub open spec fn has_author(
    graph: Graph,
    commits: Set<CommitId>,
    commit: CommitId,
    who: Identity,
) -> bool {
    &&& commits.contains(commit)
    &&& graph.contains_key(commit)
    &&& graph[commit].author == Some(who)
}

/// The authors, each as name and email, of those of `commits` whose author
/// could be read.
pub open spec fn authors(graph: Graph, commits: Set<CommitId>) -> Set<Identity> {
    Set::new(|who: Identity| exists|commit: CommitId| has_author(graph, commits, commit, who))
}

/// Finitely many commits have finitely many authors, and no more authors
/// than commits.
pub proof fn lemma_authors_are_finite(graph: Graph, commits: Set<CommitId>)
    requires
        commits.finite(),
    ensures
        authors(graph, commits).finite(),
        authors(graph, commits).len() <= commits.len(),
    decreases commits.len(),
{
    if commits.len() == 0 {
        assert(commits =~= Set::<CommitId>::empty());
        assert(authors(graph, commits) =~= Set::<Identity>::empty());
    } else {
        let one = commits.choose();
        let rest = commits.remove(one);
        lemma_authors_are_finite(graph, rest);
        let fewer = authors(graph, rest);
        let expected = if graph.contains_key(one) && graph[one].author is Some {
            fewer.insert(graph[one].author->0)
        } else {
            fewer
        };
        assert forall|who: Identity| authors(graph, commits).contains(who) implies expected.contains(
            who,
        ) by {
            let c = choose|c: CommitId| has_author(graph, commits, c, who);
            if c != one {
                assert(has_author(graph, rest, c, who));
            }
        }
        assert forall|who: Identity| expected.contains(who) implies authors(
            graph,
            commits,
        ).contains(who) by {
            if fewer.contains(who) {
                let c = choose|c: CommitId| has_author(graph, rest, c, who);
                assert(has_author(graph, commits, c, who));
            } else {
                assert(has_author(graph, commits, one, who));
            }
        }
        assert(authors(graph, commits) =~= expected);
    }
}

/// The contributors are the authors, each written in its canonical form.
pub proof fn lemma_contributors_are_authors(graph: Graph, commits: Set<CommitId>)
    ensures
        contributors(graph, commits) == authors(graph, commits).map(
            |who: Identity| canonical(who),
        ),
{
    let written = authors(graph, commits).map(|who: Identity| canonical(who));
    assert forall|text: Seq<char>| contributors(graph, commits).contains(
        text,
    ) implies written.contains(text) by {
        let c = choose|c: CommitId| is_author_of(graph, commits, c, text);
        let who = graph[c].author->0;
        assert(has_author(graph, commits, c, who));
        assert(authors(graph, commits).contains(who));
    }
    assert forall|text: Seq<char>| written.contains(text) implies contributors(
        graph,
        commits,
    ).contains(text) by {
        let who = choose|who: Identity|
            authors(graph, commits).contains(who) && text == canonical(who);
        let c = choose|c: CommitId| has_author(graph, commits, c, who);
        assert(is_author_of(graph, commits, c, text));
    }
    assert(contributors(graph, commits) =~= written);
}

/// Finitely many commits have finitely many contributors, and no more
/// contributors than commits.
pub proof fn lemma_contributors_are_finite(graph: Graph, commits: Set<CommitId>)
    requires
        commits.finite(),
    ensures
        contributors(graph, commits).finite(),
        contributors(graph, commits).len() <= commits.len(),
{
    lemma_authors_are_finite(graph, commits);
    lemma_contributors_are_authors(graph, commits);
    vstd::set_lib::lemma_map_size_bound(
        authors(graph, commits),
        contributors(graph, commits),
        |who: Identity| canonical(who),
    );
}

/// Contributors are counted by name and email: where no email holds a `<`,
/// there are as many contributors as there are different pairs of name and
/// email among the authors that could be read.
pub proof fn lemma_contributors_count_authors(graph: Graph, commits: Set<CommitId>)
    requires
        commits.finite(),
        forall|who: Identity| #[trigger]
            authors(graph, commits).contains(who) ==> !who.email.contains('<'),
    ensures
        contributors(graph, commits).len() == authors(graph, commits).len(),
{
    let write = |who: Identity| canonical(who);
    lemma_authors_are_finite(graph, commits);
    lemma_contributors_are_authors(graph, commits);
    assert forall|a: Identity, b: Identity|
        authors(graph, commits).contains(a) && authors(graph, commits).contains(b) && #[trigger] write(
            a,
        ) == #[trigger] write(b) implies a == b by {
        lemma_canonical_is_injective(a, b);
    }
    vstd::set_lib::lemma_map_size(authors(graph, commits), contributors(graph, commits), write);
}

/// Commits of one author, however many, give one contributor.
pub proof fn lemma_one_author_counts_once(
    graph: Graph,
    commits: Set<CommitId>,
    who: Identity,
    one: CommitId,
)
    requires
        commits.contains(one),
        graph.contains_key(one),
        forall|commit: CommitId|
            commits.contains(commit) && #[trigger] graph.contains_key(commit)
                ==> graph[commit].author == Some(who),
    ensures
        contributors(graph, commits) == set![canonical(who)],
        contributors(graph, commits).len() == 1,
{
    assert forall|other: Seq<char>| contributors(graph, commits).contains(other) implies other
        == canonical(who) by {
        let commit = choose|commit: CommitId| is_author_of(graph, commits, commit, other);
        assert(graph.contains_key(commit));
    }
    assert(is_author_of(graph, commits, one, canonical(who)));
    assert(contributors(graph, commits) =~= set![canonical(who)]);
}

/// Two commits whose authors have one name and different emails give two
/// contributors.
pub proof fn lemma_two_emails_count_twice(graph: Graph, first: CommitId, second: CommitId)
    requires
        graph.contains_key(first),
        graph.contains_key(second),
        graph[first].author is Some,
        graph[second].author is Some,
        graph[first].author->0.name == graph[second].author->0.name,
        graph[first].author->0.email != graph[second].author->0.email,
    ensures
        contributors(graph, set![first, second]).len() == 2,
{
    let a = graph[first].author->0;
    let b = graph[second].author->0;
    let commits = set![first, second];
    lemma_emails_tell_apart(a, b);
    assert(is_author_of(graph, commits, first, canonical(a)));
    assert(is_author_of(graph, commits, second, canonical(b)));
    assert forall|other: Seq<char>| contributors(graph, commits).contains(other) implies other
        == canonical(a) || other == canonical(b) by {
        let commit = choose|commit: CommitId| is_author_of(graph, commits, commit, other);
        assert(commit == first || commit == second);
    }
    assert(contributors(graph, commits) =~= set![canonical(a), canonical(b)]);
}

} // verus!
