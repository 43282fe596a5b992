//! Statistics of a repository on disk, read through `git2`.

use vstd::prelude::*;
use vstd::string::*;

use crate::error::StatsError;
use crate::graph::{all_readable, reach, reachable, CommitData, Graph};
use crate::id::{id_of, CommitId};
use crate::identity::{Author, Identity};
use crate::walk::{statistics_of, CommitRecord, Statistics, Walk};

verus! {

/// A repository on disk. Nothing is known of what is inside one: every
/// question to it is a call, and every answer is taken as it comes.
#[verifier::external_type_specification]
#[verifier::external_body]
pub struct ExRepository(git2::Repository);

/// An error of `git2`.
#[verifier::external_type_specification]
#[verifier::external_body]
pub struct ExGitError(git2::Error);

/// A reference as the repository lists it.
#[derive(Clone, Debug, PartialEq, Eq)]
pub struct RawReference {
    /// The full name of the reference.
    pub name: Vec<u8>,
    /// The identifier that the reference holds, where it holds one itself
    /// and does not point to another reference.
    pub target: Option<Vec<u8>>,
    /// The identifier of the commit that the reference leads to, where it
    /// leads to one.
    pub commit: Option<Vec<u8>>,
}

/// A commit as the repository hands it out.
#[derive(Clone, Debug, PartialEq, Eq)]
pub struct RawCommit {
    /// The identifiers of the parents.
    pub parents: Vec<Vec<u8>>,
    /// The name of the author, where it is valid UTF-8.
    pub name: Option<String>,
    /// The email of the author, where it is valid UTF-8.
    pub email: Option<String>,
}

/// What the library reads of an error of the repository.
#[derive(Clone, Debug, PartialEq, Eq)]
pub struct Failure {
    /// The error says that what was asked for is not there.
    pub not_found: bool,
    /// The error in words.
    pub detail: String,
}

/// Calls `Repository::references` and walks the iterator to its end. Each
/// reference is handed out with the bytes of `Reference::name_bytes`, of
/// `Reference::target` and of the identifier of `Reference::peel_to_commit`,
/// the last as `None` where the peeling fails. The first error of the
/// iterator is returned. Nothing is claimed of what comes back.
#[verifier::external_body]
fn list_references(repo: &git2::Repository) -> (found: Result<Vec<RawReference>, git2::Error>) {
    let mut found = Vec::new();
    for reference in repo.references()? {
        let reference = reference?;
        found.push(RawReference {
            name: reference.name_bytes().to_vec(),
            target: reference.target().map(|oid| oid.as_bytes().to_vec()),
            commit: reference.peel_to_commit().ok().map(|commit| commit.id().as_bytes().to_vec()),
        });
    }
    Ok(found)
}

/// Calls `Repository::branches` for the local branches and walks the
/// iterator to its end. Each branch is handed out as the full name of its
/// reference. The first error of the iterator is returned. Nothing is
/// claimed of what comes back.
#[verifier::external_body]
fn list_local_branches(repo: &git2::Repository) -> (names: Result<Vec<Vec<u8>>, git2::Error>) {
    let mut names = Vec::new();
    for branch in repo.branches(Some(git2::BranchType::Local))? {
        let (branch, _) = branch?;
        names.push(branch.get().name_bytes().to_vec());
    }
    Ok(names)
}

/// Calls `Repository::find_commit` and hands out the bytes of
/// `Commit::parent_ids` and, from `Commit::author`, `Signature::name` and
/// `Signature::email`, each as `None` where it is not valid UTF-8. Nothing is
/// claimed of what comes back.
#[verifier::external_body]
fn read_commit(repo: &git2::Repository, id: &CommitId) -> (raw: Result<RawCommit, git2::Error>) {
    let commit = repo.find_commit(git2::Oid::from_bytes(&id.bytes)?)?;
    let author = commit.author();
    Ok(RawCommit {
        parents: commit.parent_ids().map(|oid| oid.as_bytes().to_vec()).collect(),
        name: author.name().ok().map(String::from),
        email: author.email().ok().map(String::from),
    })
}

/// Reads an error of `git2`: whether `Error::code` is `ErrorCode::NotFound`,
/// and the text that its `Display` writes. Nothing is claimed of either.
#[verifier::external_body]
fn failure_of(error: &git2::Error) -> (failure: Failure) {
    Failure { not_found: error.code() == git2::ErrorCode::NotFound, detail: error.to_string() }
}

/// The commit that a reference contributes to the heads of a walk: the one
/// it leads to, where the reference holds an identifier itself. A reference
/// that points to another reference is passed over, and so is one that leads
/// to no commit. The name plays no part: branches, tags and references of
/// every other kind give heads alike.
pub open spec fn head_of(reference: RawReference) -> Option<CommitId> {
    match (reference.target, reference.commit) {
        (Some(_), Some(bytes)) => if bytes@.len() == 20 {
            Some(id_of(bytes@))
        } else {
            None
        },
        _ => None,
    }
}

/// The heads that a list of references gives, in the order of the list.
pub open spec fn heads_of(references: Seq<RawReference>) -> Seq<CommitId>
    decreases references.len(),
{
    if references.len() == 0 {
        Seq::empty()
    } else {
        let before = heads_of(references.drop_last());
        match head_of(references.last()) {
            Some(id) => before.push(id),
            None => before,
        }
    }
}

/// Every one of `ids` has the length of an identifier.
pub open spec fn all_sized(ids: Seq<Vec<u8>>) -> bool {
    forall|i: int| 0 <= i < ids.len() ==> (#[trigger] ids[i])@.len() == 20
}

/// The identifiers that `ids` hold.
pub open spec fn ids_of(ids: Seq<Vec<u8>>) -> Seq<CommitId> {
    Seq::new(ids.len(), |i: int| id_of(ids[i]@))
}

/// The author of a commit of the repository: its name and email where both
/// are text. Where either is not valid UTF-8 the author cannot be read, and
/// there is none.
pub open spec fn author_of(raw: RawCommit) -> Option<Identity> {
    match (raw.name, raw.email) {
        (Some(name), Some(email)) => Some(Identity { name: name@, email: email@ }),
        _ => None,
    }
}

/// What the walk reads of a commit of the repository.
pub open spec fn data_of(raw: RawCommit) -> CommitData {
    CommitData { parents: ids_of(raw.parents@), author: author_of(raw) }
}

/// What is said of a commit that names a parent by something of another
/// length than an identifier has.
pub open spec fn wrong_parent() -> Seq<char> {
    "a parent is named by something that is no identifier"@
}

/// The failure of a walk that could not read the commit `id`.
pub open spec fn unreadable(id: CommitId, failure: Failure) -> StatsError {
    if failure.not_found {
        StatsError::MissingCommit { id }
    } else {
        StatsError::CorruptCommit { id, detail: failure.detail }
    }
}

/// Picks the heads of a walk from the references of a repository.
pub fn pick_heads(references: &Vec<RawReference>) -> (heads: Vec<CommitId>)
    ensures
        heads@ == heads_of(references@),
{
    let mut heads: Vec<CommitId> = Vec::new();
    let mut i: usize = 0;
    assert(references@.subrange(0, 0) =~= Seq::<RawReference>::empty());
    while i < references.len()
        invariant
            i <= references.len(),
            heads@ == heads_of(references@.subrange(0, i as int)),
        decreases references.len() - i,
    {
        let reference = &references[i];
        proof {
            let longer = references@.subrange(0, i + 1);
            assert(longer.drop_last() =~= references@.subrange(0, i as int));
            assert(longer.last() == *reference);
        }
        if reference.target.is_some() {
            match &reference.commit {
                Some(bytes) => {
                    match CommitId::from_slice(bytes.as_slice()) {
                        Some(id) => {
                            heads.push(id);
                        },
                        None => {},
                    }
                },
                None => {},
            }
        }
        i = i + 1;
    }
    assert(references@.subrange(0, i as int) =~= references@);
    heads
}

/// Reads the author of a commit of the repository: there is one where
/// name and email are both text.
pub fn decode_author(raw: &RawCommit) -> (author: Option<Author>)
    ensures
        match author {
            Some(author) => author_of(*raw) == Some(author@),
            None => author_of(*raw) is None,
        },
{
    match (&raw.name, &raw.email) {
        (Some(name), Some(email)) => Some(Author { name: name.clone(), email: email.clone() }),
        _ => None,
    }
}

/// Turns a commit of the repository into what the walk takes. There is no
/// result where a parent is named by something that is no identifier.
pub fn decode_commit(raw: &RawCommit) -> (record: Option<CommitRecord>)
    ensures
        record is Some <==> all_sized(raw.parents@),
        record matches Some(record) ==> record@ == data_of(*raw),
{
    let mut parents: Vec<CommitId> = Vec::new();
    let mut i: usize = 0;
    while i < raw.parents.len()
        invariant
            i <= raw.parents.len(),
            parents@.len() == i,
            forall|j: int| 0 <= j < i ==> (#[trigger] raw.parents@[j])@.len() == 20,
            forall|j: int| 0 <= j < i ==> #[trigger] parents@[j] == id_of(raw.parents@[j]@),
        decreases raw.parents.len() - i,
    {
        match CommitId::from_slice(raw.parents[i].as_slice()) {
            Some(id) => {
                parents.push(id);
            },
            None => {
                return None;
            },
        }
        i = i + 1;
    }
    let record = CommitRecord { parents, author: decode_author(raw) };
    proof {
        assert(record.parents@ =~= ids_of(raw.parents@));
    }
    Some(record)
}

/// Says why a walk ends at the commit `id` that the repository failed to hand out.
pub fn commit_failure(id: CommitId, failure: Failure) -> (error: StatsError)
    ensures
        error == unreadable(id, failure),
{
    if failure.not_found {
        StatsError::MissingCommit { id }
    } else {
        StatsError::CorruptCommit { id, detail: failure.detail }
    }
}

/// What is made of the repository's answer for the commit `id`: the commit
/// where it was handed out and its parents are identifiers, and else the
/// failure that ends the walk.
pub open spec fn is_commit_outcome(
    id: CommitId,
    answer: Result<RawCommit, Failure>,
    outcome: Result<CommitRecord, StatsError>,
) -> bool {
    match answer {
        Ok(raw) => if all_sized(raw.parents@) {
            outcome matches Ok(record) && record@ == data_of(raw)
        } else {
            outcome matches Err(StatsError::CorruptCommit { id: at, detail }) && at == id
                && detail@ == wrong_parent()
        },
        Err(failure) => outcome == Err::<CommitRecord, StatsError>(unreadable(id, failure)),
    }
}

/// The failure of a repository whose references or branches cannot be listed.
pub open spec fn unavailable(failure: Failure) -> StatsError {
    StatsError::StoreUnavailable { detail: failure.detail }
}

/// What is made of the repository's answer to the question for its
/// references: the heads that they give, or the failure to list them.
pub open spec fn is_heads_outcome(
    answer: Result<Vec<RawReference>, Failure>,
    outcome: Result<Vec<CommitId>, StatsError>,
) -> bool {
    match answer {
        Ok(references) => outcome matches Ok(heads) && heads@ == heads_of(references@),
        Err(failure) => outcome == Err::<Vec<CommitId>, StatsError>(unavailable(failure)),
    }
}

/// The bytes of `refs/heads/`, with which the full name of a local branch
/// begins.
pub open spec fn heads_prefix() -> Seq<u8> {
    seq![114u8, 101u8, 102u8, 115u8, 47u8, 104u8, 101u8, 97u8, 100u8, 115u8, 47u8]
}

/// The full name is that of a local branch: it begins with `refs/heads/`.
pub open spec fn is_branch_name(name: Seq<u8>) -> bool {
    name.len() >= 11 && name.subrange(0, 11) == heads_prefix()
}

/// The number of names of local branches among `names`.
pub open spec fn branches_among(names: Seq<Vec<u8>>) -> nat
    decreases names.len(),
{
    if names.len() == 0 {
        0
    } else if is_branch_name(names.last()@) {
        branches_among(names.drop_last()) + 1
    } else {
        branches_among(names.drop_last())
    }
}

/// What is made of the repository's answer to the question for its local
/// branches: the number of names of local branches that it has listed, or
/// the failure to list them. Only references under `refs/heads/` count
/// here, while the heads of the walk come from references of every kind.
pub open spec fn is_branch_outcome(
    answer: Result<Vec<Vec<u8>>, Failure>,
    outcome: Result<usize, StatsError>,
) -> bool {
    match answer {
        Ok(names) => outcome == Ok::<usize, StatsError>(branches_among(names@) as usize),
        Err(failure) => outcome == Err::<usize, StatsError>(unavailable(failure)),
    }
}

/// `outcome` is how a walk ends that starts from the heads of `references`
/// and is handed the commits of `graph`: with the counts of all that the
/// heads lead to, where the walk was handed all of it, and else with a
/// failure at a commit that the heads lead to and that it was not handed.
pub open spec fn is_end_of_walk(
    references: Seq<RawReference>,
    graph: Graph,
    outcome: Result<Statistics, StatsError>,
) -> bool {
    let heads = heads_of(references).to_set();
    match outcome {
        Ok(stats) => {
            &&& all_readable(graph, reach(graph, heads))
            &&& statistics_of(graph, heads, stats)
            &&& stats.unique_contributor_count <= stats.unique_commit_count
        },
        Err(StatsError::MissingCommit { id }) => {
            &&& reachable(graph, heads, id)
            &&& !graph.contains_key(id)
        },
        Err(StatsError::CorruptCommit { id, .. }) => {
            &&& reachable(graph, heads, id)
            &&& !graph.contains_key(id)
        },
        Err(StatsError::StoreUnavailable { .. }) => false,
    }
}

/// `outcome` is how the statistics of a repository can end: with the failure
/// to list its references, or as a walk ends for some references and some
/// commits that the repository has handed out.
pub open spec fn is_repository_outcome(outcome: Result<Statistics, StatsError>) -> bool {
    ||| outcome matches Err(StatsError::StoreUnavailable { .. })
    ||| exists|references: Seq<RawReference>, graph: Graph|
        is_end_of_walk(references, graph, outcome)
}

/// The commit count of an outcome, or its failure.
pub open spec fn commits_of(outcome: Result<Statistics, StatsError>) -> Result<usize, StatsError> {
    match outcome {
        Ok(stats) => Ok(stats.unique_commit_count),
        Err(error) => Err(error),
    }
}

/// The contributor count of an outcome, or its failure.
pub open spec fn contributors_of(outcome: Result<Statistics, StatsError>) -> Result<
    usize,
    StatsError,
> {
    match outcome {
        Ok(stats) => Ok(stats.unique_contributor_count),
        Err(error) => Err(error),
    }
}

/// Whatever the repository answers for a commit, a failure that is made of
/// it names the commit asked for, and is no failure of the store.
pub proof fn lemma_commit_outcome(
    id: CommitId,
    answer: Result<RawCommit, Failure>,
    outcome: Result<CommitRecord, StatsError>,
)
    requires
        is_commit_outcome(id, answer, outcome),
    ensures
        outcome matches Err(error) ==> match error {
            StatsError::MissingCommit { id: at } => at == id,
            StatsError::CorruptCommit { id: at, .. } => at == id,
            StatsError::StoreUnavailable { .. } => false,
        },
{
}

/// Says what the walk makes of the repository's answer for the commit `id`:
/// the commit where it was handed out and its parents are identifiers, and
/// else the failure that ends the walk.
pub fn interpret_commit(id: CommitId, answer: Result<RawCommit, Failure>) -> (outcome: Result<
    CommitRecord,
    StatsError,
>)
    ensures
        is_commit_outcome(id, answer, outcome),
{
    match answer {
        Ok(raw) => match decode_commit(&raw) {
            Some(record) => Ok(record),
            None => Err(
                StatsError::CorruptCommit {
                    id,
                    detail: String::from_str("a parent is named by something that is no identifier"),
                },
            ),
        },
        Err(failure) => Err(commit_failure(id, failure)),
    }
}

/// Says what is made of the repository's answer to the question for its
/// references: the heads of the walk, or why there is no walk.
pub fn interpret_references(answer: Result<Vec<RawReference>, Failure>) -> (outcome: Result<
    Vec<CommitId>,
    StatsError,
>)
    ensures
        is_heads_outcome(answer, outcome),
{
    match answer {
        Ok(references) => Ok(pick_heads(&references)),
        Err(failure) => Err(StatsError::StoreUnavailable { detail: failure.detail }),
    }
}

/// Tells whether a reference of this full name is a local branch.
pub fn names_branch(name: &Vec<u8>) -> (local: bool)
    ensures
        local == is_branch_name(name@),
{
    let prefix: [u8; 11] = [114, 101, 102, 115, 47, 104, 101, 97, 100, 115, 47];
    assert(prefix@ =~= heads_prefix());
    if name.len() < 11 {
        return false;
    }
    let mut i: usize = 0;
    while i < 11
        invariant
            i <= 11,
            name@.len() >= 11,
            prefix@ == heads_prefix(),
            forall|j: int| 0 <= j < i ==> name@[j] == prefix@[j],
        decreases 11 - i,
    {
        if name[i] != prefix[i] {
            proof {
                assert(name@.subrange(0, 11)[i as int] == name@[i as int]);
            }
            return false;
        }
        i = i + 1;
    }
    assert(name@.subrange(0, 11) =~= prefix@);
    true
}

/// Counts the names of local branches among the names listed.
pub fn count_branches(names: &Vec<Vec<u8>>) -> (n: usize)
    ensures
        n == branches_among(names@),
{
    let mut n: usize = 0;
    let mut i: usize = 0;
    assert(names@.subrange(0, 0) =~= Seq::<Vec<u8>>::empty());
    while i < names.len()
        invariant
            i <= names.len(),
            n == branches_among(names@.subrange(0, i as int)),
            n <= i,
        decreases names.len() - i,
    {
        proof {
            let longer = names@.subrange(0, i + 1);
            assert(longer.drop_last() =~= names@.subrange(0, i as int));
            assert(longer.last() == names@[i as int]);
        }
        if names_branch(&names[i]) {
            n = n + 1;
        }
        i = i + 1;
    }
    assert(names@.subrange(0, i as int) =~= names@);
    n
}

/// Says what is made of the repository's answer to the question for its
/// local branches: how many there are, or why they cannot be counted.
pub fn interpret_branches(answer: Result<Vec<Vec<u8>>, Failure>) -> (outcome: Result<
    usize,
    StatsError,
>)
    ensures
        is_branch_outcome(answer, outcome),
{
    match answer {
        Ok(names) => Ok(count_branches(&names)),
        Err(failure) => Err(StatsError::StoreUnavailable { detail: failure.detail }),
    }
}

/// Reads the commit `id` from the repository: asks the repository for it
/// once, and returns what [`interpret_commit`] makes of the answer.
pub fn resolve_commit(repo: &git2::Repository, id: CommitId) -> (outcome: Result<
    CommitRecord,
    StatsError,
>)
    ensures
        exists|answer: Result<RawCommit, Failure>| is_commit_outcome(id, answer, outcome),
{
    let answer = match read_commit(repo, &id) {
        Ok(raw) => Ok(raw),
        Err(error) => Err(failure_of(&error)),
    };
    let ghost given = answer;
    let outcome = interpret_commit(id, answer);
    assert(is_commit_outcome(id, given, outcome));
    outcome
}

/// Lists the commits that the references of the repository lead to, the
/// heads of a walk over all of its history: asks the repository for its
/// references once, and returns what [`interpret_references`] makes of the
/// answer.
pub fn list_heads(repo: &git2::Repository) -> (outcome: Result<Vec<CommitId>, StatsError>)
    ensures
        exists|answer: Result<Vec<RawReference>, Failure>| is_heads_outcome(answer, outcome),
{
    let answer = match list_references(repo) {
        Ok(references) => Ok(references),
        Err(error) => Err(failure_of(&error)),
    };
    let ghost given = answer;
    let outcome = interpret_references(answer);
    assert(is_heads_outcome(given, outcome));
    outcome
}

/// Walks the history of the repository from all of its references at once
/// and counts the commits and the identities of their authors. A commit
/// that several references lead to is counted once. The walk asks the
/// repository for each commit once, when the commit is due, and ends
/// without counts at the first commit that cannot be read.
pub fn compute_statistics(repo: &git2::Repository) -> (outcome: Result<Statistics, StatsError>)
    ensures
        is_repository_outcome(outcome),
{
    let listed = list_heads(repo);
    let ghost listing = choose|answer: Result<Vec<RawReference>, Failure>|
        is_heads_outcome(answer, listed);
    let heads = match listed {
        Ok(heads) => heads,
        Err(error) => {
            return Err(error);
        },
    };
    let ghost references = listing->Ok_0@;
    let mut walk = Walk::new(&heads);
    loop
        invariant
            walk.wf(),
            walk.heads() == heads_of(references).to_set(),
        decreases usize::MAX - walk.graph().dom().len(),
    {
        proof {
            walk.lemma_invariant();
        }
        match walk.next() {
            None => {
                let outcome = Ok(walk.statistics());
                assert(is_end_of_walk(references, walk.graph(), outcome));
                return outcome;
            },
            Some(id) => {
                let resolved = resolve_commit(repo, id);
                proof {
                    let answer = choose|answer: Result<RawCommit, Failure>|
                        is_commit_outcome(id, answer, resolved);
                    lemma_commit_outcome(id, answer, resolved);
                }
                match resolved {
                    Ok(record) => {
                        walk.visit(id, &record);
                        proof {
                            walk.lemma_invariant();
                        }
                    },
                    Err(error) => {
                        let outcome = Err(error);
                        assert(is_end_of_walk(references, walk.graph(), outcome));
                        return outcome;
                    },
                }
            },
        }
    }
}

/// The number of distinct commits that the references of the repository
/// lead to: the commit count of one [`compute_statistics`].
pub fn get_total_commits(repo: &git2::Repository) -> (outcome: Result<usize, StatsError>)
    ensures
        exists|whole: Result<Statistics, StatsError>|
            is_repository_outcome(whole) && outcome == #[trigger] commits_of(whole),
{
    let whole = compute_statistics(repo);
    let outcome = match whole {
        Ok(stats) => Ok(stats.unique_commit_count),
        Err(error) => Err(error),
    };
    assert(outcome == commits_of(whole));
    outcome
}

/// The number of distinct author identities among the commits that the
/// references of the repository lead to: the contributor count of one
/// [`compute_statistics`].
pub fn get_contributor_count(repo: &git2::Repository) -> (outcome: Result<usize, StatsError>)
    ensures
        exists|whole: Result<Statistics, StatsError>|
            is_repository_outcome(whole) && outcome == #[trigger] contributors_of(whole),
{
    let whole = compute_statistics(repo);
    let outcome = match whole {
        Ok(stats) => Ok(stats.unique_contributor_count),
        Err(error) => Err(error),
    };
    assert(outcome == contributors_of(whole));
    outcome
}

/// The number of local branches of the repository: asks the repository for
/// its local branches once, and returns what [`interpret_branches`] makes of
/// the answer.
pub fn get_branch_count(repo: &git2::Repository) -> (outcome: Result<usize, StatsError>)
    ensures
        exists|answer: Result<Vec<Vec<u8>>, Failure>| is_branch_outcome(answer, outcome),
{
    let answer = match list_local_branches(repo) {
        Ok(names) => Ok(names),
        Err(error) => Err(failure_of(&error)),
    };
    let ghost given = answer;
    let outcome = interpret_branches(answer);
    assert(is_branch_outcome(given, outcome));
    outcome
}

} // verus!
