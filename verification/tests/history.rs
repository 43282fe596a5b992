use git_stats::error::StatsError;
use git_stats::history::History;
use git_stats::id::CommitId;
use git_stats::identity::Author;
use git_stats::walk::{CommitRecord, Statistics, Walk};

fn id(n: u8) -> CommitId {
    let mut bytes = [0u8; 20];
    bytes[19] = n;
    CommitId::from_bytes(bytes)
}

fn commit(parents: &[CommitId], author: Option<(&str, &str)>) -> CommitRecord {
    CommitRecord {
        parents: parents.to_vec(),
        author: author.map(|(name, email)| Author::new(name, email)),
    }
}

fn counts(commits: usize, contributors: usize) -> Statistics {
    Statistics { unique_commit_count: commits, unique_contributor_count: contributors }
}

#[test]
fn empty_history_has_no_commits_and_no_contributors() {
    let history = History::new();
    assert_eq!(history.compute_statistics(), Ok(counts(0, 0)));
    assert_eq!(history.walk_from(&Vec::new()), Ok(counts(0, 0)));
    assert_eq!(history.len(), 0);
}

#[test]
fn commits_without_references_are_not_counted() {
    let mut history = History::new();
    assert!(history.add_commit(id(1), commit(&[], Some(("a", "a@x")))));
    assert!(history.add_commit(id(2), commit(&[id(1)], Some(("b", "b@x")))));
    assert_eq!(history.len(), 2);
    assert_eq!(history.compute_statistics(), Ok(counts(0, 0)));
}

#[test]
fn linear_history_of_one_author() {
    let n: u8 = 25;
    let mut history = History::new();
    for k in 1..=n {
        let parents = if k == 1 { vec![] } else { vec![id(k - 1)] };
        assert!(history.add_commit(id(k), commit(&parents, Some(("test", "test@example.com")))));
    }
    history.add_reference("refs/heads/main", id(n));
    assert_eq!(history.compute_statistics(), Ok(counts(25, 1)));
    assert_eq!(history.walk_from(&vec![id(10)]), Ok(counts(10, 1)));
}

#[test]
fn shared_ancestor_of_two_branches_is_counted_once() {
    let (x, y, z) = (id(1), id(2), id(3));
    let mut history = History::new();
    history.add_commit(x, commit(&[], Some(("a", "a@x"))));
    history.add_commit(y, commit(&[x], Some(("a", "a@x"))));
    history.add_commit(z, commit(&[x], Some(("a", "a@x"))));
    history.add_reference("refs/heads/a", y);
    history.add_reference("refs/heads/b", z);
    assert_eq!(history.heads(), vec![y, z]);
    assert_eq!(history.compute_statistics(), Ok(counts(3, 1)));
    assert_eq!(history.walk_from(&vec![y]), Ok(counts(2, 1)));
    assert_eq!(history.walk_from(&vec![z]), Ok(counts(2, 1)));
    assert_eq!(history.walk_from(&vec![z, y]), Ok(counts(3, 1)));
}

#[test]
fn merge_commit_is_counted_once_and_recounts_no_parent() {
    let (root, left, right, merge) = (id(1), id(2), id(3), id(4));
    let mut history = History::new();
    history.add_commit(root, commit(&[], Some(("a", "a@x"))));
    history.add_commit(left, commit(&[root], Some(("b", "b@x"))));
    history.add_commit(right, commit(&[root], Some(("c", "c@x"))));
    history.add_commit(merge, commit(&[left, right], Some(("a", "a@x"))));
    history.add_reference("refs/heads/left", left);
    history.add_reference("refs/heads/right", right);
    history.add_reference("refs/heads/main", merge);
    assert_eq!(history.compute_statistics(), Ok(counts(4, 3)));
    assert_eq!(history.walk_from(&vec![left, right, merge]), Ok(counts(4, 3)));
    assert_eq!(history.walk_from(&vec![merge, merge, left]), Ok(counts(4, 3)));
    assert_eq!(history.walk_from(&vec![merge]), Ok(counts(4, 3)));
}

#[test]
fn statistics_are_the_same_when_computed_twice() {
    let mut history = History::new();
    history.add_commit(id(1), commit(&[], Some(("a", "a@x"))));
    history.add_commit(id(2), commit(&[id(1)], Some(("b", "b@x"))));
    history.add_commit(id(3), commit(&[id(2), id(1)], None));
    history.add_reference("refs/heads/main", id(3));
    history.add_reference("refs/tags/v1", id(2));
    let first = history.compute_statistics();
    let second = history.compute_statistics();
    assert_eq!(first, Ok(counts(3, 2)));
    assert_eq!(first, second);
}

#[test]
fn contributors_are_told_apart_by_name_and_email() {
    let mut history = History::new();
    history.add_commit(id(1), commit(&[], Some(("Ann", "ann@one.org"))));
    history.add_commit(id(2), commit(&[id(1)], Some(("Ann", "ann@two.org"))));
    history.add_commit(id(3), commit(&[id(2)], Some(("Ann", "ann@one.org"))));
    history.add_commit(id(4), commit(&[id(3)], Some(("ann", "ann@one.org"))));
    history.add_reference("refs/heads/main", id(4));
    assert_eq!(history.walk_from(&vec![id(1)]), Ok(counts(1, 1)));
    assert_eq!(history.walk_from(&vec![id(2)]), Ok(counts(2, 2)));
    assert_eq!(history.walk_from(&vec![id(3)]), Ok(counts(3, 2)));
    assert_eq!(history.compute_statistics(), Ok(counts(4, 3)));
}

#[test]
fn commit_without_readable_author_is_counted_as_a_commit_only() {
    let mut history = History::new();
    history.add_commit(id(1), commit(&[], Some(("a", "a@x"))));
    history.add_commit(id(2), commit(&[id(1)], None));
    history.add_commit(id(3), commit(&[id(2)], None));
    history.add_reference("refs/heads/main", id(3));
    assert_eq!(history.compute_statistics(), Ok(counts(3, 1)));

    let mut anonymous = History::new();
    anonymous.add_commit(id(1), commit(&[], None));
    anonymous.add_reference("refs/heads/main", id(1));
    assert_eq!(anonymous.compute_statistics(), Ok(counts(1, 0)));
}

#[test]
fn reference_to_no_commit_is_passed_over() {
    let mut history = History::new();
    history.add_commit(id(1), commit(&[], Some(("a", "a@x"))));
    history.add_reference("refs/heads/main", id(1));
    history.add_reference("refs/heads/gone", id(9));
    assert_eq!(history.heads(), vec![id(1)]);
    assert_eq!(history.compute_statistics(), Ok(counts(1, 1)));
}

#[test]
fn walk_fails_at_a_commit_that_is_not_there() {
    let mut history = History::new();
    history.add_commit(id(1), commit(&[id(7)], Some(("a", "a@x"))));
    history.add_commit(id(2), commit(&[id(1)], Some(("a", "a@x"))));
    history.add_reference("refs/heads/main", id(2));
    assert_eq!(history.compute_statistics(), Err(StatsError::MissingCommit { id: id(7) }));
    assert_eq!(history.walk_from(&vec![id(8)]), Err(StatsError::MissingCommit { id: id(8) }));
}

#[test]
fn commit_is_never_replaced() {
    let mut history = History::new();
    assert!(history.add_commit(id(1), commit(&[], Some(("a", "a@x")))));
    assert!(!history.add_commit(id(1), commit(&[id(2)], Some(("b", "b@x")))));
    assert_eq!(history.len(), 1);
    assert_eq!(history.commit(&id(1)), Some(&commit(&[], Some(("a", "a@x")))));
    assert_eq!(history.commit(&id(2)), None);
    history.add_reference("refs/heads/main", id(1));
    assert_eq!(history.compute_statistics(), Ok(counts(1, 1)));
}

#[test]
fn identifiers_with_the_same_leading_bytes_are_told_apart() {
    let mut history = History::new();
    let mut parent = None;
    for n in 0..=255u8 {
        let parents = match parent {
            Some(p) => vec![p],
            None => vec![],
        };
        assert!(history.add_commit(id(n), commit(&parents, None)));
        parent = Some(id(n));
    }
    assert_eq!(history.len(), 256);
    assert_eq!(history.walk_from(&vec![id(255)]), Ok(counts(256, 0)));
    assert_eq!(history.walk_from(&vec![id(99)]), Ok(counts(100, 0)));
}

#[test]
fn walk_hands_out_each_commit_once() {
    let (root, left, right, merge) = (id(1), id(2), id(3), id(4));
    let mut walk = Walk::new(&vec![merge, left]);
    assert_eq!(walk.count(), 0);
    assert_eq!(walk.next(), Some(left));
    assert_eq!(walk.next(), Some(left));
    walk.visit(left, &commit(&[root], Some(("a", "a@x"))));
    assert_eq!(walk.next(), Some(root));
    walk.visit(root, &commit(&[], Some(("a", "a@x"))));
    assert_eq!(walk.next(), Some(merge));
    walk.visit(merge, &commit(&[left, right], Some(("b", "b@x"))));
    assert_eq!(walk.next(), Some(right));
    walk.visit(right, &commit(&[root], None));
    assert_eq!(walk.next(), None);
    assert_eq!(walk.count(), 4);
    assert_eq!(walk.statistics(), counts(4, 2));
}

#[test]
fn canonical_identity_is_name_and_email_in_brackets() {
    assert_eq!(Author::new("test", "test@example.com").canonical(), "test <test@example.com>");
    assert_eq!(Author::new("", "").canonical(), " <>");
    assert_eq!(Author::new("Ann Lee", "").canonical(), "Ann Lee <>");
}

#[test]
fn identifier_is_its_twenty_bytes() {
    let bytes: Vec<u8> = (1..=20).collect();
    let made = CommitId::from_slice(&bytes).unwrap();
    assert_eq!(made.as_bytes().to_vec(), bytes);
    assert!(made.same(&made));
    assert!(!made.same(&id(1)));
    assert_eq!(made.filing_key(), 0x0102030405060708);
    assert_eq!(CommitId::from_slice(&bytes[..19]), None);
    assert_eq!(CommitId::from_slice(&[]), None);
    let mut longer = bytes.clone();
    longer.push(21);
    assert_eq!(CommitId::from_slice(&longer), None);
}

#[test]
fn references_under_refs_heads_are_the_local_branches() {
    let mut history = History::new();
    assert_eq!(history.branch_count(), 0);
    history.add_reference("refs/heads/main", id(1));
    history.add_reference("refs/heads/feature/x", id(2));
    history.add_reference("refs/tags/v1", id(1));
    history.add_reference("refs/remotes/origin/main", id(1));
    history.add_reference("refs/heads", id(1));
    history.add_reference("refs/heads/", id(1));
    history.add_reference("Refs/heads/main", id(1));
    assert_eq!(history.branch_count(), 3);
}

#[test]
fn failure_is_described_in_words() {
    let missing = StatsError::MissingCommit { id: id(0xab) };
    assert_eq!(
        missing.describe(),
        "commit 00000000000000000000000000000000000000ab is missing"
    );
    let corrupt = StatsError::CorruptCommit { id: id(1), detail: "bad header".to_string() };
    assert_eq!(
        corrupt.describe(),
        "commit 0000000000000000000000000000000000000001 cannot be read: bad header"
    );
    let store = StatsError::StoreUnavailable { detail: "no such directory".to_string() };
    assert_eq!(store.describe(), "the repository cannot be read: no such directory");
}

#[test]
fn identifier_in_hexadecimal_has_two_digits_for_each_byte() {
    let bytes: [u8; 20] = [
        0x00, 0x01, 0x0f, 0x10, 0x7f, 0x80, 0x9a, 0xbc, 0xde, 0xf0, 0xff, 0x12, 0x34, 0x56, 0x78,
        0x90, 0xab, 0xcd, 0xef, 0x0a,
    ];
    assert_eq!(
        CommitId::from_bytes(bytes).to_hex(),
        "00010f107f809abcdef0ff1234567890abcdef0a"
    );
}

#[test]
fn new_merge_of_walked_branches_adds_one_commit() {
    let (root, left, right, merge) = (id(1), id(2), id(3), id(4));
    let mut history = History::new();
    history.add_commit(root, commit(&[], Some(("a", "a@x"))));
    history.add_commit(left, commit(&[root], Some(("b", "b@x"))));
    history.add_commit(right, commit(&[root], Some(("c", "c@x"))));
    history.add_reference("refs/heads/left", left);
    history.add_reference("refs/heads/right", right);
    assert_eq!(history.compute_statistics(), Ok(counts(3, 3)));
    history.add_commit(merge, commit(&[left, right], Some(("b", "b@x"))));
    history.add_reference("refs/heads/main", merge);
    assert_eq!(history.compute_statistics(), Ok(counts(4, 3)));
    history.add_commit(id(5), commit(&[merge, root], Some(("d", "d@x"))));
    history.add_reference("refs/tags/v2", id(5));
    assert_eq!(history.compute_statistics(), Ok(counts(5, 4)));
    history.add_commit(id(6), commit(&[id(5), left, right], None));
    history.add_reference("refs/heads/octopus", id(6));
    assert_eq!(history.compute_statistics(), Ok(counts(6, 4)));
}
