use git_stats::error::StatsError;
use git_stats::id::CommitId;
use git_stats::identity::Author;
use git_stats::repo::{
    commit_failure, count_branches, decode_author, decode_commit, interpret_branches,
    interpret_commit, interpret_references, names_branch, pick_heads, Failure, RawCommit,
    RawReference,
};
use git_stats::walk::{CommitRecord, Walk};

fn bytes(n: u8) -> Vec<u8> {
    vec![n; 20]
}

fn id(n: u8) -> CommitId {
    CommitId::from_bytes([n; 20])
}

fn reference(name: &str, target: Option<Vec<u8>>, commit: Option<Vec<u8>>) -> RawReference {
    RawReference { name: name.as_bytes().to_vec(), target, commit }
}

#[test]
fn heads_are_the_commits_of_the_direct_references() {
    let references = vec![
        reference("refs/heads/main", Some(bytes(1)), Some(bytes(1))),
        reference("refs/tags/v1", Some(bytes(9)), Some(bytes(2))),
        reference("refs/remotes/origin/HEAD", None, Some(bytes(3))),
        reference("refs/heads/tree", Some(bytes(4)), None),
        reference("refs/heads/short", Some(bytes(5)), Some(vec![5; 19])),
        reference("refs/heads/long", Some(bytes(6)), Some(vec![6; 32])),
        reference("refs/heads/other", Some(bytes(1)), Some(bytes(1))),
        reference("refs/heads/broken", None, None),
    ];
    assert_eq!(pick_heads(&references), vec![id(1), id(2), id(1)]);
    assert_eq!(pick_heads(&vec![]), vec![]);
}

#[test]
fn commit_is_decoded_with_its_parents_in_order() {
    let raw = RawCommit {
        parents: vec![bytes(3), bytes(1), bytes(2)],
        name: Some("Ann".to_string()),
        email: Some("ann@one.org".to_string()),
    };
    let expected = CommitRecord {
        parents: vec![id(3), id(1), id(2)],
        author: Some(Author::new("Ann", "ann@one.org")),
    };
    assert_eq!(decode_commit(&raw), Some(expected.clone()));
    assert_eq!(interpret_commit(id(7), Ok(raw)), Ok(expected));
}

#[test]
fn author_whose_name_or_email_is_no_text_cannot_be_read() {
    let raw = RawCommit { parents: vec![bytes(1)], name: None, email: Some("x@y".to_string()) };
    assert_eq!(decode_author(&raw), None);
    let record = decode_commit(&raw).unwrap();
    assert_eq!(record.author, None);
    assert_eq!(record.parents, vec![id(1)]);
    let raw = RawCommit { parents: vec![], name: Some("n".to_string()), email: None };
    assert_eq!(decode_author(&raw), None);
    assert_eq!(decode_commit(&raw).unwrap().author, None);
    let raw = RawCommit { parents: vec![], name: None, email: None };
    assert_eq!(decode_author(&raw), None);
    assert_eq!(interpret_commit(id(3), Ok(raw)), Ok(CommitRecord { parents: vec![], author: None }));
}

#[test]
fn author_whose_name_and_email_are_text_is_read_even_where_they_are_empty() {
    let raw = RawCommit {
        parents: vec![],
        name: Some(String::new()),
        email: Some(String::new()),
    };
    assert_eq!(decode_author(&raw), Some(Author::new("", "")));
    assert_eq!(decode_commit(&raw).unwrap().author.unwrap().canonical(), " <>");
}

#[test]
fn walk_counts_a_commit_without_readable_author_as_a_commit_only() {
    let unread = RawCommit { parents: vec![], name: None, email: Some("x@y".to_string()) };
    let read = RawCommit {
        parents: vec![bytes(1)],
        name: Some("Ann".to_string()),
        email: Some("ann@one.org".to_string()),
    };
    let mut walk = Walk::new(&vec![id(2)]);
    assert_eq!(walk.next(), Some(id(2)));
    walk.visit(id(2), &interpret_commit(id(2), Ok(read)).unwrap());
    assert_eq!(walk.next(), Some(id(1)));
    walk.visit(id(1), &interpret_commit(id(1), Ok(unread.clone())).unwrap());
    assert_eq!(walk.next(), None);
    let stats = walk.statistics();
    assert_eq!((stats.unique_commit_count, stats.unique_contributor_count), (2, 1));

    let mut alone = Walk::new(&vec![id(1)]);
    assert_eq!(alone.next(), Some(id(1)));
    alone.visit(id(1), &interpret_commit(id(1), Ok(unread)).unwrap());
    assert_eq!(alone.next(), None);
    let stats = alone.statistics();
    assert_eq!((stats.unique_commit_count, stats.unique_contributor_count), (1, 0));
}

#[test]
fn commit_with_a_parent_that_is_no_identifier_is_corrupt() {
    let raw = RawCommit {
        parents: vec![bytes(1), vec![2; 21]],
        name: Some("a".to_string()),
        email: Some("a@x".to_string()),
    };
    assert_eq!(decode_commit(&raw), None);
    assert_eq!(
        interpret_commit(id(7), Ok(raw)),
        Err(StatsError::CorruptCommit {
            id: id(7),
            detail: "a parent is named by something that is no identifier".to_string(),
        })
    );
}

#[test]
fn failure_to_read_a_commit_is_missing_or_corrupt() {
    let gone = Failure { not_found: true, detail: "object not found".to_string() };
    let bad = Failure { not_found: false, detail: "failed to parse".to_string() };
    assert_eq!(commit_failure(id(1), gone.clone()), StatsError::MissingCommit { id: id(1) });
    assert_eq!(
        commit_failure(id(2), bad.clone()),
        StatsError::CorruptCommit { id: id(2), detail: "failed to parse".to_string() }
    );
    assert_eq!(interpret_commit(id(1), Err(gone)), Err(StatsError::MissingCommit { id: id(1) }));
    assert_eq!(
        interpret_commit(id(2), Err(bad)),
        Err(StatsError::CorruptCommit { id: id(2), detail: "failed to parse".to_string() })
    );
}

#[test]
fn references_that_were_listed_give_the_heads() {
    let references = vec![
        reference("refs/heads/main", Some(bytes(1)), Some(bytes(1))),
        reference("refs/heads/alias", None, Some(bytes(1))),
        reference("refs/tags/v1", Some(bytes(9)), Some(bytes(2))),
    ];
    assert_eq!(interpret_references(Ok(references)), Ok(vec![id(1), id(2)]));
    assert_eq!(interpret_references(Ok(vec![])), Ok(vec![]));
}

#[test]
fn references_that_cannot_be_listed_make_the_store_unavailable() {
    let failure = Failure { not_found: false, detail: "corrupted list".to_string() };
    assert_eq!(
        interpret_references(Err(failure)),
        Err(StatsError::StoreUnavailable { detail: "corrupted list".to_string() })
    );
    let failure = Failure { not_found: true, detail: "no list".to_string() };
    assert_eq!(
        interpret_references(Err(failure)),
        Err(StatsError::StoreUnavailable { detail: "no list".to_string() })
    );
}

#[test]
fn branches_that_were_listed_are_counted() {
    assert_eq!(interpret_branches(Ok(vec![])), Ok(0));
    let names = vec![b"refs/heads/main".to_vec(), b"refs/heads/b".to_vec()];
    assert_eq!(count_branches(&names), 2);
    assert_eq!(interpret_branches(Ok(names)), Ok(2));
}

#[test]
fn only_names_under_refs_heads_are_local_branches() {
    assert!(names_branch(&b"refs/heads/main".to_vec()));
    assert!(names_branch(&b"refs/heads/feature/x".to_vec()));
    assert!(names_branch(&b"refs/heads/".to_vec()));
    assert!(names_branch(&vec![114, 101, 102, 115, 47, 104, 101, 97, 100, 115, 47, 0xff]));
    assert!(!names_branch(&b"refs/heads".to_vec()));
    assert!(!names_branch(&b"refs/tags/v1".to_vec()));
    assert!(!names_branch(&b"refs/remotes/origin/main".to_vec()));
    assert!(!names_branch(&b"Refs/heads/main".to_vec()));
    assert!(!names_branch(&b"refs/headz/main".to_vec()));
    assert!(!names_branch(&vec![]));
    let names = vec![
        b"refs/heads/main".to_vec(),
        b"refs/tags/v1".to_vec(),
        b"refs/heads/b".to_vec(),
        vec![0xff],
        b"refs/notes/commits".to_vec(),
    ];
    assert_eq!(count_branches(&names), 2);
    assert_eq!(interpret_branches(Ok(names)), Ok(2));
}

#[test]
fn branches_that_cannot_be_listed_make_the_store_unavailable() {
    let failure = Failure { not_found: false, detail: "corrupted list".to_string() };
    assert_eq!(
        interpret_branches(Err(failure)),
        Err(StatsError::StoreUnavailable { detail: "corrupted list".to_string() })
    );
}
