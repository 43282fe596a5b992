use git_stats::id::CommitId;
use git_stats::table::IdTable;

fn numbered(n: u32) -> CommitId {
    let mut bytes = [0u8; 20];
    bytes[0..4].copy_from_slice(&n.to_be_bytes());
    bytes[16..20].copy_from_slice(&n.to_le_bytes());
    CommitId::from_bytes(bytes)
}

#[test]
fn table_numbers_identifiers_in_the_order_of_arrival() {
    let mut table = IdTable::new();
    assert_eq!(table.len(), 0);
    assert_eq!(table.position(&numbered(1)), None);
    assert_eq!(table.insert(numbered(7)), 0);
    assert_eq!(table.insert(numbered(3)), 1);
    assert_eq!(table.insert(numbered(9)), 2);
    assert_eq!(table.len(), 3);
    assert_eq!(table.position(&numbered(7)), Some(0));
    assert_eq!(table.position(&numbered(3)), Some(1));
    assert_eq!(table.position(&numbered(9)), Some(2));
    assert_eq!(table.position(&numbered(1)), None);
    assert_eq!(table.get(1), numbered(3));
    assert!(table.contains(&numbered(9)));
    assert!(!table.contains(&numbered(8)));
}

#[test]
fn table_tells_apart_identifiers_filed_under_one_number() {
    let mut first = [0u8; 20];
    let mut second = [0u8; 20];
    first[8] = 1;
    second[19] = 1;
    let (first, second) = (CommitId::from_bytes(first), CommitId::from_bytes(second));
    assert_eq!(first.filing_key(), second.filing_key());
    let mut table = IdTable::new();
    assert_eq!(table.insert(first), 0);
    assert_eq!(table.position(&second), None);
    assert_eq!(table.insert(second), 1);
    assert_eq!(table.position(&first), Some(0));
    assert_eq!(table.position(&second), Some(1));
    assert_eq!(table.position(&CommitId::from_bytes([0u8; 20])), None);
}

#[test]
fn table_finds_each_of_many_identifiers() {
    let mut table = IdTable::new();
    for n in 0..5000u32 {
        assert!(!table.contains(&numbered(n)));
        assert_eq!(table.insert(numbered(n)), n as usize);
    }
    assert_eq!(table.len(), 5000);
    for n in 0..5000u32 {
        assert_eq!(table.position(&numbered(n)), Some(n as usize));
    }
    assert_eq!(table.position(&numbered(5000)), None);
}

#[test]
fn table_leaves_an_identifier_that_it_holds_where_it_is() {
    let mut table = IdTable::new();
    assert_eq!(table.insert(numbered(7)), 0);
    assert_eq!(table.insert(numbered(3)), 1);
    assert_eq!(table.insert(numbered(7)), 0);
    assert_eq!(table.insert(numbered(3)), 1);
    assert_eq!(table.len(), 2);
    assert_eq!(table.get(0), numbered(7));
    assert_eq!(table.get(1), numbered(3));
    assert_eq!(table.insert(numbered(5)), 2);
    assert_eq!(table.len(), 3);
}
