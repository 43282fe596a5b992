use git_stats::format::format_number;

#[test]
fn format_number_leaves_small_numbers_alone() {
    assert_eq!(format_number(0), "0");
    assert_eq!(format_number(7), "7");
    assert_eq!(format_number(42), "42");
    assert_eq!(format_number(999), "999");
}

#[test]
fn format_number_groups_by_three_from_the_right() {
    assert_eq!(format_number(1000), "1,000");
    assert_eq!(format_number(1234), "1,234");
    assert_eq!(format_number(12345), "12,345");
    assert_eq!(format_number(123456), "123,456");
    assert_eq!(format_number(1234567), "1,234,567");
}

#[test]
fn format_number_pads_the_lower_groups_with_zeros() {
    assert_eq!(format_number(1_000_000), "1,000,000");
    assert_eq!(format_number(1_002_003), "1,002,003");
    assert_eq!(format_number(10_020_030), "10,020,030");
    assert_eq!(format_number(100_000), "100,000");
}

#[test]
fn format_number_takes_the_largest_number() {
    let text = format_number(usize::MAX);
    let plain: String = text.chars().filter(|c| *c != ',').collect();
    assert_eq!(plain, usize::MAX.to_string());
    assert_eq!(format_number(4_294_967_295), "4,294,967,295");
}

#[test]
fn format_number_without_commas_is_the_decimal_number() {
    let mut n: usize = 1;
    while n < 1_000_000_000 {
        let text = format_number(n);
        let plain: String = text.chars().filter(|c| *c != ',').collect();
        assert_eq!(plain, n.to_string());
        n = n * 7 + 3;
    }
}
