use git_stats::size::{size_unit, total_size, unit_bytes, unit_label, SizeUnit};

#[test]
fn size_unit_changes_at_each_power_of_1024() {
    assert_eq!(size_unit(0), SizeUnit::Bytes);
    assert_eq!(size_unit(1023), SizeUnit::Bytes);
    assert_eq!(size_unit(1024), SizeUnit::Kilobytes);
    assert_eq!(size_unit(1024 * 1024 - 1), SizeUnit::Kilobytes);
    assert_eq!(size_unit(1024 * 1024), SizeUnit::Megabytes);
    assert_eq!(size_unit(1024 * 1024 * 1024 - 1), SizeUnit::Megabytes);
    assert_eq!(size_unit(1024 * 1024 * 1024), SizeUnit::Gigabytes);
    assert_eq!(size_unit(u64::MAX), SizeUnit::Gigabytes);
}

#[test]
fn size_unit_has_its_bytes_and_its_label() {
    assert_eq!(unit_bytes(SizeUnit::Bytes), 1);
    assert_eq!(unit_bytes(SizeUnit::Kilobytes), 1024);
    assert_eq!(unit_bytes(SizeUnit::Megabytes), 1_048_576);
    assert_eq!(unit_bytes(SizeUnit::Gigabytes), 1_073_741_824);
    assert_eq!(unit_label(SizeUnit::Bytes), "B");
    assert_eq!(unit_label(SizeUnit::Kilobytes), "KB");
    assert_eq!(unit_label(SizeUnit::Megabytes), "MB");
    assert_eq!(unit_label(SizeUnit::Gigabytes), "GB");
}

#[test]
fn total_size_is_the_sum_of_the_sizes() {
    assert_eq!(total_size(&vec![]), Some(0));
    assert_eq!(total_size(&vec![41]), Some(41));
    assert_eq!(total_size(&vec![1, 2, 3, 4096]), Some(4102));
    assert_eq!(total_size(&vec![u64::MAX - 1, 1]), Some(u64::MAX));
    assert_eq!(total_size(&vec![0, u64::MAX, 0]), Some(u64::MAX));
}

#[test]
fn total_size_that_does_not_fit_is_none() {
    assert_eq!(total_size(&vec![u64::MAX, 1]), None);
    assert_eq!(total_size(&vec![1, u64::MAX, 0]), None);
    assert_eq!(total_size(&vec![u64::MAX, u64::MAX]), None);
}
