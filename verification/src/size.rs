//! Sizes on disk: their sum, and the unit in which a size is shown.

use vstd::prelude::*;

verus! {

/// The unit in which a size is shown.
#[derive(Clone, Copy, Debug, PartialEq, Eq, Structural)]
pub enum SizeUnit {
    Bytes,
    Kilobytes,
    Megabytes,
    Gigabytes,
}

/// The number of bytes in a kilobyte; a megabyte has as many kilobytes, and
/// a gigabyte as many megabytes.
pub const KILOBYTE: u64 = 1024;

/// The number of bytes in one of `unit`.
pub open spec fn bytes_per(unit: SizeUnit) -> int {
    match unit {
        SizeUnit::Bytes => 1,
        SizeUnit::Kilobytes => 1024,
        SizeUnit::Megabytes => 1_048_576,
        SizeUnit::Gigabytes => 1_073_741_824,
    }
}

/// The unit for a size: the largest of which the size holds one, and
/// gigabytes from a gigabyte on.
pub open spec fn unit_of(size: int) -> SizeUnit {
    if size < 1024 {
        SizeUnit::Bytes
    } else if size < 1_048_576 {
        SizeUnit::Kilobytes
    } else if size < 1_073_741_824 {
        SizeUnit::Megabytes
    } else {
        SizeUnit::Gigabytes
    }
}

/// The sum of `sizes`.
pub open spec fn sum(sizes: Seq<u64>) -> int
    decreases sizes.len(),
{
    if sizes.len() == 0 {
        0
    } else {
        sum(sizes.drop_last()) + sizes.last()
    }
}

/// A sum is at least the sum of any of its beginnings.
pub proof fn lemma_sum_grows(sizes: Seq<u64>, n: int)
    requires
        0 <= n <= sizes.len(),
    ensures
        0 <= sum(sizes.subrange(0, n)) <= sum(sizes),
    decreases sizes.len(),
{
    if n == sizes.len() {
        assert(sizes.subrange(0, n) =~= sizes);
        if n > 0 {
            lemma_sum_grows(sizes.drop_last(), n - 1);
            assert(sizes.drop_last().subrange(0, n - 1) =~= sizes.drop_last());
        }
    } else {
        lemma_sum_grows(sizes.drop_last(), n);
        assert(sizes.drop_last().subrange(0, n) =~= sizes.subrange(0, n));
    }
}

/// The unit in which `size` is shown.
pub fn size_unit(size: u64) -> (unit: SizeUnit)
    ensures
        unit == unit_of(size as int),
        bytes_per(unit) <= size || unit == SizeUnit::Bytes,
{
    if size < KILOBYTE {
        SizeUnit::Bytes
    } else if size < KILOBYTE * KILOBYTE {
        SizeUnit::Kilobytes
    } else if size < KILOBYTE * KILOBYTE * KILOBYTE {
        SizeUnit::Megabytes
    } else {
        SizeUnit::Gigabytes
    }
}

/// The number of bytes in one of `unit`.
pub fn unit_bytes(unit: SizeUnit) -> (bytes: u64)
    ensures
        bytes == bytes_per(unit),
{
    match unit {
        SizeUnit::Bytes => 1,
        SizeUnit::Kilobytes => KILOBYTE,
        SizeUnit::Megabytes => KILOBYTE * KILOBYTE,
        SizeUnit::Gigabytes => KILOBYTE * KILOBYTE * KILOBYTE,
    }
}

/// The letters that stand for `unit`.
pub fn unit_label(unit: SizeUnit) -> (label: &'static str)
    ensures
        label@ == match unit {
            SizeUnit::Bytes => "B"@,
            SizeUnit::Kilobytes => "KB"@,
            SizeUnit::Megabytes => "MB"@,
            SizeUnit::Gigabytes => "GB"@,
        },
{
    match unit {
        SizeUnit::Bytes => "B",
        SizeUnit::Kilobytes => "KB",
        SizeUnit::Megabytes => "MB",
        SizeUnit::Gigabytes => "GB",
    }
}

/// The sum of the sizes of the files of a directory, or `None` where the sum
/// is more than a `u64` holds.
pub fn total_size(sizes: &Vec<u64>) -> (total: Option<u64>)
    ensures
        match total {
            Some(total) => total == sum(sizes@),
            None => sum(sizes@) > u64::MAX,
        },
{
    let mut total: u64 = 0;
    let mut i: usize = 0;
    assert(sizes@.subrange(0, 0) =~= Seq::<u64>::empty());
    while i < sizes.len()
        invariant
            i <= sizes.len(),
            total == sum(sizes@.subrange(0, i as int)),
        decreases sizes.len() - i,
    {
        proof {
            let longer = sizes@.subrange(0, i + 1);
            assert(longer.drop_last() =~= sizes@.subrange(0, i as int));
            assert(longer.last() == sizes@[i as int]);
            lemma_sum_grows(sizes@, i + 1);
        }
        match total.checked_add(sizes[i]) {
            Some(next) => {
                total = next;
            },
            None => {
                return None;
            },
        }
        i = i + 1;
    }
    assert(sizes@.subrange(0, i as int) =~= sizes@);
    Some(total)
}

} // verus!
