use range_downloader::error::DownloadError;
use range_downloader::file::{ByteRange, ChunkRange};

fn collect(total: u64, chunk: u32) -> Vec<ByteRange> {
    let mut plan = match ChunkRange::new(total, chunk) {
        Ok(plan) => plan,
        Err(error) => panic!("plan refused: {:?}", error),
    };
    let mut ranges = Vec::new();
    while let Some(range) = plan.next() {
        ranges.push(range);
    }
    ranges
}

#[test]
fn plan_of_one_and_a_half_million_bytes() {
    let ranges = collect(1_500_000, 512_000);
    assert_eq!(
        ranges,
        vec![
            ByteRange { start: 0, end: 511_999 },
            ByteRange { start: 512_000, end: 1_023_999 },
            ByteRange { start: 1_024_000, end: 1_499_999 },
        ]
    );
}

#[test]
fn zero_chunk_size_is_refused() {
    for total in [0u64, 1, 511, 1_500_000, u64::MAX] {
        match ChunkRange::new(total, 0) {
            Err(error) => assert_eq!(error, DownloadError::InvalidConfiguration),
            Ok(_) => panic!("a chunk size of zero was accepted for {} bytes", total),
        }
    }
}

#[test]
fn positive_chunk_size_is_accepted() {
    for total in [0u64, 1, 511, 1_500_000, u64::MAX] {
        for chunk in [1u32, 2, 512_000, u32::MAX] {
            assert!(ChunkRange::new(total, chunk).is_ok());
        }
    }
}

#[test]
fn empty_resource_has_no_ranges() {
    let mut plan = ChunkRange::new(0, 512_000).unwrap();
    assert!(plan.is_empty());
    assert_eq!(plan.next(), None);
    assert_eq!(plan.next(), None);
    assert!(collect(0, 1).is_empty());
}

#[test]
fn exhausted_plan_stays_exhausted() {
    let mut plan = ChunkRange::new(3, 2).unwrap();
    assert!(!plan.is_empty());
    assert_eq!(plan.next(), Some(ByteRange { start: 0, end: 1 }));
    assert!(!plan.is_empty());
    assert_eq!(plan.next(), Some(ByteRange { start: 2, end: 2 }));
    assert!(plan.is_empty());
    assert_eq!(plan.next(), None);
    assert_eq!(plan.next(), None);
    assert!(plan.is_empty());
}

#[test]
fn ranges_partition_the_resource() {
    let cases: [(u64, u32); 9] = [
        (1, 1),
        (1, 7),
        (7, 1),
        (10, 3),
        (12, 3),
        (13, 3),
        (1_500_000, 512_000),
        (1_024, 256),
        (100_000, 99_999),
    ];
    for (total, chunk) in cases {
        let ranges = collect(total, chunk);
        assert!(!ranges.is_empty());
        assert_eq!(ranges[0].start, 0);
        assert_eq!(ranges[ranges.len() - 1].end, total - 1);
        let mut sum: u64 = 0;
        for (k, range) in ranges.iter().enumerate() {
            assert!(range.start <= range.end);
            let len = range.end - range.start + 1;
            assert!(len <= chunk as u64);
            if k + 1 < ranges.len() {
                assert_eq!(len, chunk as u64);
                assert_eq!(ranges[k + 1].start, range.end + 1);
            }
            assert_eq!(range.start, k as u64 * chunk as u64);
            sum += len;
        }
        assert_eq!(sum, total);
        let expected = (total + chunk as u64 - 1) / chunk as u64;
        assert_eq!(ranges.len() as u64, expected);
    }
}

#[test]
fn every_offset_lies_in_the_chunk_that_it_selects() {
    let total: u64 = 1_000;
    let chunk: u32 = 64;
    let ranges = collect(total, chunk);
    for offset in 0..total {
        let k = (offset / chunk as u64) as usize;
        assert!(ranges[k].start <= offset && offset <= ranges[k].end);
        for (other, range) in ranges.iter().enumerate() {
            if other != k {
                assert!(offset < range.start || range.end < offset);
            }
        }
    }
}

#[test]
fn exact_multiple_has_no_short_chunk() {
    let ranges = collect(1_024, 256);
    assert_eq!(
        ranges,
        vec![
            ByteRange { start: 0, end: 255 },
            ByteRange { start: 256, end: 511 },
            ByteRange { start: 512, end: 767 },
            ByteRange { start: 768, end: 1_023 },
        ]
    );
}

#[test]
fn last_chunk_is_not_padded() {
    let ranges = collect(1_025, 256);
    assert_eq!(ranges.len(), 5);
    assert_eq!(ranges[4], ByteRange { start: 1_024, end: 1_024 });
}

#[test]
fn chunk_no_smaller_than_resource_gives_one_range() {
    for (total, chunk) in [(1u64, 1u32), (1, 512_000), (511_999, 512_000), (512_000, 512_000)] {
        assert_eq!(collect(total, chunk), vec![ByteRange { start: 0, end: total - 1 }]);
    }
    assert_eq!(collect(512_001, 512_000).len(), 2);
}

#[test]
fn largest_resource_does_not_overflow() {
    let mut plan = ChunkRange::new(u64::MAX, u32::MAX).unwrap();
    let step = u32::MAX as u64;
    assert_eq!(plan.next(), Some(ByteRange { start: 0, end: step - 1 }));
    assert_eq!(plan.next(), Some(ByteRange { start: step, end: 2 * step - 1 }));
    assert!(!plan.is_empty());
}

#[test]
fn byte_range_new_keeps_its_bounds() {
    let range = ByteRange::new(5, 9);
    assert_eq!(range.start, 5);
    assert_eq!(range.end, 9);
    let single = ByteRange::new(7, 7);
    assert_eq!(single, ByteRange { start: 7, end: 7 });
}
