use range_downloader::downloader::{
    classify, status_is_success, Downloader, Reply, Segment, Settings, Step,
};
use range_downloader::error::DownloadError;
use range_downloader::file::{ByteRange, FileRequest};
use std::path::PathBuf;

fn source(len: usize) -> Vec<u8> {
    (0..len).map(|i| (i * 31 + 7) as u8).collect()
}

fn slice(source: &[u8], range: &ByteRange) -> Vec<u8> {
    source[range.start as usize..=range.end as usize].to_vec()
}

fn write_at(file: &mut Vec<u8>, segment: &Segment) {
    let offset = segment.offset as usize;
    if segment.bytes.is_empty() {
        return;
    }
    if file.len() < offset + segment.bytes.len() {
        file.resize(offset + segment.bytes.len(), 0);
    }
    file[offset..offset + segment.bytes.len()].copy_from_slice(&segment.bytes);
}

fn downloader(chunk: u32, limit: usize) -> Downloader<Vec<u8>> {
    Downloader::builder().chunk_size(chunk).buffer_size(limit).build()
}

/// Runs a whole transfer against `source`; of the requests in flight, the
/// one at position `pick(round) % in_flight` is answered next.
fn run(source: &[u8], chunk: u32, limit: usize, pick: fn(usize) -> usize) -> (Vec<u8>, Vec<u64>) {
    let downloader = downloader(chunk, limit);
    let mut transfer = downloader.start(source.len() as u64).unwrap();
    let mut file: Vec<u8> = Vec::new();
    let mut pending: Vec<ByteRange> = Vec::new();
    let mut arrival: Vec<u64> = Vec::new();
    let mut round = 0;
    loop {
        match transfer.next_step() {
            Step::Fetch(range) => pending.push(range),
            Step::Wait => {
                assert!(!pending.is_empty());
                assert!(pending.len() <= limit);
                let range = pending.remove(pick(round) % pending.len());
                round += 1;
                assert!(transfer.is_in_flight(&range));
                let reply = Reply::Response { status: 206, body: slice(source, &range) };
                let segment = transfer.complete(range, reply).unwrap().unwrap();
                assert_eq!(segment.offset, range.start);
                assert!(!transfer.is_in_flight(&range));
                arrival.push(segment.offset);
                write_at(&mut file, &segment);
            }
            Step::Finished => break,
            other => panic!("unexpected step {:?}", other),
        }
    }
    assert!(pending.is_empty());
    assert!(transfer.finish(&file));
    (file, arrival)
}

#[test]
fn assembled_file_equals_source_in_any_arrival_order() {
    let source = source(10_000);
    let picks: [fn(usize) -> usize; 4] =
        [|_| 0, |_| usize::MAX, |round| round * 7 + 3, |round| round / 2];
    let mut orders: Vec<Vec<u64>> = Vec::new();
    for pick in picks {
        for limit in [1usize, 2, 3, 8, 150] {
            let (file, arrival) = run(&source, 999, limit, pick);
            assert_eq!(file, source);
            assert_eq!(arrival.len(), 11);
            orders.push(arrival);
        }
    }
    let in_order: Vec<u64> = (0..11).map(|k| k * 999).collect();
    assert!(orders.iter().any(|order| *order == in_order));
    assert!(orders.iter().any(|order| *order != in_order));
}

#[test]
fn chunk_no_smaller_than_source_is_fetched_in_one_request() {
    let source = source(1_000);
    for chunk in [1_000u32, 1_001, 512_000] {
        let downloader = downloader(chunk, 150);
        let mut transfer = downloader.start(1_000).unwrap();
        assert_eq!(transfer.next_step(), Step::Fetch(ByteRange { start: 0, end: 999 }));
        assert_eq!(transfer.next_step(), Step::Wait);
        let range = ByteRange { start: 0, end: 999 };
        let reply = Reply::Response { status: 200, body: source.clone() };
        let segment = transfer.complete(range, reply).unwrap().unwrap();
        assert_eq!(segment.offset, 0);
        assert_eq!(segment.bytes, source);
        assert_eq!(transfer.next_step(), Step::Finished);
    }
}

#[test]
fn empty_resource_finishes_without_a_request() {
    let downloader = downloader(512_000, 150);
    let mut transfer = downloader.start(0).unwrap();
    assert_eq!(transfer.next_step(), Step::Finished);
    assert_eq!(transfer.next_step(), Step::Finished);
    let file: Vec<u8> = Vec::new();
    assert!(transfer.finish(&file));
    assert!(file.is_empty());
}

#[test]
fn empty_resource_finishes_even_without_slots() {
    let downloader = downloader(512_000, 0);
    let mut transfer = downloader.start(0).unwrap();
    assert_eq!(transfer.next_step(), Step::Finished);
}

#[test]
fn no_slots_means_no_progress() {
    let downloader = downloader(10, 0);
    let mut transfer = downloader.start(25).unwrap();
    assert_eq!(transfer.next_step(), Step::Stalled);
    assert_eq!(transfer.next_step(), Step::Stalled);
    assert!(!transfer.finish(&Vec::new()));
}

#[test]
fn failed_chunk_aborts_the_download() {
    let source = source(1_500_000);
    let downloader = downloader(512_000, 150);
    let mut transfer = downloader.start(1_500_000).unwrap();
    let first = ByteRange { start: 0, end: 511_999 };
    let second = ByteRange { start: 512_000, end: 1_023_999 };
    let third = ByteRange { start: 1_024_000, end: 1_499_999 };
    assert_eq!(transfer.next_step(), Step::Fetch(first));
    assert_eq!(transfer.next_step(), Step::Fetch(second));
    assert_eq!(transfer.next_step(), Step::Fetch(third));
    assert_eq!(transfer.next_step(), Step::Wait);
    let reply = Reply::Response { status: 200, body: slice(&source, &first) };
    assert!(matches!(transfer.complete(first, reply), Ok(Some(_))));
    let reply = Reply::Response { status: 404, body: b"not found".to_vec() };
    match transfer.complete(second, reply) {
        Err(error) => assert_eq!(error, DownloadError::RemoteChunkError { status: 404 }),
        Ok(_) => panic!("a status of 404 gave a segment"),
    }
    assert_eq!(
        transfer.next_step(),
        Step::Failed(DownloadError::RemoteChunkError { status: 404 })
    );
    // A sibling that was in flight is answered, and dropped.
    let reply = Reply::Response { status: 200, body: slice(&source, &third) };
    match transfer.complete(third, reply) {
        Err(error) => assert_eq!(error, DownloadError::RemoteChunkError { status: 404 }),
        Ok(_) => panic!("a reply after the failure gave a segment"),
    }
    assert_eq!(
        transfer.next_step(),
        Step::Failed(DownloadError::RemoteChunkError { status: 404 })
    );
    assert!(!transfer.finish(&Vec::new()));
}

#[test]
fn failure_of_one_download_leaves_another_alone() {
    let source = source(30);
    let downloader = downloader(10, 2);
    let mut failing = downloader.start(30).unwrap();
    let mut sibling = downloader.start(30).unwrap();
    let mut file: Vec<u8> = Vec::new();
    let first = ByteRange { start: 0, end: 9 };
    let second = ByteRange { start: 10, end: 19 };
    let third = ByteRange { start: 20, end: 29 };
    assert_eq!(failing.next_step(), Step::Fetch(first));
    assert_eq!(failing.next_step(), Step::Fetch(second));
    let reply = Reply::Response { status: 200, body: slice(&source, &first) };
    assert!(failing.complete(first, reply).is_ok());
    let reply = Reply::Response { status: 404, body: Vec::new() };
    assert!(failing.complete(second, reply).is_err());
    assert_eq!(
        failing.next_step(),
        Step::Failed(DownloadError::RemoteChunkError { status: 404 })
    );
    for range in [first, second, third] {
        assert_eq!(sibling.next_step(), Step::Fetch(range));
        let reply = Reply::Response { status: 206, body: slice(&source, &range) };
        write_at(&mut file, &sibling.complete(range, reply).unwrap().unwrap());
    }
    assert_eq!(sibling.next_step(), Step::Finished);
    assert_eq!(file, source);
}

#[test]
fn no_range_is_handed_out_after_a_failure() {
    let downloader = downloader(10, 1);
    let mut transfer = downloader.start(100).unwrap();
    let first = ByteRange { start: 0, end: 9 };
    assert_eq!(transfer.next_step(), Step::Fetch(first));
    assert_eq!(transfer.next_step(), Step::Wait);
    assert_eq!(
        transfer.complete(first, Reply::Lost).err(),
        Some(DownloadError::TransportError)
    );
    for _ in 0..5 {
        assert_eq!(transfer.next_step(), Step::Failed(DownloadError::TransportError));
    }
}

#[test]
fn requests_in_flight_stay_within_the_bound() {
    let source = source(50);
    let downloader = downloader(10, 2);
    let mut transfer = downloader.start(50).unwrap();
    let ranges: Vec<ByteRange> =
        (0..5).map(|k| ByteRange { start: k * 10, end: k * 10 + 9 }).collect();
    assert_eq!(transfer.next_step(), Step::Fetch(ranges[0]));
    assert_eq!(transfer.next_step(), Step::Fetch(ranges[1]));
    assert_eq!(transfer.next_step(), Step::Wait);
    assert_eq!(transfer.next_step(), Step::Wait);
    let reply = Reply::Response { status: 200, body: slice(&source, &ranges[1]) };
    assert!(transfer.complete(ranges[1], reply).is_ok());
    assert_eq!(transfer.next_step(), Step::Fetch(ranges[2]));
    assert_eq!(transfer.next_step(), Step::Wait);
    assert!(transfer.is_in_flight(&ranges[0]));
    assert!(!transfer.is_in_flight(&ranges[1]));
    assert!(transfer.is_in_flight(&ranges[2]));
    assert!(!transfer.is_in_flight(&ranges[3]));
    for k in [0usize, 2] {
        let reply = Reply::Response { status: 200, body: slice(&source, &ranges[k]) };
        assert!(transfer.complete(ranges[k], reply).is_ok());
    }
    assert_eq!(transfer.next_step(), Step::Fetch(ranges[3]));
    assert_eq!(transfer.next_step(), Step::Fetch(ranges[4]));
    assert_eq!(transfer.next_step(), Step::Wait);
    for k in [4usize, 3] {
        let reply = Reply::Response { status: 200, body: slice(&source, &ranges[k]) };
        assert!(transfer.complete(ranges[k], reply).is_ok());
    }
    assert_eq!(transfer.next_step(), Step::Finished);
}

#[test]
fn abort_by_the_caller_is_reported() {
    let downloader = downloader(10, 2);
    let mut transfer = downloader.start(100).unwrap();
    assert_eq!(transfer.next_step(), Step::Fetch(ByteRange { start: 0, end: 9 }));
    transfer.abort(DownloadError::IoError);
    assert_eq!(transfer.next_step(), Step::Failed(DownloadError::IoError));
    transfer.abort(DownloadError::TransportError);
    assert_eq!(transfer.next_step(), Step::Failed(DownloadError::IoError));
    let reply = Reply::Response { status: 200, body: vec![0; 10] };
    assert_eq!(
        transfer.complete(ByteRange { start: 0, end: 9 }, reply).err(),
        Some(DownloadError::IoError)
    );
}

#[test]
fn zero_chunk_size_fails_at_the_start() {
    let downloader = downloader(0, 150);
    for size in [0u64, 1, 1_500_000] {
        match downloader.start(size) {
            Err(error) => assert_eq!(error, DownloadError::InvalidConfiguration),
            Ok(_) => panic!("a chunk size of zero was accepted"),
        }
    }
}

#[test]
fn status_classes() {
    for status in [200u16, 201, 204, 206, 299] {
        assert!(status_is_success(status));
    }
    for status in [0u16, 100, 199, 300, 301, 404, 416, 500, 999, u16::MAX] {
        assert!(!status_is_success(status));
    }
}

#[test]
fn reply_with_success_gives_the_body_at_the_start_of_the_range() {
    let range = ByteRange { start: 512_000, end: 1_023_999 };
    let segment = classify(range, Reply::Response { status: 206, body: vec![1, 2, 3] }).unwrap();
    assert_eq!(segment.offset, 512_000);
    assert_eq!(segment.bytes, vec![1, 2, 3]);
}

#[test]
fn reply_without_success_gives_the_status() {
    let range = ByteRange { start: 0, end: 9 };
    for status in [199u16, 300, 404, 500] {
        let reply = Reply::Response { status, body: vec![1, 2, 3] };
        assert_eq!(
            classify(range, reply).err(),
            Some(DownloadError::RemoteChunkError { status })
        );
    }
}

#[test]
fn lost_reply_is_a_transport_error() {
    let range = ByteRange { start: 0, end: 9 };
    assert_eq!(classify(range, Reply::Lost).err(), Some(DownloadError::TransportError));
}

#[test]
fn declared_size_is_used() {
    let downloader = downloader(512_000, 150);
    let request = FileRequest {
        path: PathBuf::from("out.bin"),
        url: String::from("http://files.test/a"),
        size: Some(1_000),
    };
    assert!(!downloader.needs_remote_size(&request));
    assert_eq!(downloader.resolve_size(&request, None), Ok(1_000));
    assert_eq!(downloader.resolve_size(&request, Some(77)), Ok(1_000));
}

#[test]
fn remote_size_is_used_when_none_is_declared() {
    let downloader = downloader(512_000, 150);
    let request = FileRequest {
        path: PathBuf::from("out.bin"),
        url: String::from("http://files.test/a"),
        size: None,
    };
    assert!(downloader.needs_remote_size(&request));
    assert_eq!(downloader.resolve_size(&request, Some(77)), Ok(77));
    assert_eq!(downloader.resolve_size(&request, Some(0)), Ok(0));
}

#[test]
fn unknown_size_fails_the_download() {
    let downloader = downloader(512_000, 150);
    let request = FileRequest {
        path: PathBuf::from("out.bin"),
        url: String::from("http://files.test/a"),
        size: None,
    };
    assert_eq!(downloader.resolve_size(&request, None), Err(DownloadError::SizeUnknown));
}

#[test]
fn builder_defaults() {
    let expected = Settings { chunk_size: 512_000, buffer_size: 150, keep_alive: false };
    assert_eq!(Downloader::<Vec<u8>>::builder().build().settings(), expected);
    assert_eq!(Downloader::<Vec<u8>>::new().settings(), expected);
}

#[test]
fn builder_sets_each_value_alone() {
    let built = Downloader::<Vec<u8>>::builder().chunk_size(7).build().settings();
    assert_eq!(built, Settings { chunk_size: 7, buffer_size: 150, keep_alive: false });
    let built = Downloader::<Vec<u8>>::builder().buffer_size(3).build().settings();
    assert_eq!(built, Settings { chunk_size: 512_000, buffer_size: 3, keep_alive: false });
    let built = Downloader::<Vec<u8>>::builder().keep_alive(true).build().settings();
    assert_eq!(built, Settings { chunk_size: 512_000, buffer_size: 150, keep_alive: true });
    let built = Downloader::<Vec<u8>>::builder()
        .chunk_size(1)
        .chunk_size(2)
        .keep_alive(true)
        .buffer_size(9)
        .build()
        .settings();
    assert_eq!(built, Settings { chunk_size: 2, buffer_size: 9, keep_alive: true });
}

#[test]
fn transfer_takes_one_request_and_one_reply_per_range() {
    let cases = [(0u64, 5u32, 3usize), (1, 5, 3), (25, 5, 3), (26, 5, 1), (99, 7, 150)];
    for (size, chunk, limit) in cases {
        let downloader = downloader(chunk, limit);
        let mut transfer = downloader.start(size).unwrap();
        let mut pending: Vec<ByteRange> = Vec::new();
        let mut requests: u64 = 0;
        let mut replies: u64 = 0;
        loop {
            match transfer.next_step() {
                Step::Fetch(range) => {
                    requests += 1;
                    pending.push(range);
                }
                Step::Wait => {
                    replies += 1;
                    let range = pending.pop().unwrap();
                    let len = (range.end - range.start + 1) as usize;
                    let reply = Reply::Response { status: 200, body: vec![0; len] };
                    assert!(transfer.complete(range, reply).is_ok());
                }
                Step::Finished => break,
                other => panic!("unexpected step {:?}", other),
            }
        }
        let ranges = (size + chunk as u64 - 1) / chunk as u64;
        assert_eq!(requests, ranges);
        assert_eq!(replies, ranges);
    }
}

#[test]
fn reply_to_a_request_that_is_not_in_flight_is_dropped() {
    let downloader = downloader(10, 2);
    let mut transfer = downloader.start(30).unwrap();
    let first = ByteRange { start: 0, end: 9 };
    let second = ByteRange { start: 10, end: 19 };
    let third = ByteRange { start: 20, end: 29 };
    let stranger = ByteRange { start: 5, end: 14 };
    assert_eq!(transfer.next_step(), Step::Fetch(first));
    for range in [second, third, stranger] {
        let reply = Reply::Response { status: 200, body: vec![1; 10] };
        assert!(matches!(transfer.complete(range, reply), Ok(None)));
        assert!(matches!(transfer.complete(range, Reply::Lost), Ok(None)));
    }
    assert!(transfer.is_in_flight(&first));
    assert_eq!(transfer.next_step(), Step::Fetch(second));
    let reply = Reply::Response { status: 200, body: vec![1; 10] };
    assert!(matches!(transfer.complete(first, reply), Ok(Some(_))));
    // A second reply to the same request finds it answered.
    let reply = Reply::Response { status: 200, body: vec![2; 10] };
    assert!(matches!(transfer.complete(first, reply), Ok(None)));
    assert_eq!(transfer.next_step(), Step::Fetch(third));
    for range in [third, second] {
        let reply = Reply::Response { status: 200, body: vec![1; 10] };
        assert!(matches!(transfer.complete(range, reply), Ok(Some(_))));
    }
    assert_eq!(transfer.next_step(), Step::Finished);
}
