use bili::engine::{Session, Stage};
use bili::range::ByteRange;
use bili::{DownloadParam, DurlInfo, Error};

fn param(size: u64, chunk: Option<u64>, pool: Option<u8>) -> DownloadParam {
    DownloadParam {
        info: DurlInfo { size, url: "https://example.invalid/v.mp4".to_owned() },
        chunk_size: chunk,
        conn_pool: pool,
    }
}

/// A sink that records every write, with file semantics: a write past the
/// end extends it and a gap reads as zeros.
struct RecordingSink {
    content: Vec<u8>,
    writes: Vec<(u64, Vec<u8>)>,
}

impl RecordingSink {
    fn new() -> Self {
        RecordingSink { content: Vec::new(), writes: Vec::new() }
    }

    fn write_at(&mut self, offset: u64, bytes: &[u8]) {
        let off = offset as usize;
        if self.content.len() < off + bytes.len() {
            self.content.resize(off + bytes.len(), 0);
        }
        self.content[off..off + bytes.len()].copy_from_slice(bytes);
        self.writes.push((offset, bytes.to_vec()));
    }
}

/// What a fake server sends back for a range of the body `0, 1, 2, ...`.
fn served(r: &ByteRange) -> Vec<u8> {
    (r.start..=r.end).map(|b| b as u8).collect()
}

/// Runs a whole download in which the responses come back in `order`.
fn run_in_order(size: u64, chunk: u64, pool: u8, order: &[usize]) -> (Vec<u8>, Result<(), Error>) {
    let mut s = Session::new(&param(size, Some(chunk), Some(pool)));
    let mut sink = RecordingSink::new();
    let mut granted: Vec<usize> = Vec::new();
    for &i in order {
        while let Some(g) = s.grant() {
            granted.push(g);
        }
        assert!(granted.contains(&i));
        s.responded(i);
        let off = s.begin_write(i);
        assert_eq!(off, s.ranges[i].start);
        let bytes = served(&s.ranges[i]);
        sink.write_at(off, &bytes);
        s.write_done();
    }
    assert!(s.is_settled());
    (sink.content, s.finish(Ok(())))
}

#[test]
fn end_to_end_any_completion_order() {
    let body: Vec<u8> = (0..10u8).collect();
    for order in [[0, 1, 2], [2, 1, 0], [1, 0, 2], [2, 0, 1]] {
        let (content, result) = run_in_order(10, 4, 3, &order);
        assert_eq!(result, Ok(()));
        assert_eq!(content, body);
    }
}

#[test]
fn later_chunk_first_gives_same_content() {
    let mut s = Session::new(&param(10, Some(4), Some(2)));
    let mut sink = RecordingSink::new();
    assert_eq!(s.grant(), Some(0));
    assert_eq!(s.grant(), Some(1));
    assert_eq!(s.grant(), None);
    s.responded(1);
    let off = s.begin_write(1);
    sink.write_at(off, &served(&s.ranges[1]));
    s.write_done();
    assert_eq!(s.grant(), Some(2));
    s.responded(2);
    s.responded(0);
    let off = s.begin_write(2);
    sink.write_at(off, &served(&s.ranges[2]));
    s.write_done();
    let off = s.begin_write(0);
    sink.write_at(off, &served(&s.ranges[0]));
    s.write_done();
    assert!(s.is_settled());
    assert_eq!(s.finish(Ok(())), Ok(()));
    assert_eq!(sink.writes.iter().map(|w| w.0).collect::<Vec<_>>(), vec![4, 8, 0]);
    assert_eq!(sink.content, (0..10u8).collect::<Vec<_>>());
}

#[test]
fn never_more_requests_than_the_pool() {
    let mut s = Session::new(&param(100, Some(10), Some(3)));
    assert_eq!(s.ranges.len(), 10);
    let mut in_flight: Vec<usize> = Vec::new();
    while let Some(i) = s.grant() {
        in_flight.push(i);
    }
    assert_eq!(in_flight, vec![0, 1, 2]);
    assert_eq!(s.in_flight, 3);
    let mut done = 0;
    while done < 10 {
        let i = in_flight.remove(0);
        s.responded(i);
        s.begin_write(i);
        s.write_done();
        done += 1;
        while let Some(g) = s.grant() {
            in_flight.push(g);
        }
        assert!(in_flight.len() <= 3);
        assert!(s.in_flight <= 3);
    }
    assert!(s.is_settled());
    assert_eq!(s.finish(Ok(())), Ok(()));
}

#[test]
fn one_failed_fetch_is_reported_after_all_settle() {
    let mut s = Session::new(&param(40, Some(10), Some(4)));
    for k in 0..4 {
        assert_eq!(s.grant(), Some(k));
    }
    s.responded(0);
    s.fetch_failed(2, Error::ReqwestErr("connection reset".to_owned()));
    assert!(!s.is_settled());
    s.responded(1);
    s.responded(3);
    for i in [0, 1, 3] {
        s.begin_write(i);
        s.write_done();
    }
    assert!(s.is_settled());
    assert_eq!(s.stages, vec![Stage::Written, Stage::Written, Stage::Failed, Stage::Written]);
    assert_eq!(s.finish(Ok(())), Err(Error::ReqwestErr("connection reset".to_owned())));
}

#[test]
fn first_failure_wins() {
    let mut s = Session::new(&param(20, Some(10), Some(2)));
    s.grant();
    s.grant();
    s.fetch_failed(1, Error::ReqwestErr("first".to_owned()));
    s.fetch_failed(0, Error::FutureErr("second".to_owned()));
    assert!(s.is_settled());
    assert_eq!(s.finish(Ok(())), Err(Error::ReqwestErr("first".to_owned())));
}

#[test]
fn failed_write_stops_the_writer() {
    let mut s = Session::new(&param(30, Some(10), Some(3)));
    for _ in 0..3 {
        s.grant();
    }
    s.responded(0);
    s.responded(1);
    s.begin_write(0);
    s.write_failed(Error::IOError("disk full".to_owned()));
    assert!(s.writer_stopped);
    assert_eq!(s.stages[1], Stage::Discarded);
    assert!(!s.is_settled());
    s.responded(2);
    assert_eq!(s.stages[2], Stage::Discarded);
    assert!(s.is_settled());
    assert_eq!(s.finish(Ok(())), Err(Error::IOError("disk full".to_owned())));
}

#[test]
fn failed_flush_is_reported() {
    let mut s = Session::new(&param(5, None, None));
    s.grant();
    s.responded(0);
    s.begin_write(0);
    s.write_done();
    assert!(s.is_settled());
    assert_eq!(s.finish(Err(Error::IOError("flush".to_owned()))), Err(Error::IOError("flush".to_owned())));
}

#[test]
fn unset_chunk_is_one_range_and_one_task() {
    let mut s = Session::new(&param(1000, None, None));
    assert_eq!(s.ranges, vec![ByteRange { start: 0, end: 999 }]);
    assert_eq!(s.grant(), Some(0));
    assert_eq!(s.grant(), None);
    let s = Session::new(&param(1000, Some(0), Some(8)));
    assert_eq!(s.ranges, vec![ByteRange { start: 0, end: 999 }]);
}

#[test]
fn zero_pool_allows_one_request() {
    let mut s = Session::new(&param(30, Some(10), Some(0)));
    assert_eq!(s.limit, 1);
    assert_eq!(s.grant(), Some(0));
    assert_eq!(s.grant(), None);
    s.responded(0);
    assert_eq!(s.grant(), Some(1));
}

#[test]
fn empty_body_is_settled_at_once() {
    let s = Session::new(&param(0, Some(4), Some(2)));
    assert!(s.ranges.is_empty());
    assert!(s.is_settled());
    assert_eq!(s.finish(Ok(())), Ok(()));
}
