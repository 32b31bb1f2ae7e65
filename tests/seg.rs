use std::sync::atomic::{AtomicU32, Ordering};

use reccon::seg::{duration_to_chunks, is_quiet, Config, Event, Segmentation, BYTES_PER_CHUNK};

struct Ids {
    count: AtomicU32,
}

impl Ids {
    fn new() -> Self {
        Self {
            count: AtomicU32::new(0),
        }
    }
    fn id_at(n: u32) -> String {
        format!("seg{:04}", n)
    }
    fn peek(&self) -> String {
        Ids::id_at(self.count.load(Ordering::SeqCst))
    }
    fn next(&self) -> String {
        let n = self.count.fetch_add(1, Ordering::SeqCst);
        Ids::id_at(n)
    }
}

/// Joins consecutive `Data` events, so that event lists compare by the bytes
/// they carry rather than by how those bytes were split.
fn test_events<I: IntoIterator<Item = Event>>(iter: I) -> Vec<Event> {
    let mut result: Vec<Event> = vec![];
    for ev in iter {
        match (result.last_mut(), ev) {
            (Some(Event::Data(buf)), Event::Data(chunk)) => buf.extend_from_slice(&chunk),
            (_, ev) => result.push(ev),
        }
    }
    result
}

fn data(chunk: &[u8]) -> Event {
    Event::Data(chunk.to_vec())
}

struct TestBed {
    seg: Segmentation,
    ids: Ids,
}

impl TestBed {
    fn new(config: Config) -> Self {
        Self {
            seg: Segmentation::new(config),
            ids: Ids::new(),
        }
    }
    fn accept(&mut self, chunk: &[u8]) -> Vec<Event> {
        let ids = &self.ids;
        test_events(self.seg.accept(chunk, || ids.next()))
    }
}

fn small_config() -> Config {
    Config {
        chunk_size: 4,
        max_total_chunks: 10,
        min_hot_chunks: 2,
        max_quiet_chunks: 3,
        threshold: 0x0100,
    }
}

#[test]
fn test_simple_on_off() {
    let mut tb = TestBed::new(Config {
        chunk_size: 4,
        max_total_chunks: 10,
        min_hot_chunks: 2,
        max_quiet_chunks: 3,
        threshold: 0x0100,
    });
    let id0 = tb.ids.peek();
    let chunk0 = [0x00, 0x00, 0x00, 0x01]; // quiet
    let chunk1 = [0x00, 0x02, 0x00, 0x03]; // hot
    let chunk2 = [0x00, 0x04, 0x00, 0x05];
    let chunk3 = [0x00, 0x06, 0x00, 0x07]; // hot (active)
    let chunk4 = [0x00, 0x08, 0x08, 0x00];
    let chunk5 = [0x08, 0x00, 0x07, 0x00]; // quiet
    let chunk6 = [0x07, 0x00, 0x06, 0x00];
    let chunk7 = [0x06, 0x00, 0x05, 0x00];
    let chunk8 = [0x06, 0x00, 0x05, 0x00]; // inactive

    assert_eq!(tb.accept(&chunk0), vec![]);
    assert_eq!(tb.accept(&chunk1), vec![]);
    assert_eq!(
        tb.accept(&chunk2),
        test_events([
            Event::Start { id: id0 },
            data(&chunk0),
            data(&chunk1),
            data(&chunk2),
        ]),
    );
    assert_eq!(tb.accept(&chunk3), test_events([data(&chunk3)]));
    assert_eq!(tb.accept(&chunk4), test_events([data(&chunk4)]));
    assert_eq!(tb.accept(&chunk5), test_events([data(&chunk5)])); // first quiet
    assert_eq!(tb.accept(&chunk6), test_events([data(&chunk6)]));
    assert_eq!(
        tb.accept(&chunk7),
        test_events([data(&chunk7), Event::End])
    );
    assert_eq!(tb.accept(&chunk8), vec![]);
}

#[test]
fn test_max_chunks() {
    let mut tb = TestBed::new(Config {
        chunk_size: 4,
        max_total_chunks: 10,
        min_hot_chunks: 2,
        max_quiet_chunks: 3,
        threshold: 0x0100,
    });
    let chunk_off = [0x01, 0x00, 0x01, 0x00];
    let chunk_on = [0xcc, 0xcc, 0xcc, 0xcc];

    assert_eq!(tb.accept(&chunk_off), vec![]);
    assert_eq!(tb.accept(&chunk_off), vec![]);

    assert_eq!(tb.accept(&chunk_off), vec![]); // chunk 1

    let id0 = tb.ids.peek();
    assert_eq!(tb.accept(&chunk_on), vec![]); // 2
    assert_eq!(
        tb.accept(&chunk_on), // 3
        test_events([
            Event::Start { id: id0 },
            data(&chunk_off),
            data(&chunk_on),
            data(&chunk_on),
        ])
    );
    for _ in 4..=9 {
        assert_eq!(tb.accept(&chunk_on), test_events([data(&chunk_on)]));
    }
    assert_eq!(
        tb.accept(&chunk_on), // 10
        test_events([data(&chunk_on), Event::End])
    );

    // A segment cut at the cap does not reopen at once.
    assert_eq!(tb.accept(&chunk_on), vec![]);
}

#[test]
fn test_max_chunks_from_start() {
    let mut tb = TestBed::new(Config {
        chunk_size: 4,
        max_total_chunks: 10,
        min_hot_chunks: 2,
        max_quiet_chunks: 3,
        threshold: 0x0100,
    });
    let chunk_on = [0xcc, 0xcc, 0xcc, 0xcc];

    // no quiet chunks to start!
    let id0 = tb.ids.peek();
    assert_eq!(tb.accept(&chunk_on), vec![]); // 1
    assert_eq!(
        tb.accept(&chunk_on), // 2
        test_events([
            Event::Start { id: id0 },
            data(&chunk_on),
            data(&chunk_on),
        ])
    );
    for _ in 3..=9 {
        assert_eq!(tb.accept(&chunk_on), test_events([data(&chunk_on)]));
    }
    assert_eq!(
        tb.accept(&chunk_on), // 10
        test_events([data(&chunk_on), Event::End])
    );

    // A segment cut at the cap does not reopen at once.
    assert_eq!(tb.accept(&chunk_on), vec![]);
}

#[test]
fn promotion_returns_start_then_one_data_of_buffered_chunks() {
    let mut seg = Segmentation::new(small_config());
    let quiet = [0x00, 0x00, 0x00, 0x01];
    let hot = [0x00, 0x02, 0x00, 0x03];
    assert_eq!(seg.accept(&quiet, || "a".to_string()), vec![]);
    assert_eq!(seg.accept(&hot, || "b".to_string()), vec![]);
    let events = seg.accept(&hot, || "c".to_string());
    assert_eq!(
        events,
        vec![
            Event::Start { id: "b".to_string() },
            Event::Data(vec![0x00, 0x00, 0x00, 0x01, 0x00, 0x02, 0x00, 0x03]),
            Event::Data(hot.to_vec()),
        ]
    );
}

#[test]
fn id_generator_called_only_when_burst_opens() {
    let mut seg = Segmentation::new(small_config());
    let calls = AtomicU32::new(0);
    let gen = || {
        calls.fetch_add(1, Ordering::SeqCst);
        "x".to_string()
    };
    let quiet = [0x00, 0x00, 0x00, 0x00];
    let hot = [0x00, 0x10, 0x00, 0x00];
    seg.accept(&quiet, gen);
    assert_eq!(calls.load(Ordering::SeqCst), 0);
    seg.accept(&hot, gen);
    assert_eq!(calls.load(Ordering::SeqCst), 1);
    seg.accept(&hot, gen);
    seg.accept(&hot, gen);
    assert_eq!(calls.load(Ordering::SeqCst), 1);
}

#[test]
fn short_burst_is_discarded_without_start() {
    let mut tb = TestBed::new(Config {
        chunk_size: 4,
        max_total_chunks: 10,
        min_hot_chunks: 3,
        max_quiet_chunks: 3,
        threshold: 0x0100,
    });
    let quiet = [0x00, 0x00, 0x00, 0x00];
    let hot = [0x00, 0x10, 0x00, 0x00];
    assert_eq!(tb.accept(&quiet), vec![]);
    assert_eq!(tb.accept(&hot), vec![]);
    assert_eq!(tb.accept(&hot), vec![]);
    assert_eq!(tb.accept(&quiet), vec![]);
    // The next burst gets a new name and starts over.
    let id1 = tb.ids.peek();
    assert_eq!(id1, "seg0001");
    assert_eq!(tb.accept(&hot), vec![]);
    assert_eq!(tb.accept(&hot), vec![]);
    assert_eq!(
        tb.accept(&hot),
        test_events([
            Event::Start { id: id1 },
            data(&quiet),
            data(&hot),
            data(&hot),
            data(&hot),
        ])
    );
}

#[test]
fn hot_chunk_resets_quiet_streak() {
    let mut tb = TestBed::new(small_config());
    let quiet = [0x00, 0x00, 0x00, 0x00];
    let hot = [0x00, 0x10, 0x00, 0x00];
    tb.accept(&hot);
    assert_eq!(tb.accept(&hot)[0], Event::Start { id: "seg0000".to_string() });
    assert_eq!(tb.accept(&quiet), vec![data(&quiet)]);
    assert_eq!(tb.accept(&quiet), vec![data(&quiet)]);
    assert_eq!(tb.accept(&hot), vec![data(&hot)]);
    assert_eq!(tb.accept(&quiet), vec![data(&quiet)]);
    assert_eq!(tb.accept(&quiet), vec![data(&quiet)]);
    assert_eq!(tb.accept(&quiet), vec![data(&quiet), Event::End]);
}

#[test]
fn empty_chunk_ends_open_segment() {
    let mut tb = TestBed::new(small_config());
    let hot = [0x00, 0x10, 0x00, 0x00];
    tb.accept(&hot);
    tb.accept(&hot);
    assert_eq!(tb.accept(&[]), vec![Event::Data(vec![]), Event::End]);
    assert_eq!(tb.accept(&[]), vec![]);
}

#[test]
fn empty_chunk_while_quiet_is_a_no_op() {
    let mut tb = TestBed::new(small_config());
    assert_eq!(tb.accept(&[]), vec![]);
}

#[test]
fn empty_chunk_drops_pending_burst() {
    let mut tb = TestBed::new(small_config());
    let hot = [0x00, 0x10, 0x00, 0x00];
    assert_eq!(tb.accept(&hot), vec![]);
    assert_eq!(tb.accept(&[]), vec![]);
}

#[test]
fn promotion_and_cap_in_one_call() {
    let mut tb = TestBed::new(Config {
        chunk_size: 2,
        max_total_chunks: 2,
        min_hot_chunks: 2,
        max_quiet_chunks: 3,
        threshold: 0,
    });
    let hot = [0x01, 0x00];
    assert_eq!(tb.accept(&hot), vec![]);
    assert_eq!(
        tb.accept(&hot),
        vec![
            Event::Start { id: "seg0000".to_string() },
            Event::Data(vec![0x01, 0x00, 0x01, 0x00]),
            Event::End
        ]
    );
}

#[test]
fn min_hot_of_one_promotes_on_first_hot_chunk() {
    let mut tb = TestBed::new(Config {
        chunk_size: 2,
        max_total_chunks: 100,
        min_hot_chunks: 1,
        max_quiet_chunks: 1,
        threshold: 0,
    });
    let quiet = [0x00, 0x00];
    let hot = [0x05, 0x00];
    assert_eq!(tb.accept(&quiet), vec![]);
    assert_eq!(
        tb.accept(&hot),
        vec![
            Event::Start { id: "seg0000".to_string() },
            Event::Data(vec![0x00, 0x00, 0x05, 0x00]),
        ]
    );
    assert_eq!(tb.accept(&quiet), vec![data(&quiet), Event::End]);
}

#[test]
fn quiet_is_inclusive_of_threshold() {
    assert!(is_quiet(&[0x00, 0x01], 0x0100));
    assert!(!is_quiet(&[0x01, 0x01], 0x0100));
    // -256 has absolute value 256.
    assert!(is_quiet(&[0x00, 0xff], 0x0100));
    // -257 is louder.
    assert!(!is_quiet(&[0xff, 0xfe], 0x0100));
}

#[test]
fn quiet_of_empty_chunk() {
    assert!(is_quiet(&[], 0));
    assert!(!is_quiet(&[], -1));
}

#[test]
fn quiet_uses_loudest_sample() {
    assert!(!is_quiet(&[0x00, 0x00, 0x00, 0x00, 0x00, 0x40], 0x3fff));
    assert!(is_quiet(&[0x00, 0x00, 0x00, 0x00, 0x00, 0x40], 0x4000));
}

#[test]
fn most_negative_sample_is_loudest() {
    assert!(!is_quiet(&[0x00, 0x80], i16::MAX));
}

#[test]
fn durations_in_chunks() {
    assert_eq!(BYTES_PER_CHUNK, 16384);
    assert_eq!(duration_to_chunks(1000), 5);
    assert_eq!(duration_to_chunks(5000), 29);
    assert_eq!(duration_to_chunks(600_000), 3515);
    assert_eq!(duration_to_chunks(0), 0);
    assert_eq!(duration_to_chunks(170), 0);
    assert_eq!(duration_to_chunks(171), 1);
}

#[test]
fn durations_in_chunks_wrap_to_32_bits() {
    let ms: u128 = (1u128 << 32) * 16384 / 96 + 1000;
    let whole = ms * 96 / 16384;
    assert_eq!(duration_to_chunks(ms) as u128, whole % (1u128 << 32));
    assert_eq!(duration_to_chunks(u128::MAX) as u128, (u128::MAX / 16384 * 96 + (u128::MAX % 16384) * 96 / 16384) % (1u128 << 32));
}
