use vstd::prelude::*;

verus! {

/// Nominal size in bytes of the chunks read from the audio source.
pub const BYTES_PER_CHUNK: usize = 16384;

/// Samples per millisecond of the audio source.
pub const SAMPLES_PER_MS: u128 = 48;

/// Bytes per millisecond of the audio source: two per sample.
pub const BYTES_PER_MS: u128 = SAMPLES_PER_MS * 2;

/// How many whole chunks a duration of `millis` milliseconds spans, cut to
/// the low 32 bits.
pub open spec fn chunks_in(millis: int) -> int {
    (millis * BYTES_PER_MS / (BYTES_PER_CHUNK as int)) % 0x1_0000_0000
}

/// Converts a duration, given in milliseconds, to a number of chunks.
pub fn duration_to_chunks(millis: u128) -> (r: u32)
    ensures
        r == chunks_in(millis as int),
{
    let chunk: u128 = BYTES_PER_CHUNK as u128;
    let q: u128 = millis / chunk;
    let rem: u128 = millis % chunk;
    assert(96 * (q as int) + 96 * (rem as int) / 16384 == (millis as int) * 96 / 16384
        && (millis as int) * 96 / 16384 <= u128::MAX) by (nonlinear_arith)
        requires
            chunk == 16384,
            q == millis / chunk,
            rem == millis % chunk,
            millis <= u128::MAX,
    ;
    let whole: u128 = BYTES_PER_MS * q + BYTES_PER_MS * rem / chunk;
    (whole % 0x1_0000_0000) as u32
}

/// Sample `i` of `raw`, read as a signed 16-bit little-endian integer.
pub open spec fn sample_at(raw: Seq<u8>, i: int) -> int {
    let v = raw[2 * i] as int + 256 * (raw[2 * i + 1] as int);
    if v >= 32768 {
        v - 65536
    } else {
        v
    }
}

pub open spec fn abs(x: int) -> int {
    if x < 0 {
        -x
    } else {
        x
    }
}

/// Largest absolute value among the first `n` samples of `raw`; 0 when `n` is 0.
pub open spec fn peak_of_first(raw: Seq<u8>, n: nat) -> int
    decreases n,
{
    if n == 0 {
        0
    } else {
        let m = peak_of_first(raw, (n - 1) as nat);
        let a = abs(sample_at(raw, n - 1));
        if a > m {
            a
        } else {
            m
        }
    }
}

/// Largest absolute sample value of a chunk; 0 for an empty chunk.
pub open spec fn peak(raw: Seq<u8>) -> int {
    peak_of_first(raw, raw.len() / 2)
}

/// A chunk is quiet when its peak is at most `threshold`.
pub open spec fn quiet(raw: Seq<u8>, threshold: i16) -> bool {
    peak(raw) <= threshold
}

/// Tells whether a chunk of 16-bit little-endian samples is quiet: whether
/// no sample's absolute value exceeds `threshold`.
pub fn is_quiet(raw_audio: &[u8], threshold: i16) -> (r: bool)
    requires
        raw_audio@.len() % 2 == 0,
    ensures
        r == quiet(raw_audio@, threshold),
{
    let len: usize = raw_audio.len();
    let n: usize = len / 2;
    let mut max_sample: i32 = 0;
    let mut i: usize = 0;
    while i < n
        invariant
            n == raw_audio@.len() / 2,
            len == raw_audio@.len(),
            len % 2 == 0,
            i <= n,
            max_sample == peak_of_first(raw_audio@, i as nat),
            0 <= max_sample <= 32768,
        decreases n - i,
    {
        let lo = raw_audio[2 * i] as i32;
        let hi = raw_audio[2 * i + 1] as i32;
        let mut v: i32 = lo + 256 * hi;
        if v >= 32768 {
            v = v - 65536;
        }
        let a: i32 = if v < 0 {
            -v
        } else {
            v
        };
        if a > max_sample {
            max_sample = a;
        }
        i = i + 1;
    }
    max_sample <= threshold as i32
}

/// Settings of a segmentation engine, fixed for its lifetime.
#[derive(Debug, Clone)]
pub struct Config {
    /// Largest length in bytes of a chunk.
    pub chunk_size: usize,
    /// A segment ends once it holds this many chunks.
    pub max_total_chunks: u32,
    /// Consecutive hot chunks needed before a burst becomes a segment.
    pub min_hot_chunks: u32,
    /// A segment ends after this many consecutive quiet chunks.
    pub max_quiet_chunks: u32,
    /// Largest peak amplitude of a quiet chunk.
    pub threshold: i16,
}

/// What the engine hands back for a chunk.
#[derive(Debug, Clone, PartialEq, Eq)]
pub enum Event {
    /// A new segment opens under the given name.
    Start { id: String },
    /// Bytes that belong to the open segment.
    Data(Vec<u8>),
    /// The open segment is complete.
    End,
}

pub enum EventView {
    Start { id: Seq<char> },
    Data(Seq<u8>),
    End,
}

impl View for Event {
    type V = EventView;

    open spec fn view(&self) -> EventView {
        match self {
            Event::Start { id } => EventView::Start { id: id@ },
            Event::Data(bytes) => EventView::Data(bytes@),
            Event::End => EventView::End,
        }
    }
}

pub open spec fn event_views(events: Seq<Event>) -> Seq<EventView> {
    events.map_values(|e: Event| e@)
}

/// Where the engine stands between two chunks.
pub enum Phase {
    /// No burst and no segment.
    Quiet,
    /// A burst is being buffered; `id` is the name it will carry.
    Pending { id: Seq<char>, total: int, hot: int },
    /// A segment is open.
    Active { total: int, quiet: int },
}

/// The abstract state of a `Segmentation`.
pub struct EngineView {
    pub phase: Phase,
    /// The chunk accepted last (empty before the first one).
    pub last_chunk: Seq<u8>,
    /// Bytes buffered for a pending burst.
    pub pending_buf: Seq<u8>,
}

/// The state of a fresh engine.
pub open spec fn initial_view() -> EngineView {
    EngineView { phase: Phase::Quiet, last_chunk: Seq::empty(), pending_buf: Seq::empty() }
}

/// Whether a chunk opens a burst: it is hot while nothing is in progress.
pub open spec fn opens_burst(cfg: Config, s: EngineView, chunk: Seq<u8>) -> bool {
    s.phase is Quiet && !quiet(chunk, cfg.threshold)
}

/// First move: a hot chunk while quiet makes a burst pending, named `fresh`,
/// seeded with the previous chunk as pre-roll.
pub open spec fn begin_burst(cfg: Config, s: EngineView, chunk: Seq<u8>, fresh: Seq<char>) -> EngineView {
    if opens_burst(cfg, s, chunk) {
        EngineView {
            phase: Phase::Pending {
                id: fresh,
                total: if s.last_chunk.len() == 0 { 0 } else { 1 },
                hot: 0,
            },
            pending_buf: s.last_chunk,
            ..s
        }
    } else {
        s
    }
}

/// Second move: a pending burst is dropped on a quiet chunk, promoted once it
/// has seen `min_hot_chunks` hot chunks, or else buffers the chunk.
pub open spec fn settle_burst(cfg: Config, s: EngineView, chunk: Seq<u8>) -> (EngineView, Seq<EventView>) {
    match s.phase {
        Phase::Pending { id, total, hot } => {
            if quiet(chunk, cfg.threshold) {
                (EngineView { phase: Phase::Quiet, pending_buf: Seq::empty(), ..s }, Seq::empty())
            } else if hot + 1 >= cfg.min_hot_chunks {
                (
                    EngineView {
                        phase: Phase::Active { total, quiet: 0 },
                        pending_buf: Seq::empty(),
                        ..s
                    },
                    seq![EventView::Start { id }, EventView::Data(s.pending_buf)],
                )
            } else {
                (
                    EngineView {
                        phase: Phase::Pending { id, total: total + 1, hot: hot + 1 },
                        pending_buf: s.pending_buf + chunk,
                        ..s
                    },
                    Seq::empty(),
                )
            }
        },
        _ => (s, Seq::empty()),
    }
}

/// Whether an open segment that now holds `total` chunks, the last `quiet` of
/// them quiet, ends with `chunk`.
pub open spec fn ends_segment(cfg: Config, total: int, quiet: int, chunk: Seq<u8>) -> bool {
    total >= cfg.max_total_chunks || quiet >= cfg.max_quiet_chunks || chunk.len() == 0
}

/// Third move: an open segment takes the chunk as data, and ends when it is
/// full, has been quiet long enough, or the stream is over.
pub open spec fn feed_segment(cfg: Config, s: EngineView, chunk: Seq<u8>) -> (EngineView, Seq<EventView>) {
    match s.phase {
        Phase::Active { total, quiet: q } => {
            let t = total + 1;
            let nq = if quiet(chunk, cfg.threshold) { q + 1 } else { 0 };
            if ends_segment(cfg, t, nq, chunk) {
                (
                    EngineView { phase: Phase::Quiet, pending_buf: Seq::empty(), ..s },
                    seq![EventView::Data(chunk), EventView::End],
                )
            } else {
                (EngineView { phase: Phase::Active { total: t, quiet: nq }, ..s }, seq![EventView::Data(chunk)])
            }
        },
        _ => (s, Seq::empty()),
    }
}

/// One call of the engine on `chunk`: the state after it and the events it
/// returns. `fresh` is the name given to a burst that this chunk opens.
pub open spec fn step(cfg: Config, s: EngineView, chunk: Seq<u8>, fresh: Seq<char>) -> (EngineView, Seq<EventView>) {
    let s1 = begin_burst(cfg, s, chunk, fresh);
    let (s2, e2) = settle_burst(cfg, s1, chunk);
    let (s3, e3) = feed_segment(cfg, s2, chunk);
    (EngineView { last_chunk: chunk, ..s3 }, e2 + e3)
}

#[derive(Debug)]
enum State {
    Quiet,
    Pending { id: String, total_chunks: u64, consecutive_hot_chunks: u32 },
    Active { total_chunks: u64, consecutive_quiet_chunks: u32 },
}

/// The segmentation engine: it takes chunks one at a time and says where
/// segments start and end.
#[derive(Debug)]
pub struct Segmentation {
    config: Config,
    state: State,
    last_chunk: Vec<u8>,
    pending_buf: Vec<u8>,
}

fn append_bytes(v: &mut Vec<u8>, bytes: &[u8])
    ensures
        final(v)@ == old(v)@ + bytes@,
{
    v.extend_from_slice(bytes);
    assert(final(v)@ =~= old(v)@ + bytes@);
}

impl View for Segmentation {
    type V = EngineView;

    closed spec fn view(&self) -> EngineView {
        EngineView {
            phase: match self.state {
                State::Quiet => Phase::Quiet,
                State::Pending { id, total_chunks, consecutive_hot_chunks } => Phase::Pending {
                    id: id@,
                    total: total_chunks as int,
                    hot: consecutive_hot_chunks as int,
                },
                State::Active { total_chunks, consecutive_quiet_chunks } => Phase::Active {
                    total: total_chunks as int,
                    quiet: consecutive_quiet_chunks as int,
                },
            },
            last_chunk: self.last_chunk@,
            pending_buf: self.pending_buf@,
        }
    }
}

impl Segmentation {
    /// The settings the engine was made with.
    pub closed spec fn config(&self) -> Config {
        self.config
    }

    /// The counters stay within the bounds that the rules keep them in, and
    /// only a pending burst has bytes buffered.
    pub closed spec fn wf(&self) -> bool {
        match self.state {
            State::Quiet => self.pending_buf@.len() == 0,
            State::Pending { total_chunks, consecutive_hot_chunks, .. } => {
                &&& consecutive_hot_chunks < self.config.min_hot_chunks
                &&& total_chunks <= consecutive_hot_chunks + 1
            },
            State::Active { total_chunks, consecutive_quiet_chunks } => {
                &&& total_chunks < self.config.max_total_chunks
                &&& consecutive_quiet_chunks < self.config.max_quiet_chunks
                &&& self.pending_buf@.len() == 0
            },
        }
    }

    /// A fresh engine: nothing in progress and no previous chunk.
    pub fn new(config: Config) -> (r: Self)
        ensures
            r.wf(),
            r.config() == config,
            r@ == initial_view(),
    {
        let pending_capacity: usize = match config.chunk_size.checked_mul(config.min_hot_chunks as usize) {
            Some(c) => c,
            None => 0,
        };
        Segmentation {
            pending_buf: Vec::with_capacity(pending_capacity),
            last_chunk: Vec::with_capacity(config.chunk_size),
            state: State::Quiet,
            config,
        }
    }

    /// Takes the next chunk of the stream (an empty one ends the stream) and
    /// returns the events it causes, in order. `gen_id` names a burst that this
    /// chunk opens; it is called only then.
    pub fn accept<F: FnOnce() -> String>(&mut self, chunk: &[u8], gen_id: F) -> (events: Vec<Event>)
        requires
            old(self).wf(),
            chunk@.len() <= old(self).config().chunk_size,
            chunk@.len() % 2 == 0,
            call_requires(gen_id, ()),
        ensures
            final(self).wf(),
            final(self).config() == old(self).config(),
            opens_burst(old(self).config(), old(self)@, chunk@) ==> exists|id: String|
                #[trigger] call_ensures(gen_id, (), id) && step(old(self).config(), old(self)@, chunk@, id@)
                    == (final(self)@, event_views(events@)),
            !opens_burst(old(self).config(), old(self)@, chunk@) ==> step(
                old(self).config(),
                old(self)@,
                chunk@,
                Seq::empty(),
            ) == (final(self)@, event_views(events@)),
    {
        let hot = !is_quiet(chunk, self.config.threshold);
        let mut events: Vec<Event> = Vec::new();
        let ghost mut fresh: Seq<char> = Seq::empty();
        let ghost s0 = self@;
        let mut st = State::Quiet;
        core::mem::swap(&mut st, &mut self.state);

        let st = match st {
            State::Quiet => {
                if hot {
                    let id = gen_id();
                    proof {
                        fresh = id@;
                    }
                    self.pending_buf.clear();
                    append_bytes(&mut self.pending_buf, self.last_chunk.as_slice());
                    let total_chunks: u64 = if self.last_chunk.len() == 0 { 0 } else { 1 };
                    State::Pending { id, total_chunks, consecutive_hot_chunks: 0 }
                } else {
                    State::Quiet
                }
            },
            other => other,
        };

        let st = match st {
            State::Pending { id, total_chunks, consecutive_hot_chunks } => {
                if !hot {
                    self.pending_buf.clear();
                    State::Quiet
                } else if consecutive_hot_chunks + 1 >= self.config.min_hot_chunks {
                    events.push(Event::Start { id });
                    let mut buf: Vec<u8> = Vec::new();
                    core::mem::swap(&mut buf, &mut self.pending_buf);
                    events.push(Event::Data(buf));
                    State::Active { total_chunks, consecutive_quiet_chunks: 0 }
                } else {
                    append_bytes(&mut self.pending_buf, chunk);
                    State::Pending {
                        id,
                        total_chunks: total_chunks + 1,
                        consecutive_hot_chunks: consecutive_hot_chunks + 1,
                    }
                }
            },
            other => other,
        };

        let st = match st {
            State::Active { total_chunks, consecutive_quiet_chunks } => {
                let total_chunks = total_chunks + 1;
                let mut data: Vec<u8> = Vec::new();
                append_bytes(&mut data, chunk);
                events.push(Event::Data(data));
                let consecutive_quiet_chunks = if hot { 0 } else { consecutive_quiet_chunks + 1 };
                if total_chunks >= self.config.max_total_chunks as u64
                    || consecutive_quiet_chunks >= self.config.max_quiet_chunks
                    || chunk.len() == 0
                {
                    events.push(Event::End);
                    State::Quiet
                } else {
                    State::Active { total_chunks, consecutive_quiet_chunks }
                }
            },
            other => other,
        };

        self.state = st;
        self.last_chunk.clear();
        append_bytes(&mut self.last_chunk, chunk);
        proof {
            let (next, expected) = step(self.config, s0, chunk@, fresh);
            assert(event_views(events@) =~= expected);
            assert(self@.phase == next.phase);
            assert(self@.pending_buf == next.pending_buf);
            assert(!opens_burst(self.config, s0, chunk@) ==> fresh == Seq::<char>::empty());
        }
        events
    }
}

} // verus!
