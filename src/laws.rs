use vstd::prelude::*;

use crate::seg::{
    begin_burst, ends_segment, feed_segment, initial_view, opens_burst, peak, quiet, settle_burst, step, Config,
    EngineView, EventView, Phase,
};

verus! {

/// The engine run from `s` over `chunks`, one call per chunk; `ids[i]` names a
/// burst that `chunks[i]` opens. The state after the last call, and all events.
pub open spec fn run(cfg: Config, s: EngineView, chunks: Seq<Seq<u8>>, ids: Seq<Seq<char>>) -> (
    EngineView,
    Seq<EventView>,
)
    decreases chunks.len(),
{
    if chunks.len() == 0 {
        (s, Seq::empty())
    } else {
        let (s1, e1) = step(cfg, s, chunks[0], ids[0]);
        let (s2, e2) = run(cfg, s1, chunks.drop_first(), ids.drop_first());
        (s2, e1 + e2)
    }
}

/// The bytes of the `Data` events, in order.
pub open spec fn payload(events: Seq<EventView>) -> Seq<u8>
    decreases events.len(),
{
    if events.len() == 0 {
        Seq::empty()
    } else {
        let rest = payload(events.drop_first());
        match events[0] {
            EventView::Data(bytes) => bytes + rest,
            _ => rest,
        }
    }
}

/// The buffer is in use exactly while a burst is pending.
pub open spec fn buffer_matches_phase(s: EngineView) -> bool {
    s.pending_buf.len() == 0 <==> !(s.phase is Pending)
}

/// Bytes held back for the segment that a pending burst may become.
pub open spec fn carried(s: EngineView) -> Seq<u8> {
    if s.phase is Pending {
        s.pending_buf
    } else {
        Seq::empty()
    }
}

/// Whether `events` keep the protocol, starting with a segment open or not:
/// `Start` only while none is open, `Data` and `End` only while one is, and
/// `End` closes it.
pub open spec fn keeps_protocol(open: bool, events: Seq<EventView>) -> bool
    decreases events.len(),
{
    if events.len() == 0 {
        true
    } else {
        let rest = events.drop_first();
        match events[0] {
            EventView::Start { .. } => !open && keeps_protocol(true, rest),
            EventView::Data(_) => open && keeps_protocol(open, rest),
            EventView::End => open && keeps_protocol(false, rest),
        }
    }
}

/// Whether a segment is open after `events`, starting from `open`.
pub open spec fn open_after(open: bool, events: Seq<EventView>) -> bool
    decreases events.len(),
{
    if events.len() == 0 {
        open
    } else {
        let rest = events.drop_first();
        match events[0] {
            EventView::Start { .. } => open_after(true, rest),
            EventView::Data(_) => open_after(open, rest),
            EventView::End => open_after(false, rest),
        }
    }
}

/// Calls on `chunks` from `s` leave a burst or segment in progress after each
/// call but the last, and the last call's events end with `End`.
pub open spec fn lasts_until_end(cfg: Config, s: EngineView, chunks: Seq<Seq<u8>>, ids: Seq<Seq<char>>) -> bool
    decreases chunks.len(),
{
    if chunks.len() == 0 {
        false
    } else {
        let (s1, e1) = step(cfg, s, chunks[0], ids[0]);
        if chunks.len() == 1 {
            e1.len() > 0 && e1.last() is End
        } else {
            !(s1.phase is Quiet) && lasts_until_end(cfg, s1, chunks.drop_first(), ids.drop_first())
        }
    }
}

/// Whether, once the pending burst (if any) is settled, an open segment ends
/// with `chunk`.
pub open spec fn closes_segment(cfg: Config, s: EngineView, chunk: Seq<u8>, fresh: Seq<char>) -> bool {
    let s2 = settle_burst(cfg, begin_burst(cfg, s, chunk, fresh), chunk).0;
    match s2.phase {
        Phase::Active { total, quiet: q } => ends_segment(
            cfg,
            total + 1,
            if quiet(chunk, cfg.threshold) { q + 1 } else { 0 },
            chunk,
        ),
        _ => false,
    }
}

proof fn lemma_payload_concat(a: Seq<EventView>, b: Seq<EventView>)
    ensures
        payload(a + b) == payload(a) + payload(b),
    decreases a.len(),
{
    if a.len() == 0 {
        assert(a + b =~= b);
    } else {
        assert((a + b).drop_first() =~= a.drop_first() + b);
        lemma_payload_concat(a.drop_first(), b);
        match a[0] {
            EventView::Data(bytes) => {
                assert(bytes + payload(a.drop_first()) + payload(b) =~= bytes + (payload(
                    a.drop_first(),
                ) + payload(b)));
            },
            _ => {},
        }
    }
}

/// The bytes that one event carries.
pub open spec fn datum(e: EventView) -> Seq<u8> {
    match e {
        EventView::Data(bytes) => bytes,
        _ => Seq::empty(),
    }
}

broadcast proof fn lemma_payload_push(a: Seq<EventView>, e: EventView)
    ensures
        #[trigger] payload(a.push(e)) == payload(a) + datum(e),
{
    let one = Seq::<EventView>::empty().push(e);
    assert(one.drop_first() =~= Seq::<EventView>::empty());
    assert(payload(one.drop_first()) == Seq::<u8>::empty());
    assert(payload(one) =~= datum(e));
    assert(a.push(e) =~= a + one);
    lemma_payload_concat(a, one);
}

proof fn lemma_payload_empty()
    ensures
        payload(Seq::<EventView>::empty()) == Seq::<u8>::empty(),
{
}

/// One call on a burst or segment in progress that does not drop it: the
/// bytes it emits, followed by what it then holds back, are what it held back
/// before followed by the chunk.
proof fn lemma_step_in_progress(cfg: Config, s: EngineView, x: Seq<u8>, f: Seq<char>)
    requires
        !(s.phase is Quiet),
        ({
            let (s1, e1) = step(cfg, s, x, f);
            !(s1.phase is Quiet) || (e1.len() > 0 && e1.last() is End)
        }),
    ensures
        ({
            let (s1, e1) = step(cfg, s, x, f);
            &&& payload(e1) + carried(s1) == carried(s) + x
            &&& s1.phase is Pending ==> e1.len() == 0 && s.phase is Pending && s1.phase->Pending_id
                == s.phase->Pending_id
            &&& s1.phase is Quiet ==> e1.len() > 0 && e1.last() is End
            &&& s1.phase is Active ==> forall|i: int| 0 <= i < e1.len() ==> !(#[trigger] e1[i] is End)
            &&& s.phase is Pending && e1.len() > 0 ==> e1[0] == (EventView::Start {
                id: s.phase->Pending_id,
            }) && forall|i: int| 0 < i < e1.len() - 1 ==> #[trigger] e1[i] is Data
            &&& s.phase is Active ==> forall|i: int| 0 <= i < e1.len() - 1 ==> #[trigger] e1[i] is Data
        }),
{
    broadcast use lemma_payload_push;

    lemma_payload_empty();
    let (s1, e1) = step(cfg, s, x, f);
    let (s2, e2) = settle_burst(cfg, s, x);
    assert(begin_burst(cfg, s, x, f) == s);
    match s.phase {
        Phase::Pending { id, total, hot } => {
            if quiet(x, cfg.threshold) {
                assert(e1 =~= Seq::<EventView>::empty());
            } else if hot + 1 >= cfg.min_hot_chunks {
                let p = s.pending_buf;
                let h0 = Seq::<EventView>::empty().push(EventView::Start { id });
                let head = h0.push(EventView::Data(p));
                lemma_payload_push(Seq::<EventView>::empty(), EventView::Start { id });
                lemma_payload_push(h0, EventView::Data(p));
                assert(payload(head) =~= p);
                assert(e2 =~= head);
                if s1.phase is Quiet {
                    assert(e1 =~= head.push(EventView::Data(x)).push(EventView::End));
                    assert(payload(e1) =~= p + x);
                    assert(carried(s1) =~= Seq::<u8>::empty());
                    assert(payload(e1) + carried(s1) =~= carried(s) + x);
                } else {
                    assert(e1 =~= head.push(EventView::Data(x)));
                    assert(payload(e1) =~= p + x);
                    assert(payload(e1) + carried(s1) =~= carried(s) + x);
                }
            } else {
                assert(e1 =~= Seq::<EventView>::empty());
                assert(payload(e1) + carried(s1) =~= carried(s) + x);
            }
        },
        _ => {
            if s1.phase is Quiet {
                assert(e1 =~= seq![EventView::Data(x)].push(EventView::End));
                assert(payload(e1) =~= x);
            } else {
                assert(e1 =~= seq![EventView::Data(x)]);
                assert(payload(e1) =~= x);
            }
            assert(payload(e1) + carried(s1) =~= carried(s) + x);
        },
    }
}

proof fn lemma_segment_in_progress(cfg: Config, s: EngineView, xs: Seq<Seq<u8>>, ids: Seq<Seq<char>>)
    requires
        !(s.phase is Quiet),
        lasts_until_end(cfg, s, xs, ids),
    ensures
        ({
            let (s2, evs) = run(cfg, s, xs, ids);
            &&& payload(evs) == carried(s) + xs.flatten()
            &&& evs.len() > 0
            &&& evs.last() is End
            &&& s2.phase is Quiet
            &&& s.phase is Pending ==> evs[0] == (EventView::Start { id: s.phase->Pending_id })
                && forall|i: int| 0 < i < evs.len() - 1 ==> #[trigger] evs[i] is Data
            &&& s.phase is Active ==> forall|i: int| 0 <= i < evs.len() - 1 ==> #[trigger] evs[i] is Data
        }),
    decreases xs.len(),
{
    let (s1, e1) = step(cfg, s, xs[0], ids[0]);
    let rest = xs.drop_first();
    let rest_ids = ids.drop_first();
    let (s2, e2) = run(cfg, s1, rest, rest_ids);
    let evs = run(cfg, s, xs, ids).1;
    assert(evs == e1 + e2);
    lemma_step_in_progress(cfg, s, xs[0], ids[0]);
    lemma_payload_concat(e1, e2);
    if xs.len() == 1 {
        assert(rest.len() == 0);
        assert(e2 == Seq::<EventView>::empty());
        assert(evs =~= e1);
        assert(rest.flatten() == Seq::<u8>::empty());
        assert(payload(evs) + carried(s1) =~= payload(evs));
        assert(xs.flatten() =~= xs[0]);
        assert(s1.phase is Quiet);
    } else {
        lemma_segment_in_progress(cfg, s1, rest, rest_ids);
        assert(xs.flatten() == xs[0] + rest.flatten());
        assert(payload(evs) =~= carried(s) + xs.flatten());
        if s1.phase is Pending {
            assert(evs =~= e2);
        }
        assert(evs.last() == e2.last());
    }
}

/// Every segment is whole and ends once: take the calls from the chunk that
/// opens a burst through the call whose events end with `End`, with a burst
/// or segment in progress after each call before it. Their events are one
/// `Start` with the burst's name, then only `Data`, then the one `End`; and the
/// `Data` bytes are the pre-roll chunk (the chunk before the burst, if any)
/// followed by every chunk of those calls, with no gap and no repetition.
pub proof fn lemma_segment_is_complete(cfg: Config, s: EngineView, chunks: Seq<Seq<u8>>, ids: Seq<Seq<char>>)
    requires
        chunks.len() > 0,
        opens_burst(cfg, s, chunks[0]),
        lasts_until_end(cfg, s, chunks, ids),
    ensures
        ({
            let (after, events) = run(cfg, s, chunks, ids);
            &&& events.len() >= 2
            &&& events[0] == (EventView::Start { id: ids[0] })
            &&& forall|i: int| 0 < i < events.len() - 1 ==> #[trigger] events[i] is Data
            &&& events.last() is End
            &&& after.phase is Quiet
            &&& payload(events) == s.last_chunk + chunks.flatten()
        }),
{
    let b = begin_burst(cfg, s, chunks[0], ids[0]);
    assert(begin_burst(cfg, b, chunks[0], ids[0]) == b);
    assert(step(cfg, b, chunks[0], ids[0]) == step(cfg, s, chunks[0], ids[0]));
    assert(run(cfg, b, chunks, ids) == run(cfg, s, chunks, ids));
    assert(lasts_until_end(cfg, b, chunks, ids));
    lemma_segment_in_progress(cfg, b, chunks, ids);
}

proof fn lemma_protocol_concat(open: bool, a: Seq<EventView>, b: Seq<EventView>)
    ensures
        keeps_protocol(open, a + b) == (keeps_protocol(open, a) && keeps_protocol(open_after(open, a), b)),
        open_after(open, a + b) == open_after(open_after(open, a), b),
    decreases a.len(),
{
    if a.len() == 0 {
        assert(a + b =~= b);
    } else {
        assert((a + b).drop_first() =~= a.drop_first() + b);
        match a[0] {
            EventView::Start { .. } => lemma_protocol_concat(true, a.drop_first(), b),
            EventView::Data(_) => lemma_protocol_concat(open, a.drop_first(), b),
            EventView::End => lemma_protocol_concat(false, a.drop_first(), b),
        }
    }
}

proof fn lemma_step_keeps_protocol(cfg: Config, s: EngineView, chunk: Seq<u8>, fresh: Seq<char>)
    ensures
        keeps_protocol(s.phase is Active, step(cfg, s, chunk, fresh).1),
        open_after(s.phase is Active, step(cfg, s, chunk, fresh).1) == step(cfg, s, chunk, fresh).0.phase is Active,
{
    reveal_with_fuel(keeps_protocol, 5);
    reveal_with_fuel(open_after, 5);
    let events = step(cfg, s, chunk, fresh).1;
    let s1 = begin_burst(cfg, s, chunk, fresh);
    let (s2, e2) = settle_burst(cfg, s1, chunk);
    let (s3, e3) = feed_segment(cfg, s2, chunk);
    assert(events == e2 + e3);
    lemma_protocol_concat(s.phase is Active, e2, e3);
    if e2.len() > 0 {
        assert(e2.drop_first().drop_first() =~= Seq::<EventView>::empty());
    }
    if e3.len() == 2 {
        assert(e3.drop_first().drop_first() =~= Seq::<EventView>::empty());
    } else if e3.len() == 1 {
        assert(e3.drop_first() =~= Seq::<EventView>::empty());
    }
}

proof fn lemma_run_keeps_protocol(cfg: Config, s: EngineView, chunks: Seq<Seq<u8>>, ids: Seq<Seq<char>>)
    ensures
        keeps_protocol(s.phase is Active, run(cfg, s, chunks, ids).1),
        open_after(s.phase is Active, run(cfg, s, chunks, ids).1) == run(cfg, s, chunks, ids).0.phase is Active,
    decreases chunks.len(),
{
    if chunks.len() > 0 {
        let (s1, e1) = step(cfg, s, chunks[0], ids[0]);
        let (s2, e2) = run(cfg, s1, chunks.drop_first(), ids.drop_first());
        lemma_step_keeps_protocol(cfg, s, chunks[0], ids[0]);
        lemma_run_keeps_protocol(cfg, s1, chunks.drop_first(), ids.drop_first());
        lemma_protocol_concat(s.phase is Active, e1, e2);
    }
}

/// From a fresh start, whatever the chunks, the events keep the protocol: a
/// `Start` comes only while no segment is open, `Data` and `End` only while
/// one is, and every `End` closes the segment that the last `Start` opened.
/// A segment is open at the end exactly when the engine is active.
pub proof fn lemma_events_keep_protocol(cfg: Config, chunks: Seq<Seq<u8>>, ids: Seq<Seq<char>>)
    ensures
        keeps_protocol(false, run(cfg, initial_view(), chunks, ids).1),
        open_after(false, run(cfg, initial_view(), chunks, ids).1) == run(
            cfg,
            initial_view(),
            chunks,
            ids,
        ).0.phase is Active,
{
    lemma_run_keeps_protocol(cfg, initial_view(), chunks, ids);
}

/// From a quiet state, a burst of hot chunks that turns quiet before
/// it has `min_hot_chunks` hot chunks emits nothing (in particular no `Start`)
/// and leaves the engine quiet.
pub proof fn lemma_short_burst_is_dropped(cfg: Config, s: EngineView, chunks: Seq<Seq<u8>>, ids: Seq<Seq<char>>)
    requires
        s.phase is Quiet,
        chunks.len() >= 2,
        forall|i: int| 0 <= i < chunks.len() - 1 ==> !quiet(#[trigger] chunks[i], cfg.threshold),
        quiet(chunks.last(), cfg.threshold),
        chunks.len() - 1 < cfg.min_hot_chunks,
    ensures
        run(cfg, s, chunks, ids).1.len() == 0,
        run(cfg, s, chunks, ids).0.phase is Quiet,
{
    let (s1, e1) = step(cfg, s, chunks[0], ids[0]);
    assert(e1 =~= Seq::<EventView>::empty());
    lemma_pending_burst_dropped(cfg, s1, chunks.drop_first(), ids.drop_first());
}

proof fn lemma_pending_burst_dropped(cfg: Config, s: EngineView, chunks: Seq<Seq<u8>>, ids: Seq<Seq<char>>)
    requires
        s.phase is Pending,
        chunks.len() >= 1,
        forall|i: int| 0 <= i < chunks.len() - 1 ==> !quiet(#[trigger] chunks[i], cfg.threshold),
        quiet(chunks.last(), cfg.threshold),
        s.phase->Pending_hot + chunks.len() - 1 < cfg.min_hot_chunks,
    ensures
        run(cfg, s, chunks, ids).1.len() == 0,
        run(cfg, s, chunks, ids).0.phase is Quiet,
    decreases chunks.len(),
{
    let (s1, e1) = step(cfg, s, chunks[0], ids[0]);
    let rest = chunks.drop_first();
    assert(e1 =~= Seq::<EventView>::empty());
    if chunks.len() == 1 {
        assert(rest.len() == 0);
    } else {
        assert(rest.last() == chunks.last());
        assert(forall|i: int| 0 <= i < rest.len() - 1 ==> rest[i] == chunks[i + 1]);
        lemma_pending_burst_dropped(cfg, s1, rest, ids.drop_first());
    }
}

/// An empty chunk is never louder than a threshold of zero or more.
pub proof fn lemma_empty_chunk_is_quiet(chunk: Seq<u8>, threshold: i16)
    requires
        chunk.len() == 0,
        threshold >= 0,
    ensures
        quiet(chunk, threshold),
{
    assert(peak(chunk) == 0);
}

/// With a threshold of zero or more, each call keeps the pending buffer empty
/// unless a burst is pending, and non-empty while one is.
pub proof fn lemma_step_keeps_buffer_matching_phase(
    cfg: Config,
    s: EngineView,
    chunk: Seq<u8>,
    fresh: Seq<char>,
)
    requires
        cfg.threshold >= 0,
        buffer_matches_phase(s),
    ensures
        buffer_matches_phase(step(cfg, s, chunk, fresh).0),
{
    if !quiet(chunk, cfg.threshold) && chunk.len() == 0 {
        lemma_empty_chunk_is_quiet(chunk, cfg.threshold);
    }
}

/// With a threshold of zero or more, in every state that the engine reaches
/// from a fresh start, the pending buffer is empty exactly when no burst is
/// pending.
pub proof fn lemma_buffer_matches_phase(cfg: Config, chunks: Seq<Seq<u8>>, ids: Seq<Seq<char>>)
    requires
        cfg.threshold >= 0,
    ensures
        buffer_matches_phase(run(cfg, initial_view(), chunks, ids).0),
{
    lemma_run_keeps_buffer_matching_phase(cfg, initial_view(), chunks, ids);
}

proof fn lemma_run_keeps_buffer_matching_phase(
    cfg: Config,
    s: EngineView,
    chunks: Seq<Seq<u8>>,
    ids: Seq<Seq<char>>,
)
    requires
        cfg.threshold >= 0,
        buffer_matches_phase(s),
    ensures
        buffer_matches_phase(run(cfg, s, chunks, ids).0),
    decreases chunks.len(),
{
    if chunks.len() > 0 {
        lemma_step_keeps_buffer_matching_phase(cfg, s, chunks[0], ids[0]);
        let s1 = step(cfg, s, chunks[0], ids[0]).0;
        lemma_run_keeps_buffer_matching_phase(cfg, s1, chunks.drop_first(), ids.drop_first());
    }
}

/// Once a segment is open, a hot chunk sets the quiet streak back to zero,
/// however long it was; the segment then stays open unless this chunk fills
/// it or is empty, or no quiet streak at all is allowed.
pub proof fn lemma_hot_chunk_resets_quiet_streak(
    cfg: Config,
    s: EngineView,
    chunk: Seq<u8>,
    fresh: Seq<char>,
)
    requires
        s.phase is Active,
        !quiet(chunk, cfg.threshold),
    ensures
        ({
            let next = step(cfg, s, chunk, fresh).0;
            let total = s.phase->Active_total;
            &&& next.phase is Active ==> next.phase == (Phase::Active { total: total + 1, quiet: 0 })
            &&& next.phase is Quiet ==> total + 1 >= cfg.max_total_chunks || chunk.len() == 0
                || cfg.max_quiet_chunks == 0
            &&& next.phase is Active || next.phase is Quiet
        }),
{
}

/// A call emits `End` exactly when a segment is open once the pending burst
/// is settled and this chunk fills it, completes its quiet streak, or is
/// empty; and then `End` comes once, as the last event of the call.
pub proof fn lemma_end_rule(cfg: Config, s: EngineView, chunk: Seq<u8>, fresh: Seq<char>)
    ensures
        ({
            let events = step(cfg, s, chunk, fresh).1;
            &&& (exists|i: int| 0 <= i < events.len() && #[trigger] events[i] is End) <==> closes_segment(
                cfg,
                s,
                chunk,
                fresh,
            )
            &&& closes_segment(cfg, s, chunk, fresh) ==> events.last() is End
            &&& forall|i: int| 0 <= i < events.len() - 1 ==> !(#[trigger] events[i] is End)
        }),
{
    let events = step(cfg, s, chunk, fresh).1;
    if closes_segment(cfg, s, chunk, fresh) {
        assert(events[events.len() - 1] is End);
    }
}

} // verus!
