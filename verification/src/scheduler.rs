//! The engine's event scheduler: the queue of pending hits (kept sorted by
//! onset), the running sample clock, and the outbox of `VoiceFired` frames that
//! the host drains between render callbacks. Nothing here grows without bound:
//! the queue and the outbox have fixed capacities and drop rather than grow.

use crate::protocol::{encode_bits, frame_of, FRAME_LEN, TAG_VOICE_FIRED};
use crate::voice::{TrigEvent, Voice};
use vstd::prelude::*;

verus! {

/// Most hits that may wait in the queue; further hits are dropped.
pub const EVENT_QUEUE_CAP: usize = 256;

/// Most `VoiceFired` frames the outbox holds between drains.
pub const OUT_EVENT_CAP: usize = 256;

/// The hits of `q` are in nondecreasing order of onset.
pub open spec fn sorted_by_onset(q: Seq<TrigEvent>) -> bool {
    forall|i: int, j: int| 0 <= i <= j < q.len() ==> q[i].sample_index <= q[j].sample_index
}

/// `p` is where a hit with onset `t` goes in `q`: after every hit due at or
/// before `t`, before every later hit.
pub open spec fn insertion_point(q: Seq<TrigEvent>, t: usize, p: int) -> bool {
    &&& 0 <= p <= q.len()
    &&& forall|i: int| 0 <= i < p ==> q[i].sample_index <= t
    &&& forall|i: int| p <= i < q.len() ==> q[i].sample_index > t
}

/// The frame announcing that `voice` fired (accented or not).
pub open spec fn fired_frame(voice: Voice, accent: bool) -> Seq<u8> {
    frame_of(TAG_VOICE_FIRED, voice.id() as u8, if accent { 1u8 } else { 0u8 }, 0u32)
}

/// The outbox after hit `e` fires: its `VoiceFired` frame is appended while
/// the outbox has room for it, and dropped once the outbox is full.
pub open spec fn record_fired(outbox: Seq<u8>, e: TrigEvent) -> Seq<u8> {
    if outbox.len() + FRAME_LEN <= OUT_EVENT_CAP * FRAME_LEN {
        outbox + fired_frame(e.voice, e.accent)
    } else {
        outbox
    }
}

/// The outbox after the hits `fired` fire one after another, in order,
/// starting from `outbox`.
pub open spec fn outbox_after(outbox: Seq<u8>, fired: Seq<TrigEvent>) -> Seq<u8>
    decreases fired.len(),
{
    if fired.len() == 0 {
        outbox
    } else {
        record_fired(outbox_after(outbox, fired.drop_last()), fired.last())
    }
}

/// The `VoiceFired` frames of the hits `fired`, one after another, in order.
pub open spec fn fired_frames(fired: Seq<TrigEvent>) -> Seq<u8>
    decreases fired.len(),
{
    if fired.len() == 0 {
        Seq::empty()
    } else {
        fired_frames(fired.drop_last()) + fired_frame(fired.last().voice, fired.last().accent)
    }
}

/// The sample clock after one more sample (wraps at 2^64).
pub open spec fn tick_clock(now: u64) -> u64 {
    ((now as int + 1) % 0x1_0000_0000_0000_0000int) as u64
}

/// Pending hits, sample clock and outbox of one engine.
pub struct Scheduler {
    global_sample: u64,
    queue: Vec<TrigEvent>,
    out_events: Vec<u8>,
}

impl Scheduler {
    /// The index of the sample about to be rendered.
    pub closed spec fn clock(&self) -> u64 {
        self.global_sample
    }

    /// The hits waiting to fire, earliest first.
    pub closed spec fn pending(&self) -> Seq<TrigEvent> {
        self.queue@
    }

    /// The `VoiceFired` frames not yet drained, oldest first.
    pub closed spec fn outbox(&self) -> Seq<u8> {
        self.out_events@
    }

    /// The scheduler's invariant: the queue is sorted by onset and within its
    /// capacity; the outbox holds whole frames and is within its capacity.
    pub open spec fn wf(&self) -> bool {
        &&& sorted_by_onset(self.pending())
        &&& self.pending().len() <= EVENT_QUEUE_CAP
        &&& self.outbox().len() % 8 == 0
        &&& self.outbox().len() <= OUT_EVENT_CAP * FRAME_LEN
    }

    /// An idle scheduler at sample 0.
    pub fn new() -> (s: Self)
        ensures
            s.wf(),
            s.clock() == 0,
            s.pending() == Seq::<TrigEvent>::empty(),
            s.outbox() == Seq::<u8>::empty(),
    {
        Scheduler {
            global_sample: 0,
            queue: Vec::with_capacity(EVENT_QUEUE_CAP),
            out_events: Vec::with_capacity(OUT_EVENT_CAP * FRAME_LEN),
        }
    }

    /// Schedule a hit, keeping the queue sorted by onset; a hit whose onset
    /// equals queued ones goes after them. A full queue drops the hit.
    pub fn enqueue(&mut self, ev: TrigEvent)
        requires
            old(self).wf(),
        ensures
            final(self).wf(),
            final(self).clock() == old(self).clock(),
            final(self).outbox() == old(self).outbox(),
            old(self).pending().len() >= EVENT_QUEUE_CAP ==> final(self).pending() == old(
                self,
            ).pending(),
            old(self).pending().len() < EVENT_QUEUE_CAP ==> exists|p: int|
                #[trigger] insertion_point(old(self).pending(), ev.sample_index, p) && final(self).pending()
                    == old(self).pending().insert(p, ev),
    {
        if self.queue.len() >= EVENT_QUEUE_CAP {
            return;
        }
        let n = self.queue.len();
        let mut pos: usize = 0;
        while pos < n
            invariant
                n == self.queue@.len(),
                pos <= n,
                forall|i: int| 0 <= i < pos ==> self.queue@[i].sample_index <= ev.sample_index,
            ensures
                pos <= n,
                forall|i: int| 0 <= i < pos ==> self.queue@[i].sample_index <= ev.sample_index,
                pos == n || self.queue@[pos as int].sample_index > ev.sample_index,
            decreases n - pos,
        {
            if self.queue[pos].sample_index > ev.sample_index {
                break;
            }
            pos = pos + 1;
        }
        let ghost q = self.queue@;
        proof {
            assert(insertion_point(q, ev.sample_index, pos as int));
        }
        self.queue.insert(pos, ev);
        proof {
            let q2 = self.queue@;
            assert forall|i: int, j: int| 0 <= i <= j < q2.len() implies q2[i].sample_index
                <= q2[j].sample_index by {
                if i < pos && j > pos {
                    assert(q2[j] == q[j - 1]);
                } else if i == pos && j > pos {
                    assert(q2[j] == q[j - 1]);
                } else if i < pos && j == pos {
                } else if i > pos {
                    assert(q2[i] == q[i - 1]);
                    assert(q2[j] == q[j - 1]);
                }
            }
        }
    }

    /// Schedule a hit of `voice` at the current sample (it fires on the next
    /// rendered sample).
    pub fn trigger(&mut self, voice: Voice, accent: bool)
        requires
            old(self).wf(),
        ensures
            final(self).wf(),
            final(self).clock() == old(self).clock(),
            final(self).outbox() == old(self).outbox(),
            old(self).pending().len() >= EVENT_QUEUE_CAP ==> final(self).pending() == old(
                self,
            ).pending(),
            old(self).pending().len() < EVENT_QUEUE_CAP ==> exists|p: int|
                #[trigger] insertion_point(old(self).pending(), old(self).clock() as usize, p)
                    && final(self).pending() == old(self).pending().insert(
                    p,
                    TrigEvent { sample_index: old(self).clock() as usize, voice, accent },
                ),
    {
        let ev = TrigEvent { sample_index: self.global_sample as usize, voice, accent };
        self.enqueue(ev);
    }

    /// Take the earliest pending hit if it is due at the current sample (its
    /// onset is at or before the clock) and note it in the outbox as a
    /// `VoiceFired` frame, unless the outbox is full. Returns `None`, changing
    /// nothing, when no hit is due.
    pub fn fire_next_due(&mut self) -> (r: Option<TrigEvent>)
        requires
            old(self).wf(),
        ensures
            final(self).wf(),
            final(self).clock() == old(self).clock(),
            ({
                let q = old(self).pending();
                let due = q.len() > 0 && q[0].sample_index as int <= old(self).clock() as int;
                &&& due ==> r == Some(q[0])
                &&& due ==> final(self).pending() == q.drop_first()
                &&& due ==> final(self).outbox() == record_fired(old(self).outbox(), q[0])
                &&& !due ==> r is None && final(self).pending() == q && final(self).outbox()
                    == old(self).outbox()
            }),
            r matches Some(e) ==> forall|i: int|
                0 <= i < final(self).pending().len() ==> e.sample_index
                    <= #[trigger] final(self).pending()[i].sample_index,
    {
        if self.queue.len() == 0 {
            return None;
        }
        let front = self.queue[0];
        if front.sample_index as u64 > self.global_sample {
            return None;
        }
        let ghost q = self.queue@;
        let ev = self.queue.remove(0);
        assert(self.queue@ =~= q.drop_first());
        if self.out_events.len() + FRAME_LEN <= OUT_EVENT_CAP * FRAME_LEN {
            let f = encode_bits(TAG_VOICE_FIRED, ev.voice.idx() as u8, if ev.accent { 1 } else { 0 }, 0);
            let ghost o = self.out_events@;
            let ghost g = self.global_sample;
            for k in 0..FRAME_LEN
                invariant
                    f@ == fired_frame(ev.voice, ev.accent),
                    self.queue@ == q.drop_first(),
                    self.global_sample == g,
                    self.out_events@ == o + f@.take(k as int),
            {
                self.out_events.push(f[k]);
                assert(f@.take(k + 1) =~= f@.take(k as int).push(f@[k as int]));
            }
            assert(f@.take(8) =~= f@);
        }
        Some(ev)
    }

    /// Move the clock on by one sample (wrapping at 2^64).
    pub fn advance(&mut self)
        requires
            old(self).wf(),
        ensures
            final(self).wf(),
            final(self).clock() == tick_clock(old(self).clock()),
            final(self).pending() == old(self).pending(),
            final(self).outbox() == old(self).outbox(),
    {
        self.global_sample = self.global_sample.wrapping_add(1);
    }

    /// Hand over every queued `VoiceFired` frame, leaving the outbox empty.
    pub fn drain_events(&mut self) -> (r: Vec<u8>)
        requires
            old(self).wf(),
        ensures
            final(self).wf(),
            r@ == old(self).outbox(),
            final(self).outbox() == Seq::<u8>::empty(),
            final(self).clock() == old(self).clock(),
            final(self).pending() == old(self).pending(),
    {
        let mut taken: Vec<u8> = Vec::new();
        std::mem::swap(&mut taken, &mut self.out_events);
        taken
    }
}

/// Where a hit goes in the queue is determined by its onset alone: there is
/// exactly one insertion point, so scheduling is deterministic and a hit
/// triggered now lands exactly where the same hit enqueued for this sample
/// would.
pub proof fn lemma_insertion_point_unique(q: Seq<TrigEvent>, t: usize, p1: int, p2: int)
    requires
        insertion_point(q, t, p1),
        insertion_point(q, t, p2),
    ensures
        p1 == p2,
{
    if p1 < p2 {
        assert(q[p1].sample_index > t);
        assert(q[p1].sample_index <= t);
    } else if p2 < p1 {
        assert(q[p2].sample_index > t);
        assert(q[p2].sample_index <= t);
    }
}

proof fn lemma_fired_frames_len(fired: Seq<TrigEvent>)
    ensures
        fired_frames(fired).len() == 8 * fired.len(),
    decreases fired.len(),
{
    if fired.len() > 0 {
        lemma_fired_frames_len(fired.drop_last());
    }
}

/// What the host drains after a run of firings: starting from an empty outbox
/// (a fresh scheduler, or just after `drain_events`), hits that fire in the
/// order `fired` leave exactly the `VoiceFired` frames of the first
/// min(k, 256) of them, in firing order; hits past the 256th still fire but
/// leave no frame.
pub proof fn lemma_outbox_after_firings(fired: Seq<TrigEvent>)
    ensures
        fired.len() <= OUT_EVENT_CAP ==> outbox_after(Seq::empty(), fired) == fired_frames(fired),
        fired.len() > OUT_EVENT_CAP ==> outbox_after(Seq::empty(), fired) == fired_frames(
            fired.take(OUT_EVENT_CAP as int),
        ),
        outbox_after(Seq::empty(), fired).len() % 8 == 0,
        outbox_after(Seq::empty(), fired).len() <= OUT_EVENT_CAP * FRAME_LEN,
    decreases fired.len(),
{
    if fired.len() > 0 {
        let p = fired.drop_last();
        lemma_outbox_after_firings(p);
        if p.len() < OUT_EVENT_CAP {
            lemma_fired_frames_len(p);
            assert(fired.len() <= OUT_EVENT_CAP);
        } else if p.len() == OUT_EVENT_CAP {
            lemma_fired_frames_len(p);
            assert(p =~= fired.take(OUT_EVENT_CAP as int));
        } else {
            lemma_fired_frames_len(p.take(OUT_EVENT_CAP as int));
            assert(p.take(OUT_EVENT_CAP as int) =~= fired.take(OUT_EVENT_CAP as int));
        }
        lemma_fired_frames_len(fired.take(OUT_EVENT_CAP as int));
    }
}

/// The clock reached after `n` samples from a fresh scheduler.
pub open spec fn clock_after(n: nat) -> u64
    decreases n,
{
    if n == 0 {
        0
    } else {
        tick_clock(clock_after((n - 1) as nat))
    }
}

/// The sample clock counts every sample: one advance adds one, and only the
/// largest 64-bit value wraps back to 0.
pub proof fn lemma_clock_counts(now: u64)
    ensures
        now < u64::MAX ==> tick_clock(now) == now + 1,
        now == u64::MAX ==> tick_clock(now) == 0,
{
}

/// From a fresh scheduler, `n` advances (n < 2^64) leave the clock at `n`, so
/// a hit scheduled at any onset is reached.
pub proof fn lemma_clock_after_n_samples(n: nat)
    requires
        n <= u64::MAX,
    ensures
        clock_after(n) == n,
    decreases n,
{
    if n > 0 {
        lemma_clock_after_n_samples((n - 1) as nat);
        lemma_clock_counts(clock_after((n - 1) as nat));
    }
}

} // verus!
