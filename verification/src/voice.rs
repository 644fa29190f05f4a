//! The seven voices of the kit and the scheduled-hit record.

use vstd::prelude::*;

verus! {

/// Number of voices in the kit.
pub const VOICE_COUNT: usize = 7;

/// The seven voices, in kit order. A voice's position in this list is its wire
/// id in the control protocol.
#[derive(Clone, Copy, PartialEq, Eq, Debug, Structural)]
pub enum Voice {
    /// Bass drum.
    Bd,
    /// Snare drum.
    Sd,
    /// Low tom.
    Lt,
    /// High tom.
    Ht,
    /// Cymbal.
    Cy,
    /// Open hat.
    Oh,
    /// Closed hat.
    Ch,
}

impl Voice {
    /// The wire id of a voice: its position in kit order.
    pub open spec fn id(self) -> nat {
        match self {
            Voice::Bd => 0,
            Voice::Sd => 1,
            Voice::Lt => 2,
            Voice::Ht => 3,
            Voice::Cy => 4,
            Voice::Oh => 5,
            Voice::Ch => 6,
        }
    }

    /// The voice with wire id `id`, or `None` for an id outside the kit.
    pub fn from_id(id: u8) -> (r: Option<Voice>)
        ensures
            r is Some <==> id < VOICE_COUNT,
            r matches Some(v) ==> v.id() == id,
    {
        match id {
            0 => Some(Voice::Bd),
            1 => Some(Voice::Sd),
            2 => Some(Voice::Lt),
            3 => Some(Voice::Ht),
            4 => Some(Voice::Cy),
            5 => Some(Voice::Oh),
            6 => Some(Voice::Ch),
            _ => None,
        }
    }

    /// The voice's slot index (equal to its wire id).
    pub fn idx(self) -> (i: usize)
        ensures
            i == self.id(),
            i < VOICE_COUNT,
    {
        match self {
            Voice::Bd => 0,
            Voice::Sd => 1,
            Voice::Lt => 2,
            Voice::Ht => 3,
            Voice::Cy => 4,
            Voice::Oh => 5,
            Voice::Ch => 6,
        }
    }
}

/// Wire ids and voices correspond one to one: every voice's id is below the
/// voice count and distinct voices have distinct ids, so (by `from_id`'s
/// contract) `from_id` of a voice's id gives that voice back.
pub proof fn lemma_voice_ids_distinct(v: Voice, w: Voice)
    ensures
        v.id() < VOICE_COUNT,
        v.id() == w.id() ==> v == w,
{
}

/// One scheduled hit: fire `voice` (accented or not) at `sample_index`.
#[derive(Clone, Copy, Debug)]
pub struct TrigEvent {
    pub sample_index: usize,
    pub voice: Voice,
    pub accent: bool,
}

/// The hits of `events` that belong to `voice`, in their original order.
pub open spec fn hits_of(events: Seq<TrigEvent>, voice: Voice) -> Seq<TrigEvent> {
    events.filter(|e: TrigEvent| e.voice == voice)
}

/// Keep only the hits of `voice`, preserving order (what an isolated
/// single-voice render is scheduled from).
pub fn events_for_voice(events: &Vec<TrigEvent>, voice: Voice) -> (r: Vec<TrigEvent>)
    ensures
        r@ == hits_of(events@, voice),
{
    let mut r: Vec<TrigEvent> = Vec::new();
    let n = events.len();
    for i in 0..n
        invariant
            n == events@.len(),
            r@ == hits_of(events@.take(i as int), voice),
    {
        proof {
            assert(events@.take(i + 1).drop_last() =~= events@.take(i as int));
            reveal_with_fuel(Seq::filter, 1);
        }
        let e = events[i];
        if e.voice == voice {
            r.push(e);
        }
    }
    proof {
        assert(events@.take(n as int) =~= events@);
    }
    r
}

} // verus!
