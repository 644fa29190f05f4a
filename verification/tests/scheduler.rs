use dsp_core::protocol::{encode_bits, TAG_VOICE_FIRED};
use dsp_core::scheduler::{EVENT_QUEUE_CAP, OUT_EVENT_CAP};
use dsp_core::{Scheduler, TrigEvent, Voice};

fn ev(t: usize, v: Voice, accent: bool) -> TrigEvent {
    TrigEvent { sample_index: t, voice: v, accent }
}

/// Run `n` samples, collecting (sample, voice, accent) of every fired hit.
fn run(s: &mut Scheduler, n: usize) -> Vec<(usize, Voice, bool)> {
    let mut fired = Vec::new();
    for i in 0..n {
        while let Some(e) = s.fire_next_due() {
            fired.push((i, e.voice, e.accent));
        }
        s.advance();
    }
    fired
}

#[test]
fn hits_fire_in_onset_order_at_their_sample() {
    let mut s = Scheduler::new();
    s.enqueue(ev(5, Voice::Sd, false));
    s.enqueue(ev(2, Voice::Bd, true));
    s.enqueue(ev(8, Voice::Ch, false));
    let fired = run(&mut s, 10);
    assert_eq!(fired, vec![(2, Voice::Bd, true), (5, Voice::Sd, false), (8, Voice::Ch, false)]);
}

#[test]
fn equal_onsets_fire_in_arrival_order() {
    let mut s = Scheduler::new();
    s.enqueue(ev(3, Voice::Lt, false));
    s.enqueue(ev(3, Voice::Ht, false));
    s.enqueue(ev(1, Voice::Cy, false));
    s.enqueue(ev(3, Voice::Oh, true));
    let fired = run(&mut s, 5);
    assert_eq!(
        fired,
        vec![(1, Voice::Cy, false), (3, Voice::Lt, false), (3, Voice::Ht, false), (3, Voice::Oh, true)]
    );
}

#[test]
fn trigger_fires_at_the_current_sample() {
    let mut s = Scheduler::new();
    run(&mut s, 4);
    s.trigger(Voice::Bd, true);
    let e = s.fire_next_due().expect("triggered hit is due at once");
    assert_eq!((e.sample_index, e.voice, e.accent), (4, Voice::Bd, true));
    assert!(s.fire_next_due().is_none());
}

#[test]
fn late_hits_fire_immediately() {
    let mut s = Scheduler::new();
    run(&mut s, 10);
    s.enqueue(ev(3, Voice::Sd, false));
    assert!(s.fire_next_due().is_some());
}

#[test]
fn nothing_fires_before_its_onset() {
    let mut s = Scheduler::new();
    s.enqueue(ev(1, Voice::Sd, false));
    assert!(s.fire_next_due().is_none());
    s.advance();
    assert!(s.fire_next_due().is_some());
}

#[test]
fn full_queue_drops_new_hits() {
    let mut s = Scheduler::new();
    for i in 0..EVENT_QUEUE_CAP + 10 {
        s.enqueue(ev(i, Voice::Bd, false));
    }
    let fired = run(&mut s, EVENT_QUEUE_CAP + 20);
    assert_eq!(fired.len(), EVENT_QUEUE_CAP);
    assert_eq!(fired.last().unwrap().0, EVENT_QUEUE_CAP - 1);
}

#[test]
fn fired_hits_are_reported_as_frames() {
    let mut s = Scheduler::new();
    s.enqueue(ev(0, Voice::Sd, true));
    s.enqueue(ev(0, Voice::Ch, false));
    run(&mut s, 1);
    let out = s.drain_events();
    let mut want = encode_bits(TAG_VOICE_FIRED, Voice::Sd as u8, 1, 0).to_vec();
    want.extend_from_slice(&encode_bits(TAG_VOICE_FIRED, Voice::Ch as u8, 0, 0));
    assert_eq!(out, want);
    assert!(s.drain_events().is_empty());
}

#[test]
fn outbox_stops_at_capacity() {
    let mut s = Scheduler::new();
    for _ in 0..(OUT_EVENT_CAP + 44) / 100 + 3 {
        for _ in 0..100 {
            s.trigger(Voice::Bd, false);
        }
        while s.fire_next_due().is_some() {}
    }
    assert_eq!(s.drain_events().len(), OUT_EVENT_CAP * 8);
    s.trigger(Voice::Oh, false);
    s.fire_next_due();
    assert_eq!(s.drain_events().len(), 8);
}

#[test]
fn trigger_now_matches_enqueue_at_the_clock() {
    let mut a = Scheduler::new();
    let mut b = Scheduler::new();
    for s in [&mut a, &mut b] {
        s.enqueue(ev(2, Voice::Sd, false));
        s.enqueue(ev(9, Voice::Ch, false));
        s.advance();
        s.advance();
        s.advance();
    }
    a.trigger(Voice::Oh, true);
    b.enqueue(ev(3, Voice::Oh, true));
    assert_eq!(run(&mut a, 12), run(&mut b, 12));
    assert_eq!(a.drain_events(), b.drain_events());
}

#[test]
fn outbox_after_a_run_of_firings_holds_the_first_256_frames_in_order() {
    let mut s = Scheduler::new();
    let voices = [Voice::Bd, Voice::Sd, Voice::Lt, Voice::Ht, Voice::Cy, Voice::Oh, Voice::Ch];
    let mut want = Vec::new();
    let mut fired = 0;
    for round in 0..3 {
        for i in 0..100 {
            let v = voices[(round * 100 + i) % 7];
            let accent = i % 3 == 0;
            s.trigger(v, accent);
            if fired < OUT_EVENT_CAP {
                want.extend_from_slice(&encode_bits(TAG_VOICE_FIRED, v as u8, accent as u8, 0));
            }
            fired += 1;
        }
        while s.fire_next_due().is_some() {}
        s.advance();
    }
    let out = s.drain_events();
    assert_eq!(out.len(), OUT_EVENT_CAP * 8);
    assert_eq!(out, want);
}
