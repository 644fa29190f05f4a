use dsp_core::{events_for_voice, TrigEvent, Voice, VOICE_COUNT};

#[test]
fn from_id_maps_kit_order() {
    let all = [Voice::Bd, Voice::Sd, Voice::Lt, Voice::Ht, Voice::Cy, Voice::Oh, Voice::Ch];
    assert_eq!(VOICE_COUNT, 7);
    for (i, v) in all.iter().enumerate() {
        assert_eq!(Voice::from_id(i as u8), Some(*v));
        assert_eq!(v.idx(), i);
        assert_eq!(*v as u8, i as u8);
    }
    assert_eq!(Voice::from_id(7), None);
    assert_eq!(Voice::from_id(255), None);
}

#[test]
fn events_for_voice_keeps_only_that_voice_in_order() {
    let ev = vec![
        TrigEvent { sample_index: 5, voice: Voice::Sd, accent: false },
        TrigEvent { sample_index: 1, voice: Voice::Bd, accent: true },
        TrigEvent { sample_index: 9, voice: Voice::Sd, accent: true },
        TrigEvent { sample_index: 3, voice: Voice::Ch, accent: false },
    ];
    let sd = events_for_voice(&ev, Voice::Sd);
    assert_eq!(sd.len(), 2);
    assert_eq!((sd[0].sample_index, sd[0].accent), (5, false));
    assert_eq!((sd[1].sample_index, sd[1].accent), (9, true));
    assert!(events_for_voice(&ev, Voice::Oh).is_empty());
    let bd = events_for_voice(&ev, Voice::Bd);
    assert_eq!(bd.len(), 1);
    assert_eq!(bd[0].voice, Voice::Bd);
}
