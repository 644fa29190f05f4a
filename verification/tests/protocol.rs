use dsp_core::protocol::{
    decode_messages, encode_bits, frame_value_bits, Control, FRAME_LEN, GLOBAL_ACCENT_LEVEL,
    GLOBAL_DRIVE, GLOBAL_MASTER_LEVEL, GLOBAL_SEED, GLOBAL_VARIANCE_DEPTH, PARAM_LEVEL,
    TAG_GLOBAL_SET, TAG_PARAM_SET, TAG_TRIGGER, TAG_VOICE_FIRED, TAG_XRUN,
};
use dsp_core::Voice;

#[test]
fn frame_roundtrips_value() {
    let f = encode_bits(TAG_PARAM_SET, Voice::Sd as u8, PARAM_LEVEL, 0.625f32.to_bits());
    assert_eq!(f[0], TAG_PARAM_SET);
    assert_eq!(f32::from_bits(frame_value_bits(&f)), 0.625);
}

#[test]
fn frame_layout_is_little_endian() {
    let f = encode_bits(7, 8, 9, 0x1234_5678);
    assert_eq!(f, [7, 8, 9, 0, 0x78, 0x56, 0x34, 0x12]);
    assert_eq!(FRAME_LEN, 8);
    assert_eq!(TAG_VOICE_FIRED, 0);
    assert_eq!(TAG_XRUN, 1);
}

#[test]
fn decodes_level_then_trigger() {
    let mut msg = Vec::new();
    msg.extend_from_slice(&encode_bits(TAG_PARAM_SET, Voice::Bd as u8, PARAM_LEVEL, 0.9f32.to_bits()));
    msg.extend_from_slice(&encode_bits(TAG_TRIGGER, Voice::Bd as u8, 1, 0));
    let c = decode_messages(&msg);
    assert_eq!(
        c,
        vec![
            Control::SetLevel { voice: Voice::Bd, value_bits: 0.9f32.to_bits() },
            Control::Trigger { voice: Voice::Bd, accent: true },
        ]
    );
}

#[test]
fn decodes_every_global() {
    let w = 0.25f32.to_bits();
    let mut msg = Vec::new();
    for id in [GLOBAL_ACCENT_LEVEL, GLOBAL_MASTER_LEVEL, GLOBAL_DRIVE, GLOBAL_VARIANCE_DEPTH, GLOBAL_SEED] {
        msg.extend_from_slice(&encode_bits(TAG_GLOBAL_SET, id, 0, w));
    }
    assert_eq!(
        decode_messages(&msg),
        vec![
            Control::SetAccentLevel { value_bits: w },
            Control::SetMasterLevel { value_bits: w },
            Control::SetDrive { value_bits: w },
            Control::SetVarianceDepth { value_bits: w },
            Control::SetSeed { value_bits: w },
        ]
    );
}

#[test]
fn unknown_tags_and_ids_are_skipped() {
    let mut msg = Vec::new();
    msg.extend_from_slice(&encode_bits(9, 0, 0, 0)); // unknown tag
    msg.extend_from_slice(&encode_bits(TAG_TRIGGER, 7, 1, 0)); // unknown voice
    msg.extend_from_slice(&encode_bits(TAG_PARAM_SET, 0, 1, 0)); // unknown param
    msg.extend_from_slice(&encode_bits(TAG_PARAM_SET, 9, PARAM_LEVEL, 0)); // unknown voice
    msg.extend_from_slice(&encode_bits(TAG_GLOBAL_SET, 5, 0, 0)); // unknown global
    msg.extend_from_slice(&encode_bits(TAG_TRIGGER, Voice::Ch as u8, 0, 0));
    assert_eq!(decode_messages(&msg), vec![Control::Trigger { voice: Voice::Ch, accent: false }]);
}

#[test]
fn trailing_partial_frame_is_ignored() {
    let mut msg = encode_bits(TAG_TRIGGER, Voice::Sd as u8, 2, 0).to_vec();
    msg.extend_from_slice(&[TAG_TRIGGER, 0, 1]);
    assert_eq!(decode_messages(&msg), vec![Control::Trigger { voice: Voice::Sd, accent: true }]);
    assert!(decode_messages(&[0, 1, 2, 3, 4, 5, 6]).is_empty());
    assert!(decode_messages(&[]).is_empty());
}

#[test]
fn batches_split_at_frame_boundaries_decode_the_same() {
    let mut a = encode_bits(TAG_TRIGGER, Voice::Lt as u8, 0, 0).to_vec();
    let b = encode_bits(TAG_GLOBAL_SET, GLOBAL_DRIVE, 0, 0.5f32.to_bits()).to_vec();
    let mut whole = decode_messages(&a);
    whole.extend(decode_messages(&b));
    a.extend_from_slice(&b);
    assert_eq!(decode_messages(&a), whole);
}

#[test]
fn frames_decode_in_place_at_any_offset() {
    let mut msg = encode_bits(TAG_TRIGGER, Voice::Ht as u8, 0, 0).to_vec();
    msg.extend_from_slice(&encode_bits(TAG_GLOBAL_SET, GLOBAL_SEED, 0, 42));
    msg.extend_from_slice(&encode_bits(3, 0, 0, 0));
    assert_eq!(
        dsp_core::decode_frame_at(&msg, 0),
        Some(Control::Trigger { voice: Voice::Ht, accent: false })
    );
    assert_eq!(dsp_core::decode_frame_at(&msg, 8), Some(Control::SetSeed { value_bits: 42 }));
    assert_eq!(dsp_core::decode_frame_at(&msg, 16), None);
}
