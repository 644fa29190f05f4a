use dsp_core::wav_f32_bytes;

#[test]
fn header_and_samples_match_the_float_wav_layout() {
    let bits = vec![1.0f32.to_bits(), (-0.5f32).to_bits()];
    let b = wav_f32_bytes(&bits, 48_000);
    assert_eq!(b.len(), 44 + 8);
    assert_eq!(&b[0..4], b"RIFF");
    assert_eq!(u32::from_le_bytes([b[4], b[5], b[6], b[7]]), 36 + 8);
    assert_eq!(&b[8..12], b"WAVE");
    assert_eq!(&b[12..16], b"fmt ");
    assert_eq!(u32::from_le_bytes([b[16], b[17], b[18], b[19]]), 16);
    assert_eq!(u16::from_le_bytes([b[20], b[21]]), 3);
    assert_eq!(u16::from_le_bytes([b[22], b[23]]), 1);
    assert_eq!(u32::from_le_bytes([b[24], b[25], b[26], b[27]]), 48_000);
    assert_eq!(u32::from_le_bytes([b[28], b[29], b[30], b[31]]), 192_000);
    assert_eq!(u16::from_le_bytes([b[32], b[33]]), 4);
    assert_eq!(u16::from_le_bytes([b[34], b[35]]), 32);
    assert_eq!(&b[36..40], b"data");
    assert_eq!(u32::from_le_bytes([b[40], b[41], b[42], b[43]]), 8);
    assert_eq!(f32::from_le_bytes([b[44], b[45], b[46], b[47]]), 1.0);
    assert_eq!(f32::from_le_bytes([b[48], b[49], b[50], b[51]]), -0.5);
}

#[test]
fn empty_render_is_just_the_header() {
    let b = wav_f32_bytes(&Vec::new(), 44_100);
    assert_eq!(b.len(), 44);
    assert_eq!(u32::from_le_bytes([b[4], b[5], b[6], b[7]]), 36);
    assert_eq!(u32::from_le_bytes([b[40], b[41], b[42], b[43]]), 0);
}
