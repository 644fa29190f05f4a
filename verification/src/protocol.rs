//! The control message protocol between the main thread and the audio engine.
//!
//! Messages are fixed 8-byte little-endian frames:
//!
//! ```text
//! byte 0      tag   (u8)   which message
//! byte 1      a     (u8)   first small operand (voice id / global id)
//! byte 2      b     (u8)   second small operand (param id / accent flag)
//! byte 3      pad   (u8)
//! bytes 4..8  value        32-bit IEEE-754 word, little-endian
//! ```
//!
//! The continuous value travels as its raw 32-bit pattern; this module never
//! interprets it, so the wire layer is bit-transparent.

use crate::voice::{Voice, VOICE_COUNT};
use vstd::prelude::*;

verus! {

/// Length of one frame in bytes.
pub const FRAME_LEN: usize = 8;

/// `Trigger { voice, accent }`: fire a voice now. a = voice id, b = accent flag.
pub const TAG_TRIGGER: u8 = 0;

/// `ParamSet { voice, param_id, value }`: a per-voice continuous control.
pub const TAG_PARAM_SET: u8 = 1;

/// `GlobalSet { id, value }`: a global continuous control. a = global id.
pub const TAG_GLOBAL_SET: u8 = 2;

/// The only per-voice parameter: the voice's LEVEL.
pub const PARAM_LEVEL: u8 = 0;

/// Global id of the accent level.
pub const GLOBAL_ACCENT_LEVEL: u8 = 0;

/// Global id of the master level.
pub const GLOBAL_MASTER_LEVEL: u8 = 1;

/// Global id of the output-bus drive.
pub const GLOBAL_DRIVE: u8 = 2;

/// Global id of the per-hit variance depth.
pub const GLOBAL_VARIANCE_DEPTH: u8 = 3;

/// Global id of the seed (an integer carried in the value field).
pub const GLOBAL_SEED: u8 = 4;

/// Engine-to-main event: `VoiceFired { voice, accent }`.
pub const TAG_VOICE_FIRED: u8 = 0;

/// Engine-to-main event: a process callback overran its deadline.
pub const TAG_XRUN: u8 = 1;

/// One decoded control message. Continuous values are carried as the raw
/// 32-bit pattern read from the frame.
#[derive(Clone, Copy, PartialEq, Eq, Debug, Structural)]
pub enum Control {
    /// Fire `voice`, accented when `accent`.
    Trigger { voice: Voice, accent: bool },
    /// Set the LEVEL of `voice`.
    SetLevel { voice: Voice, value_bits: u32 },
    /// Set the global accent level.
    SetAccentLevel { value_bits: u32 },
    /// Set the master level.
    SetMasterLevel { value_bits: u32 },
    /// Set the output-bus drive.
    SetDrive { value_bits: u32 },
    /// Set the per-hit variance depth.
    SetVarianceDepth { value_bits: u32 },
    /// Set the seed.
    SetSeed { value_bits: u32 },
}

/// The voice whose wire id is `id`, if any.
pub open spec fn voice_with_id(id: u8) -> Option<Voice> {
    if id == 0 {
        Some(Voice::Bd)
    } else if id == 1 {
        Some(Voice::Sd)
    } else if id == 2 {
        Some(Voice::Lt)
    } else if id == 3 {
        Some(Voice::Ht)
    } else if id == 4 {
        Some(Voice::Cy)
    } else if id == 5 {
        Some(Voice::Oh)
    } else if id == 6 {
        Some(Voice::Ch)
    } else {
        None
    }
}


/// The 32-bit word whose little-endian bytes are `b0 b1 b2 b3`.
pub open spec fn le_word(b0: u8, b1: u8, b2: u8, b3: u8) -> u32 {
    (b0 as u32) | ((b1 as u32) << 8u32) | ((b2 as u32) << 16u32) | ((b3 as u32) << 24u32)
}

/// The frame that carries `tag`, `a`, `b` and the 32-bit value `w`.
pub open spec fn frame_of(tag: u8, a: u8, b: u8, w: u32) -> Seq<u8> {
    seq![
        tag,
        a,
        b,
        0u8,
        (w & 0xff) as u8,
        ((w >> 8u32) & 0xff) as u8,
        ((w >> 16u32) & 0xff) as u8,
        ((w >> 24u32) & 0xff) as u8,
    ]
}

/// The value word carried by a frame (bytes 4..8, little-endian).
pub open spec fn frame_word(f: Seq<u8>) -> u32 {
    le_word(f[4], f[5], f[6], f[7])
}

/// What a single frame means, or `None` when it is to be ignored (unknown tag,
/// unknown voice or global id, or a parameter other than LEVEL).
pub open spec fn frame_control(f: Seq<u8>) -> Option<Control> {
    let tag = f[0];
    let a = f[1];
    let b = f[2];
    let w = frame_word(f);
    if tag == TAG_TRIGGER {
        match voice_with_id(a) {
            Some(v) => Some(Control::Trigger { voice: v, accent: b != 0 }),
            None => None,
        }
    } else if tag == TAG_PARAM_SET {
        if b == PARAM_LEVEL {
            match voice_with_id(a) {
                Some(v) => Some(Control::SetLevel { voice: v, value_bits: w }),
                None => None,
            }
        } else {
            None
        }
    } else if tag == TAG_GLOBAL_SET {
        if a == GLOBAL_ACCENT_LEVEL {
            Some(Control::SetAccentLevel { value_bits: w })
        } else if a == GLOBAL_MASTER_LEVEL {
            Some(Control::SetMasterLevel { value_bits: w })
        } else if a == GLOBAL_DRIVE {
            Some(Control::SetDrive { value_bits: w })
        } else if a == GLOBAL_VARIANCE_DEPTH {
            Some(Control::SetVarianceDepth { value_bits: w })
        } else if a == GLOBAL_SEED {
            Some(Control::SetSeed { value_bits: w })
        } else {
            None
        }
    } else {
        None
    }
}

/// An optional control as a sequence of zero or one controls.
pub open spec fn opt_seq(c: Option<Control>) -> Seq<Control> {
    match c {
        Some(x) => seq![x],
        None => Seq::empty(),
    }
}

/// The `k`-th frame (counting from 0) of a byte stream.
pub open spec fn nth_frame(bytes: Seq<u8>, k: nat) -> Seq<u8> {
    bytes.subrange(8 * k as int, 8 * k as int + 8)
}

/// The controls carried by the first `k` frames of `bytes`, in order.
pub open spec fn decode_frames(bytes: Seq<u8>, k: nat) -> Seq<Control>
    decreases k,
{
    if k == 0 {
        Seq::empty()
    } else {
        decode_frames(bytes, (k - 1) as nat) + opt_seq(frame_control(nth_frame(bytes, (k - 1) as nat)))
    }
}

/// The controls carried by a whole message batch: one per recognised complete
/// frame; a trailing partial frame carries nothing.
pub open spec fn decode_stream(bytes: Seq<u8>) -> Seq<Control> {
    decode_frames(bytes, bytes.len() / 8)
}

/// Encode an 8-byte control frame whose value field holds the word `value_bits`.
pub fn encode_bits(tag: u8, a: u8, b: u8, value_bits: u32) -> (f: [u8; FRAME_LEN])
    ensures
        f@ == frame_of(tag, a, b, value_bits),
{
    let b0 = (value_bits & 0xff) as u8;
    let b1 = ((value_bits >> 8) & 0xff) as u8;
    let b2 = ((value_bits >> 16) & 0xff) as u8;
    let b3 = ((value_bits >> 24) & 0xff) as u8;
    let f = [tag, a, b, 0, b0, b1, b2, b3];
    assert(f@ =~= frame_of(tag, a, b, value_bits));
    f
}

/// The value word of a frame (bytes 4..8, little-endian).
pub fn frame_value_bits(frame: &[u8]) -> (w: u32)
    requires
        frame@.len() >= FRAME_LEN,
    ensures
        w == frame_word(frame@),
{
    (frame[4] as u32) | ((frame[5] as u32) << 8) | ((frame[6] as u32) << 16) | ((frame[7] as u32) << 24)
}

/// The meaning of the frame starting at byte `off` of `bytes`, or `None` when
/// it is to be ignored. Reads the frame in place, without allocating.
pub fn decode_frame_at(bytes: &[u8], off: usize) -> (r: Option<Control>)
    requires
        off + FRAME_LEN <= bytes@.len(),
    ensures
        r == frame_control(bytes@.subrange(off as int, off + 8)),
{
    let ghost f = bytes@.subrange(off as int, off + 8);
    let tag = bytes[off];
    let a = bytes[off + 1];
    let b = bytes[off + 2];
    let w = (bytes[off + 4] as u32) | ((bytes[off + 5] as u32) << 8) | ((bytes[off + 6] as u32) << 16)
        | ((bytes[off + 7] as u32) << 24);
    assert(w == frame_word(f));
    if tag == TAG_TRIGGER {
        match Voice::from_id(a) {
            Some(v) => Some(Control::Trigger { voice: v, accent: b != 0 }),
            None => None,
        }
    } else if tag == TAG_PARAM_SET {
        if b == PARAM_LEVEL {
            match Voice::from_id(a) {
                Some(v) => Some(Control::SetLevel { voice: v, value_bits: w }),
                None => None,
            }
        } else {
            None
        }
    } else if tag == TAG_GLOBAL_SET {
        if a == GLOBAL_ACCENT_LEVEL {
            Some(Control::SetAccentLevel { value_bits: w })
        } else if a == GLOBAL_MASTER_LEVEL {
            Some(Control::SetMasterLevel { value_bits: w })
        } else if a == GLOBAL_DRIVE {
            Some(Control::SetDrive { value_bits: w })
        } else if a == GLOBAL_VARIANCE_DEPTH {
            Some(Control::SetVarianceDepth { value_bits: w })
        } else if a == GLOBAL_SEED {
            Some(Control::SetSeed { value_bits: w })
        } else {
            None
        }
    } else {
        None
    }
}

/// Decode every control frame of a message batch, in order. Unknown tags and
/// ids are skipped, as is any trailing partial frame; malformed input never
/// fails.
pub fn decode_messages(bytes: &[u8]) -> (r: Vec<Control>)
    ensures
        r@ == decode_stream(bytes@),
{
    let mut r: Vec<Control> = Vec::new();
    let mut off: usize = 0;
    while FRAME_LEN <= bytes.len() - off
        invariant
            off % 8 == 0,
            off <= bytes@.len(),
            r@ == decode_frames(bytes@, off as nat / 8),
        decreases bytes@.len() - off,
    {
        let c = decode_frame_at(bytes, off);
        proof {
            assert((off as nat + 8) / 8 == off as nat / 8 + 1);
            assert(nth_frame(bytes@, off as nat / 8) == bytes@.subrange(off as int, off + 8));
        }
        match c {
            Some(x) => {
                r.push(x);
            },
            None => {},
        }
        proof {
            assert(r@ =~= decode_frames(bytes@, (off as nat + 8) / 8));
        }
        off = off + FRAME_LEN;
    }
    assert(off as nat / 8 == bytes@.len() / 8);
    r
}

/// The canonical frame for a control message: the frame a sender writes for it.
pub open spec fn control_frame(c: Control) -> Seq<u8> {
    match c {
        Control::Trigger { voice, accent } => frame_of(
            TAG_TRIGGER,
            voice.id() as u8,
            if accent { 1u8 } else { 0u8 },
            0u32,
        ),
        Control::SetLevel { voice, value_bits } => frame_of(
            TAG_PARAM_SET,
            voice.id() as u8,
            PARAM_LEVEL,
            value_bits,
        ),
        Control::SetAccentLevel { value_bits } => frame_of(
            TAG_GLOBAL_SET,
            GLOBAL_ACCENT_LEVEL,
            0u8,
            value_bits,
        ),
        Control::SetMasterLevel { value_bits } => frame_of(
            TAG_GLOBAL_SET,
            GLOBAL_MASTER_LEVEL,
            0u8,
            value_bits,
        ),
        Control::SetDrive { value_bits } => frame_of(TAG_GLOBAL_SET, GLOBAL_DRIVE, 0u8, value_bits),
        Control::SetVarianceDepth { value_bits } => frame_of(
            TAG_GLOBAL_SET,
            GLOBAL_VARIANCE_DEPTH,
            0u8,
            value_bits,
        ),
        Control::SetSeed { value_bits } => frame_of(TAG_GLOBAL_SET, GLOBAL_SEED, 0u8, value_bits),
    }
}

/// The value field is bit-transparent: the word written into a frame is the
/// word read back from it.
pub proof fn lemma_frame_value_roundtrip(tag: u8, a: u8, b: u8, w: u32)
    ensures
        frame_of(tag, a, b, w).len() == FRAME_LEN,
        frame_word(frame_of(tag, a, b, w)) == w,
{
    let f = frame_of(tag, a, b, w);
    assert(le_word(
        (w & 0xff) as u8,
        ((w >> 8u32) & 0xff) as u8,
        ((w >> 16u32) & 0xff) as u8,
        ((w >> 24u32) & 0xff) as u8,
    ) == w) by (bit_vector);
}

/// Every control message survives the wire: decoding its canonical frame gives
/// the same message back, value bits included.
pub proof fn lemma_control_roundtrip(c: Control)
    ensures
        control_frame(c).len() == FRAME_LEN,
        frame_control(control_frame(c)) == Some(c),
{
    match c {
        Control::Trigger { voice, accent } => {
            lemma_frame_value_roundtrip(TAG_TRIGGER, voice.id() as u8, if accent { 1u8 } else { 0u8 }, 0);
        },
        Control::SetLevel { voice, value_bits } => {
            lemma_frame_value_roundtrip(TAG_PARAM_SET, voice.id() as u8, PARAM_LEVEL, value_bits);
        },
        Control::SetAccentLevel { value_bits } => {
            lemma_frame_value_roundtrip(TAG_GLOBAL_SET, GLOBAL_ACCENT_LEVEL, 0, value_bits);
        },
        Control::SetMasterLevel { value_bits } => {
            lemma_frame_value_roundtrip(TAG_GLOBAL_SET, GLOBAL_MASTER_LEVEL, 0, value_bits);
        },
        Control::SetDrive { value_bits } => {
            lemma_frame_value_roundtrip(TAG_GLOBAL_SET, GLOBAL_DRIVE, 0, value_bits);
        },
        Control::SetVarianceDepth { value_bits } => {
            lemma_frame_value_roundtrip(TAG_GLOBAL_SET, GLOBAL_VARIANCE_DEPTH, 0, value_bits);
        },
        Control::SetSeed { value_bits } => {
            lemma_frame_value_roundtrip(TAG_GLOBAL_SET, GLOBAL_SEED, 0, value_bits);
        },
    }
}

proof fn lemma_decode_frames_prefix(b1: Seq<u8>, b2: Seq<u8>, k: nat)
    requires
        8 * k <= b1.len(),
    ensures
        decode_frames(b1 + b2, k) == decode_frames(b1, k),
    decreases k,
{
    if k > 0 {
        lemma_decode_frames_prefix(b1, b2, (k - 1) as nat);
        assert(nth_frame(b1 + b2, (k - 1) as nat) =~= nth_frame(b1, (k - 1) as nat));
    }
}

proof fn lemma_decode_frames_suffix(b1: Seq<u8>, b2: Seq<u8>, j: nat)
    requires
        b1.len() % 8 == 0,
        8 * j <= b2.len(),
    ensures
        decode_frames(b1 + b2, b1.len() / 8 + j) == decode_frames(b1, b1.len() / 8)
            + decode_frames(b2, j),
    decreases j,
{
    let n1 = b1.len() / 8;
    if j == 0 {
        lemma_decode_frames_prefix(b1, b2, n1);
        assert(decode_frames(b1, n1) + decode_frames(b2, 0) =~= decode_frames(b1, n1));
    } else {
        lemma_decode_frames_suffix(b1, b2, (j - 1) as nat);
        assert(nth_frame(b1 + b2, (n1 + j - 1) as nat) =~= nth_frame(b2, (j - 1) as nat));
        assert(decode_frames(b1 + b2, n1 + j) =~= decode_frames(b1, n1) + decode_frames(b2, j));
    }
}

/// A message batch may be split at any frame boundary: decoding the two parts
/// separately gives the same controls, in the same order, as decoding the
/// whole batch.
pub proof fn lemma_decode_concat(b1: Seq<u8>, b2: Seq<u8>)
    requires
        b1.len() % 8 == 0,
    ensures
        decode_stream(b1 + b2) == decode_stream(b1) + decode_stream(b2),
{
    assert((b1 + b2).len() / 8 == b1.len() / 8 + b2.len() / 8);
    lemma_decode_frames_suffix(b1, b2, b2.len() / 8);
}

/// A trailing partial frame carries nothing.
pub proof fn lemma_trailing_partial_frame_ignored(b: Seq<u8>, tail: Seq<u8>)
    requires
        b.len() % 8 == 0,
        tail.len() < 8,
    ensures
        decode_stream(b + tail) == decode_stream(b),
{
    lemma_decode_concat(b, tail);
    assert(decode_stream(b) + decode_stream(tail) =~= decode_stream(b));
}

/// A frame with an unknown tag is skipped without disturbing the frames around
/// it.
pub proof fn lemma_unknown_tag_skipped(b1: Seq<u8>, f: Seq<u8>, b2: Seq<u8>)
    requires
        b1.len() % 8 == 0,
        f.len() == FRAME_LEN,
        f[0] > TAG_GLOBAL_SET,
    ensures
        decode_stream(b1 + f + b2) == decode_stream(b1) + decode_stream(b2),
{
    lemma_decode_concat(b1, f);
    lemma_decode_concat(b1 + f, b2);
    assert(nth_frame(f, 0) =~= f);
    assert(f.len() / 8 == 1);
    assert(frame_control(f) is None);
    assert(decode_frames(f, 1) == decode_frames(f, 0) + opt_seq(frame_control(nth_frame(f, 0))));
    assert(decode_stream(f) =~= Seq::<Control>::empty());
    assert(decode_stream(b1) + decode_stream(f) =~= decode_stream(b1));
}

} // verus!
