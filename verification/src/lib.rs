//! Deterministic control logic of a TR-606-style drum engine: the kit's voices
//! and scheduled hits, the seeded SplitMix64 stream, the 8-byte control
//! protocol, the engine's event scheduler, and the offline-render helpers
//! (command line and request parsing, block partitioning, WAV framing).

pub mod cli;
pub mod offline;
pub mod protocol;
pub mod rng;
pub mod scheduler;
pub mod voice;
pub mod wav;

pub use cli::{default_block, parse_args, parse_voice, sidecar_path_for, trig_events, CliRequest, EventSpec};
pub use offline::block_spans;
pub use protocol::{decode_frame_at, decode_messages, encode_bits, frame_value_bits, Control};
pub use rng::SplitMix64;
pub use scheduler::Scheduler;
pub use voice::{events_for_voice, TrigEvent, Voice, VOICE_COUNT};
pub use wav::wav_f32_bytes;
