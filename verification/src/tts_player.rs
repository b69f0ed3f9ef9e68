//! Audio on its way to the player.

use vstd::prelude::*;

verus! {

/// Synthesized audio, as the bytes that came from the synthesizer.
#[derive(Debug, Clone, PartialEq, Eq)]
pub struct TTSAudioMessage {
    pub timestamp: i64,
    pub audio: Vec<u8>,
}

} // verus!
