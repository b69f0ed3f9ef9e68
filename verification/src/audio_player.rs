//! Samples for the sound server.
//!
//! The sound server takes signed 16-bit samples as bytes, low byte first, one
//! channel, 24000 samples a second.

use vstd::prelude::*;

verus! {

/// The samples that are played per second.
pub const SAMPLE_RATE: u32 = 24000;

/// The number of channels.
pub const CHANNELS: u8 = 1;

/// The low byte of the sample, in two's complement.
pub open spec fn low_byte(sample: i16) -> u8 {
    ((sample as int) % 256) as u8
}

/// The high byte of the sample, in two's complement.
pub open spec fn high_byte(sample: i16) -> u8 {
    (((sample as int) / 256) % 256) as u8
}

/// The bytes of the samples, two for each, low byte first.
pub open spec fn pcm_spec(samples: Seq<i16>) -> Seq<u8> {
    Seq::new(
        2 * samples.len(),
        |i: int|
            if i % 2 == 0 {
                low_byte(samples[i / 2])
            } else {
                high_byte(samples[i / 2])
            },
    )
}

/// The bytes of the samples, as the sound server takes them.
pub fn pcm_bytes(samples: &Vec<i16>) -> (bytes: Vec<u8>)
    ensures
        bytes@ == pcm_spec(samples@),
{
    let mut bytes: Vec<u8> = Vec::new();
    let mut k: usize = 0;
    while k < samples.len()
        invariant
            k <= samples.len(),
            bytes@ == pcm_spec(samples@.take(k as int)),
        decreases samples.len() - k,
    {
        let sample = samples[k];
        let unsigned: u32 = if sample < 0 {
            (sample as i32 + 65536) as u32
        } else {
            sample as u32
        };
        let low: u8 = (unsigned % 256) as u8;
        let high: u8 = (unsigned / 256) as u8;
        assert(low == low_byte(sample));
        assert(high == high_byte(sample));
        let ghost before = bytes@;
        bytes.push(low);
        bytes.push(high);
        assert(bytes@ =~= pcm_spec(samples@.take(k + 1))) by {
            assert(samples@.take(k + 1).len() == k + 1);
            assert forall|i: int| 0 <= i < 2 * (k + 1) implies bytes@[i] == pcm_spec(
                samples@.take(k + 1),
            )[i] by {
                if i < 2 * k {
                    assert(bytes@[i] == before[i]);
                    assert(samples@.take(k + 1)[i / 2] == samples@.take(k as int)[i / 2]);
                } else {
                    assert(samples@.take(k + 1)[i / 2] == sample);
                }
            }
        }
        k += 1;
    }
    assert(samples@.take(samples.len() as int) =~= samples@);
    bytes
}

} // verus!
