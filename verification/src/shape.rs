//! Buffer shaping: rearranging converted samples into the canonical
//! one-sequence-per-channel frame shape.

use vstd::prelude::*;

use crate::convert::{
    bytes_to_samples, convert_samples, heuristic_count, heuristic_sample_ok, raw_sample,
    sample_converted,
};
use crate::encoding::NativeSampleEncoding;

verus! {

/// How the native backend lays out the samples it delivers.
#[derive(Clone, Copy, Debug, PartialEq, Eq, Structural)]
pub enum SourceLayout {
    /// One flat buffer; successive samples belong to successive channels in
    /// round-robin order.
    Interleaved { channel_count: usize },
    /// Delivery already split into one buffer per channel.
    PerChannelBuffers { channel_count: usize },
}

/// Splits a flat interleaved sample buffer into one sequence per channel.
///
/// Flat sample `i` belongs to channel `i % channel_count` at frame position
/// `i / channel_count`. Every channel gets exactly
/// `samples.len() / channel_count` samples; a trailing partial frame (when
/// the flat length is not divisible by the channel count) is dropped, which
/// is lossy by design, not an error.
pub fn deinterleave(samples: &Vec<u32>, channel_count: usize) -> (out: Vec<Vec<u32>>)
    requires
        1 <= channel_count,
    ensures
        out.len() == channel_count,
        forall|c: int|
            0 <= c < channel_count ==> #[trigger] out[c].len() == samples.len() as int
                / channel_count as int,
        forall|c: int, f: int|
            0 <= c < channel_count && 0 <= f < samples.len() as int / channel_count as int
                ==> #[trigger] out[c][f] == samples[f * channel_count + c],
    {
    let frames: usize = samples.len() / channel_count;
    let mut out: Vec<Vec<u32>> = Vec::new();
    let mut c: usize = 0;
    while c < channel_count
        invariant
            c <= channel_count,
            1 <= channel_count,
            frames == samples.len() as int / channel_count as int,
            out.len() == c,
            forall|k: int| 0 <= k < c ==> #[trigger] out[k].len() == frames,
            forall|k: int, f: int|
                0 <= k < c && 0 <= f < frames ==> #[trigger] out[k][f] == samples[f
                    * channel_count + k],
        decreases channel_count - c,
    {
        let mut channel: Vec<u32> = Vec::new();
        let mut f: usize = 0;
        while f < frames
            invariant
                f <= frames,
                c < channel_count,
                1 <= channel_count,
                frames == samples.len() as int / channel_count as int,
                channel.len() == f,
                forall|i: int|
                    0 <= i < f ==> #[trigger] channel[i] == samples[i * channel_count + c],
            decreases frames - f,
        {
            proof {
                vstd::arithmetic::div_mod::lemma_fundamental_div_mod(
                    samples.len() as int,
                    channel_count as int,
                );
                assert(f * channel_count + c < frames * channel_count) by (nonlinear_arith)
                    requires
                        f + 1 <= frames,
                        0 <= c < channel_count,
                        0 <= f,
                ;
            }
            channel.push(samples[f * channel_count + c]);
            f = f + 1;
        }
        out.push(channel);
        c = c + 1;
    }
    out
}

/// Wraps a single converted buffer as a one-channel frame, verbatim.
pub fn single_channel_frame(samples: Vec<u32>) -> (out: Vec<Vec<u32>>)
    ensures
        out.len() == 1,
        out[0] == samples,
{
    let mut out: Vec<Vec<u32>> = Vec::new();
    out.push(samples);
    out
}

/// Converts one flat interleaved byte buffer under an explicitly reported
/// encoding and splits it into channels: the path of backends that deliver
/// typed interleaved data.
///
/// Channel `c` holds the converted samples whose flat index is `c` modulo
/// the channel count; a trailing partial frame is dropped.
pub fn shape_interleaved(enc: NativeSampleEncoding, bytes: &Vec<u8>, channel_count: usize) -> (out:
    Vec<Vec<u32>>)
    requires
        1 <= channel_count,
    ensures
        interleaved_shape_ok(enc, bytes@, channel_count as int, out@),
{
    let samples: Vec<u32> = convert_samples(enc, bytes);
    let out: Vec<Vec<u32>> = deinterleave(&samples, channel_count);
    proof {
        assert forall|c: int, f: int|
            0 <= c < channel_count && 0 <= f < out[c].len() implies sample_converted(
            enc,
            raw_sample(bytes@, enc, f * channel_count + c),
            out[c][f],
        ) by {
            vstd::arithmetic::div_mod::lemma_fundamental_div_mod(
                samples.len() as int,
                channel_count as int,
            );
            assert(f * channel_count + c < samples.len()) by (nonlinear_arith)
                requires
                    0 <= c < channel_count,
                    0 <= f,
                    f < samples.len() as int / channel_count as int,
                    samples.len() as int / channel_count as int >= 0,
                    channel_count as int * (samples.len() as int / channel_count as int)
                        <= samples.len() as int,
            ;
        }
    }
    out
}

/// Shapes one native delivery whose encoding the backend did not report,
/// using the byte-length heuristic on each raw buffer.
///
/// One buffer reported with more than one channel is deinterleaved; one
/// buffer with at most one channel becomes a single channel verbatim; with
/// any other number of buffers each buffer becomes one channel, in the
/// order the backend delivered them.
pub fn shape_delivery(buffers: &Vec<Vec<u8>>, channel_count: usize) -> (out: Vec<Vec<u32>>)
    ensures
        delivery_shape_ok(buffers@, channel_count as int, out@),
{
    if buffers.len() == 1 {
        let samples: Vec<u32> = bytes_to_samples(&buffers[0]);
        if channel_count <= 1 {
            single_channel_frame(samples)
        } else {
            let out: Vec<Vec<u32>> = deinterleave(&samples, channel_count);
            proof {
                assert forall|c: int, f: int|
                    0 <= c < channel_count && 0 <= f < out[c].len() implies heuristic_sample_ok(
                    buffers[0]@,
                    f * channel_count + c,
                    out[c][f],
                ) by {
                    vstd::arithmetic::div_mod::lemma_fundamental_div_mod(
                        samples.len() as int,
                        channel_count as int,
                    );
                    assert(f * channel_count + c < samples.len()) by (nonlinear_arith)
                        requires
                            0 <= c < channel_count,
                            0 <= f,
                            f < samples.len() as int / channel_count as int,
                            samples.len() as int / channel_count as int >= 0,
                            channel_count as int * (samples.len() as int / channel_count as int)
                                <= samples.len() as int,
                    ;
                }
            }
            out
        }
    } else {
        let mut out: Vec<Vec<u32>> = Vec::new();
        let mut k: usize = 0;
        while k < buffers.len()
            invariant
                k <= buffers.len(),
                out.len() == k,
                forall|j: int|
                    0 <= j < k ==> #[trigger] out[j].len() == heuristic_count(buffers[j]@.len()),
                forall|j: int, i: int|
                    0 <= j < k && 0 <= i < out[j].len() ==> heuristic_sample_ok(
                        buffers[j]@,
                        i,
                        #[trigger] out[j][i],
                    ),
            decreases buffers.len() - k,
        {
            let channel: Vec<u32> = bytes_to_samples(&buffers[k]);
            out.push(channel);
            k = k + 1;
        }
        out
    }
}

/// What interleaved shaping promises: one channel per slot, each of the
/// full frames, channel `c` holding the converted samples at flat indices
/// congruent to `c`.
pub open spec fn interleaved_shape_ok(
    enc: NativeSampleEncoding,
    bytes: Seq<u8>,
    channel_count: int,
    out: Seq<Vec<u32>>,
) -> bool {
    &&& out.len() == channel_count
    &&& (forall|c: int|
        0 <= c < channel_count ==> #[trigger] out[c].len() == (bytes.len() as int
            / enc.spec_bytes_per_sample() as int) / channel_count)
    &&& (forall|c: int, f: int|
        0 <= c < channel_count && 0 <= f < out[c].len() ==> sample_converted(
            enc,
            raw_sample(bytes, enc, f * channel_count + c),
            #[trigger] out[c][f],
        ))
}

/// What heuristic shaping promises, by delivery shape: one deinterleaved
/// buffer, one verbatim channel, or one channel per raw buffer.
pub open spec fn delivery_shape_ok(
    buffers: Seq<Vec<u8>>,
    channel_count: int,
    out: Seq<Vec<u32>>,
) -> bool {
    &&& (buffers.len() == 1 && channel_count <= 1 ==> out.len() == 1 && out[0].len()
        == heuristic_count(buffers[0]@.len()) && (forall|i: int|
        0 <= i < out[0].len() ==> heuristic_sample_ok(buffers[0]@, i, #[trigger] out[0][i])))
    &&& (buffers.len() == 1 && channel_count > 1 ==> out.len() == channel_count && (forall|c: int|
        0 <= c < channel_count ==> #[trigger] out[c].len() == heuristic_count(buffers[0]@.len())
            as int / channel_count) && (forall|c: int, f: int|
        0 <= c < channel_count && 0 <= f < out[c].len() ==> heuristic_sample_ok(
            buffers[0]@,
            f * channel_count + c,
            #[trigger] out[c][f],
        )))
    &&& (buffers.len() != 1 ==> out.len() == buffers.len() && (forall|k: int|
        0 <= k < buffers.len() ==> #[trigger] out[k].len() == heuristic_count(buffers[k]@.len()))
        && (forall|k: int, i: int|
        0 <= k < buffers.len() && 0 <= i < out[k].len() ==> heuristic_sample_ok(
            buffers[k]@,
            i,
            #[trigger] out[k][i],
        )))
}

/// Which conversion path a delivery takes. The byte-length fallback is not
/// an error, but diagnostics must be able to tell it apart from the
/// explicit-metadata path.
#[derive(Clone, Copy, Debug, PartialEq, Eq, Structural)]
pub enum ConversionPath {
    /// The backend reported the sample encoding; it is decoded as reported.
    ExplicitEncoding,
    /// No usable encoding metadata for this delivery: the sample width is
    /// guessed from the byte length of each buffer.
    ByteLengthHeuristic,
}

/// The conversion path that `shape_capture` takes for a delivery of
/// `buffer_count` raw buffers under `layout`.
pub open spec fn spec_conversion_path(layout: SourceLayout, buffer_count: int) -> ConversionPath {
    match layout {
        SourceLayout::Interleaved { channel_count } => {
            if channel_count >= 1 && buffer_count == 1 {
                ConversionPath::ExplicitEncoding
            } else {
                ConversionPath::ByteLengthHeuristic
            }
        },
        SourceLayout::PerChannelBuffers { .. } => ConversionPath::ByteLengthHeuristic,
    }
}

/// Tells which conversion path a delivery of `buffer_count` raw buffers
/// will take under `layout`, so that callers can log the fallback.
pub fn conversion_path(layout: SourceLayout, buffer_count: usize) -> (p: ConversionPath)
    ensures
        p == spec_conversion_path(layout, buffer_count as int),
{
    match layout {
        SourceLayout::Interleaved { channel_count } => {
            if channel_count >= 1 && buffer_count == 1 {
                ConversionPath::ExplicitEncoding
            } else {
                ConversionPath::ByteLengthHeuristic
            }
        },
        SourceLayout::PerChannelBuffers { .. } => ConversionPath::ByteLengthHeuristic,
    }
}

/// What shaping one whole delivery promises, given the session's encoding
/// and layout.
pub open spec fn capture_shape_ok(
    enc: NativeSampleEncoding,
    layout: SourceLayout,
    buffers: Seq<Vec<u8>>,
    out: Seq<Vec<u32>>,
) -> bool {
    match layout {
        SourceLayout::Interleaved { channel_count } => {
            &&& (channel_count >= 1 && buffers.len() == 1 ==> interleaved_shape_ok(
                enc,
                buffers[0]@,
                channel_count as int,
                out,
            ))
            &&& (!(channel_count >= 1 && buffers.len() == 1) ==> delivery_shape_ok(
                buffers,
                channel_count as int,
                out,
            ))
        },
        SourceLayout::PerChannelBuffers { channel_count } => delivery_shape_ok(
            buffers,
            channel_count as int,
            out,
        ),
    }
}

/// Shapes one native delivery according to the session's source layout: an
/// interleaved layout converts the single flat buffer under the reported
/// encoding, while a per-channel layout — or a delivery whose buffer count
/// does not match an interleaved layout — goes through the byte-length
/// heuristic buffer by buffer.
pub fn shape_capture(
    enc: NativeSampleEncoding,
    layout: SourceLayout,
    buffers: &Vec<Vec<u8>>,
) -> (out: Vec<Vec<u32>>)
    ensures
        capture_shape_ok(enc, layout, buffers@, out@),
{
    match layout {
        SourceLayout::Interleaved { channel_count } => {
            if channel_count >= 1 && buffers.len() == 1 {
                shape_interleaved(enc, &buffers[0], channel_count)
            } else {
                shape_delivery(buffers, channel_count)
            }
        },
        SourceLayout::PerChannelBuffers { channel_count } => {
            shape_delivery(buffers, channel_count)
        },
    }
}

/// A canonical audio frame: one sequence of 32-bit float samples (carried
/// as bit patterns) per channel, all channels of equal length.
pub struct CanonicalFrame {
    channels: Vec<Vec<u32>>,
}

impl CanonicalFrame {
    /// The channels of the frame.
    pub closed spec fn view(self) -> Seq<Seq<u32>> {
        self.channels@.map_values(|c: Vec<u32>| c@)
    }

    /// Well-formedness: every channel has the length of the first.
    pub open spec fn wf(self) -> bool {
        forall|c: int| 0 <= c < self@.len() ==> #[trigger] self@[c].len() == self@[0].len()
    }

    /// Wraps shaped channels as a frame, provided they are of equal length;
    /// returns `None` exactly when two channels differ in length.
    pub fn from_channels(channels: Vec<Vec<u32>>) -> (r: Option<CanonicalFrame>)
        ensures
            match r {
                Some(frame) => frame.wf() && frame@ == channels@.map_values(|c: Vec<u32>| c@),
                None => exists|c: int|
                    0 <= c < channels.len() && #[trigger] channels[c]@.len() != channels[0]@.len(),
            },
    {
        let mut c: usize = 1;
        let mut equal: bool = true;
        while c < channels.len()
            invariant
                1 <= c <= channels.len() || channels.len() == 0,
                equal ==> forall|j: int|
                    0 <= j < c && j < channels.len() ==> #[trigger] channels[j]@.len()
                        == channels[0]@.len(),
                !equal ==> exists|j: int|
                    0 <= j < channels.len() && #[trigger] channels[j]@.len()
                        != channels[0]@.len(),
            decreases channels.len() - c,
        {
            if channels[c].len() != channels[0].len() {
                equal = false;
            }
            c = c + 1;
        }
        if equal {
            let frame = CanonicalFrame { channels };
            proof {
                assert(forall|j: int|
                    0 <= j < frame@.len() ==> #[trigger] frame@[j].len() == frame@[0].len());
            }
            Some(frame)
        } else {
            None
        }
    }

    /// Number of channels.
    pub fn channel_count(&self) -> (n: usize)
        ensures
            n == self@.len(),
    {
        self.channels.len()
    }

    /// Hands the channels back out, unchanged.
    pub fn into_channels(self) -> (r: Vec<Vec<u32>>)
        ensures
            r@.map_values(|c: Vec<u32>| c@) == self@,
    {
        self.channels
    }
}

} // verus!
