use ruhear::convert::bytes_to_samples;
use ruhear::encoding::NativeSampleEncoding;
use ruhear::shape::{
    conversion_path, deinterleave, shape_capture, shape_delivery, shape_interleaved,
    single_channel_frame, CanonicalFrame, ConversionPath, SourceLayout,
};

fn val(b: u32) -> f32 {
    f32::from_bits(b)
}

#[test]
fn deinterleave_splits_round_robin() {
    // two channels, three frames: flat index i goes to channel i % 2
    let samples: Vec<u32> = vec![10, 11, 20, 21, 30, 31];
    let out = deinterleave(&samples, 2);
    assert_eq!(out.len(), 2);
    assert_eq!(out[0], vec![10, 20, 30]);
    assert_eq!(out[1], vec![11, 21, 31]);
}

#[test]
fn deinterleave_drops_trailing_partial_frame() {
    let samples: Vec<u32> = vec![10, 11, 20, 21, 30, 31, 40];
    let out = deinterleave(&samples, 2);
    assert_eq!(out.len(), 2);
    assert_eq!(out[0].len(), 3);
    assert_eq!(out[1].len(), 3);
    let out3 = deinterleave(&samples, 3);
    assert_eq!(out3.len(), 3);
    for channel in &out3 {
        assert_eq!(channel.len(), 2);
    }
}

#[test]
fn single_channel_passes_verbatim() {
    let out = single_channel_frame(vec![1, 2, 3]);
    assert_eq!(out, vec![vec![1, 2, 3]]);
}

#[test]
fn round_trip_interleaved_sixteen_bit_stereo() {
    // interleaved 2-channel 16-bit signed PCM: [1000, -1000, 2000, -2000]
    let bytes: Vec<u8> = vec![0xE8, 0x03, 0x18, 0xFC, 0xD0, 0x07, 0x30, 0xF8];
    let out = shape_interleaved(NativeSampleEncoding::Int16, &bytes, 2);
    assert_eq!(out.len(), 2);
    assert_eq!(out[0].len(), 2);
    assert_eq!(out[1].len(), 2);
    assert!((val(out[0][0]) - 1000.0 / 32768.0).abs() < 1e-5);
    assert!((val(out[0][1]) - 2000.0 / 32768.0).abs() < 1e-5);
    assert!((val(out[1][0]) + 1000.0 / 32768.0).abs() < 1e-5);
    assert!((val(out[1][1]) + 2000.0 / 32768.0).abs() < 1e-5);
}

#[test]
fn round_trip_heuristic_sixteen_bit_pairs_are_exact() {
    // six bytes take the 16-bit branch of the fallback: exactly value/32768
    let bytes: Vec<u8> = vec![0xE8, 0x03, 0x18, 0xFC, 0xD0, 0x07];
    let samples = bytes_to_samples(&bytes);
    let out = deinterleave(&samples, 2);
    assert_eq!(val(out[0][0]), 1000.0 / 32768.0);
    assert_eq!(val(out[1][0]), -1000.0 / 32768.0);
}

#[test]
fn delivery_single_buffer_single_channel_is_verbatim() {
    let mut buffer: Vec<u8> = Vec::new();
    buffer.extend_from_slice(&0.5f32.to_le_bytes());
    buffer.extend_from_slice(&0.75f32.to_le_bytes());
    let out = shape_delivery(&vec![buffer], 1);
    assert_eq!(out.len(), 1);
    assert_eq!(out[0].len(), 2);
    assert_eq!(val(out[0][0]), 0.5);
    assert_eq!(val(out[0][1]), 0.75);
}

#[test]
fn delivery_single_buffer_with_channel_count_deinterleaves() {
    let mut buffer: Vec<u8> = Vec::new();
    for x in [0.1f32, 0.2, 0.3, 0.4] {
        buffer.extend_from_slice(&x.to_le_bytes());
    }
    let out = shape_delivery(&vec![buffer], 2);
    assert_eq!(out.len(), 2);
    assert_eq!(val(out[0][0]), 0.1);
    assert_eq!(val(out[0][1]), 0.3);
    assert_eq!(val(out[1][0]), 0.2);
    assert_eq!(val(out[1][1]), 0.4);
}

#[test]
fn delivery_per_channel_buffers_keep_order_and_lengths() {
    // three buffers of 8, 4 and 0 bytes: channels of 2, 1 and 0 samples
    let buffers: Vec<Vec<u8>> = vec![vec![0; 8], vec![0; 4], Vec::new()];
    let out = shape_delivery(&buffers, 3);
    assert_eq!(out.len(), 3);
    assert_eq!(out[0].len(), 2);
    assert_eq!(out[1].len(), 1);
    assert_eq!(out[2].len(), 0);
}

#[test]
fn delivery_of_nothing_is_an_empty_frame() {
    let out = shape_delivery(&Vec::new(), 2);
    assert!(out.is_empty());
}

#[test]
fn capture_shaping_follows_the_layout() {
    let bytes: Vec<u8> = vec![0xE8, 0x03, 0x18, 0xFC];
    let out = shape_capture(
        NativeSampleEncoding::Int16,
        SourceLayout::Interleaved { channel_count: 2 },
        &vec![bytes.clone()],
    );
    assert_eq!(out.len(), 2);
    assert_eq!(out[0].len(), 1);
    assert!((val(out[0][0]) - 1000.0 / 32767.0).abs() < 1e-6);
    assert!((val(out[1][0]) + 1000.0 / 32767.0).abs() < 1e-6);
    let out2 = shape_capture(
        NativeSampleEncoding::Int16,
        SourceLayout::PerChannelBuffers { channel_count: 2 },
        &vec![bytes.clone(), bytes],
    );
    assert_eq!(out2.len(), 2);
    assert_eq!(out2[0].len(), 1);
    assert_eq!(out2[0], out2[1]);
}

#[test]
fn fallback_path_is_distinguishable() {
    let interleaved = SourceLayout::Interleaved { channel_count: 2 };
    assert_eq!(
        conversion_path(interleaved, 1),
        ConversionPath::ExplicitEncoding
    );
    assert_eq!(
        conversion_path(interleaved, 3),
        ConversionPath::ByteLengthHeuristic
    );
    assert_eq!(
        conversion_path(SourceLayout::PerChannelBuffers { channel_count: 2 }, 2),
        ConversionPath::ByteLengthHeuristic
    );
}

#[test]
fn frame_accepts_equal_length_channels() {
    let frame = CanonicalFrame::from_channels(vec![vec![1, 2], vec![3, 4]]).unwrap();
    assert_eq!(frame.channel_count(), 2);
    assert_eq!(frame.into_channels(), vec![vec![1, 2], vec![3, 4]]);
}

#[test]
fn frame_rejects_ragged_channels() {
    assert!(CanonicalFrame::from_channels(vec![vec![1, 2], vec![3]]).is_none());
}

#[test]
fn frame_accepts_single_channel_and_empty() {
    assert!(CanonicalFrame::from_channels(vec![vec![1, 2, 3]]).is_some());
    assert!(CanonicalFrame::from_channels(Vec::new()).is_some());
}
