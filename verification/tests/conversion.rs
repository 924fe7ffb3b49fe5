use ruhear::convert::{bytes_to_samples, convert_one, convert_samples};
use ruhear::encoding::NativeSampleEncoding;

fn val(b: u32) -> f32 {
    f32::from_bits(b)
}

#[test]
fn signed_full_scale_is_exactly_one() {
    assert_eq!(val(convert_one(NativeSampleEncoding::Int8, 127)), 1.0);
    assert_eq!(val(convert_one(NativeSampleEncoding::Int16, 32767)), 1.0);
    assert_eq!(val(convert_one(NativeSampleEncoding::Int32, 0x7FFF_FFFF)), 1.0);
    assert_eq!(
        val(convert_one(NativeSampleEncoding::Int64, 0x7FFF_FFFF_FFFF_FFFF)),
        1.0
    );
}

#[test]
fn signed_negative_full_scale_is_exactly_minus_one() {
    // the most negative value maps slightly below -1, the negated maximum
    // maps exactly onto -1
    assert_eq!(val(convert_one(NativeSampleEncoding::Int8, 0x100 - 127)), -1.0);
    assert_eq!(val(convert_one(NativeSampleEncoding::Int16, 0x1_0000 - 32767)), -1.0);
    let lowest = val(convert_one(NativeSampleEncoding::Int16, 0x8000));
    assert!((lowest - (-32768.0 / 32767.0)).abs() < 1e-6);
}

#[test]
fn unsigned_full_scale_is_exactly_one() {
    assert_eq!(val(convert_one(NativeSampleEncoding::UInt8, 0xFF)), 1.0);
    assert_eq!(val(convert_one(NativeSampleEncoding::UInt16, 0xFFFF)), 1.0);
    assert_eq!(val(convert_one(NativeSampleEncoding::UInt32, 0xFFFF_FFFF)), 1.0);
    assert_eq!(
        val(convert_one(NativeSampleEncoding::UInt64, 0xFFFF_FFFF_FFFF_FFFF)),
        1.0
    );
}

#[test]
fn unsigned_zero_is_exactly_minus_one() {
    assert_eq!(val(convert_one(NativeSampleEncoding::UInt8, 0)), -1.0);
    assert_eq!(val(convert_one(NativeSampleEncoding::UInt64, 0)), -1.0);
}

#[test]
fn signed_zero_is_exact_silence() {
    for enc in [
        NativeSampleEncoding::Int8,
        NativeSampleEncoding::Int16,
        NativeSampleEncoding::Int32,
        NativeSampleEncoding::Int64,
    ] {
        assert_eq!(convert_one(enc, 0), 0);
    }
}

#[test]
fn unsigned_midpoint_is_one_divisor_step_above_silence() {
    // offset-binary remap: 128 -> 128/255 * 2 - 1 == 1/255, not exactly 0
    let mid = val(convert_one(NativeSampleEncoding::UInt8, 128));
    assert!((mid - 1.0 / 255.0).abs() < 1e-6);
    let mid16 = val(convert_one(NativeSampleEncoding::UInt16, 0x8000));
    assert!((mid16 - 1.0 / 65535.0).abs() < 1e-7);
}

#[test]
fn float32_samples_pass_through_unchanged() {
    let one = 1.0f32.to_bits();
    assert_eq!(convert_one(NativeSampleEncoding::Float32, one as u64), one);
    let x = 0.25f32.to_bits();
    assert_eq!(convert_one(NativeSampleEncoding::Float32, x as u64), x);
    assert_eq!(convert_one(NativeSampleEncoding::Float32, 0), 0);
}

#[test]
fn float64_samples_narrow_with_rounding() {
    let one = convert_one(NativeSampleEncoding::Float64, 1.0f64.to_bits());
    assert_eq!(val(one), 1.0);
    let zero = convert_one(NativeSampleEncoding::Float64, 0.0f64.to_bits());
    assert_eq!(zero, 0);
    let half = convert_one(NativeSampleEncoding::Float64, 0.5f64.to_bits());
    assert_eq!(val(half), 0.5);
    let x = convert_one(NativeSampleEncoding::Float64, (0.1f64).to_bits());
    assert!((val(x) - 0.1) < 1e-7 && (0.1 - val(x) as f64) < 1e-7);
    let neg = convert_one(NativeSampleEncoding::Float64, (-0.75f64).to_bits());
    assert_eq!(val(neg), -0.75);
}

#[test]
fn float64_narrowing_saturates_only_on_true_overflow() {
    let huge = convert_one(NativeSampleEncoding::Float64, f64::MAX.to_bits());
    assert!(val(huge).is_infinite() && val(huge) > 0.0);
    let neg_inf = convert_one(NativeSampleEncoding::Float64, f64::NEG_INFINITY.to_bits());
    assert!(val(neg_inf).is_infinite() && val(neg_inf) < 0.0);
    let nan = convert_one(NativeSampleEncoding::Float64, f64::NAN.to_bits());
    assert!(val(nan).is_nan());
    // a value in the top binade of the 32-bit range stays finite
    let big = convert_one(NativeSampleEncoding::Float64, 3.0e38f64.to_bits());
    assert!(val(big).is_finite());
    assert!((val(big) as f64 - 3.0e38).abs() < 3.0e38 * 1e-6);
}

#[test]
fn ordinary_signed_values_scale_by_max() {
    let x = val(convert_one(NativeSampleEncoding::Int16, 1000));
    assert!((x - 1000.0 / 32767.0).abs() < 1e-6);
    let y = val(convert_one(NativeSampleEncoding::Int8, 0x100 - 64));
    assert!((y - (-64.0 / 127.0)).abs() < 1e-6);
}

#[test]
fn byte_buffers_convert_per_sample_in_order() {
    // two little-endian 16-bit samples: 1000 and -1000
    let bytes: Vec<u8> = vec![0xE8, 0x03, 0x18, 0xFC];
    let out = convert_samples(NativeSampleEncoding::Int16, &bytes);
    assert_eq!(out.len(), 2);
    assert!((val(out[0]) - 1000.0 / 32767.0).abs() < 1e-6);
    assert!((val(out[1]) + 1000.0 / 32767.0).abs() < 1e-6);
}

#[test]
fn byte_buffers_drop_trailing_partial_samples() {
    let bytes: Vec<u8> = vec![0xE8, 0x03, 0x18];
    let out = convert_samples(NativeSampleEncoding::Int16, &bytes);
    assert_eq!(out.len(), 1);
}

#[test]
fn heuristic_reads_four_byte_chunks_as_float_bits() {
    let mut bytes: Vec<u8> = Vec::new();
    bytes.extend_from_slice(&0.5f32.to_le_bytes());
    bytes.extend_from_slice(&(-0.25f32).to_le_bytes());
    let out = bytes_to_samples(&bytes);
    assert_eq!(out.len(), 2);
    assert_eq!(val(out[0]), 0.5);
    assert_eq!(val(out[1]), -0.25);
}

#[test]
fn heuristic_reads_two_byte_chunks_as_scaled_sixteen_bit() {
    // six bytes: not divisible by 4, so three 16-bit samples
    let bytes: Vec<u8> = vec![0xE8, 0x03, 0x18, 0xFC, 0x00, 0x40];
    let out = bytes_to_samples(&bytes);
    assert_eq!(out.len(), 3);
    assert_eq!(val(out[0]), 1000.0 / 32768.0);
    assert_eq!(val(out[1]), -1000.0 / 32768.0);
    assert_eq!(val(out[2]), 16384.0 / 32768.0);
}

#[test]
fn heuristic_on_three_byte_buffer_yields_empty() {
    let bytes: Vec<u8> = vec![1, 2, 3];
    let out = bytes_to_samples(&bytes);
    assert!(out.is_empty());
}

#[test]
fn heuristic_on_empty_buffer_yields_empty() {
    let bytes: Vec<u8> = Vec::new();
    let out = bytes_to_samples(&bytes);
    assert!(out.is_empty());
}
