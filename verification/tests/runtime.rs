//! Timestamps, staging preferences and bf16 conversion.

use alelyon_compute_kit::context::Context;
use alelyon_compute_kit::error::AckError;
use alelyon_compute_kit::raw_buffer::{HOST_CACHED, HOST_COHERENT, HOST_VISIBLE};
use alelyon_compute_kit::timing::{stamp_intervals, summarize_dispatch_timestamps};

/// A batch's span, shortest and longest interval in nanoseconds.
fn summarize(
    ticks: &[u64],
    valid_bits: u32,
    period_ns: f64,
    host_elapsed_ns: f64,
) -> Result<(u64, u64, u64), AckError> {
    let wrap_ns = 2f64.powi(valid_bits as i32) * period_ns;
    let beyond = (host_elapsed_ns >= wrap_ns).then_some("beyond the counter's period");
    let intervals = stamp_intervals(ticks, valid_bits, beyond)?;
    let ns: Vec<u64> = intervals
        .iter()
        .map(|&ticks| (ticks as f64 * period_ns) as u64)
        .collect();
    Ok(summarize_dispatch_timestamps(&ns))
}

fn f32_to_bf16(value: f32) -> u16 {
    alelyon_compute_kit::float_bits::f32_to_bf16(value.to_bits())
}

fn bf16_to_f32(half: u16) -> f32 {
    f32::from_bits(alelyon_compute_kit::float_bits::bf16_to_f32(half))
}

#[test]
fn dispatch_timing_resolves_one_wrap_but_refuses_an_ambiguous_batch() {
    assert_eq!(
        summarize(&[250, 3, 10], 8, 2.0, 100.0).unwrap(),
        (32, 14, 18)
    );
    assert!(matches!(
        summarize(&[250, 3, 10], 8, 2.0, 512.0),
        Err(AckError::AmbiguousTiming(_))
    ));
}

#[test]
fn readback_staging_prefers_cached_host_memory() {
    let prefs = Context::readback_memory_preferences();
    let contains = |flags: u32, flag: u32| flags & flag == flag;
    assert!(
        prefs[..prefs.len() - 1]
            .iter()
            .all(|&f| contains(f, HOST_CACHED)),
        "every preference before the fallback must request HOST_CACHED: {prefs:?}"
    );
    assert!(
        prefs.iter().all(|&f| contains(f, HOST_VISIBLE)),
        "readback staging must be host visible: {prefs:?}"
    );
    assert!(
        !contains(prefs[prefs.len() - 1], HOST_CACHED),
        "the last entry is the uncached fallback, kept so a device with no cached host-visible type still works"
    );
    assert!(
        contains(prefs[0], HOST_COHERENT),
        "the first choice is coherent so the read needs no invalidate"
    );
}

#[test]
fn a_context_is_send_so_it_can_live_behind_a_mutex() {
    fn assert_send<T: Send>() {}
    assert_send::<Context>();
}

#[test]
fn bf16_round_trip_is_exact_for_bf16_representable_values() {
    for v in [0.0f32, 1.0, -1.0, 0.5, 1.5, 3.0, 65280.0, -0.125] {
        assert_eq!(bf16_to_f32(f32_to_bf16(v)), v);
    }
}

#[test]
fn bf16_rounds_to_nearest_even() {
    let tie = 1.0f32 + 2.0f32.powi(-8);
    assert_eq!(bf16_to_f32(f32_to_bf16(tie)), 1.0);
    let above = 1.0f32 + 3.0 * 2.0f32.powi(-9);
    assert_eq!(bf16_to_f32(f32_to_bf16(above)), 1.0 + 2.0f32.powi(-7));
}

#[test]
fn bf16_conversion_preserves_signed_zeros_infinities_and_finite_ties() {
    let cases = [
        (0x0000_0000, 0x0000),
        (0x8000_0000, 0x8000),
        (0x7f80_0000, 0x7f80),
        (0xff80_0000, 0xff80),
        (0x3f80_8000, 0x3f80),
        (0x3f81_8000, 0x3f82),
        (0xbf80_8000, 0xbf80),
        (0xbf81_8000, 0xbf82),
        (0x0000_8000, 0x0000),
        (0x0000_8001, 0x0001),
        (0x8000_8000, 0x8000),
        (0x8000_8001, 0x8001),
    ];
    for (input, expected) in cases {
        assert_eq!(f32_to_bf16(f32::from_bits(input)), expected);
    }
}

#[test]
fn bf16_conversion_preserves_nan_sign_and_high_payload_while_quieting() {
    for sign in [0, 0x8000_0000] {
        for high_payload in 0..128 {
            for low_payload in [0, 1, 0x7fff, 0x8000, 0xffff] {
                if high_payload == 0 && low_payload == 0 {
                    continue;
                }
                let input_bits = sign | 0x7f80_0000 | (high_payload << 16) | low_payload;
                let converted = f32_to_bf16(f32::from_bits(input_bits));
                assert_eq!(converted & 0x7f80, 0x7f80, "NaN exponent changed");
                assert_ne!(converted & 0x007f, 0, "NaN became infinity");
                assert_ne!(converted & 0x0040, 0, "NaN was not quieted");
                assert_eq!(
                    converted,
                    ((input_bits >> 16) | 0x0040) as u16,
                    "NaN sign or high payload changed"
                );
            }
        }
    }
}
