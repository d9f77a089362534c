//! Sizes, words, texts, numbers as bits, the ledger and the pool.

use alelyon_compute_kit::arith::{div_ceil, div_ceil_u64};
use alelyon_compute_kit::error::AckError;
use alelyon_compute_kit::float_bits::{is_finite, is_nan, reciprocal_bits};
use alelyon_compute_kit::ledger::{Ledger, Order};
use alelyon_compute_kit::pool::{Pair, Pool};
use alelyon_compute_kit::text::{
    append_decimal, append_signed, decimal, hexadecimal, read_budget, trim, wide_decimal,
};
use alelyon_compute_kit::timing::{resolve_timestamps, summarize_dispatch_timestamps};
use alelyon_compute_kit::words::{block, long_to_bytes, read_word, word_of_signed, words_to_bytes};

#[test]
fn divisions_round_up() {
    assert_eq!((div_ceil(0, 8), div_ceil(1, 8), div_ceil(8, 8), div_ceil(9, 8)), (0, 1, 1, 2));
    assert_eq!(div_ceil(u32::MAX, 2), 1 << 31);
    assert_eq!(div_ceil_u64(u64::MAX, 2), 1 << 63);
    assert_eq!(div_ceil_u64(0, u64::MAX), 0);
}

#[test]
fn words_are_little_endian_and_read_back() {
    let words = [0x0403_0201u32, 0, u32::MAX, 0x8000_0000];
    let bytes = words_to_bytes(&words);
    assert_eq!(bytes[..4], [1, 2, 3, 4]);
    for i in 0..words.len() {
        assert_eq!(read_word(&bytes, i), words[i]);
        assert_eq!(bytes[4 * i..4 * i + 4], words[i].to_le_bytes());
    }
    let fixed: [u8; 8] = block::<2, 8>([0x0403_0201, 5]);
    assert_eq!(fixed, [1, 2, 3, 4, 5, 0, 0, 0]);
    for t in [0i32, 1, -1, i32::MAX, i32::MIN] {
        assert_eq!(word_of_signed(t), t as u32);
    }
    for w in [0u64, 1, 0x0807_0605_0403_0201, u64::MAX] {
        assert_eq!(long_to_bytes(w), w.to_le_bytes());
    }
}

#[test]
fn numbers_are_written_as_std_writes_them() {
    for n in [0u64, 7, 10, 99, 100, 12_345_678_901, u64::MAX] {
        assert_eq!(decimal(n), n.to_string());
        assert_eq!(hexadecimal(n), format!("{n:x}"));
        let mut s = String::from("n=");
        append_decimal(&mut s, n);
        assert_eq!(s, format!("n={n}"));
    }
    for n in [0u128, 10, u128::from(u64::MAX) + 1, u128::MAX] {
        assert_eq!(wide_decimal(n), n.to_string());
    }
    for n in [0i32, 5, -5, i32::MAX, i32::MIN] {
        let mut s = String::new();
        append_signed(&mut s, n);
        assert_eq!(s, n.to_string());
    }
}

#[test]
fn budgets_are_read_as_std_reads_numbers() {
    let texts = [
        "1", " 64 ", "+7", "0", "", " ", "-1", "1.5", "1e3", "0x10", "007", "+", "++1", "1 2",
        "18446744073709551615", "18446744073709551616", "99999999999999999999999", "\u{a0}8\u{3000}",
        "\u{0661}",
    ];
    for text in texts {
        let expected = text.trim().parse::<u64>().ok().filter(|&n| n > 0);
        assert_eq!(read_budget(Some(text), u64::MAX), expected, "{text:?}");
        assert_eq!(trim(text), text.trim());
        let narrow = text.trim().parse::<u32>().ok().filter(|&n| n > 0).map(u64::from);
        assert_eq!(read_budget(Some(text), u64::from(u32::MAX)), narrow, "{text:?}");
    }
    assert_eq!(read_budget(None, 5), None);
    assert_eq!(trim(" \t a b \n"), "a b");
}

#[test]
fn classes_and_reciprocals_are_those_of_binary32() {
    for value in [0.0f32, -0.0, 1.0, f32::MIN_POSITIVE, f32::MAX, f32::INFINITY, f32::NAN] {
        for bits in [value.to_bits(), value.to_bits() ^ 0x8000_0000] {
            assert_eq!(is_finite(bits), f32::from_bits(bits).is_finite());
            assert_eq!(is_nan(bits), f32::from_bits(bits).is_nan());
        }
    }
    for n in (1u32..5000).chain([65_535, 65_536, 65_537, 1_000_003, 1_048_575, 1_048_576]) {
        assert_eq!(reciprocal_bits(n), (1.0f32 / n as f32).to_bits(), "{n}");
    }
}

#[test]
fn stamps_resolve_across_one_wrap() {
    assert_eq!(resolve_timestamps(10, 25, 64, None).unwrap(), 15);
    assert_eq!(resolve_timestamps(u64::MAX, 4, 64, Some("late")).unwrap(), 5);
    assert_eq!(resolve_timestamps(250, 3, 8, None).unwrap(), 9);
    match resolve_timestamps(250, 3, 8, Some("late")) {
        Err(AckError::AmbiguousTiming(why)) => assert_eq!(why, "late"),
        other => panic!("{other:?}"),
    }
    assert_eq!(summarize_dispatch_timestamps(&[]), (0, u64::MAX, 0));
    assert_eq!(summarize_dispatch_timestamps(&[5, 2, 9]), (16, 2, 9));
    assert_eq!(summarize_dispatch_timestamps(&[u64::MAX, 2]), (u64::MAX, 2, u64::MAX));
}

#[test]
fn every_failure_says_what_it_is() {
    let why = || String::from("why");
    let said = [
        (AckError::Load(why()), "vulkan loader: why"),
        (AckError::Vulkan(-2), "vulkan call failed: ERROR_OUT_OF_DEVICE_MEMORY"),
        (AckError::NoDevice(why()), "no usable device: why"),
        (AckError::Unsupported(why()), "unsupported: why"),
        (AckError::Io(why()), "io: why"),
        (AckError::Foreign(why()), "foreign resource: why"),
        (AckError::Freed(why()), "freed resource: why"),
        (AckError::Poisoned(why()), "poisoned context: why"),
        (AckError::AmbiguousTiming(why()), "ambiguous timing: why"),
        (AckError::Batch(why()), "deferred batch: why"),
    ];
    for (error, text) in said {
        assert_eq!(error.message(), text);
    }
    // a code without a name is its number
    assert_eq!(AckError::from(-12345).message(), "vulkan call failed: -12345");
}

#[test]
fn the_ledger_counts_what_it_creates_and_destroys() {
    let mut ledger = Ledger::new();
    for _ in 0..4 {
        ledger.create();
    }
    ledger.destroy_pair(1, 2);
    ledger.release_submission(3, 4);
    assert_eq!((ledger.live_objects(), ledger.torn_down(), ledger.leaked()), (0, 1, 0));
    assert_eq!(
        ledger.take_orders(),
        vec![
            Order::DestroyBuffer(1),
            Order::FreeMemory(2),
            Order::DestroyFence(3),
            Order::FreeCommandBuffer(4),
        ]
    );
    assert!(ledger.take_orders().is_empty());
    assert!(ledger.check_live().is_ok());

    // a context whose device state is unknown leaks instead, and stays poisoned
    ledger.poison(String::from("wait failed"), false);
    assert!(ledger.is_poisoned() && ledger.is_unknown());
    ledger.release_pair(5, 6);
    ledger.release_queries(7);
    ledger.release_kernel(8, 9, 10, 11);
    assert_eq!(ledger.leaked(), 7);
    assert!(ledger.take_orders().is_empty());
    assert_eq!(ledger.poison_text(), "wait failed");
    assert!(matches!(ledger.check_live(), Err(AckError::Poisoned(why)) if why == "wait failed"));

    // a lost device runs nothing, so its objects are released
    let mut lost = Ledger::new();
    lost.poison(String::from("lost"), true);
    lost.release_kernel(8, 9, 10, 11);
    assert_eq!(
        lost.take_orders(),
        vec![
            Order::DestroyDescriptorPool(8),
            Order::DestroyPipeline(9),
            Order::DestroyPipelineLayout(10),
            Order::DestroySetLayout(11),
        ]
    );
    assert_eq!(lost.leaked(), 0);
}

#[test]
fn launches_of_one_item_are_separated() {
    let mut ledger = Ledger::new();
    ledger.launch(9, 1, 2, 3, 3);
    let launch = Order::Launch { commands: 9, x: 1, y: 2, z: 3 };
    let barrier = Order::RepeatBarrier { commands: 9 };
    assert_eq!(ledger.take_orders(), vec![launch, barrier, launch, barrier, launch]);
}

fn pair(id: u64, allocated: u64) -> Pair {
    Pair { buffer: id, memory: id + 100, allocated }
}

#[test]
fn the_pool_serves_by_size_and_stays_under_its_ceiling() {
    let mut ledger = Ledger::new();
    let mut pool = Pool::new(64, true);
    assert_eq!(pool.take_pooled(16), None);
    for (id, bytes) in [(1, 16), (2, 32), (3, 16), (4, 16)] {
        pool.recycle_or_destroy(&mut ledger, pair(id, bytes));
    }
    // the fourth would have crossed the ceiling
    assert_eq!(ledger.take_orders(), vec![Order::DestroyBuffer(4), Order::FreeMemory(104)]);
    let stats = pool.stats();
    assert_eq!((stats.misses, stats.returns, stats.declined), (1, 3, 1));
    assert_eq!((stats.held_objects, stats.held_bytes), (6, 64));
    // the newest of exactly the size asked for
    assert_eq!(pool.take_pooled(16), Some(pair(3, 16)));
    assert_eq!(pool.take_pooled(8), None);
    assert_eq!((pool.stats().hits, pool.stats().held_bytes), (1, 48));

    pool.set_max_bytes(&mut ledger, 20);
    assert_eq!(ledger.take_orders(), vec![Order::DestroyBuffer(2), Order::FreeMemory(102)]);
    assert_eq!((pool.stats().drained, pool.pooled_objects()), (1, 2));
    assert!(pool.reclaim(&mut ledger));
    assert!(!pool.reclaim(&mut ledger));
    assert_eq!((pool.stats().reclaims, pool.stats().drained, pool.pooled_objects()), (1, 2, 0));

    pool.recycle_all(&mut ledger, &vec![pair(5, 16), pair(6, 16)]);
    assert_eq!(pool.pooled_objects(), 2);
    pool.set_enabled(&mut ledger, false);
    assert!(!pool.enabled());
    assert_eq!((pool.pooled_objects(), pool.stats().held_bytes), (0, 0));
    // off, a freed pair is destroyed and counted nowhere
    let before = pool.stats();
    pool.recycle_or_destroy(&mut ledger, pair(7, 4));
    assert_eq!(pool.stats(), before);
}
