//! The batch recorder's accounting.

use alelyon_compute_kit::batch::{
    check_declared_access, env_u32, env_u64, flush_reason_index, flush_reason_name, is_wired,
    next_set_index, Access, BatchPlan, FlushReason, ALL_FLUSH_REASONS, FLUSH_REASON_COUNT,
    MAX_RECORDED_ITEMS, MAX_RETIRED_BYTES,
};

#[test]
fn the_reason_array_covers_the_enum_and_the_names_are_distinct() {
    assert_eq!(ALL_FLUSH_REASONS.len(), FLUSH_REASON_COUNT);
    let mut names: Vec<&str> = ALL_FLUSH_REASONS
        .iter()
        .map(|r| flush_reason_name(*r))
        .collect();
    names.sort_unstable();
    let before = names.len();
    names.dedup();
    assert_eq!(
        names.len(),
        before,
        "two flush reasons share a name: {names:?}"
    );
    for (i, r) in ALL_FLUSH_REASONS.iter().enumerate() {
        assert_eq!(
            flush_reason_index(*r),
            i,
            "{} is not at its own index",
            flush_reason_name(*r)
        );
    }
}

#[test]
fn accounting_is_the_only_unwired_reason_and_that_is_a_pinned_fact() {
    let unwired: Vec<&str> = ALL_FLUSH_REASONS
        .iter()
        .filter(|r| !is_wired(**r))
        .map(|r| flush_reason_name(*r))
        .collect();
    assert_eq!(
        unwired,
        vec!["Accounting"],
        "exactly one flush reason is unwired, and it is the accounting one"
    );
}

#[test]
fn a_batch_records_one_barrier_between_every_pair_of_adjacent_items() {
    for n in 0u32..64 {
        let mut plan = BatchPlan::new(0, MAX_RECORDED_ITEMS, MAX_RETIRED_BYTES, None);
        for _ in 0..n {
            plan.record();
        }
        assert_eq!(plan.items(), n);
        assert_eq!(
            plan.barriers(),
            n.saturating_sub(1),
            "n = {n}: barriers must be items - 1"
        );
    }
}

#[test]
fn the_first_item_of_a_batch_takes_no_barrier_and_every_later_one_does() {
    let mut plan = BatchPlan::new(0, MAX_RECORDED_ITEMS, MAX_RETIRED_BYTES, None);
    assert!(!plan.record(), "the first item of a batch needs no barrier");
    for i in 1..10 {
        assert!(plan.record(), "item {i} must be preceded by a barrier");
    }
}

#[test]
fn batch_full_fires_at_the_nth_item_and_not_at_the_n_plus_first() {
    for max in [1u32, 2, 3, 17, 4096] {
        let mut plan = BatchPlan::new(0, max, MAX_RETIRED_BYTES, None);
        for i in 1..max {
            plan.record();
            assert_eq!(plan.due(), None, "max {max}: item {i} is not the limit");
        }
        plan.record();
        assert_eq!(
            plan.due(),
            Some(FlushReason::BatchFull),
            "max {max}: the limit is reached AT the {max}th item, not after it"
        );
    }
}

#[test]
fn a_budget_of_one_item_makes_the_deferred_path_the_eager_arm() {
    let mut plan = BatchPlan::new(0, 1, MAX_RETIRED_BYTES, None);
    plan.record();
    assert_eq!(plan.due(), Some(FlushReason::BatchFull));
    let mut zero = BatchPlan::new(0, 0, MAX_RETIRED_BYTES, None);
    zero.record();
    assert_eq!(zero.due(), Some(FlushReason::BatchFull));
}

#[test]
fn retiring_past_the_budget_asks_for_a_flush_and_below_it_does_not() {
    let mut plan = BatchPlan::new(0, MAX_RECORDED_ITEMS, 1000, None);
    plan.record();
    assert_eq!(plan.retire(400, 2), None);
    assert_eq!(
        plan.retire(600, 2),
        None,
        "exactly at the budget is not past it"
    );
    assert_eq!(plan.retired_bytes(), 1000);
    assert_eq!(plan.retired_objects(), 4);
    assert_eq!(plan.retire(1, 2), Some(FlushReason::RetiredBytes));
    assert_eq!(plan.retired_objects(), 6, "a buffer retires two objects");
}

#[test]
fn the_retirement_accounting_saturates_rather_than_wrapping() {
    let mut plan = BatchPlan::new(0, MAX_RECORDED_ITEMS, u64::MAX, None);
    plan.record();
    assert_eq!(plan.retire(u64::MAX, 2), None);
    assert_eq!(plan.retire(u64::MAX, 2), None);
    assert_eq!(
        plan.retired_bytes(),
        u64::MAX,
        "saturating, not wrapped to a small number"
    );
}

#[test]
fn the_sequence_range_names_the_items_this_batch_recorded() {
    let mut plan = BatchPlan::new(18_432, MAX_RECORDED_ITEMS, MAX_RETIRED_BYTES, None);
    for _ in 0..1204 {
        plan.record();
    }
    assert_eq!(plan.first_seq(), 18_432);
    assert_eq!(plan.next_seq(), 18_432 + 1204);
    let text = plan.describe(FlushReason::Readback);
    assert!(text.contains("Readback"), "{text}");
    assert!(text.contains("18432..19635"), "{text}");
    assert!(text.contains("1204 recorded dispatch"), "{text}");
}

#[test]
fn a_declared_access_set_must_name_the_bound_buffers_slot_for_slot() {
    let bound = vec![7u64, 9, 7, 11];
    let ok = [
        Access::read(7),
        Access::read(9),
        Access::read(7),
        Access::write(11),
    ];
    assert_eq!(check_declared_access(&ok, &bound), Ok(()));

    let missing = [Access::read(7), Access::read(9), Access::write(11)];
    let err = check_declared_access(&missing, &bound).expect_err("a missing slot is refused");
    assert!(err.contains("declares 3"), "{err}");
    assert!(err.contains("bound to 4"), "{err}");

    let extra = [
        Access::read(7),
        Access::read(9),
        Access::read(7),
        Access::write(11),
        Access::read(11),
    ];
    assert!(
        check_declared_access(&extra, &bound).is_err(),
        "an extra slot is refused"
    );

    let wrong = [
        Access::read(7),
        Access::read(9),
        Access::read(9),
        Access::write(11),
    ];
    let err = check_declared_access(&wrong, &bound).expect_err("a wrong buffer is refused");
    assert!(err.contains("slot 2"), "the refusal names the slot: {err}");

    assert_eq!(check_declared_access(&[], &[]), Ok(()));
}

#[test]
fn the_kind_of_a_declared_access_changes_nothing_in_phase_one() {
    let bound = vec![1u64, 2];
    let reads = [Access::read(1), Access::read(2)];
    let writes = [Access::write(1), Access::write(2)];
    assert_eq!(check_declared_access(&reads, &bound), Ok(()));
    assert_eq!(check_declared_access(&writes, &bound), Ok(()));
}

#[test]
fn a_descriptor_arena_hands_out_every_set_once_and_then_refuses() {
    for capacity in [1u32, 2, 512] {
        for i in 0..capacity {
            assert_eq!(next_set_index(i, capacity), Some(i), "capacity {capacity}");
        }
        assert_eq!(
            next_set_index(capacity, capacity),
            None,
            "capacity {capacity}: the watermark at capacity is exhaustion"
        );
        assert_eq!(next_set_index(0, capacity), Some(0));
    }
}

#[test]
fn the_environment_tunings_reject_zero_and_garbage_and_keep_the_default() {
    assert_eq!(env_u32(None, 4096), 4096);
    assert_eq!(env_u64(None, 1 << 30), 1 << 30);
    assert_eq!(env_u32(Some("0"), 4096), 4096, "zero is not a budget");
    assert_eq!(env_u32(Some("not a number"), 4096), 4096);
    assert_eq!(
        env_u32(Some(" 7 "), 4096),
        7,
        "a real value wins, whitespace and all"
    );
}

#[test]
fn a_cloned_plan_records_on_its_own() {
    let mut plan = BatchPlan::new(5, 3, 100, None);
    plan.record_with(&[Access::write(1)]);
    let mut copy = plan.clone();
    copy.record_with(&[Access::read(1)]);
    assert_eq!((copy.items(), copy.barriers()), (2, 1));
    assert_eq!((plan.items(), plan.barriers()), (1, 0));
}

#[test]
fn a_plan_takes_the_barrier_rule_that_is_asked_for() {
    let barriers = |asked: Option<&str>| {
        let mut plan = BatchPlan::new(0, MAX_RECORDED_ITEMS, MAX_RETIRED_BYTES, asked);
        for id in 0..4 {
            plan.record_with(&[Access::write(id)]);
        }
        plan.barriers()
    };
    assert_eq!(barriers(Some("always")), 3);
    for declared in [None, Some(""), Some("Always"), Some("always "), Some("declared")] {
        assert_eq!(barriers(declared), 0);
    }
}

#[test]
fn conflicting_items_have_a_barrier_between_them() {
    // items over three buffers, each reading one and writing another
    let items: Vec<[Access; 2]> = (0..40u64)
        .map(|n| [Access::read(n * n % 3), Access::write((n * 7 + n / 4) % 3 + 3 * (n % 2))])
        .collect();
    for asked in [None, Some("always")] {
        let mut plan = BatchPlan::new(0, MAX_RECORDED_ITEMS, MAX_RETIRED_BYTES, asked);
        let barrier: Vec<bool> = items.iter().map(|item| plan.record_with(item)).collect();
        assert!(asked.is_some() || barrier[1..].contains(&false), "some items are independent");
        for j in 0..items.len() {
            for i in 0..j {
                let touches = |n: usize, b: u64| items[n].iter().any(|a| a.buffer == b);
                let hazard = touches(j, items[i][1].buffer) || touches(i, items[j][1].buffer);
                assert!(!hazard || barrier[i + 1..=j].contains(&true), "items {i} and {j}");
            }
        }
    }
}
