//! The cross-tier call ABI.

use temen_browser::bytes::{get_u64_at, i32_of_low, put_u64_at};
use temen_browser::slots::{
    read_call_args, read_slot_value, scalar_type_codes, settle_call, settle_leaf_call, slot_offs,
    write_call_results, write_slot_value, CallOutcome, ValType, Value,
};
use temen_browser::status::{STATUS_EXIT, STATUS_TRAP};

#[test]
fn v128_two_slot_layout_round_trips() {
    let sig = [
        ValType::V128,
        ValType::I64,
        ValType::F32,
        ValType::V128,
        ValType::I32,
    ];
    assert_eq!(slot_offs(&sig), vec![0, 16, 24, 32, 48]);

    let vals = [
        Value::V128(*b"0123456789abcdef"),
        Value::I64(-7),
        Value::F32(1.5f32.to_bits()),
        Value::V128([0xAA; 16]),
        Value::I32(-1),
    ];
    let mut scratch = [0u8; 56];
    for (v, off) in vals.iter().zip(slot_offs(&sig)) {
        assert!(write_slot_value(v, &mut scratch, off));
    }
    for ((ty, v), off) in sig.iter().zip(&vals).zip(slot_offs(&sig)) {
        let got = read_slot_value(*ty, &scratch, off);
        assert_eq!(format!("{got:?}"), format!("{v:?}"), "round-trip at {off}");
    }
}

#[test]
fn narrow_values_fill_their_slot() {
    let mut scratch = [0xffu8; 16];
    assert!(write_slot_value(&Value::I32(-2), &mut scratch, 0));
    assert_eq!(&scratch[..8], &[0xfe, 0xff, 0xff, 0xff, 0, 0, 0, 0]);
    assert!(write_slot_value(&Value::F32(0x3fc0_0000), &mut scratch, 8));
    assert_eq!(&scratch[8..], &[0, 0, 0xc0, 0x3f, 0, 0, 0, 0]);
    assert_eq!(read_slot_value(ValType::I32, &scratch, 0), Value::I32(-2));
    assert_eq!(read_slot_value(ValType::F32, &scratch, 8), Value::F32(0x3fc0_0000));
}

#[test]
fn references_are_not_carried() {
    let mut scratch = [7u8; 8];
    assert!(!write_slot_value(&Value::Ref(1), &mut scratch, 0));
    assert_eq!(scratch, [7u8; 8]);
    assert!(scalar_type_codes(&[ValType::I32, ValType::Ref]).is_none());
    assert!(scalar_type_codes(&[ValType::V128]).is_none());
    assert_eq!(
        scalar_type_codes(&[ValType::I32, ValType::I64, ValType::F32, ValType::F64]),
        Some(vec![0, 1, 2, 3])
    );
}

#[test]
fn a_call_reads_its_arguments_and_overlays_its_results() {
    let params = [ValType::I64, ValType::I32];
    let results = [ValType::I64];
    let mut scratch = [0u8; 16];
    put_u64_at(&mut scratch, 0, 40);
    put_u64_at(&mut scratch, 8, 2);
    assert_eq!(
        read_call_args(&params, &scratch),
        vec![Value::I64(40), Value::I32(2)]
    );
    let done = CallOutcome::Returned(vec![Value::I64(42)]);
    assert_eq!(settle_call(&done, &results, &mut scratch), 0);
    assert_eq!(get_u64_at(&scratch, 0), 42);
    assert_eq!(get_u64_at(&scratch, 8), 2);
    assert_eq!(settle_call(&CallOutcome::Exited(3), &results, &mut scratch), STATUS_EXIT);
    assert_eq!(settle_call(&CallOutcome::Trapped, &results, &mut scratch), STATUS_TRAP);
    let bad = CallOutcome::Returned(vec![Value::Ref(9)]);
    assert_eq!(settle_call(&bad, &results, &mut scratch), STATUS_TRAP);
}

#[test]
fn a_leaf_call_insists_on_its_arity() {
    let results = [ValType::I64];
    let mut scratch = [0u8; 16];
    let one = CallOutcome::Returned(vec![Value::I64(5)]);
    assert_eq!(settle_leaf_call(&one, &results, &mut scratch), 0);
    assert_eq!(get_u64_at(&scratch, 0), 5);
    let none = CallOutcome::Returned(vec![]);
    assert_eq!(settle_leaf_call(&none, &results, &mut scratch), 1);
    assert_eq!(settle_leaf_call(&CallOutcome::Trapped, &results, &mut scratch), 1);
}

#[test]
fn surplus_results_are_dropped() {
    let mut scratch = [0u8; 8];
    let vals = [Value::I64(1), Value::Ref(2)];
    assert!(write_call_results(&vals, &[ValType::I64], &mut scratch));
    assert_eq!(get_u64_at(&scratch, 0), 1);
}

#[test]
fn low_bits_are_a_signed_number() {
    assert_eq!(i32_of_low(0x1_ffff_ffff), -1);
    assert_eq!(i32_of_low(0x8000_0000), i32::MIN);
    assert_eq!(i32_of_low(41), 41);
}
