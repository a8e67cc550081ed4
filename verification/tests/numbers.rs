//! Numbers by their bits, and the order in which things are sorted.

use dm_vm::appearance::key_of;
use dm_vm::bitwise::{bitwise_binary, bitwise_not, bitwise_shift, BitOperation};
use dm_vm::activation::value_to_list_index;
use dm_vm::fault::Fault;
use dm_vm::intervals::build_intervals;
use dm_vm::ordering::{permuted, reversed};
use dm_vm::program::{
    compound_assignment_from_list_index, CompoundAssignmentOperator, CompoundListIndexOperator,
};
use dm_vm::sorting::{stable_order, SortKey};
use dm_vm::value::{Number, Value};

fn n(value: f32) -> Number {
    Number { bits: value.to_bits() }
}

#[test]
fn integers_become_the_nearest_number() {
    for value in [0u64, 1, 2, 3, 516, 1_680, 16_777_216, 16_777_217, 16_777_219, u64::MAX] {
        assert_eq!(Number::from_u64(value), n(value as f32));
    }
    for value in [0i32, 1, -1, 255, -16_777_217, i32::MAX, i32::MIN] {
        assert_eq!(Number::from_i32(value), n(value as f32));
    }
}

#[test]
fn numbers_become_integers_as_casts_do() {
    for value in [
        0.0f32, -0.0, 0.5, -0.5, 1.99, -1.99, 2.0e9, 3.0e9, -3.0e9, 1.0e30, f32::INFINITY,
        f32::NEG_INFINITY, f32::NAN, 1.0e-40,
    ] {
        assert_eq!(n(value).truncate_i32(), value as i32);
    }
    assert_eq!(n(5.0).integral_i32(), Some(5));
    assert_eq!(n(5.5).integral_i32(), None);
    assert_eq!(n(3.0e9).integral_i32(), Some(i32::MAX));
    assert_eq!(n(f32::INFINITY).integral_i32(), None);
    assert_eq!(n(3.0).length(), 3);
    assert_eq!(n(-3.0).length(), 0);
    assert_eq!(n(f32::NAN).length(), 0);
    assert_eq!(n(2.0).list_index(), Some(2));
    assert_eq!(n(2.5).list_index(), None);
}

#[test]
fn numbers_are_ordered_as_floats_are() {
    let values = [f32::NEG_INFINITY, -2.0, -0.0, 0.0, 1.0e-40, 1.5, f32::INFINITY];
    for a in values {
        for b in values {
            assert_eq!(n(a).less_than(n(b)), a < b);
            assert_eq!(n(a).equals(n(b)), a == b);
        }
        assert!(!n(a).less_than(n(f32::NAN)));
        assert!(!n(f32::NAN).equals(n(a)));
    }
}

#[test]
fn drawing_keys_follow_the_total_order() {
    let values = [-f32::NAN, f32::NEG_INFINITY, -1.0, -0.0, 0.0, 2.0, f32::INFINITY, f32::NAN];
    for pair in values.windows(2) {
        let low = key_of(n(pair[0]), n(0.0));
        let high = key_of(n(pair[1]), n(0.0));
        assert!(low.major < high.major);
        assert!(pair[0].total_cmp(&pair[1]).is_lt());
    }
}

#[test]
fn bits_are_combined_in_twenty_four() {
    assert_eq!(bitwise_binary(n(12.0), n(10.0), BitOperation::And), n(8.0));
    assert_eq!(bitwise_binary(n(12.0), n(10.0), BitOperation::Or), n(14.0));
    assert_eq!(bitwise_binary(n(12.0), n(10.0), BitOperation::Xor), n(6.0));
    assert_eq!(bitwise_not(n(0.0)), n(16_777_215.0));
    assert_eq!(bitwise_not(bitwise_not(n(1_234.0))), n(1_234.0));
    assert_eq!(bitwise_shift(n(1.0), n(4.0), true), n(16.0));
    assert_eq!(bitwise_shift(n(16.0), n(4.0), false), n(1.0));
    assert_eq!(bitwise_shift(n(1.0), n(24.0), true), n(0.0));
}

#[test]
fn list_indices_are_whole_and_positive() {
    assert_eq!(value_to_list_index(Value::Number(n(3.0))), Ok(3));
    for refused in [Value::Number(n(0.5)), Value::Null, Value::Number(n(-1.0))] {
        assert_eq!(value_to_list_index(refused), Err(Fault::InvalidListIndex(refused)));
    }
}

#[test]
fn sorting_is_stable() {
    let keys = vec![
        SortKey { major: 2, minor: 0 },
        SortKey { major: 1, minor: 5 },
        SortKey { major: 2, minor: 0 },
        SortKey { major: 1, minor: 4 },
    ];
    let order = stable_order(&keys);
    assert_eq!(order, vec![3, 1, 0, 2]);
    assert_eq!(permuted(vec!['a', 'b', 'c', 'd'], &order), vec!['d', 'b', 'a', 'c']);
    assert_eq!(reversed(vec![1, 2, 3]), vec![3, 2, 1]);
}

#[test]
fn intervals_nest_as_types_do() {
    let parents = vec![None, Some(0), Some(1), Some(0), None];
    let intervals = build_intervals(&parents);
    let inside = |a: usize, b: usize| {
        intervals[b].0 <= intervals[a].0 && intervals[a].1 <= intervals[b].1
    };
    assert!(inside(1, 0) && inside(2, 0) && inside(2, 1) && inside(3, 0));
    assert!(!inside(3, 1) && !inside(0, 1) && !inside(4, 0) && !inside(0, 4));
}

#[test]
fn compound_operators_have_their_assignments() {
    assert_eq!(
        compound_assignment_from_list_index(CompoundListIndexOperator::ShiftLeft),
        CompoundAssignmentOperator::ShiftLeft
    );
    assert_eq!(
        compound_assignment_from_list_index(CompoundListIndexOperator::Add),
        CompoundAssignmentOperator::Add
    );
}
