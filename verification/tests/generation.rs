//! Integer-mode generation: ranges, counts, and distinctness.

use randgen::intgen::generate_integers;
use randgen::intgen::check_i32_for_uniqueness;
use randgen::GenError;

#[test]
fn full_range_unique_is_a_permutation() {
    let v = generate_integers(1, 5, 5, true).unwrap();
    let mut sorted = v.clone();
    sorted.sort();
    assert_eq!(sorted, vec![1, 2, 3, 4, 5]);
}

#[test]
fn unique_count_over_range_fails() {
    assert_eq!(
        generate_integers(1, 3, 5, true),
        Err(GenError::UnsatisfiableUniqueness)
    );
}

#[test]
fn emits_exactly_count_values_in_range() {
    let v = generate_integers(-10, 10, 40, false).unwrap();
    assert_eq!(v.len(), 40);
    for x in v {
        assert!(-10 <= x && x <= 10);
    }
}

#[test]
fn unique_values_are_pairwise_distinct() {
    let v = generate_integers(0, 100, 60, true).unwrap();
    assert_eq!(v.len(), 60);
    for i in 0..v.len() {
        assert!(0 <= v[i] && v[i] <= 100);
        for j in 0..i {
            assert_ne!(v[i], v[j]);
        }
    }
}

#[test]
fn zero_or_negative_count_emits_nothing() {
    assert_eq!(generate_integers(5, 1, 0, true).unwrap(), Vec::<i32>::new());
    assert_eq!(generate_integers(1, 5, -3, false).unwrap(), Vec::<i32>::new());
}

#[test]
fn single_value_range_always_emits_it() {
    let v = generate_integers(7, 7, 3, false).unwrap();
    assert_eq!(v, vec![7, 7, 7]);
}

#[test]
fn narrow_range_draws_stay_inside_it() {
    let v = generate_integers(3, 4, 100, false).unwrap();
    assert_eq!(v.len(), 100);
    for x in v {
        assert!(x == 3 || x == 4);
    }
}

#[test]
fn uniqueness_check_scans_previous_values() {
    let seen = vec![1, 2, 3];
    assert!(!check_i32_for_uniqueness(&3, &seen));
    assert!(check_i32_for_uniqueness(&4, &seen));
    assert!(check_i32_for_uniqueness(&0, &Vec::new()));
}
