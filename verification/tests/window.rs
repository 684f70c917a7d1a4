use write_router::window::{
    difference_with_gaps, kernel_outcome, null_count, to_signed_bits, to_unsigned_bits,
    window_difference, window_difference_u64, WindowError,
};

#[test]
fn difference_without_gaps_uses_previous_value() {
    let column = vec![Some(1i64), Some(3), Some(6), Some(4)];
    let out = window_difference(&column).unwrap();
    assert_eq!(out, vec![None, Some(2), Some(3), Some(-2)]);
}

#[test]
fn difference_with_gaps_skips_absent_values() {
    let column = vec![None, Some(10i64), None, Some(15), Some(11), None];
    let out = window_difference(&column).unwrap();
    assert_eq!(out, vec![None, None, None, Some(5), Some(-4), None]);
    assert_eq!(null_count(&column), 3);
}

#[test]
fn difference_of_empty_and_single_columns() {
    let empty: Vec<Option<i64>> = Vec::new();
    assert_eq!(window_difference(&empty).unwrap(), Vec::<Option<i64>>::new());
    assert_eq!(window_difference(&vec![Some(7i64)]).unwrap(), vec![None]);
    assert_eq!(window_difference(&vec![None]).unwrap(), vec![None]);
    assert_eq!(null_count(&empty), 0);
}

#[test]
fn difference_wraps_on_overflow_in_both_paths() {
    let no_gaps = vec![Some(i64::MAX), Some(i64::MIN)];
    assert_eq!(window_difference(&no_gaps).unwrap(), vec![None, Some(1)]);
    let gaps = vec![Some(i64::MAX), None, Some(i64::MIN)];
    assert_eq!(window_difference(&gaps).unwrap(), vec![None, None, Some(1)]);
    assert_eq!(difference_with_gaps(&gaps), vec![None, None, Some(1)]);
}

#[test]
fn both_paths_agree_on_a_column_without_gaps() {
    let column = vec![Some(5i64), Some(-3), Some(0), Some(100), Some(99)];
    assert_eq!(window_difference(&column).unwrap(), difference_with_gaps(&column));
    assert_eq!(
        difference_with_gaps(&column),
        vec![None, Some(-8), Some(3), Some(100), Some(-1)]
    );
}

#[test]
fn kernel_outcome_maps_result() {
    let ok = kernel_outcome(Ok(vec![Some(1i64), None]));
    assert_eq!(ok, Ok(vec![Some(1i64), None]));
    let err = kernel_outcome(Err(arrow::error::ArrowError::ComputeError(String::from("x"))));
    assert_eq!(err, Err(WindowError::Kernel));
}

#[test]
fn unsigned_columns_wrap_as_unsigned() {
    let no_gaps = vec![Some(1u64), Some(3), Some(6)];
    assert_eq!(window_difference_u64(&no_gaps).unwrap(), vec![None, Some(2), Some(3)]);
    let wraps = vec![Some(7u64), Some(5), None, Some(u64::MAX), Some(0)];
    assert_eq!(
        window_difference_u64(&wraps).unwrap(),
        vec![None, Some(u64::MAX - 1), None, Some(u64::MAX - 5), Some(1)]
    );
    let large = vec![Some(1u64 << 63), Some((1u64 << 63) - 1), Some(1u64 << 63)];
    assert_eq!(window_difference_u64(&large).unwrap(), vec![None, Some(u64::MAX), Some(1)]);
    assert_eq!(window_difference_u64(&Vec::new()).unwrap(), Vec::<Option<u64>>::new());
}

#[test]
fn bits_are_kept_between_signed_and_unsigned() {
    assert_eq!(to_signed_bits(0), 0);
    assert_eq!(to_signed_bits(i64::MAX as u64), i64::MAX);
    assert_eq!(to_signed_bits(1u64 << 63), i64::MIN);
    assert_eq!(to_signed_bits(u64::MAX), -1);
    assert_eq!(to_unsigned_bits(-1), u64::MAX);
    assert_eq!(to_unsigned_bits(i64::MIN), 1u64 << 63);
    assert_eq!(to_unsigned_bits(i64::MAX), i64::MAX as u64);
    for x in [0u64, 1, 77, u64::MAX, 1 << 63, (1 << 63) - 1] {
        assert_eq!(to_unsigned_bits(to_signed_bits(x)), x);
    }
}

#[test]
fn every_column_is_answered_with_its_length() {
    let columns: Vec<Vec<Option<i64>>> = vec![
        vec![],
        vec![Some(10), Some(7)],
        vec![None, None],
        vec![Some(1), None, Some(2)],
        vec![Some(i64::MIN), Some(i64::MAX), Some(0)],
    ];
    for column in columns {
        assert_eq!(window_difference(&column).unwrap().len(), column.len());
    }
    assert_eq!(window_difference(&vec![Some(10i64), Some(7)]).unwrap(), vec![None, Some(-3)]);
}

#[test]
fn adding_a_constant_changes_no_difference() {
    let column = vec![Some(5i64), None, Some(-3), Some(i64::MAX), None, Some(i64::MIN), Some(0)];
    let expected = window_difference(&column).unwrap();
    for c in [1i64, -1, 1000, i64::MAX, i64::MIN] {
        let moved: Vec<Option<i64>> =
            column.iter().map(|v| v.map(|x| x.wrapping_add(c))).collect();
        assert_eq!(window_difference(&moved).unwrap(), expected);
    }
    let unsigned = vec![Some(5u64), Some(u64::MAX), None, Some(0)];
    let expected = window_difference_u64(&unsigned).unwrap();
    for c in [1u64, 77, u64::MAX, 1 << 63] {
        let moved: Vec<Option<u64>> =
            unsigned.iter().map(|v| v.map(|x| x.wrapping_add(c))).collect();
        assert_eq!(window_difference_u64(&moved).unwrap(), expected);
    }
}

#[test]
fn gaps_are_transparent() {
    let column = vec![None, Some(10i64), None, None, Some(15), Some(11), None, Some(i64::MIN)];
    let out = window_difference(&column).unwrap();
    let at_present: Vec<Option<i64>> = column
        .iter()
        .zip(out.iter())
        .filter(|(v, _)| v.is_some())
        .map(|(_, d)| *d)
        .collect();
    let compacted: Vec<Option<i64>> = column.iter().filter(|v| v.is_some()).cloned().collect();
    assert_eq!(window_difference(&compacted).unwrap(), at_present);
    assert_eq!(
        at_present,
        vec![None, Some(5), Some(-4), Some(i64::MIN.wrapping_sub(11))]
    );
}
