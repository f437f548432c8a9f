use list_column::{
    cast_index, cast_signed_index_ca, cast_unsigned_index_ca, negative_to_usize, take_series, Column, ComputeFailure,
    DataType, ListError, ScalarType, Value,
};

fn i64s(cells: Vec<Option<i64>>) -> Column {
    Column::new("i", ScalarType::Int64, cells.into_iter().map(|c| c.map(Value::Int64)).collect()).unwrap()
}

fn u32s(cells: Vec<Option<u32>>) -> Column {
    Column::new("i", ScalarType::UInt32, cells.into_iter().map(|c| c.map(Value::UInt32)).collect()).unwrap()
}

fn strs(cells: Vec<Option<&str>>) -> Column {
    let cells = cells.into_iter().map(|c| c.map(|s| Value::Utf8(s.to_string()))).collect();
    Column::new("s", ScalarType::Utf8, cells).unwrap()
}

#[test]
fn signed_indices_count_from_either_end() {
    assert_eq!(negative_to_usize(0, 3), Some(0));
    assert_eq!(negative_to_usize(2, 3), Some(2));
    assert_eq!(negative_to_usize(3, 3), None);
    assert_eq!(negative_to_usize(-1, 3), Some(2));
    assert_eq!(negative_to_usize(-3, 3), Some(0));
    assert_eq!(negative_to_usize(-4, 3), None);
    assert_eq!(negative_to_usize(0, 0), None);
    assert_eq!(negative_to_usize(-1, 0), None);
    assert_eq!(negative_to_usize(i64::MIN, 3), None);
    assert_eq!(negative_to_usize(i64::MAX, 3), None);
}

#[test]
fn index_columns_are_normalized_cell_by_cell() {
    let idx = i64s(vec![Some(0), Some(-1), None, Some(7), Some(-8)]);
    assert_eq!(cast_signed_index_ca(&idx, 3), vec![Some(0), Some(2), None, None, None]);
    let idx = u32s(vec![Some(2), None, Some(3)]);
    assert_eq!(cast_unsigned_index_ca(&idx, 3), vec![Some(2), None, None]);
}

#[test]
fn strict_policy_refuses_what_the_lenient_one_nulls() {
    let idx = i64s(vec![Some(0), None, Some(3)]);
    assert_eq!(cast_index(&idx, 3, true), Ok(vec![Some(0), None, None]));
    assert_eq!(cast_index(&idx, 3, false), Err(ListError::ComputeError(ComputeFailure::OutOfBounds)));
    let idx = u32s(vec![Some(5)]);
    assert_eq!(cast_index(&idx, 3, true), Ok(vec![None]));
    assert_eq!(cast_index(&idx, 3, false), Err(ListError::ComputeError(ComputeFailure::OutOfBounds)));
}

#[test]
fn null_indices_are_no_error_under_the_strict_policy() {
    let idx = i64s(vec![None, Some(1), None]);
    assert_eq!(cast_index(&idx, 3, false), Ok(vec![None, Some(1), None]));
    let idx = i64s(vec![]);
    assert_eq!(cast_index(&idx, 0, false), Ok(vec![]));
}

#[test]
fn take_from_a_flat_column() {
    let s = strs(vec![Some("a"), None, Some("c")]);
    let out = take_series(&s, &i64s(vec![Some(-1), Some(1), None, Some(0), Some(0)]), false).unwrap();
    assert_eq!(out.values, strs(vec![Some("c"), None, None, Some("a"), Some("a")]).values);
    assert_eq!(out.dtype, ScalarType::Utf8);
    assert_eq!(out.name, "s");
    let out = take_series(&s, &u32s(vec![Some(3), Some(2)]), true).unwrap();
    assert_eq!(out.values, strs(vec![None, Some("c")]).values);
    assert_eq!(
        take_series(&s, &u32s(vec![Some(3), Some(2)]), false).unwrap_err(),
        ListError::ComputeError(ComputeFailure::OutOfBounds)
    );
    assert_eq!(
        take_series(&s, &strs(vec![Some("0")]), true).unwrap_err(),
        ListError::ComputeError(ComputeFailure::InvalidIndexType(DataType::Scalar(ScalarType::Utf8)))
    );
}
