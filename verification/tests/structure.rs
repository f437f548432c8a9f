use list_column::{
    AnyColumn, Column, ComputeFailure, DataType, ListChunked, ListError, ListNameSpaceImpl, ScalarType, Value,
};

fn i32s(cells: Vec<Option<i32>>) -> Vec<Option<Value>> {
    cells.into_iter().map(|c| c.map(Value::Int32)).collect()
}

fn i64s(cells: Vec<Option<i64>>) -> Vec<Option<Value>> {
    cells.into_iter().map(|c| c.map(Value::Int64)).collect()
}

fn strs(cells: Vec<Option<&str>>) -> Vec<Option<Value>> {
    cells.into_iter().map(|c| c.map(|s| Value::Utf8(s.to_string()))).collect()
}

fn list(inner: ScalarType, rows: Vec<Option<Vec<Option<Value>>>>) -> ListChunked {
    ListChunked::from_rows("a", inner, &rows).unwrap()
}

fn int_list(rows: Vec<Option<Vec<Option<i32>>>>) -> ListChunked {
    list(ScalarType::Int32, rows.into_iter().map(|r| r.map(i32s)).collect())
}

fn flat(dtype: ScalarType, cells: Vec<Option<Value>>) -> AnyColumn {
    AnyColumn::Flat(Column::new("b", dtype, cells).unwrap())
}

#[test]
fn join_with_separator() {
    let ca = list(
        ScalarType::Utf8,
        vec![Some(strs(vec![Some("a"), Some("b")])), Some(strs(vec![Some("c")])), Some(strs(vec![None]))],
    );
    let out = ca.lst_join(",").unwrap();
    assert_eq!(out.values, strs(vec![Some("a,b"), Some("c"), Some("null")]));
    assert_eq!(out.dtype, ScalarType::Utf8);
    assert_eq!(out.name, "a");
}

#[test]
fn join_of_empty_and_null_rows() {
    let ca = list(ScalarType::Utf8, vec![Some(vec![]), None, Some(strs(vec![Some("x"), None, Some("y")]))]);
    let out = ca.lst_join("--").unwrap();
    assert_eq!(out.values, strs(vec![Some(""), None, Some("x--null--y")]));
}

#[test]
fn join_refuses_other_inner_types() {
    let ca = int_list(vec![Some(vec![Some(1)])]);
    assert_eq!(
        ca.lst_join(",").unwrap_err(),
        ListError::ComputeError(ComputeFailure::InvalidInnerType {
            inner: ScalarType::Int32,
            required: ScalarType::Utf8
        })
    );
}

#[test]
fn concat_broadcasts_a_scalar() {
    let ca = int_list(vec![Some(vec![Some(1), Some(2)]), Some(vec![Some(3)])]);
    let out = ca.lst_concat(&vec![flat(ScalarType::Int32, i32s(vec![Some(9)]))]).unwrap();
    assert_eq!(
        out.to_rows(),
        vec![Some(i32s(vec![Some(1), Some(2), Some(9)])), Some(i32s(vec![Some(3), Some(9)]))]
    );
    assert_eq!(out.inner, ScalarType::Int32);
    assert_eq!(out.name, "a");
}

#[test]
fn concat_with_a_null_scalar_nulls_every_row() {
    let ca = int_list(vec![Some(vec![Some(1), Some(2)]), Some(vec![Some(3)])]);
    let out = ca.lst_concat(&vec![flat(ScalarType::Int32, i32s(vec![None]))]).unwrap();
    assert_eq!(out.to_rows(), vec![None, None]);
    assert_eq!(out.len(), 2);
}

#[test]
fn concat_row_by_row_with_a_list_and_a_flat_column() {
    let ca = int_list(vec![Some(vec![Some(1)]), None, Some(vec![])]);
    let other = AnyColumn::List(int_list(vec![Some(vec![Some(7), None]), Some(vec![Some(8)]), None]));
    let more = flat(ScalarType::Int32, i32s(vec![Some(5), Some(6), Some(7)]));
    let out = ca.lst_concat(&vec![other, more]).unwrap();
    assert_eq!(out.to_rows(), vec![Some(i32s(vec![Some(1), Some(7), None, Some(5)])), None, None]);
}

#[test]
fn concat_widens_to_the_supertype() {
    let ca = int_list(vec![Some(vec![Some(1)]), Some(vec![Some(2)])]);
    let other = flat(ScalarType::Int64, i64s(vec![Some(10), Some(20)]));
    let out = ca.lst_concat(&vec![other]).unwrap();
    assert_eq!(out.inner, ScalarType::Int64);
    assert_eq!(
        out.to_rows(),
        vec![Some(i64s(vec![Some(1), Some(10)])), Some(i64s(vec![Some(2), Some(20)]))]
    );
}

#[test]
fn concat_of_one_row_with_unit_operands_goes_row_by_row() {
    let ca = int_list(vec![Some(vec![Some(1)])]);
    let out = ca.lst_concat(&vec![flat(ScalarType::Int32, i32s(vec![Some(2)]))]).unwrap();
    assert_eq!(out.to_rows(), vec![Some(i32s(vec![Some(1), Some(2)]))]);
}

#[test]
fn concat_without_operands_gives_the_receiver() {
    let ca = int_list(vec![Some(vec![Some(1)]), None]);
    let out = ca.lst_concat(&vec![]).unwrap();
    assert_eq!(out.to_rows(), ca.to_rows());
}

#[test]
fn concat_refuses_a_length_that_does_not_fit() {
    let ca = int_list(vec![Some(vec![Some(1)]), Some(vec![Some(2)]), Some(vec![])]);
    let other = flat(ScalarType::Int32, i32s(vec![Some(1), Some(2)]));
    assert_eq!(ca.lst_concat(&vec![other]).unwrap_err(), ListError::ShapeMismatch { len: 2, expected_len: 3 });
}

#[test]
fn take_with_index_beyond_the_row() {
    let ca = int_list(vec![Some(vec![Some(1), Some(2), Some(3)])]);
    let idx = flat(ScalarType::Int64, i64s(vec![Some(5)]));
    match ca.lst_take(&idx, true).unwrap() {
        AnyColumn::List(out) => assert_eq!(out.to_rows(), vec![Some(i32s(vec![None]))]),
        AnyColumn::Flat(_) => panic!("a take gives a list column"),
    }
    assert_eq!(ca.lst_take(&idx, false).unwrap_err(), ListError::ComputeError(ComputeFailure::OutOfBounds));
}

#[test]
fn take_with_negative_and_null_indices() {
    let ca = int_list(vec![Some(vec![Some(1), Some(2), Some(3)]), None, Some(vec![Some(4), Some(5)])]);
    let idx = flat(ScalarType::Int32, i32s(vec![Some(-1), None, Some(0)]));
    match ca.lst_take(&idx, false).unwrap() {
        AnyColumn::List(out) => assert_eq!(
            out.to_rows(),
            vec![Some(i32s(vec![Some(3), None, Some(1)])), None, Some(i32s(vec![Some(5), None, Some(4)]))]
        ),
        AnyColumn::Flat(_) => panic!("a take gives a list column"),
    }
}

#[test]
fn take_with_a_list_of_indices_per_row() {
    let ca = int_list(vec![Some(vec![Some(1), Some(2), Some(3)]), Some(vec![Some(4)]), Some(vec![Some(5)])]);
    let idx = AnyColumn::List(list(
        ScalarType::UInt32,
        vec![Some(vec![Some(Value::UInt32(2)), Some(Value::UInt32(0))]), None],
    ));
    match ca.lst_take(&idx, true).unwrap() {
        AnyColumn::List(out) => assert_eq!(out.to_rows(), vec![Some(i32s(vec![Some(3), Some(1)])), None, None]),
        AnyColumn::Flat(_) => panic!("a take gives a list column"),
    }
}

#[test]
fn take_refuses_signed_indices_that_are_all_null() {
    let ca = int_list(vec![Some(vec![Some(1)])]);
    let idx = flat(ScalarType::Int64, i64s(vec![None, None]));
    assert_eq!(ca.lst_take(&idx, true).unwrap_err(), ListError::ComputeError(ComputeFailure::AllIndicesNull));
}

#[test]
fn take_refuses_an_index_that_is_no_integer() {
    let ca = int_list(vec![Some(vec![Some(1)])]);
    let idx = flat(ScalarType::Utf8, strs(vec![Some("0")]));
    assert_eq!(
        ca.lst_take(&idx, true).unwrap_err(),
        ListError::ComputeError(ComputeFailure::InvalidIndexType(DataType::Scalar(ScalarType::Utf8)))
    );
}

#[test]
fn reverse_shift_and_slice() {
    let ca = int_list(vec![Some(vec![Some(1), Some(2), Some(3)]), None, Some(vec![])]);
    assert_eq!(ca.lst_reverse().to_rows(), vec![Some(i32s(vec![Some(3), Some(2), Some(1)])), None, Some(vec![])]);
    assert_eq!(ca.lst_shift(1).to_rows(), vec![Some(i32s(vec![None, Some(1), Some(2)])), None, Some(vec![])]);
    assert_eq!(ca.lst_shift(-2).to_rows(), vec![Some(i32s(vec![Some(3), None, None])), None, Some(vec![])]);
    assert_eq!(ca.lst_shift(7).to_rows(), vec![Some(i32s(vec![None, None, None])), None, Some(vec![])]);
    assert_eq!(ca.lst_slice(1, 5).to_rows(), vec![Some(i32s(vec![Some(2), Some(3)])), None, Some(vec![])]);
    assert_eq!(ca.lst_slice(-2, 1).to_rows(), vec![Some(i32s(vec![Some(2)])), None, Some(vec![])]);
    assert_eq!(ca.lst_slice(-9, 2).to_rows(), vec![Some(i32s(vec![Some(1), Some(2)])), None, Some(vec![])]);
    assert_eq!(ca.lst_slice(4, 2).to_rows(), vec![Some(vec![]), None, Some(vec![])]);
}
