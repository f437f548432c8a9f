use list_column::{
    has_inner_nulls, AnyColumn, Column, DataType, ListBuilder, ListChunked, ListError, ScalarType, Value,
};

fn i32s(cells: Vec<Option<i32>>) -> Vec<Option<Value>> {
    cells.into_iter().map(|c| c.map(Value::Int32)).collect()
}

#[test]
fn builder_lays_rows_out_behind_each_other() {
    let mut builder = ListBuilder::new(ScalarType::Int32, 4, 3, "a");
    builder.append_row(&i32s(vec![Some(1), None]));
    builder.append_null();
    builder.append_opt_row(Some(&i32s(vec![])));
    builder.append_opt_row(None);
    builder.append_row(&i32s(vec![Some(2)]));
    let ca = builder.finish();
    assert_eq!(ca.offsets, vec![0, 2, 2, 2, 2, 3]);
    assert_eq!(ca.validity, vec![true, false, true, false, true]);
    assert_eq!(ca.values, i32s(vec![Some(1), None, Some(2)]));
    assert_eq!(ca.len(), 5);
    assert_eq!(ca.get_values_size(), 3);
    assert_eq!(ca.inner_dtype(), ScalarType::Int32);
    assert_eq!(ca.dtype(), DataType::List(Box::new(DataType::Scalar(ScalarType::Int32))));
    assert_eq!(ca.name, "a");
    assert_eq!(
        ca.to_rows(),
        vec![Some(i32s(vec![Some(1), None])), None, Some(vec![]), None, Some(i32s(vec![Some(2)]))]
    );
}

#[test]
fn builder_estimates_do_not_matter() {
    let mut small = ListBuilder::new(ScalarType::Int32, 0, 0, "a");
    let mut large = ListBuilder::new(ScalarType::Int32, 1000, 1000, "a");
    for builder in [&mut small, &mut large] {
        builder.append_row(&i32s(vec![Some(1), Some(2)]));
        builder.append_null();
    }
    assert_eq!(small.finish().to_rows(), large.finish().to_rows());
}

#[test]
fn empty_column() {
    let ca = ListBuilder::new(ScalarType::Utf8, 0, 0, "e").finish();
    assert_eq!(ca.offsets, vec![0]);
    assert_eq!(ca.len(), 0);
    assert_eq!(ca.get_values_size(), 0);
    assert!(ca.to_rows().is_empty());
    assert!(ListChunked::new("e", ScalarType::Utf8).to_rows().is_empty());
}

#[test]
fn rows_of_the_wrong_type_are_refused() {
    let rows = vec![Some(vec![Some(Value::Int32(1)), Some(Value::Int64(2))])];
    assert!(ListChunked::from_rows("a", ScalarType::Int32, &rows).is_none());
    assert!(Column::new("a", ScalarType::Utf8, vec![None, Some(Value::Boolean(true))]).is_none());
    assert!(Column::new("a", ScalarType::Utf8, vec![None, None]).is_some());
}

#[test]
fn single_rows_and_bounds() {
    let rows = vec![Some(i32s(vec![Some(1), Some(2)])), None, Some(i32s(vec![Some(3)]))];
    let ca = ListChunked::from_rows("a", ScalarType::Int32, &rows).unwrap();
    assert_eq!(ca.get(0), Some(i32s(vec![Some(1), Some(2)])));
    assert_eq!(ca.get(1), None);
    assert_eq!(ca.bounds(2), (2, 3));
    assert!(ca.is_valid(0) && !ca.is_valid(1));
}

#[test]
fn walking_the_rows() {
    let rows = vec![Some(i32s(vec![Some(1), Some(2)])), None, Some(vec![])];
    let ca = ListChunked::from_rows("a", ScalarType::Int32, &rows).unwrap();
    let mut it = ca.amortized_iter();
    assert!(it.has_next());
    let first = it.next().unwrap().unwrap();
    assert_eq!((first.start, first.end), (0, 2));
    assert!(it.next().unwrap().is_none());
    let third = it.next().unwrap().unwrap();
    assert_eq!((third.start, third.end), (2, 2));
    assert!(!it.has_next());
    assert!(it.next().is_none());
    assert!(it.next().is_none());
}

#[test]
fn repeated_rows_and_null_columns() {
    let rows = vec![Some(i32s(vec![Some(1), Some(2)])), None];
    let ca = ListChunked::from_rows("a", ScalarType::Int32, &rows).unwrap();
    assert_eq!(ca.new_from_index(0, 3).to_rows(), vec![rows[0].clone(), rows[0].clone(), rows[0].clone()]);
    assert_eq!(ca.new_from_index(1, 2).to_rows(), vec![None, None]);
    assert!(ca.new_from_index(0, 0).to_rows().is_empty());
    let nulls = ListChunked::full_null_with_dtype("n", 2, ScalarType::Float64);
    assert_eq!(nulls.to_rows(), vec![None, None]);
    assert_eq!(nulls.inner, ScalarType::Float64);
    assert_eq!(nulls.name, "n");
}

#[test]
fn flat_cells_become_unit_rows() {
    let column = Column::new("c", ScalarType::Int32, i32s(vec![Some(1), None, Some(3)])).unwrap();
    let ca = ListChunked::unit_list(&column);
    assert_eq!(ca.to_rows(), vec![Some(i32s(vec![Some(1)])), None, Some(i32s(vec![Some(3)]))]);
    assert_eq!(ca.name, "c");
}

#[test]
fn inner_nulls_are_found_in_the_value_buffer() {
    let with = vec![Some(i32s(vec![Some(1), None]))];
    let without = vec![Some(i32s(vec![Some(1)])), None];
    assert!(has_inner_nulls(&ListChunked::from_rows("a", ScalarType::Int32, &with).unwrap()));
    assert!(!has_inner_nulls(&ListChunked::from_rows("a", ScalarType::Int32, &without).unwrap()));
    assert!(!has_inner_nulls(&ListChunked::new("a", ScalarType::Int32)));
}

#[test]
fn columns_know_their_shape() {
    let flat = AnyColumn::Flat(Column::new("c", ScalarType::UInt32, vec![Some(Value::UInt32(1)), None]).unwrap());
    assert_eq!(flat.len(), 2);
    assert_eq!(flat.dtype(), DataType::Scalar(ScalarType::UInt32));
    assert_eq!(flat.leaf(), ScalarType::UInt32);
    let list = AnyColumn::List(ListChunked::new("l", ScalarType::Utf8));
    assert_eq!(list.len(), 0);
    assert_eq!(list.dtype(), DataType::List(Box::new(DataType::Scalar(ScalarType::Utf8))));
    assert_eq!(list.leaf(), ScalarType::Utf8);
    let column = Column::new("c", ScalarType::Int32, i32s(vec![None, Some(1), None])).unwrap();
    assert_eq!(column.null_count(), 2);
    assert_eq!(column.len(), 3);
}

#[test]
fn casts_that_do_not_exist_are_schema_mismatches() {
    let column = Column::new("c", ScalarType::Utf8, vec![Some(Value::Utf8("true".to_string()))]).unwrap();
    assert_eq!(
        column.cast(ScalarType::Boolean).unwrap_err(),
        ListError::SchemaMismatch {
            got: DataType::Scalar(ScalarType::Utf8),
            expected: DataType::Scalar(ScalarType::Boolean)
        }
    );
    let rows = vec![Some(vec![Some(Value::Utf8("true".to_string()))])];
    let ca = ListChunked::from_rows("a", ScalarType::Utf8, &rows).unwrap();
    assert_eq!(
        ca.cast_inner(ScalarType::Boolean).unwrap_err(),
        ListError::SchemaMismatch {
            got: DataType::List(Box::new(DataType::Scalar(ScalarType::Utf8))),
            expected: DataType::List(Box::new(DataType::Scalar(ScalarType::Boolean)))
        }
    );
    let same = ca.cast_inner(ScalarType::Utf8).unwrap();
    assert_eq!(same.to_rows(), rows);
}

#[test]
fn cast_of_a_list_keeps_its_layout() {
    let rows = vec![Some(vec![Some(Value::Int64(1)), None]), None, Some(vec![Some(Value::Int64(-2))])];
    let ca = ListChunked::from_rows("a", ScalarType::Int64, &rows).unwrap();
    let out = ca.cast_inner(ScalarType::Utf8).unwrap();
    assert_eq!(out.offsets, ca.offsets);
    assert_eq!(out.validity, ca.validity);
    assert_eq!(
        out.to_rows(),
        vec![
            Some(vec![Some(Value::Utf8("1".to_string())), None]),
            None,
            Some(vec![Some(Value::Utf8("-2".to_string()))])
        ]
    );
}

#[test]
fn rows_lie_behind_each_other_in_the_value_buffer() {
    let rows = vec![Some(i32s(vec![Some(1), None])), None, Some(vec![]), Some(i32s(vec![Some(2)]))];
    let ca = ListChunked::from_rows("a", ScalarType::Int32, &rows).unwrap();
    assert_eq!(ca.values, i32s(vec![Some(1), None, Some(2)]));
    assert_eq!(ca.offsets, vec![0, 2, 2, 2, 3]);
    assert_eq!(ca.validity, vec![true, false, true, true]);
    assert!(has_inner_nulls(&ca));
    let copy = ca.clone();
    assert_eq!(copy.values, ca.values);
    assert_eq!(copy.offsets, ca.offsets);
    assert_eq!(copy.validity, ca.validity);
    assert_eq!(copy.name, ca.name);
    assert_eq!(copy.to_rows(), rows);
    let column = Column::new("c", ScalarType::Int32, i32s(vec![Some(1), None])).unwrap();
    let copy = column.clone();
    assert_eq!((copy.values, copy.dtype, copy.name), (column.values, column.dtype, column.name));
    let any = AnyColumn::List(ca).clone();
    assert_eq!(any.len(), 4);
}
