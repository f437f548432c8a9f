use list_column::{Column, ListChunked, ListNameSpaceImpl, ScalarType, Value};

fn ints(rows: Vec<Option<Vec<Option<i32>>>>) -> ListChunked {
    let rows: Vec<Option<Vec<Option<Value>>>> = rows
        .into_iter()
        .map(|r| r.map(|r| r.into_iter().map(|c| c.map(Value::Int32)).collect()))
        .collect();
    ListChunked::from_rows("a", ScalarType::Int32, &rows).unwrap()
}

fn int_cells(cells: Vec<Option<i32>>) -> Vec<Option<Value>> {
    cells.into_iter().map(|c| c.map(Value::Int32)).collect()
}

#[test]
fn get_last_of_each_row() {
    let ca = ints(vec![Some(vec![Some(1), Some(2), Some(3)]), Some(vec![Some(4)])]);
    let out = ca.lst_get(-1).unwrap();
    assert_eq!(out.values, int_cells(vec![Some(3), Some(4)]));
    assert_eq!(out.dtype, ScalarType::Int32);
    assert_eq!(out.name, "a");
}

#[test]
fn get_beyond_every_row_is_null() {
    let ca = ints(vec![Some(vec![Some(1), Some(2), Some(3)]), Some(vec![Some(4)])]);
    let out = ca.lst_get(5).unwrap();
    assert_eq!(out.values, int_cells(vec![None, None]));
}

#[test]
fn lengths_of_rows() {
    let ca = ints(vec![Some(vec![Some(1), Some(2), Some(3)]), Some(vec![]), None]);
    let out = ca.lst_lengths();
    assert_eq!(out.values, vec![Some(Value::UInt64(3)), Some(Value::UInt64(0)), None]);
    assert_eq!(out.dtype, ScalarType::UInt64);
}

#[test]
fn cast_int_to_wider_int() {
    let c = Column::new("x", ScalarType::Int32, int_cells(vec![Some(1), None, Some(-7)])).unwrap();
    let out = c.cast(ScalarType::Int64).unwrap();
    assert_eq!(out.values, vec![Some(Value::Int64(1)), None, Some(Value::Int64(-7))]);
    assert_eq!(out.dtype, ScalarType::Int64);
}

#[test]
fn cast_int_to_float_gives_bits() {
    let c = Column::new("x", ScalarType::Int32, int_cells(vec![Some(1), None])).unwrap();
    let out = c.cast(ScalarType::Float64).unwrap();
    assert_eq!(out.values, vec![Some(Value::Float64(1.0f64.to_bits())), None]);
}

#[test]
fn cast_float_to_string() {
    let c = Column::new("x", ScalarType::Float64, vec![Some(Value::Float64(1.5f64.to_bits())), None]).unwrap();
    let out = c.cast(ScalarType::Utf8).unwrap();
    assert_eq!(out.values, vec![Some(Value::Utf8("1.5".to_string())), None]);
}

#[test]
fn cast_string_to_int_nulls_what_does_not_parse() {
    let c = Column::new(
        "x",
        ScalarType::Utf8,
        vec![Some(Value::Utf8("12".to_string())), Some(Value::Utf8("no".to_string()))],
    )
    .unwrap();
    let out = c.cast(ScalarType::Int64).unwrap();
    assert_eq!(out.values, vec![Some(Value::Int64(12)), None]);
}
