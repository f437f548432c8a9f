use list_column::{ListChunked, ListNameSpaceImpl, ScalarType, Value};

fn list(inner: ScalarType, rows: Vec<Option<Vec<Option<Value>>>>) -> ListChunked {
    ListChunked::from_rows("a", inner, &rows).unwrap()
}

fn i32s(cells: Vec<Option<i32>>) -> Vec<Option<Value>> {
    cells.into_iter().map(|c| c.map(Value::Int32)).collect()
}

fn f64s(cells: Vec<Option<f64>>) -> Vec<Option<Value>> {
    cells.into_iter().map(|c| c.map(|x| Value::Float64(x.to_bits()))).collect()
}

#[test]
fn sum_of_integers() {
    let ca = list(
        ScalarType::Int32,
        vec![Some(i32s(vec![Some(1), Some(2), Some(3)])), Some(vec![]), None, Some(i32s(vec![Some(-4)]))],
    );
    let out = ca.lst_sum();
    assert_eq!(out.values, i32s(vec![Some(6), None, None, Some(-4)]));
    assert_eq!(out.dtype, ScalarType::Int32);
}

#[test]
fn sum_skips_null_cells() {
    let ca = list(ScalarType::Int32, vec![Some(i32s(vec![Some(1), None, Some(3)])), Some(i32s(vec![None]))]);
    assert_eq!(ca.lst_sum().values, i32s(vec![Some(4), None]));
}

#[test]
fn sum_wraps_around() {
    let ca = list(ScalarType::Int32, vec![Some(i32s(vec![Some(i32::MAX), Some(1)]))]);
    assert_eq!(ca.lst_sum().values, i32s(vec![Some(i32::MIN)]));
    let ca = list(ScalarType::Int32, vec![Some(i32s(vec![Some(i32::MIN), Some(-1)]))]);
    assert_eq!(ca.lst_sum().values, i32s(vec![Some(i32::MAX)]));
    let ca = list(
        ScalarType::UInt64,
        vec![Some(vec![Some(Value::UInt64(u64::MAX)), Some(Value::UInt64(2))])],
    );
    assert_eq!(ca.lst_sum().values, vec![Some(Value::UInt64(1))]);
    let ca = list(
        ScalarType::Int64,
        vec![Some(vec![Some(Value::Int64(i64::MIN)), Some(Value::Int64(i64::MIN)), Some(Value::Int64(5))])],
    );
    assert_eq!(ca.lst_sum().values, vec![Some(Value::Int64(5))]);
}

#[test]
fn sum_counts_booleans() {
    let ca = list(
        ScalarType::Boolean,
        vec![Some(vec![Some(Value::Boolean(true)), Some(Value::Boolean(false)), Some(Value::Boolean(true))])],
    );
    let out = ca.lst_sum();
    assert_eq!(out.values, vec![Some(Value::UInt64(2))]);
    assert_eq!(out.dtype, ScalarType::UInt64);
}

#[test]
fn sum_of_floats() {
    let ca = list(ScalarType::Float64, vec![Some(f64s(vec![Some(1.5), Some(2.25)])), None, Some(f64s(vec![None]))]);
    let out = ca.lst_sum();
    assert_eq!(out.values, f64s(vec![Some(3.75), None, None]));
    assert_eq!(out.dtype, ScalarType::Float64);
}

#[test]
fn mean_of_integers_is_a_float() {
    let ca = list(ScalarType::Int32, vec![Some(i32s(vec![Some(1), Some(2)])), None]);
    let out = ca.lst_mean();
    assert_eq!(out.values, f64s(vec![Some(1.5), None]));
    assert_eq!(out.dtype, ScalarType::Float64);
}

#[test]
fn mean_of_narrow_floats_with_nulls_stays_narrow() {
    let cells = vec![Some(Value::Float32(1.0f32.to_bits())), None, Some(Value::Float32(2.0f32.to_bits()))];
    let ca = list(ScalarType::Float32, vec![Some(cells)]);
    let out = ca.lst_mean();
    assert_eq!(out.values, vec![Some(Value::Float32(1.5f32.to_bits()))]);
    assert_eq!(out.dtype, ScalarType::Float32);
    let cells = vec![Some(Value::Float32(1.0f32.to_bits())), Some(Value::Float32(2.0f32.to_bits()))];
    let ca = list(ScalarType::Float32, vec![Some(cells)]);
    let out = ca.lst_mean();
    assert_eq!(out.values, f64s(vec![Some(1.5)]));
    assert_eq!(out.dtype, ScalarType::Float64);
}

#[test]
fn extremes_and_their_positions() {
    let ca = list(
        ScalarType::Int32,
        vec![
            Some(i32s(vec![Some(3), None, Some(1), Some(5), Some(1), Some(5)])),
            None,
            Some(vec![]),
            Some(i32s(vec![None])),
        ],
    );
    assert_eq!(ca.lst_min().values, i32s(vec![Some(1), None, None, None]));
    assert_eq!(ca.lst_max().values, i32s(vec![Some(5), None, None, None]));
    assert_eq!(ca.lst_arg_min().values, vec![Some(Value::UInt64(2)), None, None, None]);
    assert_eq!(ca.lst_arg_max().values, vec![Some(Value::UInt64(3)), None, None, None]);
}

#[test]
fn extremes_of_floats_and_strings() {
    let ca = list(
        ScalarType::Float64,
        vec![Some(f64s(vec![Some(1.0), None, Some(-2.5), Some(7.0), Some(-2.5)])), None, Some(f64s(vec![None]))],
    );
    assert_eq!(ca.lst_min().values, f64s(vec![Some(-2.5), None, None]));
    assert_eq!(ca.lst_max().values, f64s(vec![Some(7.0), None, None]));
    assert_eq!(ca.lst_arg_min().values, vec![Some(Value::UInt64(2)), None, None]);
    assert_eq!(ca.lst_arg_max().values, vec![Some(Value::UInt64(3)), None, None]);
    assert_eq!(ca.lst_min().dtype, ScalarType::Float64);
    let cells = vec![
        Some(Value::Utf8("pear".to_string())),
        Some(Value::Utf8("apple".to_string())),
        None,
        Some(Value::Utf8("plum".to_string())),
        Some(Value::Utf8("apple".to_string())),
    ];
    let ca = list(ScalarType::Utf8, vec![Some(cells), Some(vec![])]);
    assert_eq!(ca.lst_min().values, vec![Some(Value::Utf8("apple".to_string())), None]);
    assert_eq!(ca.lst_max().values, vec![Some(Value::Utf8("plum".to_string())), None]);
    assert_eq!(ca.lst_arg_min().values, vec![Some(Value::UInt64(1)), None]);
    assert_eq!(ca.lst_arg_max().values, vec![Some(Value::UInt64(3)), None]);
    let cells = vec![Some(Value::Float32(2.0f32.to_bits())), Some(Value::Float32(0.5f32.to_bits()))];
    let ca = list(ScalarType::Float32, vec![Some(cells)]);
    assert_eq!(ca.lst_min().values, vec![Some(Value::Float32(0.5f32.to_bits()))]);
    assert_eq!(ca.lst_arg_max().values, vec![Some(Value::UInt64(0))]);
}

#[test]
fn strings_have_neither_sum_nor_mean() {
    let cells = vec![Some(Value::Utf8("a".to_string())), Some(Value::Utf8("b".to_string()))];
    let ca = list(ScalarType::Utf8, vec![Some(cells), None]);
    let out = ca.lst_sum();
    assert_eq!(out.values, vec![None, None]);
    assert_eq!(out.dtype, ScalarType::Utf8);
    let out = ca.lst_mean();
    assert_eq!(out.values, vec![None, None]);
    assert_eq!(out.dtype, ScalarType::Float64);
}

#[test]
fn sums_on_a_column_without_nulls_and_with_nulls_agree() {
    let rows = vec![Some(i32s(vec![Some(1), Some(2)])), Some(vec![]), None];
    let plain = list(ScalarType::Int32, rows.clone());
    let mut with_null = rows.clone();
    with_null.push(Some(i32s(vec![None])));
    let mixed = list(ScalarType::Int32, with_null);
    assert_eq!(plain.lst_sum().values, i32s(vec![Some(3), None, None]));
    assert_eq!(mixed.lst_sum().values, i32s(vec![Some(3), None, None, None]));
}

#[test]
fn sum_of_narrow_floats_and_unsigned_integers() {
    let cells = vec![Some(Value::Float32(0.5f32.to_bits())), Some(Value::Float32(0.25f32.to_bits()))];
    let ca = list(ScalarType::Float32, vec![Some(cells)]);
    let out = ca.lst_sum();
    assert_eq!(out.values, vec![Some(Value::Float32(0.75f32.to_bits()))]);
    assert_eq!(out.dtype, ScalarType::Float32);
    let cells = vec![Some(Value::UInt32(u32::MAX)), Some(Value::UInt32(3))];
    let ca = list(ScalarType::UInt32, vec![Some(cells)]);
    assert_eq!(ca.lst_sum().values, vec![Some(Value::UInt32(2))]);
}

#[test]
fn extremes_of_booleans_and_wide_integers() {
    let cells = vec![Some(Value::Boolean(true)), Some(Value::Boolean(false)), None];
    let ca = list(ScalarType::Boolean, vec![Some(cells)]);
    assert_eq!(ca.lst_min().values, vec![Some(Value::Boolean(false))]);
    assert_eq!(ca.lst_arg_max().values, vec![Some(Value::UInt64(0))]);
    let cells = vec![Some(Value::UInt64(u64::MAX)), Some(Value::UInt64(0)), Some(Value::UInt64(u64::MAX))];
    let ca = list(ScalarType::UInt64, vec![Some(cells)]);
    assert_eq!(ca.lst_max().values, vec![Some(Value::UInt64(u64::MAX))]);
    assert_eq!(ca.lst_arg_max().values, vec![Some(Value::UInt64(0))]);
    assert_eq!(ca.lst_arg_min().values, vec![Some(Value::UInt64(1))]);
    let cells = vec![Some(Value::Int64(i64::MIN)), Some(Value::Int64(i64::MAX))];
    let ca = list(ScalarType::Int64, vec![Some(cells)]);
    assert_eq!(ca.lst_min().values, vec![Some(Value::Int64(i64::MIN))]);
    assert_eq!(ca.lst_arg_max().values, vec![Some(Value::UInt64(1))]);
}

#[test]
fn rows_without_cells_have_no_mean() {
    let ca = list(ScalarType::Int32, vec![Some(vec![]), Some(i32s(vec![None, None])), None, Some(i32s(vec![Some(3)]))]);
    let out = ca.lst_mean();
    assert_eq!(out.values, f64s(vec![None, None, None, Some(3.0)]));
    assert_eq!(out.dtype, ScalarType::Float64);
    let ca = list(ScalarType::Float32, vec![Some(vec![]), Some(vec![None])]);
    let out = ca.lst_mean();
    assert_eq!(out.values, vec![None, None]);
    assert_eq!(out.dtype, ScalarType::Float32);
    let ca = list(ScalarType::Float64, vec![Some(vec![]), Some(f64s(vec![None]))]);
    assert_eq!(ca.lst_mean().values, vec![None, None]);
    assert_eq!(ca.lst_sum().values, vec![None, None]);
}

#[test]
fn mean_of_booleans() {
    let cells = vec![Some(Value::Boolean(true)), Some(Value::Boolean(false)), None, Some(Value::Boolean(true))];
    let ca = list(ScalarType::Boolean, vec![Some(cells), Some(vec![None])]);
    let out = ca.lst_mean();
    assert_eq!(out.values, f64s(vec![Some(2.0 / 3.0), None]));
    assert_eq!(out.dtype, ScalarType::Float64);
}

#[test]
fn the_two_zeros_are_one_number_for_the_position_of_an_extreme() {
    let ca = list(ScalarType::Float64, vec![Some(f64s(vec![Some(1.0), Some(0.0), Some(-0.0), Some(0.0)]))]);
    assert_eq!(ca.lst_arg_min().values, vec![Some(Value::UInt64(1))]);
    let ca = list(ScalarType::Float64, vec![Some(f64s(vec![Some(-1.0), Some(-0.0), Some(0.0)]))]);
    assert_eq!(ca.lst_arg_max().values, vec![Some(Value::UInt64(1))]);
    assert_eq!(ca.lst_arg_min().values, vec![Some(Value::UInt64(0))]);
}

#[test]
fn means_of_every_type_that_has_one() {
    let ca = list(ScalarType::Int32, vec![Some(i32s(vec![Some(1), Some(2), Some(3)])), Some(i32s(vec![Some(4)]))]);
    assert_eq!(ca.lst_mean().values, f64s(vec![Some(2.0), Some(4.0)]));
    let cells = vec![Some(Value::UInt64(1)), None, Some(Value::UInt64(2))];
    let ca = list(ScalarType::UInt64, vec![Some(cells)]);
    assert_eq!(ca.lst_mean().values, f64s(vec![Some(1.5)]));
    let cells = vec![Some(Value::Int64(-3)), Some(Value::Int64(0))];
    let ca = list(ScalarType::Int64, vec![Some(cells)]);
    assert_eq!(ca.lst_mean().values, f64s(vec![Some(-1.5)]));
    let cells = vec![Some(Value::UInt32(7))];
    let ca = list(ScalarType::UInt32, vec![Some(cells)]);
    assert_eq!(ca.lst_mean().values, f64s(vec![Some(7.0)]));
    let ca = list(ScalarType::Float64, vec![Some(f64s(vec![Some(0.5), Some(1.0)]))]);
    assert_eq!(ca.lst_mean().values, f64s(vec![Some(0.75)]));
}
