use list_column::namespace::append_outcome;
use list_column::outside::{unique_cells, unique_stable_cells};
use list_column::{
    ComputeFailure, ListBuilder, ListChunked, ListError, ListNameSpaceImpl, NullBehavior, ScalarType, SortOptions,
    Value,
};

fn list(inner: ScalarType, rows: Vec<Option<Vec<Option<Value>>>>) -> ListChunked {
    ListChunked::from_rows("a", inner, &rows).unwrap()
}

fn i32s(cells: Vec<Option<i32>>) -> Vec<Option<Value>> {
    cells.into_iter().map(|c| c.map(Value::Int32)).collect()
}

fn bools(cells: Vec<Option<bool>>) -> Vec<Option<Value>> {
    cells.into_iter().map(|c| c.map(Value::Boolean)).collect()
}

fn strs(cells: Vec<Option<&str>>) -> Vec<Option<Value>> {
    cells.into_iter().map(|c| c.map(|s| Value::Utf8(s.to_string()))).collect()
}

fn f64s(cells: Vec<Option<f64>>) -> Vec<Option<Value>> {
    cells.into_iter().map(|c| c.map(|x| Value::Float64(x.to_bits()))).collect()
}

fn options(descending: bool, nulls_last: bool) -> SortOptions {
    SortOptions { descending, nulls_last, multithreaded: true }
}

#[test]
fn sort_integers_in_all_four_ways() {
    let ca = list(
        ScalarType::Int32,
        vec![Some(i32s(vec![Some(3), None, Some(-1), Some(2), None])), None, Some(vec![])],
    );
    assert_eq!(
        ca.lst_sort(options(false, false)).to_rows(),
        vec![Some(i32s(vec![None, None, Some(-1), Some(2), Some(3)])), None, Some(vec![])]
    );
    assert_eq!(
        ca.lst_sort(options(true, false)).to_rows(),
        vec![Some(i32s(vec![None, None, Some(3), Some(2), Some(-1)])), None, Some(vec![])]
    );
    assert_eq!(
        ca.lst_sort(options(false, true)).to_rows(),
        vec![Some(i32s(vec![Some(-1), Some(2), Some(3), None, None])), None, Some(vec![])]
    );
    assert_eq!(
        ca.lst_sort(options(true, true)).to_rows(),
        vec![Some(i32s(vec![Some(3), Some(2), Some(-1), None, None])), None, Some(vec![])]
    );
}

#[test]
fn sort_integers_without_nulls() {
    let ca = list(ScalarType::Int32, vec![Some(i32s(vec![Some(3), Some(1), Some(2)]))]);
    assert_eq!(ca.lst_sort(options(false, true)).to_rows(), vec![Some(i32s(vec![Some(1), Some(2), Some(3)]))]);
    assert_eq!(ca.lst_sort(options(true, false)).to_rows(), vec![Some(i32s(vec![Some(3), Some(2), Some(1)]))]);
}

#[test]
fn sort_booleans_in_all_four_ways() {
    let ca = list(ScalarType::Boolean, vec![Some(bools(vec![Some(true), None, Some(false), Some(false)]))]);
    assert_eq!(
        ca.lst_sort(options(false, false)).to_rows(),
        vec![Some(bools(vec![None, Some(false), Some(false), Some(true)]))]
    );
    assert_eq!(
        ca.lst_sort(options(true, false)).to_rows(),
        vec![Some(bools(vec![None, Some(true), Some(false), Some(false)]))]
    );
    assert_eq!(
        ca.lst_sort(options(false, true)).to_rows(),
        vec![Some(bools(vec![Some(false), Some(false), Some(true), None]))]
    );
    assert_eq!(
        ca.lst_sort(options(true, true)).to_rows(),
        vec![Some(bools(vec![Some(true), Some(false), Some(false), None]))]
    );
}

#[test]
fn sort_strings_and_floats() {
    let ca = list(ScalarType::Utf8, vec![Some(strs(vec![Some("b"), None, Some("a"), Some("ab")]))]);
    assert_eq!(
        ca.lst_sort(options(false, true)).to_rows(),
        vec![Some(strs(vec![Some("a"), Some("ab"), Some("b"), None]))]
    );
    let ca = list(ScalarType::Float64, vec![Some(f64s(vec![Some(2.5), Some(-1.0), None, Some(0.5)]))]);
    assert_eq!(
        ca.lst_sort(options(true, false)).to_rows(),
        vec![Some(f64s(vec![None, Some(2.5), Some(0.5), Some(-1.0)]))]
    );
}

#[test]
fn sort_twice_is_sort_once() {
    let ca = list(
        ScalarType::Int32,
        vec![Some(i32s(vec![Some(5), None, Some(5), Some(-3), Some(0)])), None, Some(i32s(vec![Some(1)]))],
    );
    for descending in [false, true] {
        for nulls_last in [false, true] {
            let once = ca.lst_sort(options(descending, nulls_last));
            let twice = once.lst_sort(options(descending, nulls_last));
            assert_eq!(once.to_rows(), twice.to_rows());
        }
    }
}

#[test]
fn unique_keeps_every_cell_once() {
    let ca = list(
        ScalarType::Int32,
        vec![
            Some(i32s(vec![Some(1), Some(2), Some(2), Some(3), Some(1)])),
            None,
            Some(i32s(vec![None, Some(4), None])),
        ],
    );
    let out = ca.lst_unique().unwrap().to_rows();
    let mut first = out[0].clone().unwrap();
    first.sort_by_key(|c| match c {
        Some(Value::Int32(x)) => *x,
        _ => i32::MIN,
    });
    assert_eq!(first, i32s(vec![Some(1), Some(2), Some(3)]));
    assert_eq!(out[1], None);
    let third = out[2].clone().unwrap();
    assert_eq!(third.len(), 2);
    assert!(third.contains(&None) && third.contains(&Some(Value::Int32(4))));
}

#[test]
fn unique_of_strings_and_booleans() {
    let ca = list(ScalarType::Utf8, vec![Some(strs(vec![Some("x"), Some("y"), Some("x"), None, None]))]);
    let row = ca.lst_unique().unwrap().to_rows()[0].clone().unwrap();
    assert_eq!(row.len(), 3);
    for c in strs(vec![Some("x"), Some("y"), None]) {
        assert!(row.contains(&c));
    }
    let ca = list(ScalarType::Boolean, vec![Some(bools(vec![Some(true), Some(true), None, Some(true)]))]);
    let row = ca.lst_unique().unwrap().to_rows()[0].clone().unwrap();
    assert_eq!(row.len(), 2);
    assert!(row.contains(&None) && row.contains(&Some(Value::Boolean(true))));
}

#[test]
fn unique_stable_keeps_first_occurrences_in_place() {
    let ca = list(
        ScalarType::Int32,
        vec![Some(i32s(vec![Some(3), Some(1), None, Some(3), Some(2), None, Some(1)])), None, Some(vec![])],
    );
    assert_eq!(
        ca.lst_unique_stable().unwrap().to_rows(),
        vec![Some(i32s(vec![Some(3), Some(1), None, Some(2)])), None, Some(vec![])]
    );
    let ca = list(ScalarType::Utf8, vec![Some(strs(vec![Some("b"), Some("a"), Some("b")]))]);
    assert_eq!(ca.lst_unique_stable().unwrap().to_rows(), vec![Some(strs(vec![Some("b"), Some("a")]))]);
    let ca = list(ScalarType::Float64, vec![Some(f64s(vec![Some(0.5), Some(0.5), Some(1.5)]))]);
    assert_eq!(ca.lst_unique_stable().unwrap().to_rows(), vec![Some(f64s(vec![Some(0.5), Some(1.5)]))]);
}

#[test]
fn diff_keeps_leading_nulls_or_drops_them() {
    let ca = list(
        ScalarType::Int32,
        vec![Some(i32s(vec![Some(1), Some(4), Some(9), Some(16)])), None, Some(i32s(vec![Some(5)]))],
    );
    let out = ca.lst_diff(1, NullBehavior::Ignore).unwrap();
    assert_eq!(out.inner, ScalarType::Int32);
    assert_eq!(
        out.to_rows(),
        vec![Some(i32s(vec![None, Some(3), Some(5), Some(7)])), None, Some(i32s(vec![None]))]
    );
    let out = ca.lst_diff(2, NullBehavior::Drop).unwrap();
    assert_eq!(out.to_rows(), vec![Some(i32s(vec![Some(8), Some(12)])), None, Some(vec![])]);
    let out = ca.lst_diff(-1, NullBehavior::Ignore).unwrap();
    assert_eq!(
        out.to_rows(),
        vec![Some(i32s(vec![Some(-3), Some(-5), Some(-7), None])), None, Some(i32s(vec![None]))]
    );
    let out = ca.lst_diff(i64::MIN, NullBehavior::Ignore).unwrap();
    assert_eq!(out.to_rows(), vec![Some(i32s(vec![None, None, None, None])), None, Some(i32s(vec![None]))]);
}

#[test]
fn diff_of_unsigned_cells_is_signed() {
    let cells = vec![Some(Value::UInt32(5)), Some(Value::UInt32(2))];
    let ca = list(ScalarType::UInt32, vec![Some(cells)]);
    let out = ca.lst_diff(1, NullBehavior::Ignore).unwrap();
    assert_eq!(out.inner, ScalarType::Int64);
    assert_eq!(out.to_rows(), vec![Some(vec![None, Some(Value::Int64(-3))])]);
    let out = ca.lst_diff(1, NullBehavior::Drop).unwrap();
    assert_eq!(out.inner, ScalarType::Int64);
    assert_eq!(out.to_rows(), vec![Some(vec![Some(Value::Int64(-3))])]);
    let cells = vec![Some(Value::UInt64(5)), Some(Value::UInt64(2))];
    let ca = list(ScalarType::UInt64, vec![Some(cells)]);
    let out = ca.lst_diff(1, NullBehavior::Ignore).unwrap();
    assert_eq!(out.inner, ScalarType::Int64);
    assert_eq!(out.to_rows(), vec![Some(vec![None, Some(Value::Int64(-3))])]);
    let out = ca.lst_diff(1, NullBehavior::Drop).unwrap();
    assert_eq!(out.inner, ScalarType::Float64);
    assert_eq!(out.to_rows(), vec![Some(f64s(vec![Some(-3.0)]))]);
}

#[test]
fn diff_of_floats() {
    let ca = list(ScalarType::Float64, vec![Some(f64s(vec![Some(1.5), None, Some(4.0), Some(4.5)]))]);
    let out = ca.lst_diff(1, NullBehavior::Ignore).unwrap();
    assert_eq!(out.to_rows(), vec![Some(f64s(vec![None, None, None, Some(0.5)]))]);
}

#[test]
fn diff_refuses_what_it_is_not_defined_on() {
    let ca = list(ScalarType::Utf8, vec![Some(strs(vec![Some("a")]))]);
    assert_eq!(
        ca.lst_diff(1, NullBehavior::Ignore).unwrap_err(),
        ListError::ComputeError(ComputeFailure::UnsupportedInnerType(ScalarType::Utf8))
    );
    let ca = list(ScalarType::Boolean, vec![Some(bools(vec![Some(true)]))]);
    assert_eq!(
        ca.lst_diff(1, NullBehavior::Drop).unwrap_err(),
        ListError::ComputeError(ComputeFailure::UnsupportedInnerType(ScalarType::Boolean))
    );
    let ca = list(ScalarType::Int32, vec![Some(i32s(vec![Some(1)]))]);
    assert_eq!(
        ca.lst_diff(0, NullBehavior::Drop).unwrap_err(),
        ListError::ComputeError(ComputeFailure::NonPositiveLag(0))
    );
}

#[test]
fn distinct_cells_of_a_buffer() {
    let cells = i32s(vec![Some(2), None, Some(2), Some(1), None]);
    assert_eq!(unique_stable_cells(&cells, ScalarType::Int32), Some(i32s(vec![Some(2), None, Some(1)])));
    assert_eq!(unique_stable_cells(&vec![], ScalarType::Utf8), Some(vec![]));
    let cells = strs(vec![Some("b"), Some("b"), None, Some("a")]);
    assert_eq!(unique_stable_cells(&cells, ScalarType::Utf8), Some(strs(vec![Some("b"), None, Some("a")])));
    let out = unique_cells(&cells, ScalarType::Utf8).unwrap();
    assert_eq!(out.len(), 3);
    for c in strs(vec![Some("a"), Some("b"), None]) {
        assert!(out.contains(&c));
    }
    assert_eq!(unique_cells(&vec![], ScalarType::Boolean), Some(vec![]));
}

#[test]
fn an_outcome_becomes_a_row_and_a_refusal_an_error() {
    let mut builder = ListBuilder::new(ScalarType::Int32, 0, 0, "a");
    assert_eq!(append_outcome(&mut builder, &Some(i32s(vec![Some(1), None])), ScalarType::Int32), Ok(()));
    assert_eq!(
        append_outcome(&mut builder, &None, ScalarType::Int32),
        Err(ListError::ComputeError(ComputeFailure::UnsupportedInnerType(ScalarType::Int32)))
    );
    assert_eq!(append_outcome(&mut builder, &Some(vec![]), ScalarType::Int32), Ok(()));
    assert_eq!(builder.finish().to_rows(), vec![Some(i32s(vec![Some(1), None])), Some(vec![])]);
}

#[test]
fn integer_differences_wrap_around() {
    let cells = vec![Some(Value::Int64(i64::MIN)), Some(Value::Int64(i64::MAX)), Some(Value::Int64(i64::MIN))];
    let ca = list(ScalarType::Int64, vec![Some(cells)]);
    let out = ca.lst_diff(1, NullBehavior::Ignore).unwrap();
    assert_eq!(out.to_rows(), vec![Some(vec![None, Some(Value::Int64(-1)), Some(Value::Int64(1))])]);
    let out = ca.lst_diff(-1, NullBehavior::Ignore).unwrap();
    assert_eq!(out.to_rows(), vec![Some(vec![Some(Value::Int64(1)), Some(Value::Int64(-1)), None])]);
    let ca = list(ScalarType::Int32, vec![Some(i32s(vec![Some(i32::MAX), None, Some(i32::MIN), Some(i32::MAX)]))]);
    let out = ca.lst_diff(1, NullBehavior::Drop).unwrap();
    assert_eq!(out.inner, ScalarType::Int32);
    assert_eq!(out.to_rows(), vec![Some(i32s(vec![None, None, Some(-1)]))]);
    let out = ca.lst_diff(2, NullBehavior::Ignore).unwrap();
    assert_eq!(out.to_rows(), vec![Some(i32s(vec![None, None, Some(1), None]))]);
}

#[test]
fn large_unsigned_cells_bring_no_integer_into_a_difference() {
    let cells = vec![Some(Value::UInt64(u64::MAX)), Some(Value::UInt64(7)), Some(Value::UInt64(2))];
    let ca = list(ScalarType::UInt64, vec![Some(cells)]);
    let out = ca.lst_diff(1, NullBehavior::Ignore).unwrap();
    assert_eq!(out.inner, ScalarType::Int64);
    assert_eq!(out.to_rows(), vec![Some(vec![None, None, Some(Value::Int64(-5))])]);
}

#[test]
fn a_dropping_difference_longer_than_the_row_is_empty() {
    let ca = list(ScalarType::Int32, vec![Some(i32s(vec![Some(1), Some(2)])), Some(vec![]), None]);
    let out = ca.lst_diff(3, NullBehavior::Drop).unwrap();
    assert_eq!(out.to_rows(), vec![Some(vec![]), Some(vec![]), None]);
    let ca = list(ScalarType::Float64, vec![Some(f64s(vec![Some(1.0)]))]);
    let out = ca.lst_diff(2, NullBehavior::Drop).unwrap();
    assert_eq!(out.to_rows(), vec![Some(vec![])]);
    let out = ca.lst_diff(1, NullBehavior::Drop).unwrap();
    assert_eq!(out.to_rows(), vec![Some(vec![])]);
}

#[test]
fn a_slice_never_holds_more_cells_than_the_column() {
    let rows = vec![Some(i32s(vec![Some(1), Some(2), Some(3)])), None, Some(i32s(vec![Some(4)]))];
    let ca = list(ScalarType::Int32, rows);
    for offset in [-5i64, -1, 0, 1, 5] {
        for length in [0usize, 1, 2, 9] {
            let out = ca.lst_slice(offset, length);
            assert!(out.values.len() <= ca.values.len());
            assert_eq!(out.get_values_size(), out.offsets[out.len()] - out.offsets[0]);
            for (row, from) in out.to_rows().iter().zip(ca.to_rows().iter()) {
                match (row, from) {
                    (Some(row), Some(from)) => assert!(row.len() <= length && row.len() <= from.len()),
                    (None, None) => {}
                    _ => panic!("a null row stays null"),
                }
            }
        }
    }
}

#[test]
fn floats_sort_as_numbers_with_what_is_no_number_last() {
    let cells = f64s(vec![
        Some(f64::NAN),
        Some(1.0),
        Some(f64::NEG_INFINITY),
        None,
        Some(0.0),
        Some(f64::INFINITY),
        Some(-1.5),
        Some(-0.0),
    ]);
    let ca = list(ScalarType::Float64, vec![Some(cells)]);
    let numbers = |row: &Vec<Option<Value>>| -> Vec<Option<f64>> {
        row.iter()
            .map(|c| match c {
                Some(Value::Float64(bits)) => Some(f64::from_bits(*bits)),
                _ => None,
            })
            .collect()
    };
    let up = numbers(&ca.lst_sort(options(false, true)).to_rows()[0].clone().unwrap());
    assert_eq!(up[..5], [Some(f64::NEG_INFINITY), Some(-1.5), Some(0.0), Some(0.0), Some(1.0)]);
    assert_eq!(up[5], Some(f64::INFINITY));
    assert!(up[6].unwrap().is_nan());
    assert_eq!(up[7], None);
    let down = numbers(&ca.lst_sort(options(true, false)).to_rows()[0].clone().unwrap());
    assert_eq!(down[0], None);
    assert!(down[1].unwrap().is_nan());
    assert_eq!(down[2..], [Some(f64::INFINITY), Some(1.0), Some(0.0), Some(0.0), Some(-1.5), Some(f64::NEG_INFINITY)]);
    let cells = vec![Some(Value::Float32(2.5f32.to_bits())), Some(Value::Float32((-2.5f32).to_bits()))];
    let ca = list(ScalarType::Float32, vec![Some(cells.clone())]);
    assert_eq!(ca.lst_sort(options(false, false)).to_rows(), vec![Some(vec![cells[1].clone(), cells[0].clone()])]);
}

#[test]
fn strings_sort_by_code_point() {
    let cells = strs(vec![Some("b"), Some("é"), Some("Z"), Some(""), Some("ab"), Some("a")]);
    let ca = list(ScalarType::Utf8, vec![Some(cells)]);
    assert_eq!(
        ca.lst_sort(options(false, false)).to_rows(),
        vec![Some(strs(vec![Some(""), Some("Z"), Some("a"), Some("ab"), Some("b"), Some("é")]))]
    );
    assert_eq!(
        ca.lst_sort(options(true, false)).to_rows(),
        vec![Some(strs(vec![Some("é"), Some("b"), Some("ab"), Some("a"), Some("Z"), Some("")]))]
    );
}

#[test]
fn float_differences_at_lags_beyond_the_row() {
    let ca = list(ScalarType::Float64, vec![Some(f64s(vec![Some(1.0), Some(2.5)])), None]);
    for lag in [i64::MIN, -3, 3, i64::MAX] {
        let out = ca.lst_diff(lag, NullBehavior::Ignore).unwrap();
        assert_eq!(out.to_rows(), vec![Some(f64s(vec![None, None])), None], "{}", lag);
    }
    let out = ca.lst_diff(-1, NullBehavior::Ignore).unwrap();
    assert_eq!(out.to_rows(), vec![Some(f64s(vec![Some(-1.5), None])), None]);
    let cells = vec![Some(Value::Float32(1.5f32.to_bits())), Some(Value::Float32(4.0f32.to_bits()))];
    let ca = list(ScalarType::Float32, vec![Some(cells)]);
    let out = ca.lst_diff(1, NullBehavior::Drop).unwrap();
    assert_eq!(out.inner, ScalarType::Float32);
    assert_eq!(out.to_rows(), vec![Some(vec![Some(Value::Float32(2.5f32.to_bits()))])]);
}
