use arrow2::array::{Array, Int32Array, ListArray};
use arrow2::datatypes::DataType as ArrowType;
use arrow2::offset::OffsetsBuffer;
use list_column::{get_supertype, negative_to_usize, DataType, ListChunked, ListNameSpaceImpl, ScalarType, Value};
use polars_arrow::index::IndexToUsize;
use polars_arrow::kernels::list::sublist_get;
use polars_core::prelude::DataType as PolarsType;

#[test]
fn the_promotion_table_is_that_of_polars() {
    let ours = [
        ScalarType::Boolean,
        ScalarType::UInt32,
        ScalarType::UInt64,
        ScalarType::Int32,
        ScalarType::Int64,
        ScalarType::Float32,
        ScalarType::Float64,
        ScalarType::Utf8,
    ];
    let theirs = [
        PolarsType::Boolean,
        PolarsType::UInt32,
        PolarsType::UInt64,
        PolarsType::Int32,
        PolarsType::Int64,
        PolarsType::Float32,
        PolarsType::Float64,
        PolarsType::Utf8,
    ];
    for i in 0..8 {
        for j in 0..8 {
            let expected = polars_core::utils::get_supertype(&theirs[i], &theirs[j]).unwrap();
            let at = theirs.iter().position(|t| *t == expected).unwrap();
            let found = get_supertype(&DataType::Scalar(ours[i]), &DataType::Scalar(ours[j]));
            assert_eq!(found, Some(DataType::Scalar(ours[at])), "{:?} {:?}", ours[i], ours[j]);
        }
    }
}

#[test]
fn signed_indices_resolve_as_in_polars() {
    for len in 0..5usize {
        for index in -7..8i64 {
            assert_eq!(negative_to_usize(index, len), index.negative_to_usize(len), "{} {}", index, len);
        }
    }
}

#[test]
fn get_picks_the_cells_that_polars_picks() {
    let cells = vec![Some(1), Some(2), None, Some(4), Some(5), Some(6)];
    let bounds = vec![0usize, 3, 3, 5, 6];
    let values = Int32Array::from(cells.clone());
    let offsets = OffsetsBuffer::try_from(bounds.iter().map(|o| *o as i64).collect::<Vec<i64>>()).unwrap();
    let dtype = ListArray::<i64>::default_datatype(ArrowType::Int32);
    let theirs = ListArray::<i64>::new(dtype, offsets, Box::new(values), None);
    let rows: Vec<Option<Vec<Option<Value>>>> = bounds
        .windows(2)
        .map(|w| Some(cells[w[0]..w[1]].iter().map(|c| c.map(Value::Int32)).collect()))
        .collect();
    let ours = ListChunked::from_rows("a", ScalarType::Int32, &rows).unwrap();
    for index in -4..5i64 {
        let picked = sublist_get(&theirs, index);
        let picked = picked.as_any().downcast_ref::<Int32Array>().unwrap();
        let expected: Vec<Option<Value>> = picked.iter().map(|c| c.map(|x| Value::Int32(*x))).collect();
        assert_eq!(ours.lst_get(index).unwrap().values, expected, "{}", index);
    }
}
