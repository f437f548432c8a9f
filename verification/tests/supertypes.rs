use list_column::ScalarType::{Boolean, Float32, Float64, Int32, Int64, UInt32, UInt64, Utf8};
use list_column::{get_supertype, get_supertype_of_all, try_get_supertype, DataType, ScalarType};

fn scalar(t: ScalarType) -> DataType {
    DataType::Scalar(t)
}

fn list(t: DataType) -> DataType {
    DataType::List(Box::new(t))
}

#[test]
fn int32_and_float64_meet_in_float64() {
    let t = get_supertype(&scalar(ScalarType::Int32), &scalar(ScalarType::Float64));
    assert_eq!(t, Some(scalar(ScalarType::Float64)));
}

#[test]
fn list_absorbs_scalar() {
    let t = get_supertype(&list(scalar(ScalarType::Int32)), &scalar(ScalarType::Int64));
    assert_eq!(t, Some(list(scalar(ScalarType::Int64))));
    let t = get_supertype(&scalar(ScalarType::Int64), &list(scalar(ScalarType::Int32)));
    assert_eq!(t, Some(list(scalar(ScalarType::Int64))));
}

#[test]
fn two_lists_meet_in_list_of_inner_supertype() {
    let t = get_supertype(&list(list(scalar(ScalarType::UInt32))), &list(scalar(ScalarType::Int32)));
    assert_eq!(t, Some(list(list(scalar(ScalarType::Int64)))));
}

#[test]
fn a_type_meets_itself() {
    let t = get_supertype(&scalar(ScalarType::Utf8), &scalar(ScalarType::Utf8));
    assert_eq!(t, Some(scalar(ScalarType::Utf8)));
}

#[test]
fn the_whole_promotion_table() {
    let all = [Boolean, UInt32, UInt64, Int32, Int64, Float32, Float64, Utf8];
    let table = [
        [Boolean, UInt32, UInt64, Int32, Int64, Float32, Float64, Utf8],
        [UInt32, UInt32, UInt64, Int64, Int64, Float64, Float64, Utf8],
        [UInt64, UInt64, UInt64, Float64, Float64, Float64, Float64, Utf8],
        [Int32, Int64, Float64, Int32, Int64, Float64, Float64, Utf8],
        [Int64, Int64, Float64, Int64, Int64, Float64, Float64, Utf8],
        [Float32, Float64, Float64, Float64, Float64, Float32, Float64, Utf8],
        [Float64, Float64, Float64, Float64, Float64, Float64, Float64, Utf8],
        [Utf8, Utf8, Utf8, Utf8, Utf8, Utf8, Utf8, Utf8],
    ];
    for (i, l) in all.iter().enumerate() {
        for (j, r) in all.iter().enumerate() {
            assert_eq!(get_supertype(&scalar(*l), &scalar(*r)), Some(scalar(table[i][j])), "{:?} {:?}", l, r);
            assert_eq!(try_get_supertype(&scalar(*l), &scalar(*r)), Ok(scalar(table[i][j])));
        }
    }
}

#[test]
fn many_types_merge_from_left_to_right() {
    let others = vec![scalar(ScalarType::UInt32), list(scalar(ScalarType::Boolean)), scalar(ScalarType::Float32)];
    assert_eq!(get_supertype_of_all(&scalar(ScalarType::Int32), &others), Ok(list(scalar(ScalarType::Float64))));
    assert_eq!(get_supertype_of_all(&scalar(ScalarType::Int32), &vec![]), Ok(scalar(ScalarType::Int32)));
}

#[test]
fn a_list_takes_strings_up_too() {
    let t = get_supertype(&list(scalar(ScalarType::Int32)), &scalar(ScalarType::Utf8));
    assert_eq!(t, Some(list(scalar(ScalarType::Utf8))));
}
