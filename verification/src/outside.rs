use vstd::prelude::*;
use polars_core::datatypes::AnyValue;
use polars_core::datatypes::DataType as OutsideType;
use polars_core::datatypes::{UInt32Chunked, UInt64Chunked};
use polars_core::prelude::SortOptions as OutsideSortOptions;
use polars_core::prelude::{IntoSeries, NamedFrom};
use polars_core::series::ops::NullBehavior as OutsideNullBehavior;
use polars_core::series::IsSorted;
use polars_core::series::Series;
use crate::column::Column;
use crate::datatypes::{conforms, DataType, ListError, ScalarType, Value};
use crate::list::{rows_of, ListChunked, Row};
use crate::rowwise::{sorted_cells, stable_unique, unique_from, NullBehavior};
use crate::take::all_null;

verus! {

/// The column type of `polars-core`. Nothing inside it is visible here: what
/// a series holds is named by `series_values` and `series_dtype`.
#[verifier::external_type_specification]
#[verifier::external_body]
pub struct ExSeries(Series);

/// The cells that an outside series holds, in order.
pub uninterp spec fn series_values(s: Series) -> Seq<Option<Value>>;

/// The scalar type of an outside series.
pub uninterp spec fn series_dtype(s: Series) -> ScalarType;

/// What an outside cast makes of a buffer of cells of type `from` when asked
/// for type `to`; `None` where it refuses.
pub uninterp spec fn cast_of(cells: Seq<Option<Value>>, from: ScalarType, to: ScalarType) -> Option<
    Seq<Option<Value>>,
>;

/// `output` has as many cells as `input`, and a null cell wherever `input`
/// has one.
pub open spec fn keeps_nulls(input: Seq<Option<Value>>, output: Seq<Option<Value>>) -> bool {
    &&& output.len() == input.len()
    &&& forall|i: int| 0 <= i < input.len() && input[i].is_none() ==> (#[trigger] output[i]).is_none()
}

/// The cells that a buffer of optional booleans stands for.
pub open spec fn cells_of_bools(v: Seq<Option<bool>>) -> Seq<Option<Value>> {
    Seq::new(
        v.len(),
        |i: int|
            match v[i] {
                Some(x) => Some(Value::Boolean(x)),
                None => None,
            },
    )
}

/// The typed buffer behind a column of type `Boolean`.
fn bools_of(cells: &Vec<Option<Value>>) -> (r: Vec<Option<bool>>)
    requires
        conforms(cells@, ScalarType::Boolean),
    ensures
        cells_of_bools(r@) == cells@,
{
    let mut out: Vec<Option<bool>> = Vec::with_capacity(cells.len());
    let mut i: usize = 0;
    while i < cells.len()
        invariant
            conforms(cells@, ScalarType::Boolean),
            i <= cells@.len(),
            out@.len() == i,
            forall|j: int| 0 <= j < i ==> cells_of_bools(out@)[j] == cells@[j],
        decreases cells@.len() - i,
    {
        let item = match &cells[i] {
            Some(Value::Boolean(x)) => Some(*x),
            Some(_) => {
                assert(cells@[i as int].unwrap().dtype_spec() == ScalarType::Boolean);
                None
            },
            None => None,
        };
        out.push(item);
        i += 1;
    }
    assert(cells_of_bools(out@) =~= cells@);
    out
}

/// Builds an outside series with `Series::new` on optional booleans.
///
/// Trusted: the series holds the given cells in order and has type `Boolean`.
#[verifier::external_body]
fn series_from_bools(v: &Vec<Option<bool>>) -> (r: Series)
    ensures
        series_values(r) == cells_of_bools(v@),
        series_dtype(r) == ScalarType::Boolean,
{
    Series::new("", v)
}

/// The cells that a buffer of optional unsigned 32-bit integers stands for.
pub open spec fn cells_of_uint32s(v: Seq<Option<u32>>) -> Seq<Option<Value>> {
    Seq::new(
        v.len(),
        |i: int|
            match v[i] {
                Some(x) => Some(Value::UInt32(x)),
                None => None,
            },
    )
}

/// The typed buffer behind a column of type `UInt32`.
fn uint32s_of(cells: &Vec<Option<Value>>) -> (r: Vec<Option<u32>>)
    requires
        conforms(cells@, ScalarType::UInt32),
    ensures
        cells_of_uint32s(r@) == cells@,
{
    let mut out: Vec<Option<u32>> = Vec::with_capacity(cells.len());
    let mut i: usize = 0;
    while i < cells.len()
        invariant
            conforms(cells@, ScalarType::UInt32),
            i <= cells@.len(),
            out@.len() == i,
            forall|j: int| 0 <= j < i ==> cells_of_uint32s(out@)[j] == cells@[j],
        decreases cells@.len() - i,
    {
        let item = match &cells[i] {
            Some(Value::UInt32(x)) => Some(*x),
            Some(_) => {
                assert(cells@[i as int].unwrap().dtype_spec() == ScalarType::UInt32);
                None
            },
            None => None,
        };
        out.push(item);
        i += 1;
    }
    assert(cells_of_uint32s(out@) =~= cells@);
    out
}

/// Builds an outside series with `Series::new` on optional 32-bit unsigned integers.
///
/// Trusted: the series holds the given cells in order and has type `UInt32`.
#[verifier::external_body]
fn series_from_uint32s(v: &Vec<Option<u32>>) -> (r: Series)
    ensures
        series_values(r) == cells_of_uint32s(v@),
        series_dtype(r) == ScalarType::UInt32,
{
    Series::new("", v)
}

/// The cells that a buffer of optional unsigned 64-bit integers stands for.
pub open spec fn cells_of_uint64s(v: Seq<Option<u64>>) -> Seq<Option<Value>> {
    Seq::new(
        v.len(),
        |i: int|
            match v[i] {
                Some(x) => Some(Value::UInt64(x)),
                None => None,
            },
    )
}

/// The typed buffer behind a column of type `UInt64`.
fn uint64s_of(cells: &Vec<Option<Value>>) -> (r: Vec<Option<u64>>)
    requires
        conforms(cells@, ScalarType::UInt64),
    ensures
        cells_of_uint64s(r@) == cells@,
{
    let mut out: Vec<Option<u64>> = Vec::with_capacity(cells.len());
    let mut i: usize = 0;
    while i < cells.len()
        invariant
            conforms(cells@, ScalarType::UInt64),
            i <= cells@.len(),
            out@.len() == i,
            forall|j: int| 0 <= j < i ==> cells_of_uint64s(out@)[j] == cells@[j],
        decreases cells@.len() - i,
    {
        let item = match &cells[i] {
            Some(Value::UInt64(x)) => Some(*x),
            Some(_) => {
                assert(cells@[i as int].unwrap().dtype_spec() == ScalarType::UInt64);
                None
            },
            None => None,
        };
        out.push(item);
        i += 1;
    }
    assert(cells_of_uint64s(out@) =~= cells@);
    out
}

/// Builds an outside series with `Series::new` on optional 64-bit unsigned integers.
///
/// Trusted: the series holds the given cells in order and has type `UInt64`.
#[verifier::external_body]
fn series_from_uint64s(v: &Vec<Option<u64>>) -> (r: Series)
    ensures
        series_values(r) == cells_of_uint64s(v@),
        series_dtype(r) == ScalarType::UInt64,
{
    Series::new("", v)
}

/// The cells that a buffer of optional signed 32-bit integers stands for.
pub open spec fn cells_of_int32s(v: Seq<Option<i32>>) -> Seq<Option<Value>> {
    Seq::new(
        v.len(),
        |i: int|
            match v[i] {
                Some(x) => Some(Value::Int32(x)),
                None => None,
            },
    )
}

/// The typed buffer behind a column of type `Int32`.
fn int32s_of(cells: &Vec<Option<Value>>) -> (r: Vec<Option<i32>>)
    requires
        conforms(cells@, ScalarType::Int32),
    ensures
        cells_of_int32s(r@) == cells@,
{
    let mut out: Vec<Option<i32>> = Vec::with_capacity(cells.len());
    let mut i: usize = 0;
    while i < cells.len()
        invariant
            conforms(cells@, ScalarType::Int32),
            i <= cells@.len(),
            out@.len() == i,
            forall|j: int| 0 <= j < i ==> cells_of_int32s(out@)[j] == cells@[j],
        decreases cells@.len() - i,
    {
        let item = match &cells[i] {
            Some(Value::Int32(x)) => Some(*x),
            Some(_) => {
                assert(cells@[i as int].unwrap().dtype_spec() == ScalarType::Int32);
                None
            },
            None => None,
        };
        out.push(item);
        i += 1;
    }
    assert(cells_of_int32s(out@) =~= cells@);
    out
}

/// Builds an outside series with `Series::new` on optional 32-bit signed integers.
///
/// Trusted: the series holds the given cells in order and has type `Int32`.
#[verifier::external_body]
fn series_from_int32s(v: &Vec<Option<i32>>) -> (r: Series)
    ensures
        series_values(r) == cells_of_int32s(v@),
        series_dtype(r) == ScalarType::Int32,
{
    Series::new("", v)
}

/// The cells that a buffer of optional signed 64-bit integers stands for.
pub open spec fn cells_of_int64s(v: Seq<Option<i64>>) -> Seq<Option<Value>> {
    Seq::new(
        v.len(),
        |i: int|
            match v[i] {
                Some(x) => Some(Value::Int64(x)),
                None => None,
            },
    )
}

/// The typed buffer behind a column of type `Int64`.
fn int64s_of(cells: &Vec<Option<Value>>) -> (r: Vec<Option<i64>>)
    requires
        conforms(cells@, ScalarType::Int64),
    ensures
        cells_of_int64s(r@) == cells@,
{
    let mut out: Vec<Option<i64>> = Vec::with_capacity(cells.len());
    let mut i: usize = 0;
    while i < cells.len()
        invariant
            conforms(cells@, ScalarType::Int64),
            i <= cells@.len(),
            out@.len() == i,
            forall|j: int| 0 <= j < i ==> cells_of_int64s(out@)[j] == cells@[j],
        decreases cells@.len() - i,
    {
        let item = match &cells[i] {
            Some(Value::Int64(x)) => Some(*x),
            Some(_) => {
                assert(cells@[i as int].unwrap().dtype_spec() == ScalarType::Int64);
                None
            },
            None => None,
        };
        out.push(item);
        i += 1;
    }
    assert(cells_of_int64s(out@) =~= cells@);
    out
}

/// Builds an outside series with `Series::new` on optional 64-bit signed integers.
///
/// Trusted: the series holds the given cells in order and has type `Int64`.
#[verifier::external_body]
fn series_from_int64s(v: &Vec<Option<i64>>) -> (r: Series)
    ensures
        series_values(r) == cells_of_int64s(v@),
        series_dtype(r) == ScalarType::Int64,
{
    Series::new("", v)
}

/// The cells that a buffer of optional bit patterns of 32-bit floats stands for.
pub open spec fn cells_of_float32_bits(v: Seq<Option<u32>>) -> Seq<Option<Value>> {
    Seq::new(
        v.len(),
        |i: int|
            match v[i] {
                Some(x) => Some(Value::Float32(x)),
                None => None,
            },
    )
}

/// The typed buffer behind a column of type `Float32`.
fn float32_bits_of(cells: &Vec<Option<Value>>) -> (r: Vec<Option<u32>>)
    requires
        conforms(cells@, ScalarType::Float32),
    ensures
        cells_of_float32_bits(r@) == cells@,
{
    let mut out: Vec<Option<u32>> = Vec::with_capacity(cells.len());
    let mut i: usize = 0;
    while i < cells.len()
        invariant
            conforms(cells@, ScalarType::Float32),
            i <= cells@.len(),
            out@.len() == i,
            forall|j: int| 0 <= j < i ==> cells_of_float32_bits(out@)[j] == cells@[j],
        decreases cells@.len() - i,
    {
        let item = match &cells[i] {
            Some(Value::Float32(x)) => Some(*x),
            Some(_) => {
                assert(cells@[i as int].unwrap().dtype_spec() == ScalarType::Float32);
                None
            },
            None => None,
        };
        out.push(item);
        i += 1;
    }
    assert(cells_of_float32_bits(out@) =~= cells@);
    out
}

/// Builds an outside series with `UInt32Chunked::_reinterpret_float`, which reads 32-bit patterns as floats.
///
/// Trusted: the series holds the given cells in order and has type `Float32`.
#[verifier::external_body]
fn series_from_float32_bits(v: &Vec<Option<u32>>) -> (r: Series)
    ensures
        series_values(r) == cells_of_float32_bits(v@),
        series_dtype(r) == ScalarType::Float32,
{
    UInt32Chunked::new("", v)._reinterpret_float().into_series()
}

/// The cells that a buffer of optional bit patterns of 64-bit floats stands for.
pub open spec fn cells_of_float64_bits(v: Seq<Option<u64>>) -> Seq<Option<Value>> {
    Seq::new(
        v.len(),
        |i: int|
            match v[i] {
                Some(x) => Some(Value::Float64(x)),
                None => None,
            },
    )
}

/// The typed buffer behind a column of type `Float64`.
fn float64_bits_of(cells: &Vec<Option<Value>>) -> (r: Vec<Option<u64>>)
    requires
        conforms(cells@, ScalarType::Float64),
    ensures
        cells_of_float64_bits(r@) == cells@,
{
    let mut out: Vec<Option<u64>> = Vec::with_capacity(cells.len());
    let mut i: usize = 0;
    while i < cells.len()
        invariant
            conforms(cells@, ScalarType::Float64),
            i <= cells@.len(),
            out@.len() == i,
            forall|j: int| 0 <= j < i ==> cells_of_float64_bits(out@)[j] == cells@[j],
        decreases cells@.len() - i,
    {
        let item = match &cells[i] {
            Some(Value::Float64(x)) => Some(*x),
            Some(_) => {
                assert(cells@[i as int].unwrap().dtype_spec() == ScalarType::Float64);
                None
            },
            None => None,
        };
        out.push(item);
        i += 1;
    }
    assert(cells_of_float64_bits(out@) =~= cells@);
    out
}

/// Builds an outside series with `UInt64Chunked::_reinterpret_float`, which reads 64-bit patterns as floats.
///
/// Trusted: the series holds the given cells in order and has type `Float64`.
#[verifier::external_body]
fn series_from_float64_bits(v: &Vec<Option<u64>>) -> (r: Series)
    ensures
        series_values(r) == cells_of_float64_bits(v@),
        series_dtype(r) == ScalarType::Float64,
{
    UInt64Chunked::new("", v)._reinterpret_float().into_series()
}

/// The cells that a buffer of optional strings stands for.
pub open spec fn cells_of_strings(v: Seq<Option<String>>) -> Seq<Option<Value>> {
    Seq::new(
        v.len(),
        |i: int|
            match v[i] {
                Some(x) => Some(Value::Utf8(x)),
                None => None,
            },
    )
}

/// The typed buffer behind a column of type `Utf8`.
fn strings_of(cells: &Vec<Option<Value>>) -> (r: Vec<Option<String>>)
    requires
        conforms(cells@, ScalarType::Utf8),
    ensures
        cells_of_strings(r@) == cells@,
{
    let mut out: Vec<Option<String>> = Vec::with_capacity(cells.len());
    let mut i: usize = 0;
    while i < cells.len()
        invariant
            conforms(cells@, ScalarType::Utf8),
            i <= cells@.len(),
            out@.len() == i,
            forall|j: int| 0 <= j < i ==> cells_of_strings(out@)[j] == cells@[j],
        decreases cells@.len() - i,
    {
        let item = match &cells[i] {
            Some(Value::Utf8(x)) => Some(x.clone()),
            Some(_) => {
                assert(cells@[i as int].unwrap().dtype_spec() == ScalarType::Utf8);
                None
            },
            None => None,
        };
        out.push(item);
        i += 1;
    }
    assert(cells_of_strings(out@) =~= cells@);
    out
}

/// Builds an outside series with `Series::new` on optional strings.
///
/// Trusted: the series holds the given cells in order and has type `Utf8`.
#[verifier::external_body]
fn series_from_strings(v: &Vec<Option<String>>) -> (r: Series)
    ensures
        series_values(r) == cells_of_strings(v@),
        series_dtype(r) == ScalarType::Utf8,
{
    Series::new("", v)
}

/// Reads the cells of an outside series with `Series::get`, one `AnyValue` at a
/// time; a float is handed over as its bit pattern.
///
/// Trusted: this reading is what `series_values` names, and every non-null
/// cell has the type of the series.
#[verifier::external_body]
fn series_to_values(s: &Series) -> (r: Vec<Option<Value>>)
    ensures
        r@ == series_values(*s),
        conforms(r@, series_dtype(*s)),
{
    (0..s.len()).map(|i| match s.get(i).ok()? {
        AnyValue::Boolean(x) => Some(Value::Boolean(x)),
        AnyValue::UInt32(x) => Some(Value::UInt32(x)),
        AnyValue::UInt64(x) => Some(Value::UInt64(x)),
        AnyValue::Int32(x) => Some(Value::Int32(x)),
        AnyValue::Int64(x) => Some(Value::Int64(x)),
        AnyValue::Float32(x) => Some(Value::Float32(x.to_bits())),
        AnyValue::Float64(x) => Some(Value::Float64(x.to_bits())),
        AnyValue::Utf8(x) => Some(Value::Utf8(x.to_string())),
        _ => None,
    }).collect()
}

/// Casts an outside series with `Series::cast`, which converts cell by cell
/// and turns a cell that does not fit the new type into null.
///
/// Trusted: the outcome is what `cast_of` names for the cells and type of `s`;
/// on success the result has type `to` and as many cells as `s`, and a null
/// cell of `s` is a null cell of the result.
#[verifier::external_body]
fn series_cast(s: &Series, to: ScalarType) -> (r: Option<Series>)
    ensures
        match cast_of(series_values(*s), series_dtype(*s), to) {
            Some(cells) => r.is_some() && series_values(r.unwrap()) == cells && series_dtype(r.unwrap()) == to
                && keeps_nulls(series_values(*s), cells),
            None => r.is_none(),
        },
{
    let ours = [ScalarType::Boolean, ScalarType::UInt32, ScalarType::UInt64, ScalarType::Int32,
        ScalarType::Int64, ScalarType::Float32, ScalarType::Float64, ScalarType::Utf8];
    let theirs = [OutsideType::Boolean, OutsideType::UInt32, OutsideType::UInt64, OutsideType::Int32,
        OutsideType::Int64, OutsideType::Float32, OutsideType::Float64, OutsideType::Utf8];
    s.cast(&theirs[ours.iter().position(|t| *t == to)?]).ok()
}

/// The least cell of a buffer of floats or strings of type `dtype`, as the
/// outside minimum finds it.
pub uninterp spec fn min_of(cells: Seq<Option<Value>>, dtype: ScalarType) -> Option<Value>;

/// The largest cell of a buffer of floats or strings of type `dtype`, as the
/// outside maximum finds it.
pub uninterp spec fn max_of(cells: Seq<Option<Value>>, dtype: ScalarType) -> Option<Value>;

/// Finds the least cell of a series of floats or strings with
/// `Series::min_as_series`, which gives a series of one cell. The mark that
/// a series may carry of being sorted is cleared first: the outside minimum
/// would answer from it.
///
/// Trusted: the cell is what `min_of` names, and it has the type of `s` or
/// is null.
#[verifier::external_body]
fn series_min(s: &Series) -> (r: Option<Value>)
    requires
        series_values(*s).len() > 0,
        !series_dtype(*s).is_ordered_spec(),
    ensures
        r == min_of(series_values(*s), series_dtype(*s)),
        r.is_some() ==> r.unwrap().dtype_spec() == series_dtype(*s),
{
    let mut fresh = s.clone();
    fresh.set_sorted_flag(IsSorted::Not);
    match fresh.min_as_series().get(0).ok()? {
        AnyValue::Float32(x) => Some(Value::Float32(x.to_bits())),
        AnyValue::Float64(x) => Some(Value::Float64(x.to_bits())),
        AnyValue::Utf8(x) => Some(Value::Utf8(x.to_string())),
        _ => None,
    }
}

/// Finds the largest cell of a series of floats or strings with
/// `Series::max_as_series`, which gives a series of one cell. The mark that
/// a series may carry of being sorted is cleared first: the outside maximum
/// would answer from it.
///
/// Trusted: the cell is what `max_of` names, and it has the type of `s` or
/// is null.
#[verifier::external_body]
fn series_max(s: &Series) -> (r: Option<Value>)
    requires
        series_values(*s).len() > 0,
        !series_dtype(*s).is_ordered_spec(),
    ensures
        r == max_of(series_values(*s), series_dtype(*s)),
        r.is_some() ==> r.unwrap().dtype_spec() == series_dtype(*s),
{
    let mut fresh = s.clone();
    fresh.set_sorted_flag(IsSorted::Not);
    match fresh.max_as_series().get(0).ok()? {
        AnyValue::Float32(x) => Some(Value::Float32(x.to_bits())),
        AnyValue::Float64(x) => Some(Value::Float64(x.to_bits())),
        AnyValue::Utf8(x) => Some(Value::Utf8(x.to_string())),
        _ => None,
    }
}

/// What the outside extreme of a buffer is: its maximum if `largest` is set,
/// and its minimum otherwise.
pub open spec fn outside_extreme_of(cells: Seq<Option<Value>>, dtype: ScalarType, largest: bool) -> Option<Value> {
    if largest {
        max_of(cells, dtype)
    } else {
        min_of(cells, dtype)
    }
}

/// The extreme cell of a buffer of floats or strings that is not empty, as
/// the outside minimum or maximum finds it.
pub fn outside_extreme(cells: &Vec<Option<Value>>, dtype: ScalarType, largest: bool) -> (r: Option<Value>)
    requires
        conforms(cells@, dtype),
        cells@.len() > 0,
        !dtype.is_ordered_spec(),
    ensures
        r == outside_extreme_of(cells@, dtype, largest),
        r.is_some() ==> r.unwrap().dtype_spec() == dtype,
{
    let s = to_series(cells, dtype);
    if largest {
        series_max(&s)
    } else {
        series_min(&s)
    }
}

/// Sums a float series with `Series::sum_as_series`, which gives a series of
/// one cell, and reads that cell as a bit pattern.
///
/// Trusted: a float series that holds a cell that is not null has a sum,
/// and the sum is a float of the type of the series. Which float is not
/// stated: the order in which the outside sum adds depends on where the
/// buffer lies in memory.
#[verifier::external_body]
fn series_float_sum(s: &Series) -> (r: Option<Value>)
    requires
        series_dtype(*s).is_float_spec(),
        !all_null(series_values(*s)),
    ensures
        r.is_some(),
        r.unwrap().dtype_spec() == series_dtype(*s),
{
    match s.sum_as_series().get(0).ok()? {
        AnyValue::Float32(x) => Some(Value::Float32(x.to_bits())),
        AnyValue::Float64(x) => Some(Value::Float64(x.to_bits())),
        _ => None,
    }
}

/// The bit pattern of the 64-bit float that the outside mean makes of a
/// buffer of cells of type `dtype`, where the cells alone decide it: for
/// every type but the 64-bit floats.
pub uninterp spec fn mean_of(cells: Seq<Option<Value>>, dtype: ScalarType) -> Option<u64>;

/// The 32-bit float that the outside mean makes of a buffer of 32-bit
/// floats.
pub uninterp spec fn narrow_mean_of(cells: Seq<Option<Value>>) -> Option<Value>;

/// Takes the mean of a series of numbers or booleans with `Series::mean` and
/// hands it over as the bit pattern of a 64-bit float.
///
/// Trusted: a series of numbers or booleans that holds a cell that is not
/// null has a mean. For every type but the 64-bit floats the outside
/// function counts, or adds the cells one by one in their order, and
/// divides, so the mean is what `mean_of` names. The mean of 64-bit floats
/// rests on the outside sum, whose order of adding depends on where the
/// buffer lies in memory: which float it is is not stated.
#[verifier::external_body]
fn series_mean(s: &Series) -> (r: Option<u64>)
    requires
        has_mean(series_dtype(*s)),
        !all_null(series_values(*s)),
    ensures
        r.is_some(),
        series_dtype(*s) != ScalarType::Float64 ==> r == mean_of(series_values(*s), series_dtype(*s)),
{
    s.mean().map(|x| x.to_bits())
}

/// Takes the mean of a series of 32-bit floats with `Series::mean_as_series`,
/// which gives a series of one 32-bit float, and reads that cell as a bit
/// pattern.
///
/// Trusted: a series of 32-bit floats that holds a cell that is not null has
/// such a mean, and it is what `narrow_mean_of` names: the outside function
/// narrows the mean that it gets by adding the cells one by one.
#[verifier::external_body]
fn series_narrow_mean(s: &Series) -> (r: Option<Value>)
    requires
        series_dtype(*s) == ScalarType::Float32,
        !all_null(series_values(*s)),
    ensures
        r.is_some(),
        r.unwrap().dtype_spec() == ScalarType::Float32,
        r == narrow_mean_of(series_values(*s)),
{
    match s.mean_as_series().get(0).ok()? {
        AnyValue::Float32(x) => Some(Value::Float32(x.to_bits())),
        _ => None,
    }
}

/// The types whose cells have a mean: numbers and booleans.
pub open spec fn has_mean(dtype: ScalarType) -> bool {
    dtype.is_numeric_spec() || dtype == ScalarType::Boolean
}

/// The sum of a buffer of floats that holds a cell that is not null, as the
/// outside sum computes it: a float of the type of the buffer.
pub fn float_sum(cells: &Vec<Option<Value>>, dtype: ScalarType) -> (r: Option<Value>)
    requires
        conforms(cells@, dtype),
        dtype.is_float_spec(),
        !all_null(cells@),
    ensures
        r matches Some(v) && v.dtype_spec() == dtype,
{
    let s = to_series(cells, dtype);
    series_float_sum(&s)
}

/// Whether the cells of a buffer alone decide its mean: they do for every
/// type but the 64-bit floats.
pub open spec fn mean_is_fixed(dtype: ScalarType) -> bool {
    dtype != ScalarType::Float64
}

/// The mean of a buffer whose cells decide it, as the outside mean gives
/// it: a 32-bit float if `narrow` is set, and a 64-bit float otherwise.
pub open spec fn fixed_mean(cells: Seq<Option<Value>>, dtype: ScalarType, narrow: bool) -> Option<Value> {
    if narrow {
        narrow_mean_of(cells)
    } else {
        match mean_of(cells, dtype) {
            Some(bits) => Some(Value::Float64(bits)),
            None => None,
        }
    }
}

/// The mean of a buffer of numbers or booleans that holds a cell that is not
/// null, as the outside mean computes it: a 64-bit float, or a 32-bit float
/// if `narrow` is set, which only a buffer of 32-bit floats allows. It is
/// the mean that the cells decide, but for 64-bit floats, whose mean is
/// some float.
pub fn mean(cells: &Vec<Option<Value>>, dtype: ScalarType, narrow: bool) -> (r: Option<Value>)
    requires
        conforms(cells@, dtype),
        has_mean(dtype),
        !all_null(cells@),
        narrow ==> dtype == ScalarType::Float32,
    ensures
        r matches Some(v) && v.dtype_spec() == if narrow {
            ScalarType::Float32
        } else {
            ScalarType::Float64
        },
        mean_is_fixed(dtype) ==> r == fixed_mean(cells@, dtype, narrow),
{
    let s = to_series(cells, dtype);
    if narrow {
        series_narrow_mean(&s)
    } else {
        match series_mean(&s) {
            Some(bits) => Some(Value::Float64(bits)),
            None => None,
        }
    }
}

/// What the outside sort makes of a buffer of cells of type `dtype` that are
/// no booleans. It sorts on one thread and without a mark of earlier sorts,
/// so the same cells give the same order.
pub uninterp spec fn sort_of(cells: Seq<Option<Value>>, dtype: ScalarType, descending: bool, nulls_last: bool) -> Seq<
    Option<Value>,
>;

/// Sorts a series with `Series::sort_with`, on one thread, after clearing the
/// mark that a series may carry of being sorted already.
///
/// Trusted: the result is what `sort_of` names. It has the type of `s` and
/// holds the same cells, each as often as `s` does. The null cells come
/// first (last if `nulls_last` is set) and the others follow in ascending
/// (descending) order: integers as integers, floats as numbers with what is
/// no number last, strings by code point. Booleans are left out: the outside
/// sort does not take `nulls_last` for them.
#[verifier::external_body]
fn series_sort(s: &Series, descending: bool, nulls_last: bool) -> (r: Series)
    requires
        series_dtype(*s) != ScalarType::Boolean,
    ensures
        series_values(r) == sort_of(series_values(*s), series_dtype(*s), descending, nulls_last),
        series_dtype(r) == series_dtype(*s),
        series_values(r).to_multiset() == series_values(*s).to_multiset(),
        sorted_cells(series_values(r), descending, nulls_last),
{
    let mut fresh = s.clone();
    fresh.set_sorted_flag(IsSorted::Not);
    fresh.sort_with(OutsideSortOptions { descending, nulls_last, multithreaded: false })
}

/// Drops repeated cells with `Series::unique`, which keeps no order.
///
/// Trusted: it gives a series, as every implementation for the scalar types
/// of this library does. That series has the type of `s` and holds every
/// cell of `s` exactly once.
#[verifier::external_body]
fn series_unique(s: &Series) -> (r: Option<Series>)
    ensures
        r.is_some(),
        series_dtype(r.unwrap()) == series_dtype(*s),
        unique_from(series_values(*s), series_values(r.unwrap())),
{
    s.unique().ok()
}

/// Drops repeated cells with `Series::unique_stable`, which takes the cells
/// at the positions of first occurrence.
///
/// Trusted: it gives a series, as every implementation for the scalar types
/// of this library does. That series has the type of `s` and holds the
/// first of every group of equal cells of `s`, in the order of `s`.
#[verifier::external_body]
fn series_unique_stable(s: &Series) -> (r: Option<Series>)
    ensures
        r.is_some(),
        series_dtype(r.unwrap()) == series_dtype(*s),
        series_values(r.unwrap()) == stable_unique(series_values(*s)),
{
    s.unique_stable().ok()
}

/// The inputs on which the difference is taken outside: floats, and 64-bit
/// unsigned integers when leading nulls are dropped, whose differences the
/// outside function takes as floats.
pub open spec fn diff_is_outside(dtype: ScalarType, behavior: NullBehavior) -> bool {
    dtype.is_float_spec() || (dtype == ScalarType::UInt64 && behavior == NullBehavior::Drop)
}

/// What the outside difference makes of a buffer of cells of type `dtype`
/// for a lag of `n`; `None` where it refuses.
pub uninterp spec fn diff_of(cells: Seq<Option<Value>>, dtype: ScalarType, n: i64, behavior: NullBehavior) -> Option<
    Seq<Option<Value>>,
>;

/// Takes the differences of a series with `Series::diff`: each cell minus
/// the cell `n` places before it, as floats.
///
/// Trusted: the outcome is what `diff_of` names. Left out are the inputs on
/// which the outside function subtracts integers, which it does without
/// regard to overflow; the lag `i64::MIN`; and a dropping difference with a
/// lag that is not positive or is longer than the series.
#[verifier::external_body]
fn series_diff(s: &Series, n: i64, behavior: NullBehavior) -> (r: Option<Series>)
    requires
        diff_is_outside(series_dtype(*s), behavior),
        n > i64::MIN,
        behavior == NullBehavior::Drop ==> 0 < n <= series_values(*s).len(),
    ensures
        match diff_of(series_values(*s), series_dtype(*s), n, behavior) {
            Some(cells) => r.is_some() && series_values(r.unwrap()) == cells,
            None => r.is_none(),
        },
{
    let outside = match behavior {
        NullBehavior::Ignore => OutsideNullBehavior::Ignore,
        NullBehavior::Drop => OutsideNullBehavior::Drop,
    };
    s.diff(n, outside).ok()
}

/// The differences of a buffer of cells, as the outside difference computes
/// them; `None` where it refuses.
pub fn diff_cells(cells: &Vec<Option<Value>>, dtype: ScalarType, n: i64, behavior: NullBehavior) -> (r: Option<
    Vec<Option<Value>>,
>)
    requires
        conforms(cells@, dtype),
        diff_is_outside(dtype, behavior),
        n > i64::MIN,
        behavior == NullBehavior::Drop ==> 0 < n <= cells@.len(),
    ensures
        match diff_of(cells@, dtype, n, behavior) {
            Some(out) => r.is_some() && r.unwrap()@ == out,
            None => r.is_none(),
        },
{
    let s = to_series(cells, dtype);
    match series_diff(&s, n, behavior) {
        Some(d) => Some(series_to_values(&d)),
        None => None,
    }
}

/// Sorts a buffer of cells that are no booleans with the outside sort.
pub fn sort_cells(cells: &Vec<Option<Value>>, dtype: ScalarType, descending: bool, nulls_last: bool) -> (out:
    Vec<Option<Value>>)
    requires
        conforms(cells@, dtype),
        dtype != ScalarType::Boolean,
    ensures
        out@ == sort_of(cells@, dtype, descending, nulls_last),
        conforms(out@, dtype),
        out@.to_multiset() == cells@.to_multiset(),
        sorted_cells(out@, descending, nulls_last),
{
    let s = to_series(cells, dtype);
    let sorted = series_sort(&s, descending, nulls_last);
    series_to_values(&sorted)
}

/// The cells of a buffer without repetitions, in no promised order. The
/// outside function does not refuse a buffer of this library's types, so
/// the result is never `None`.
pub fn unique_cells(cells: &Vec<Option<Value>>, dtype: ScalarType) -> (r: Option<Vec<Option<Value>>>)
    requires
        conforms(cells@, dtype),
    ensures
        r matches Some(out) && conforms(out@, dtype) && unique_from(cells@, out@),
{
    let s = to_series(cells, dtype);
    match series_unique(&s) {
        Some(u) => Some(series_to_values(&u)),
        None => None,
    }
}

/// The cells of a buffer without repetitions, the first of equal cells
/// staying in its place. The outside function does not refuse a buffer of
/// this library's types, so the result is never `None`.
pub fn unique_stable_cells(cells: &Vec<Option<Value>>, dtype: ScalarType) -> (r: Option<Vec<Option<Value>>>)
    requires
        conforms(cells@, dtype),
    ensures
        r matches Some(out) && conforms(out@, dtype) && out@ == stable_unique(cells@),
{
    let s = to_series(cells, dtype);
    match series_unique_stable(&s) {
        Some(u) => Some(series_to_values(&u)),
        None => None,
    }
}

/// The outside series that holds the cells of a buffer of type `dtype`.
fn to_series(cells: &Vec<Option<Value>>, dtype: ScalarType) -> (r: Series)
    requires
        conforms(cells@, dtype),
    ensures
        series_values(r) == cells@,
        series_dtype(r) == dtype,
{
    match dtype {
        ScalarType::Boolean => series_from_bools(&bools_of(cells)),
        ScalarType::UInt32 => series_from_uint32s(&uint32s_of(cells)),
        ScalarType::UInt64 => series_from_uint64s(&uint64s_of(cells)),
        ScalarType::Int32 => series_from_int32s(&int32s_of(cells)),
        ScalarType::Int64 => series_from_int64s(&int64s_of(cells)),
        ScalarType::Float32 => series_from_float32_bits(&float32_bits_of(cells)),
        ScalarType::Float64 => series_from_float64_bits(&float64_bits_of(cells)),
        ScalarType::Utf8 => series_from_strings(&strings_of(cells)),
    }
}

/// What a cast makes of a buffer: the buffer itself when the type stays, and
/// what the outside cast gives otherwise. A cast gives as many cells as it
/// takes, and leaves null cells null.
pub open spec fn cast_spec(cells: Seq<Option<Value>>, from: ScalarType, to: ScalarType) -> Option<
    Seq<Option<Value>>,
> {
    if from == to {
        Some(cells)
    } else {
        match cast_of(cells, from, to) {
            Some(out) if keeps_nulls(cells, out) => Some(out),
            _ => None,
        }
    }
}

/// Casts a buffer of cells of type `from` to type `to`.
///
/// The result has as many cells as the input, each of type `to` or null, and
/// a null cell wherever the input has one.
pub fn cast_cells(cells: &Vec<Option<Value>>, from: ScalarType, to: ScalarType) -> (r: Option<
    Vec<Option<Value>>,
>)
    requires
        conforms(cells@, from),
    ensures
        match cast_spec(cells@, from, to) {
            Some(v) => r.is_some() && r.unwrap()@ == v,
            None => r.is_none(),
        },
        r.is_some() ==> keeps_nulls(cells@, r.unwrap()@) && conforms(r.unwrap()@, to),
{
    if from == to {
        return Some(crate::column::duplicate_cells(cells));
    }
    let s = to_series(cells, from);
    match series_cast(&s, to) {
        Some(t) => Some(series_to_values(&t)),
        None => None,
    }
}

impl Column {
    /// Casts the column to another scalar type.
    ///
    /// Fails with `SchemaMismatch` exactly when the cast does not exist.
    pub fn cast(&self, to: ScalarType) -> (res: Result<Column, ListError>)
        requires
            self.wf(),
        ensures
            match cast_spec(self@, self.dtype, to) {
                Some(v) => res.is_ok() && res.unwrap()@ == v,
                None => res == Err::<Column, ListError>(
                    (ListError::SchemaMismatch {
                        got: DataType::Scalar(self.dtype),
                        expected: DataType::Scalar(to),
                    }),
                ),
            },
            res matches Ok(out) ==> out.wf() && out.dtype == to && out.name@ == self.name@ && keeps_nulls(
                self@,
                out@,
            ),
    {
        match cast_cells(&self.values, self.dtype, to) {
            Some(values) => Ok(Column { name: self.name.clone(), dtype: to, values }),
            None => Err(
                ListError::SchemaMismatch { got: DataType::Scalar(self.dtype), expected: DataType::Scalar(to) },
            ),
        }
    }
}

/// The rows of a list column after a cast of its cells: the layout stays and
/// the value buffer is cast as a whole.
pub open spec fn cast_rows(ca: ListChunked, to: ScalarType) -> Option<Seq<Row>> {
    match cast_spec(ca.values@, ca.inner, to) {
        Some(cells) => Some(rows_of(ca.offsets@, ca.validity@, cells)),
        None => None,
    }
}

impl ListChunked {
    /// Casts the cells of the column to another scalar type. Offsets and
    /// row validity stay as they are.
    ///
    /// Fails with `SchemaMismatch` exactly when the cast does not exist.
    pub fn cast_inner(&self, to: ScalarType) -> (res: Result<ListChunked, ListError>)
        requires
            self.wf(),
        ensures
            match cast_rows(*self, to) {
                Some(rows) => res.is_ok() && res.unwrap()@ == rows,
                None => res == Err::<ListChunked, ListError>(
                    (ListError::SchemaMismatch {
                        got: DataType::List(Box::new(DataType::Scalar(self.inner))),
                        expected: DataType::List(Box::new(DataType::Scalar(to))),
                    }),
                ),
            },
            res matches Ok(out) ==> out.wf() && out.inner == to && out.name@ == self.name@ && out@.len()
                == self@.len(),
            to == self.inner ==> res.is_ok() && res.unwrap()@ == self@,
    {
        match cast_cells(&self.values, self.inner, to) {
            Some(values) => Ok(
                ListChunked {
                    name: self.name.clone(),
                    inner: to,
                    offsets: self.offsets.clone(),
                    validity: self.validity.clone(),
                    values,
                },
            ),
            None => Err(
                ListError::SchemaMismatch {
                    got: DataType::List(Box::new(DataType::Scalar(self.inner))),
                    expected: DataType::List(Box::new(DataType::Scalar(to))),
                },
            ),
        }
    }
}

} // verus!
