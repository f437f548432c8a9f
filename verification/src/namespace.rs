use vstd::prelude::*;
use crate::column::{check_conforms, Column};
use crate::concat::{all_unit_length, concat_broadcast, concat_general, concat_spec, resolve_inner_type};
use crate::datatypes::{conforms, duplicate_cell, ComputeFailure, DataType, ListError, ScalarType, Value};
use crate::index::{negative_to_usize, resolve};
use crate::join::{join_range, joined_cell};
use crate::list::{AnyColumn, ListBuilder, ListChunked, Row};
use crate::outside::{diff_cells, diff_is_outside, diff_of, sort_cells, unique_cells, unique_stable_cells};
use crate::reduce::{
    arg_extreme_spec, copy_range, extreme_range, extreme_spec, mean_dtype, mean_range, mean_spec, means_of,
    sum_dtype, sum_range, sum_spec, sums_of,
};
use crate::rowwise::{
    diff_dtype, diff_range, effective_lag, int_diff, lemma_conforms_subrange, reverse_range, reverse_rows,
    shift_range, shift_rows, slice_range, slice_rows, sort_bools, sort_rows, sorted_from, sorted_rows,
    stable_unique_rows, unique_from, unique_rows, NullBehavior, SortOptions,
};
use crate::take::{is_all_null, take_failure, take_flat, take_list, take_rows};

verus! {

/// Whether the flat value buffer of a list column holds a null cell.
pub fn has_inner_nulls(ca: &ListChunked) -> (r: bool)
    ensures
        r == (exists|i: int| 0 <= i < ca.values@.len() && ca.values@[i].is_none()),
{
    let mut i: usize = 0;
    while i < ca.values.len()
        invariant
            i <= ca.values@.len(),
            forall|j: int| 0 <= j < i ==> ca.values@[j].is_some(),
        decreases ca.values@.len() - i,
    {
        if ca.values[i].is_none() {
            return true;
        }
        i += 1;
    }
    false
}

/// The length of each row; null for a null row.
pub open spec fn lengths_spec(rows: Seq<Row>) -> Seq<Option<Value>> {
    Seq::new(
        rows.len(),
        |i: int|
            match rows[i] {
                Some(row) => Some(Value::UInt64(row.len() as u64)),
                None => None,
            },
    )
}

/// The cell that `idx` addresses in each row; null for a null row and for a
/// row in which `idx` addresses nothing.
pub open spec fn get_spec(rows: Seq<Row>, idx: int) -> Seq<Option<Value>> {
    Seq::new(
        rows.len(),
        |i: int|
            match rows[i] {
                Some(row) => match resolve(idx, row.len()) {
                    Some(p) => row[p as int],
                    None => None,
                },
                None => None,
            },
    )
}

/// The error of an operation on an inner type that it is not defined on, or
/// that the outside function behind it refuses.
pub open spec fn unsupported(inner: ScalarType) -> ListError {
    ListError::ComputeError(ComputeFailure::UnsupportedInnerType(inner))
}

/// Finds the extreme cell of every row, and gives its position if `position`
/// is set and the cell itself otherwise.
pub fn extremes(ca: &ListChunked, largest: bool, position: bool) -> (out: Column)
    requires
        ca.wf(),
    ensures
        out.wf(),
        out.name@ == ca.name@,
        out.dtype == if position {
            ScalarType::UInt64
        } else {
            ca.inner
        },
        out@ == if position {
            arg_extreme_spec(ca@, ca.inner, largest)
        } else {
            extreme_spec(ca@, ca.inner, largest)
        },
{
    let dtype = if position {
        ScalarType::UInt64
    } else {
        ca.inner
    };
    let ghost want = if position {
        arg_extreme_spec(ca@, ca.inner, largest)
    } else {
        extreme_spec(ca@, ca.inner, largest)
    };
    let mut cells: Vec<Option<Value>> = Vec::with_capacity(ca.len());
    let mut rows = ca.amortized_iter();
    while rows.has_next()
        invariant
            rows.wf(),
            *rows.ca == *ca,
            cells@.len() == rows.position,
            dtype == if position {
                ScalarType::UInt64
            } else {
                ca.inner
            },
            want == if position {
                arg_extreme_spec(ca@, ca.inner, largest)
            } else {
                extreme_spec(ca@, ca.inner, largest)
            },
            forall|j: int| 0 <= j < cells@.len() ==> cells@[j] == want[j],
            forall|j: int|
                0 <= j < cells@.len() && cells@[j].is_some() ==> (#[trigger] cells@[j]).unwrap().dtype_spec()
                    == dtype,
        decreases ca@.len() - rows.position,
    {
        let mut cell: Option<Value> = None;
        if let Some(Some(row)) = rows.next() {
            let (at, extreme) = extreme_range(ca, row.start, row.end, largest);
            if position {
                if let Some(p) = at {
                    cell = Some(Value::UInt64(p as u64));
                }
            } else {
                cell = extreme;
            }
        }
        cells.push(cell);
    }
    assert(cells@ =~= want);
    Column { name: ca.name.clone(), dtype, values: cells }
}

/// Takes what an outside transform made of a row. Cells are appended to the
/// builder as its next row. A refusal is an error that names the inner
/// type, and leaves the builder as it is.
pub fn append_outcome(builder: &mut ListBuilder, outcome: &Option<Vec<Option<Value>>>, inner: ScalarType) -> (res:
    Result<(), ListError>)
    requires
        old(builder).wf(),
        outcome matches Some(cells) ==> conforms(cells@, old(builder).inner),
    ensures
        match *outcome {
            Some(cells) => {
                &&& res.is_ok()
                &&& final(builder).wf()
                &&& final(builder)@ == old(builder)@.push(Some(cells@))
                &&& final(builder).name == old(builder).name
                &&& final(builder).inner == old(builder).inner
            },
            None => res == Err::<(), ListError>(unsupported(inner)) && *final(builder) == *old(builder),
        },
{
    match outcome {
        Some(cells) => {
            builder.append_row(cells);
            Ok(())
        },
        None => Err(ListError::ComputeError(ComputeFailure::UnsupportedInnerType(inner))),
    }
}

/// The differences of a row at a lag of `n`, or `None` where the outside
/// function refuses the row.
///
/// Integers are subtracted here. Floats are subtracted outside, and so are
/// 64-bit unsigned integers when leading nulls are dropped; the outside
/// differences count only if they are of the type that `diff_dtype` names.
/// Where leading nulls are dropped and the row has fewer cells than the
/// lag, the differences are the empty row.
pub open spec fn diff_row(row: Seq<Option<Value>>, inner: ScalarType, n: i64, behavior: NullBehavior) -> Option<
    Seq<Option<Value>>,
> {
    if !diff_is_outside(inner, behavior) {
        Some(int_diff(row, inner, n as int, behavior))
    } else if behavior == NullBehavior::Drop && n > row.len() {
        Some(Seq::empty())
    } else {
        match diff_of(row, inner, effective_lag(n), behavior) {
            Some(cells) if conforms(cells, diff_dtype(inner, behavior)) => Some(cells),
            _ => None,
        }
    }
}

/// Whether `output` holds the differences of every non-null row of `input`
/// and a null row wherever `input` has one.
pub open spec fn diff_rows(
    input: Seq<Row>,
    output: Seq<Row>,
    inner: ScalarType,
    n: i64,
    behavior: NullBehavior,
) -> bool {
    &&& output.len() == input.len()
    &&& forall|i: int|
        0 <= i < input.len() ==> match (#[trigger] input[i], output[i]) {
            (Some(a), Some(b)) => diff_row(a, inner, n, behavior) == Some(b),
            (None, None) => true,
            _ => false,
        }
}

/// Whether the outside function refuses the differences of some non-null
/// row.
pub open spec fn diff_refused(rows: Seq<Row>, inner: ScalarType, n: i64, behavior: NullBehavior) -> bool {
    exists|i: int|
        0 <= i < rows.len() && (#[trigger] rows[i]).is_some() && diff_row(rows[i].unwrap(), inner, n, behavior)
            .is_none()
}

/// The error of a difference, if it has one.
///
/// Cells that are no numbers have no differences. A difference that drops
/// its leading nulls needs a positive lag. Last, the outside function may
/// refuse a non-null row.
pub open spec fn diff_failure(rows: Seq<Row>, inner: ScalarType, n: i64, behavior: NullBehavior) -> Option<ListError> {
    if !inner.is_numeric_spec() {
        Some(unsupported(inner))
    } else if behavior == NullBehavior::Drop && n <= 0 {
        Some(ListError::ComputeError(ComputeFailure::NonPositiveLag(n)))
    } else if diff_refused(rows, inner, n, behavior) {
        Some(unsupported(inner))
    } else {
        None
    }
}

/// Whether the means of a column are 32-bit floats: its cells are, and one
/// of them is null.
pub open spec fn narrows(ca: ListChunked) -> bool {
    ca.inner == ScalarType::Float32 && exists|i: int| 0 <= i < ca.values@.len() && ca.values@[i].is_none()
}

/// Something that can be seen as a list column.
pub trait AsList {
    spec fn list(&self) -> ListChunked;

    fn as_list(&self) -> (ca: &ListChunked)
        ensures
            *ca == self.list(),
    ;
}

impl AsList for ListChunked {
    open spec fn list(&self) -> ListChunked {
        *self
    }

    fn as_list(&self) -> (ca: &ListChunked) {
        self
    }
}

/// The operations on list columns.
pub trait ListNameSpaceImpl: AsList {
    /// The number of cells of each row, as a column of unsigned 64-bit
    /// integers. A null row has a null length.
    fn lst_lengths(&self) -> (out: Column)
        requires
            self.list().wf(),
        ensures
            out.wf(),
            out.dtype == ScalarType::UInt64,
            out.name@ == self.list().name@,
            out@ == lengths_spec(self.list()@),
    {
        let ca = self.as_list();
        let mut lengths: Vec<Option<Value>> = Vec::with_capacity(ca.len());
        let mut i: usize = 0;
        while i < ca.len()
            invariant
                ca.wf(),
                i <= ca@.len(),
                lengths@.len() == i,
                forall|j: int| 0 <= j < i ==> lengths@[j] == lengths_spec(ca@)[j],
                forall|j: int|
                    0 <= j < i && lengths@[j].is_some() ==> (#[trigger] lengths@[j]).unwrap().dtype_spec()
                        == ScalarType::UInt64,
            decreases ca@.len() - i,
        {
            if ca.is_valid(i) {
                let (start, end) = ca.bounds(i);
                lengths.push(Some(Value::UInt64((end - start) as u64)));
            } else {
                lengths.push(None);
            }
            i += 1;
        }
        assert(lengths@ =~= lengths_spec(ca@));
        Column { name: ca.name.clone(), dtype: ScalarType::UInt64, values: lengths }
    }

    /// The cell at position `idx` of every row. Position `0` is the first cell
    /// of a row and `-1` its last. A row in which `idx` addresses nothing, and
    /// a null row, give a null cell. This never fails.
    fn lst_get(&self, idx: i64) -> (res: Result<Column, ListError>)
        requires
            self.list().wf(),
        ensures
            res.is_ok(),
            res.unwrap().wf(),
            res.unwrap().dtype == self.list().inner,
            res.unwrap().name@ == self.list().name@,
            res.unwrap()@ == get_spec(self.list()@, idx as int),
    {
        let ca = self.as_list();
        let mut cells: Vec<Option<Value>> = Vec::with_capacity(ca.len());
        let mut i: usize = 0;
        while i < ca.len()
            invariant
                ca.wf(),
                i <= ca@.len(),
                cells@.len() == i,
                forall|j: int| 0 <= j < i ==> cells@[j] == get_spec(ca@, idx as int)[j],
                forall|j: int|
                    0 <= j < i && cells@[j].is_some() ==> (#[trigger] cells@[j]).unwrap().dtype_spec()
                        == ca.inner,
            decreases ca@.len() - i,
        {
            let mut cell: Option<Value> = None;
            if ca.is_valid(i) {
                let (start, end) = ca.bounds(i);
                if let Some(p) = negative_to_usize(idx, end - start) {
                    cell = duplicate_cell(&ca.values[start + p]);
                    assert(ca@[i as int].unwrap()[p as int] == ca.values@[start + p]);
                }
            }
            cells.push(cell);
            i += 1;
        }
        assert(cells@ =~= get_spec(ca@, idx as int));
        Ok(Column { name: ca.name.clone(), dtype: ca.inner, values: cells })
    }

    /// Joins the strings of every row into one string, with `separator`
    /// between neighbours and the word `null` in place of a null cell. A null
    /// row gives a null cell.
    ///
    /// Fails with a compute error exactly when the inner type is not `Utf8`.
    fn lst_join(&self, separator: &str) -> (res: Result<Column, ListError>)
        requires
            self.list().wf(),
        ensures
            self.list().inner != ScalarType::Utf8 ==> res == Err::<Column, ListError>(
                ListError::ComputeError(
                    (ComputeFailure::InvalidInnerType { inner: self.list().inner, required: ScalarType::Utf8 }),
                ),
            ),
            self.list().inner == ScalarType::Utf8 ==> {
                &&& res matches Ok(out)
                &&& out.wf()
                &&& out.dtype == ScalarType::Utf8
                &&& out.name@ == self.list().name@
                &&& out@.len() == self.list()@.len()
                &&& forall|i: int|
                    0 <= i < out@.len() ==> joined_cell(self.list()@[i], separator@, #[trigger] out@[i])
            },
    {
        let ca = self.as_list();
        if ca.inner != ScalarType::Utf8 {
            return Err(
                ListError::ComputeError(
                    ComputeFailure::InvalidInnerType { inner: ca.inner, required: ScalarType::Utf8 },
                ),
            );
        }
        let mut cells: Vec<Option<Value>> = Vec::with_capacity(ca.len());
        let mut rows = ca.amortized_iter();
        while rows.has_next()
            invariant
                rows.wf(),
                *rows.ca == *ca,
                cells@.len() == rows.position,
                forall|j: int| 0 <= j < cells@.len() ==> joined_cell(ca@[j], separator@, #[trigger] cells@[j]),
                forall|j: int|
                    0 <= j < cells@.len() && cells@[j].is_some() ==> (#[trigger] cells@[j]).unwrap().dtype_spec()
                        == ScalarType::Utf8,
            decreases ca@.len() - rows.position,
        {
            match rows.next() {
                Some(Some(row)) => {
                    cells.push(Some(Value::Utf8(join_range(ca, row.start, row.end, separator))));
                },
                _ => {
                    cells.push(None);
                },
            }
        }
        Ok(Column { name: ca.name.clone(), dtype: ScalarType::Utf8, values: cells })
    }

    /// Takes cells from every row by index.
    ///
    /// A flat integer index column is applied to every row in full. A list
    /// index column gives each row its own indices; a row that it has no
    /// index row for becomes null. Negative indices count from the end of
    /// the row, a null index gives a null cell, and a null row (on either
    /// side) gives a null row. An index outside its row gives a null cell if
    /// `null_on_oob` is set and is an error otherwise.
    fn lst_take(&self, idx: &AnyColumn, null_on_oob: bool) -> (res: Result<AnyColumn, ListError>)
        requires
            self.list().wf(),
            idx.wf(),
        ensures
            match take_failure(self.list()@, *idx, null_on_oob) {
                Some(e) => res == Err::<AnyColumn, ListError>(e),
                None => {
                    &&& res matches Ok(AnyColumn::List(out))
                    &&& out.wf()
                    &&& out.inner == self.list().inner
                    &&& out.name@ == self.list().name@
                    &&& out@ == take_rows(self.list()@, *idx)
                },
            },
    {
        let ca = self.as_list();
        let taken = match idx {
            AnyColumn::List(ix) => {
                if !ix.inner.is_integer() {
                    return Err(ListError::ComputeError(ComputeFailure::InvalidIndexType(ix.dtype())));
                }
                take_list(ca, ix, null_on_oob)
            },
            AnyColumn::Flat(ix) => {
                if !ix.dtype.is_integer() {
                    return Err(
                        ListError::ComputeError(ComputeFailure::InvalidIndexType(DataType::Scalar(ix.dtype))),
                    );
                }
                if ix.dtype.is_signed() && is_all_null(&ix.values) {
                    return Err(ListError::ComputeError(ComputeFailure::AllIndicesNull));
                }
                take_flat(ca, ix, null_on_oob)
            },
        };
        match taken {
            Ok(out) => Ok(AnyColumn::List(out)),
            Err(e) => Err(e),
        }
    }

    /// Appends to every row the matching row of each operand, in order.
    ///
    /// The inner type of the result is the common type of the receiver's
    /// inner type and the scalar types of all operands; the receiver and the
    /// operands are cast to it. A flat operand contributes one cell per row.
    /// An operand of one row contributes that row to every row of the result.
    /// A row of the result is null where the receiver's row or any operand's
    /// row is null.
    ///
    /// Fails with `SchemaMismatch` when a cast does not exist, and with
    /// `ShapeMismatch` when an operand is neither as long as the receiver nor
    /// of length one.
    fn lst_concat(&self, other: &[AnyColumn]) -> (res: Result<ListChunked, ListError>)
        requires
            self.list().wf(),
            forall|k: int| 0 <= k < other@.len() ==> (#[trigger] other@[k]).wf(),
        ensures
            match concat_spec(self.list(), other@) {
                Err(e) => res == Err::<ListChunked, ListError>(e),
                Ok((inner, rows)) => {
                    &&& res matches Ok(out)
                    &&& out.wf()
                    &&& out.inner == inner
                    &&& out.name@ == self.list().name@
                    &&& out@ == rows
                },
            },
    {
        let ca = self.as_list();
        let length = ca.len();
        let inner = resolve_inner_type(ca.inner, other);
        let ca = match ca.cast_inner(inner) {
            Ok(ca) => ca,
            Err(e) => {
                return Err(e);
            },
        };
        if all_unit_length(other) && length != 1 {
            concat_broadcast(&ca, other, inner)
        } else {
            concat_general(&ca, other, inner)
        }
    }

    /// The sum of every row. A null row, and a row without a non-null cell,
    /// has a null sum. Booleans are counted into unsigned 64-bit integers;
    /// integers wrap around at the width of their type; strings have no sum.
    /// Floats are summed by the outside sum, in an order that is not fixed:
    /// the sum of a row of floats is some float of their type.
    ///
    /// A column without a single null cell is summed without looking for
    /// nulls row by row.
    fn lst_sum(&self) -> (out: Column)
        requires
            self.list().wf(),
        ensures
            out.wf(),
            out.dtype == sum_dtype(self.list().inner),
            out.name@ == self.list().name@,
            sums_of(self.list()@, self.list().inner, out@),
            !self.list().inner.is_float_spec() ==> out@ == sum_spec(self.list()@, self.list().inner),
    {
        let ca = self.as_list();
        let null_free = !has_inner_nulls(ca);
        let mut cells: Vec<Option<Value>> = Vec::with_capacity(ca.len());
        let mut rows = ca.amortized_iter();
        while rows.has_next()
            invariant
                rows.wf(),
                *rows.ca == *ca,
                cells@.len() == rows.position,
                null_free ==> forall|j: int| 0 <= j < ca.values@.len() ==> ca.values@[j].is_some(),
                sums_of(ca@.subrange(0, cells@.len() as int), ca.inner, cells@),
                forall|j: int|
                    0 <= j < cells@.len() && cells@[j].is_some() ==> (#[trigger] cells@[j]).unwrap().dtype_spec()
                        == sum_dtype(ca.inner),
            decreases ca@.len() - rows.position,
        {
            let ghost before = cells@;
            match rows.next() {
                Some(Some(row)) => {
                    cells.push(sum_range(ca, row.start, row.end, null_free));
                },
                _ => {
                    cells.push(None);
                },
            }
            assert forall|j: int| 0 <= j < cells@.len() implies match ca@.subrange(0, cells@.len() as int)[j] {
                Some(row) => crate::reduce::is_sum_of(row, ca.inner, #[trigger] cells@[j]),
                None => cells@[j].is_none(),
            } by {
                if j < before.len() {
                    assert(ca@.subrange(0, before.len() as int)[j] == ca@[j]);
                    assert(cells@[j] == before[j]);
                }
            }
        }
        assert(ca@.subrange(0, ca@.len() as int) == ca@);
        assert(!ca.inner.is_float_spec() ==> cells@ =~= sum_spec(ca@, ca.inner));
        let dtype = match ca.inner {
            ScalarType::Boolean => ScalarType::UInt64,
            t => t,
        };
        Column { name: ca.name.clone(), dtype, values: cells }
    }

    /// The mean of every row of numbers or booleans, computed by the outside
    /// mean. A null row, a row without a non-null cell, and a row of strings
    /// has a null mean.
    ///
    /// The means are 64-bit floats. Only for a column of 32-bit floats that
    /// holds a null cell are they 32-bit floats. For every inner type but
    /// the 64-bit floats the cells of a row decide its mean; the mean of a
    /// row of 64-bit floats is some float, since the order in which the
    /// outside sum adds them is not fixed.
    fn lst_mean(&self) -> (out: Column)
        requires
            self.list().wf(),
        ensures
            out.wf(),
            out.name@ == self.list().name@,
            out.dtype == mean_dtype(narrows(self.list())),
            means_of(self.list()@, self.list().inner, narrows(self.list()), out@),
            self.list().inner != ScalarType::Float64 ==> out@ == mean_spec(
                self.list()@,
                self.list().inner,
                narrows(self.list()),
            ),
    {
        let ca = self.as_list();
        let narrow = ca.inner == ScalarType::Float32 && has_inner_nulls(ca);
        let dtype = if narrow {
            ScalarType::Float32
        } else {
            ScalarType::Float64
        };
        let mut cells: Vec<Option<Value>> = Vec::with_capacity(ca.len());
        let mut rows = ca.amortized_iter();
        while rows.has_next()
            invariant
                rows.wf(),
                *rows.ca == *ca,
                cells@.len() == rows.position,
                narrow == narrows(*ca),
                dtype == mean_dtype(narrow),
                means_of(ca@.subrange(0, cells@.len() as int), ca.inner, narrow, cells@),
                forall|j: int|
                    0 <= j < cells@.len() && cells@[j].is_some() ==> (#[trigger] cells@[j]).unwrap().dtype_spec()
                        == dtype,
            decreases ca@.len() - rows.position,
        {
            let ghost before = cells@;
            match rows.next() {
                Some(Some(row)) => {
                    cells.push(mean_range(ca, row.start, row.end, narrow));
                },
                _ => {
                    cells.push(None);
                },
            }
            assert forall|j: int| 0 <= j < cells@.len() implies match ca@.subrange(0, cells@.len() as int)[j] {
                Some(row) => crate::reduce::is_mean_of(row, ca.inner, narrow, #[trigger] cells@[j]),
                None => cells@[j].is_none(),
            } by {
                if j < before.len() {
                    assert(ca@.subrange(0, before.len() as int)[j] == ca@[j]);
                    assert(cells@[j] == before[j]);
                }
            }
        }
        assert(ca@.subrange(0, ca@.len() as int) == ca@);
        assert(ca.inner != ScalarType::Float64 ==> cells@ =~= mean_spec(ca@, ca.inner, narrow));
        Column { name: ca.name.clone(), dtype, values: cells }
    }

    /// The largest cell of every row. A null row, and a row without a
    /// non-null cell, gives null.
    ///
    /// Booleans and integers are compared here; floats and strings by the
    /// outside maximum.
    fn lst_max(&self) -> (out: Column)
        requires
            self.list().wf(),
        ensures
            out.wf(),
            out.dtype == self.list().inner,
            out.name@ == self.list().name@,
            out@ == extreme_spec(self.list()@, self.list().inner, true),
    {
        extremes(self.as_list(), true, false)
    }

    /// The least cell of every row. A null row, and a row without a non-null
    /// cell, gives null.
    ///
    /// Booleans and integers are compared here; floats and strings by the
    /// outside minimum.
    fn lst_min(&self) -> (out: Column)
        requires
            self.list().wf(),
        ensures
            out.wf(),
            out.dtype == self.list().inner,
            out.name@ == self.list().name@,
            out@ == extreme_spec(self.list()@, self.list().inner, false),
    {
        extremes(self.as_list(), false, false)
    }

    /// The position, counted from zero, of the least cell of every row, as
    /// an unsigned 64-bit integer; the first one where cells tie. A null
    /// row, and a row without a non-null cell, gives null.
    ///
    /// For floats and strings it is the first position that holds what the
    /// outside minimum finds: the same number, or the same text.
    fn lst_arg_min(&self) -> (out: Column)
        requires
            self.list().wf(),
        ensures
            out.wf(),
            out.dtype == ScalarType::UInt64,
            out.name@ == self.list().name@,
            out@ == arg_extreme_spec(self.list()@, self.list().inner, false),
    {
        extremes(self.as_list(), false, true)
    }

    /// The position, counted from zero, of the largest cell of every row, as
    /// an unsigned 64-bit integer; the first one where cells tie. A null
    /// row, and a row without a non-null cell, gives null.
    ///
    /// For floats and strings it is the first position that holds what the
    /// outside maximum finds: the same number, or the same text.
    fn lst_arg_max(&self) -> (out: Column)
        requires
            self.list().wf(),
        ensures
            out.wf(),
            out.dtype == ScalarType::UInt64,
            out.name@ == self.list().name@,
            out@ == arg_extreme_spec(self.list()@, self.list().inner, true),
    {
        extremes(self.as_list(), true, true)
    }

    /// Reverses every row. Null rows stay null.
    fn lst_reverse(&self) -> (out: ListChunked)
        requires
            self.list().wf(),
        ensures
            out.wf(),
            out.inner == self.list().inner,
            out.name@ == self.list().name@,
            out@ == reverse_rows(self.list()@),
    {
        let ca = self.as_list();
        let mut builder = ListBuilder::new(ca.inner, ca.get_values_size(), ca.len(), ca.name.as_str());
        let mut i: usize = 0;
        while i < ca.len()
            invariant
                ca.wf(),
                i <= ca@.len(),
                builder.wf(),
                builder.inner == ca.inner,
                builder.name@ == ca.name@,
                builder@ == reverse_rows(ca@).subrange(0, i as int),
            decreases ca@.len() - i,
        {
            let ghost before = builder@;
            if ca.is_valid(i) {
                let (start, end) = ca.bounds(i);
                let cells = reverse_range(&ca.values, start, end);
                proof {
                    lemma_conforms_subrange(ca.values@, ca.inner, start as int, end as int);
                }
                builder.append_row(&cells);
            } else {
                builder.append_null();
            }
            assert(builder@ == before.push(reverse_rows(ca@)[i as int]));
            assert(reverse_rows(ca@).subrange(0, i + 1) == before.push(reverse_rows(ca@)[i as int]));
            i += 1;
        }
        assert(reverse_rows(ca@).subrange(0, ca@.len() as int) == reverse_rows(ca@));
        builder.finish()
    }

    /// Moves the cells of every row by `periods` places towards its end, or
    /// towards its start for negative `periods`. A row keeps its length; the
    /// places that no cell moves into are null. Null rows stay null.
    fn lst_shift(&self, periods: i64) -> (out: ListChunked)
        requires
            self.list().wf(),
        ensures
            out.wf(),
            out.inner == self.list().inner,
            out.name@ == self.list().name@,
            out@ == shift_rows(self.list()@, periods as int),
    {
        let ca = self.as_list();
        let mut builder = ListBuilder::new(ca.inner, ca.get_values_size(), ca.len(), ca.name.as_str());
        let mut i: usize = 0;
        while i < ca.len()
            invariant
                ca.wf(),
                i <= ca@.len(),
                builder.wf(),
                builder.inner == ca.inner,
                builder.name@ == ca.name@,
                builder@ == shift_rows(ca@, periods as int).subrange(0, i as int),
            decreases ca@.len() - i,
        {
            let ghost before = builder@;
            if ca.is_valid(i) {
                let (start, end) = ca.bounds(i);
                let cells = shift_range(&ca.values, start, end, periods);
                proof {
                    lemma_conforms_subrange(ca.values@, ca.inner, start as int, end as int);
                }
                builder.append_row(&cells);
            } else {
                builder.append_null();
            }
            assert(builder@ == before.push(shift_rows(ca@, periods as int)[i as int]));
            assert(shift_rows(ca@, periods as int).subrange(0, i + 1) == before.push(
                shift_rows(ca@, periods as int)[i as int],
            ));
            i += 1;
        }
        assert(shift_rows(ca@, periods as int).subrange(0, ca@.len() as int) == shift_rows(ca@, periods as int));
        builder.finish()
    }

    /// Cuts every row down to at most `length` cells from `offset` on. A
    /// negative `offset` counts from the end of the row. Null rows stay null.
    fn lst_slice(&self, offset: i64, length: usize) -> (out: ListChunked)
        requires
            self.list().wf(),
        ensures
            out.wf(),
            out.inner == self.list().inner,
            out.name@ == self.list().name@,
            out@ == slice_rows(self.list()@, offset as int, length as nat),
            out.values@.len() <= self.list().values@.len(),
    {
        let ca = self.as_list();
        let mut builder = ListBuilder::new(ca.inner, ca.get_values_size(), ca.len(), ca.name.as_str());
        let mut i: usize = 0;
        while i < ca.len()
            invariant
                ca.wf(),
                i <= ca@.len(),
                builder.wf(),
                builder.inner == ca.inner,
                builder.name@ == ca.name@,
                builder@ == slice_rows(ca@, offset as int, length as nat).subrange(0, i as int),
                builder.values@.len() <= ca.offsets@[i as int],
            decreases ca@.len() - i,
        {
            let ghost before = builder@;
            if ca.is_valid(i) {
                let (start, end) = ca.bounds(i);
                let cells = slice_range(&ca.values, start, end, offset, length);
                proof {
                    lemma_conforms_subrange(ca.values@, ca.inner, start as int, end as int);
                }
                builder.append_row(&cells);
            } else {
                builder.append_null();
            }
            assert(builder@ == before.push(slice_rows(ca@, offset as int, length as nat)[i as int]));
            assert(slice_rows(ca@, offset as int, length as nat).subrange(0, i + 1) == before.push(
                slice_rows(ca@, offset as int, length as nat)[i as int],
            ));
            i += 1;
        }
        assert(slice_rows(ca@, offset as int, length as nat).subrange(0, ca@.len() as int) == slice_rows(
            ca@,
            offset as int,
            length as nat,
        ));
        builder.finish()
    }

    /// Sorts every row. Null rows stay null.
    ///
    /// Rows of booleans are sorted here, every other row by the outside
    /// sort. Every row keeps its cells and comes out in the order that
    /// `options` asks for: nulls at the end it names, and the other cells
    /// ascending or descending by `value_le`.
    fn lst_sort(&self, options: SortOptions) -> (out: ListChunked)
        requires
            self.list().wf(),
        ensures
            out.wf(),
            out.inner == self.list().inner,
            out.name@ == self.list().name@,
            out@ == sort_rows(self.list()@, self.list().inner, options),
            sorted_rows(self.list()@, out@, options),
    {
        let ca = self.as_list();
        let mut builder = ListBuilder::new(ca.inner, ca.get_values_size(), ca.len(), ca.name.as_str());
        let mut i: usize = 0;
        while i < ca.len()
            invariant
                ca.wf(),
                i <= ca@.len(),
                builder.wf(),
                builder.inner == ca.inner,
                builder.name@ == ca.name@,
                builder@ == sort_rows(ca@, ca.inner, options).subrange(0, i as int),
                forall|j: int|
                    0 <= j < i ==> match (#[trigger] ca@[j], builder@[j]) {
                        (Some(a), Some(b)) => sorted_from(a, b, options),
                        (None, None) => true,
                        _ => false,
                    },
            decreases ca@.len() - i,
        {
            let ghost before = builder@;
            if ca.is_valid(i) {
                let (start, end) = ca.bounds(i);
                let cells = match ca.inner {
                    ScalarType::Boolean => sort_bools(
                        &ca.values,
                        start,
                        end,
                        options.descending,
                        options.nulls_last,
                    ),
                    _ => {
                        let row = copy_range(&ca.values, start, end);
                        proof {
                            lemma_conforms_subrange(ca.values@, ca.inner, start as int, end as int);
                        }
                        sort_cells(&row, ca.inner, options.descending, options.nulls_last)
                    },
                };
                builder.append_row(&cells);
            } else {
                builder.append_null();
            }
            assert(builder@ == before.push(sort_rows(ca@, ca.inner, options)[i as int]));
            assert(sort_rows(ca@, ca.inner, options).subrange(0, i + 1) == before.push(
                sort_rows(ca@, ca.inner, options)[i as int],
            ));
            assert(forall|j: int| 0 <= j < i ==> builder@[j] == before[j]);
            i += 1;
        }
        assert(sort_rows(ca@, ca.inner, options).subrange(0, ca@.len() as int) == sort_rows(ca@, ca.inner, options));
        builder.finish()
    }

    /// Reduces every row to its distinct cells, in no promised order. Null
    /// rows stay null. This never fails.
    fn lst_unique(&self) -> (res: Result<ListChunked, ListError>)
        requires
            self.list().wf(),
        ensures
            res matches Ok(out) && {
                &&& out.wf()
                &&& out.inner == self.list().inner
                &&& out.name@ == self.list().name@
                &&& unique_rows(self.list()@, out@)
            },
    {
        let ca = self.as_list();
        let mut builder = ListBuilder::new(ca.inner, ca.get_values_size(), ca.len(), ca.name.as_str());
        let mut i: usize = 0;
        while i < ca.len()
            invariant
                *ca == self.list(),
                ca.wf(),
                i <= ca@.len(),
                builder.wf(),
                builder.inner == ca.inner,
                builder.name@ == ca.name@,
                builder@.len() == i,
                forall|j: int|
                    0 <= j < i ==> match (#[trigger] ca@[j], builder@[j]) {
                        (Some(a), Some(b)) => unique_from(a, b),
                        (None, None) => true,
                        _ => false,
                    },
            decreases ca@.len() - i,
        {
            let ghost before = builder@;
            if ca.is_valid(i) {
                let (start, end) = ca.bounds(i);
                let row = copy_range(&ca.values, start, end);
                proof {
                    lemma_conforms_subrange(ca.values@, ca.inner, start as int, end as int);
                }
                let outcome = unique_cells(&row, ca.inner);
                match append_outcome(&mut builder, &outcome, ca.inner) {
                    Ok(()) => {},
                    Err(e) => {
                        return Err(e);
                    },
                }
            } else {
                builder.append_null();
            }
            assert(forall|j: int| 0 <= j < i ==> builder@[j] == before[j]);
            i += 1;
        }
        Ok(builder.finish())
    }

    /// Reduces every row to its distinct cells; of equal cells the first
    /// stays, in its place. Null rows stay null. This never fails.
    fn lst_unique_stable(&self) -> (res: Result<ListChunked, ListError>)
        requires
            self.list().wf(),
        ensures
            res matches Ok(out) && {
                &&& out.wf()
                &&& out.inner == self.list().inner
                &&& out.name@ == self.list().name@
                &&& out@ == stable_unique_rows(self.list()@)
            },
    {
        let ca = self.as_list();
        let mut builder = ListBuilder::new(ca.inner, ca.get_values_size(), ca.len(), ca.name.as_str());
        let mut i: usize = 0;
        while i < ca.len()
            invariant
                *ca == self.list(),
                ca.wf(),
                i <= ca@.len(),
                builder.wf(),
                builder.inner == ca.inner,
                builder.name@ == ca.name@,
                builder@ == stable_unique_rows(ca@).subrange(0, i as int),
            decreases ca@.len() - i,
        {
            let ghost before = builder@;
            if ca.is_valid(i) {
                let (start, end) = ca.bounds(i);
                let row = copy_range(&ca.values, start, end);
                proof {
                    lemma_conforms_subrange(ca.values@, ca.inner, start as int, end as int);
                }
                let outcome = unique_stable_cells(&row, ca.inner);
                match append_outcome(&mut builder, &outcome, ca.inner) {
                    Ok(()) => {},
                    Err(e) => {
                        return Err(e);
                    },
                }
            } else {
                builder.append_null();
            }
            assert(builder@ == before.push(stable_unique_rows(ca@)[i as int]));
            assert(stable_unique_rows(ca@).subrange(0, i + 1) == before.push(stable_unique_rows(ca@)[i as int]));
            i += 1;
        }
        assert(stable_unique_rows(ca@).subrange(0, ca@.len() as int) == stable_unique_rows(ca@));
        Ok(builder.finish())
    }

    /// Replaces every cell of every row by its difference to the cell `n`
    /// places before it. Null rows stay null.
    ///
    /// The places at the start of a row that have no cell `n` places before
    /// them hold nulls, or leave the row if `null_behavior` says so.
    /// Differences of integers are taken here and wrap around at the width
    /// of their type; differences of floats are taken by the outside
    /// difference.
    ///
    /// Fails with a compute error on an inner type that is not numeric, and
    /// on a lag that is not positive when leading nulls are dropped. It also
    /// fails, naming the inner type, exactly where the outside difference
    /// refuses a row or gives cells of an unexpected type.
    fn lst_diff(&self, n: i64, null_behavior: NullBehavior) -> (res: Result<ListChunked, ListError>)
        requires
            self.list().wf(),
        ensures
            match diff_failure(self.list()@, self.list().inner, n, null_behavior) {
                Some(e) => res == Err::<ListChunked, ListError>(e),
                None => {
                    &&& res matches Ok(out)
                    &&& out.wf()
                    &&& out.inner == diff_dtype(self.list().inner, null_behavior)
                    &&& out.name@ == self.list().name@
                    &&& diff_rows(self.list()@, out@, self.list().inner, n, null_behavior)
                },
            },
    {
        let ca = self.as_list();
        if !ca.inner.is_numeric() {
            return Err(ListError::ComputeError(ComputeFailure::UnsupportedInnerType(ca.inner)));
        }
        let drop_nulls = match null_behavior {
            NullBehavior::Drop => true,
            NullBehavior::Ignore => false,
        };
        if drop_nulls && n <= 0 {
            return Err(ListError::ComputeError(ComputeFailure::NonPositiveLag(n)));
        }
        let lag = if n == i64::MIN {
            i64::MIN + 1
        } else {
            n
        };
        let outside = ca.inner.is_float() || (ca.inner == ScalarType::UInt64 && drop_nulls);
        let dtype = match ca.inner {
            ScalarType::UInt32 => ScalarType::Int64,
            ScalarType::UInt64 => if drop_nulls {
                ScalarType::Float64
            } else {
                ScalarType::Int64
            },
            t => t,
        };
        let mut builder = ListBuilder::new(dtype, ca.get_values_size(), ca.len(), ca.name.as_str());
        let mut i: usize = 0;
        while i < ca.len()
            invariant
                *ca == self.list(),
                ca.wf(),
                ca.inner.is_numeric_spec(),
                drop_nulls == (null_behavior == NullBehavior::Drop),
                drop_nulls ==> n > 0,
                lag == effective_lag(n),
                outside == diff_is_outside(ca.inner, null_behavior),
                dtype == diff_dtype(ca.inner, null_behavior),
                i <= ca@.len(),
                builder.wf(),
                builder.inner == dtype,
                builder.name@ == ca.name@,
                builder@.len() == i,
                forall|j: int|
                    0 <= j < i ==> match (#[trigger] ca@[j], builder@[j]) {
                        (Some(a), Some(b)) => diff_row(a, ca.inner, n, null_behavior) == Some(b),
                        (None, None) => true,
                        _ => false,
                    },
            decreases ca@.len() - i,
        {
            let ghost before = builder@;
            if ca.is_valid(i) {
                let (start, end) = ca.bounds(i);
                if !outside {
                    let cells = diff_range(&ca.values, start, end, ca.inner, n, null_behavior);
                    builder.append_row(&cells);
                } else if drop_nulls && n as u64 > (end - start) as u64 {
                    let empty: Vec<Option<Value>> = Vec::new();
                    assert(empty@ =~= Seq::empty());
                    builder.append_row(&empty);
                } else {
                    let row = copy_range(&ca.values, start, end);
                    proof {
                        lemma_conforms_subrange(ca.values@, ca.inner, start as int, end as int);
                    }
                    let outcome = match diff_cells(&row, ca.inner, lag, null_behavior) {
                        Some(cells) => if check_conforms(&cells, dtype) {
                            Some(cells)
                        } else {
                            None
                        },
                        None => None,
                    };
                    assert(outcome.is_none() ==> diff_row(ca@[i as int].unwrap(), ca.inner, n, null_behavior)
                        .is_none());
                    match append_outcome(&mut builder, &outcome, ca.inner) {
                        Ok(()) => {},
                        Err(e) => {
                            assert(ca@[i as int].is_some());
                            return Err(e);
                        },
                    }
                }
            } else {
                builder.append_null();
            }
            assert(forall|j: int| 0 <= j < i ==> builder@[j] == before[j]);
            i += 1;
        }
        Ok(builder.finish())
    }
}

impl ListNameSpaceImpl for ListChunked {

}

} // verus!
