use vstd::prelude::*;
use crate::column::Column;
use crate::datatypes::{ComputeFailure, DataType, ListError, Value};
use crate::index::{some_out_of_bounds, take_series, take_spec};
use crate::list::{AnyColumn, ListBuilder, ListChunked, Row};

verus! {

/// Every cell is null. This holds of an empty buffer too.
pub open spec fn all_null(cells: Seq<Option<Value>>) -> bool {
    forall|i: int| 0 <= i < cells.len() ==> cells[i].is_none()
}

/// Each non-null row, reduced to the cells that the one index column
/// addresses in it.
pub open spec fn take_flat_rows(rows: Seq<Row>, idx: Seq<Option<Value>>) -> Seq<Row> {
    Seq::new(
        rows.len(),
        |i: int|
            match rows[i] {
                Some(row) => Some(take_spec(row, idx)),
                None => None,
            },
    )
}

/// The index row that belongs to row `i`: a null row where the index column
/// has no row `i`.
pub open spec fn index_row(idx: Seq<Row>, i: int) -> Row {
    if i < idx.len() {
        idx[i]
    } else {
        None
    }
}

/// Each row, reduced to the cells that the index row beside it addresses. A
/// row is null where it or its index row is null, and where the index
/// column has no row beside it.
pub open spec fn take_list_rows(rows: Seq<Row>, idx: Seq<Row>) -> Seq<Row> {
    Seq::new(
        rows.len(),
        |i: int|
            match (rows[i], index_row(idx, i)) {
                (Some(row), Some(ix)) => Some(take_spec(row, ix)),
                _ => None,
            },
    )
}

/// Some non-null row is too short for some non-null index of the one index
/// column.
pub open spec fn flat_out_of_bounds(rows: Seq<Row>, idx: Seq<Option<Value>>) -> bool {
    exists|i: int|
        0 <= i < rows.len() && (#[trigger] rows[i]).is_some() && some_out_of_bounds(idx, rows[i].unwrap().len())
}

/// Some non-null row is too short for some non-null index of the index row
/// beside it.
pub open spec fn list_out_of_bounds(rows: Seq<Row>, idx: Seq<Row>) -> bool {
    exists|i: int|
        0 <= i < rows.len() && i < idx.len() && (#[trigger] rows[i]).is_some() && idx[i].is_some()
            && some_out_of_bounds(idx[i].unwrap(), rows[i].unwrap().len())
}

/// The error of a take, if it has one.
///
/// The index type is checked first: it must be an integer type, or a list of
/// one. A flat signed index column without a single non-null index is refused
/// next. Last, under the strict policy, an index outside its row is an error.
pub open spec fn take_failure(rows: Seq<Row>, idx: AnyColumn, null_on_oob: bool) -> Option<ListError> {
    match idx {
        AnyColumn::Flat(ix) => if !ix.dtype.is_integer() {
            Some(ListError::ComputeError(ComputeFailure::InvalidIndexType(DataType::Scalar(ix.dtype))))
        } else if ix.dtype.is_signed() && all_null(ix@) {
            Some(ListError::ComputeError(ComputeFailure::AllIndicesNull))
        } else if !null_on_oob && flat_out_of_bounds(rows, ix@) {
            Some(ListError::ComputeError(ComputeFailure::OutOfBounds))
        } else {
            None
        },
        AnyColumn::List(ix) => if !ix.inner.is_integer() {
            Some(
                ListError::ComputeError(
                    ComputeFailure::InvalidIndexType(DataType::List(Box::new(DataType::Scalar(ix.inner)))),
                ),
            )
        } else if !null_on_oob && list_out_of_bounds(rows, ix@) {
            Some(ListError::ComputeError(ComputeFailure::OutOfBounds))
        } else {
            None
        },
    }
}

/// The rows of a successful take.
pub open spec fn take_rows(rows: Seq<Row>, idx: AnyColumn) -> Seq<Row> {
    match idx {
        AnyColumn::Flat(ix) => take_flat_rows(rows, ix@),
        AnyColumn::List(ix) => take_list_rows(rows, ix@),
    }
}

/// Whether every cell of a buffer is null.
pub fn is_all_null(cells: &Vec<Option<Value>>) -> (r: bool)
    ensures
        r == all_null(cells@),
{
    let mut i: usize = 0;
    while i < cells.len()
        invariant
            i <= cells@.len(),
            forall|j: int| 0 <= j < i ==> cells@[j].is_none(),
        decreases cells@.len() - i,
    {
        if cells[i].is_some() {
            return false;
        }
        i += 1;
    }
    true
}

/// Takes from every non-null row the cells that one integer index column
/// addresses.
pub fn take_flat(ca: &ListChunked, idx: &Column, null_on_oob: bool) -> (res: Result<ListChunked, ListError>)
    requires
        ca.wf(),
        idx.wf(),
        idx.dtype.is_integer(),
    ensures
        res.is_ok() <==> (null_on_oob || !flat_out_of_bounds(ca@, idx@)),
        res matches Err(e) ==> e == ListError::ComputeError(ComputeFailure::OutOfBounds),
        res matches Ok(out) ==> {
            &&& out.wf()
            &&& out.inner == ca.inner
            &&& out.name@ == ca.name@
            &&& out@ == take_flat_rows(ca@, idx@)
        },
{
    let mut builder = ListBuilder::new(ca.inner, 0, ca.len(), ca.name.as_str());
    let mut i: usize = 0;
    while i < ca.len()
        invariant
            ca.wf(),
            idx.wf(),
            idx.dtype.is_integer(),
            i <= ca@.len(),
            builder.wf(),
            builder.inner == ca.inner,
            builder.name@ == ca.name@,
            builder@ == take_flat_rows(ca@, idx@).subrange(0, i as int),
            null_on_oob || forall|j: int|
                0 <= j < i && (#[trigger] ca@[j]).is_some() ==> !some_out_of_bounds(idx@, ca@[j].unwrap().len()),
        decreases ca@.len() - i,
    {
        let ghost before = builder@;
        match ca.get(i) {
            Some(values) => {
                let row = Column { name: String::new(), dtype: ca.inner, values };
                match take_series(&row, idx, null_on_oob) {
                    Ok(out) => {
                        builder.append_row(&out.values);
                    },
                    Err(e) => {
                        assert(ca@[i as int].is_some());
                        return Err(e);
                    },
                }
            },
            None => {
                builder.append_null();
            },
        }
        assert(builder@ == before.push(take_flat_rows(ca@, idx@)[i as int]));
        assert(take_flat_rows(ca@, idx@).subrange(0, i + 1) == before.push(take_flat_rows(ca@, idx@)[i as int]));
        i += 1;
    }
    assert(take_flat_rows(ca@, idx@).subrange(0, ca@.len() as int) == take_flat_rows(ca@, idx@));
    Ok(builder.finish())
}

/// Takes from every row the cells that the index row beside it addresses.
/// Rows that the index column has no row for become null.
pub fn take_list(ca: &ListChunked, idx: &ListChunked, null_on_oob: bool) -> (res: Result<ListChunked, ListError>)
    requires
        ca.wf(),
        idx.wf(),
        idx.inner.is_integer(),
    ensures
        res.is_ok() <==> (null_on_oob || !list_out_of_bounds(ca@, idx@)),
        res matches Err(e) ==> e == ListError::ComputeError(ComputeFailure::OutOfBounds),
        res matches Ok(out) ==> {
            &&& out.wf()
            &&& out.inner == ca.inner
            &&& out.name@ == ca.name@
            &&& out@ == take_list_rows(ca@, idx@)
        },
{
    let mut builder = ListBuilder::new(ca.inner, 0, ca.len(), ca.name.as_str());
    let mut i: usize = 0;
    while i < ca.len()
        invariant
            ca.wf(),
            idx.wf(),
            idx.inner.is_integer(),
            i <= ca@.len(),
            builder.wf(),
            builder.inner == ca.inner,
            builder.name@ == ca.name@,
            builder@ == take_list_rows(ca@, idx@).subrange(0, i as int),
            null_on_oob || forall|j: int|
                0 <= j < i && j < idx@.len() && (#[trigger] ca@[j]).is_some() && idx@[j].is_some()
                    ==> !some_out_of_bounds(idx@[j].unwrap(), ca@[j].unwrap().len()),
        decreases ca@.len() - i,
    {
        let ghost before = builder@;
        let indices = if i < idx.len() {
            idx.get(i)
        } else {
            None
        };
        match (ca.get(i), indices) {
            (Some(values), Some(indices)) => {
                let row = Column { name: String::new(), dtype: ca.inner, values };
                let ix = Column { name: String::new(), dtype: idx.inner, values: indices };
                match take_series(&row, &ix, null_on_oob) {
                    Ok(out) => {
                        builder.append_row(&out.values);
                    },
                    Err(e) => {
                        assert(ca@[i as int].is_some());
                        return Err(e);
                    },
                }
            },
            _ => {
                builder.append_null();
            },
        }
        assert(builder@ == before.push(take_list_rows(ca@, idx@)[i as int]));
        assert(take_list_rows(ca@, idx@).subrange(0, i + 1) == before.push(take_list_rows(ca@, idx@)[i as int]));
        i += 1;
    }
    assert(take_list_rows(ca@, idx@).subrange(0, ca@.len() as int) == take_list_rows(ca@, idx@));
    Ok(builder.finish())
}

} // verus!
