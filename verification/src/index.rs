use vstd::prelude::*;
use crate::column::{null_count_of, Column};
use crate::datatypes::{duplicate_cell, ComputeFailure, DataType, ListError, ScalarType, Value};

verus! {

/// The position that `index` addresses in a row of `len` cells.
///
/// A non-negative index counts from the start of the row, a negative one from
/// its end. An index that falls outside the row addresses nothing.
pub open spec fn resolve(index: int, len: nat) -> Option<usize> {
    if 0 <= index < len {
        Some(index as usize)
    } else if index < 0 && len + index >= 0 {
        Some((len + index) as usize)
    } else {
        None
    }
}

/// The integer that an index cell holds; `None` for a cell of another type.
pub open spec fn index_of(v: Value) -> Option<int> {
    match v {
        Value::Int32(x) => Some(x as int),
        Value::Int64(x) => Some(x as int),
        Value::UInt32(x) => Some(x as int),
        Value::UInt64(x) => Some(x as int),
        _ => None,
    }
}

/// The position that an index cell addresses in a row of `len` cells: `None`
/// for a null cell, a cell that is no integer, and an index outside the row.
pub open spec fn normalized(cell: Option<Value>, len: nat) -> Option<usize> {
    match cell {
        Some(v) => match index_of(v) {
            Some(x) => resolve(x, len),
            None => None,
        },
        None => None,
    }
}

/// Whether a non-null cell of `idx` addresses nothing in a row of `len` cells.
pub open spec fn some_out_of_bounds(idx: Seq<Option<Value>>, len: nat) -> bool {
    exists|i: int| 0 <= i < idx.len() && (#[trigger] idx[i]).is_some() && normalized(idx[i], len).is_none()
}

/// The position that a signed index addresses in a row of `len` cells.
pub fn negative_to_usize(index: i64, len: usize) -> (r: Option<usize>)
    ensures
        r == resolve(index as int, len as nat),
{
    if index >= 0 {
        if (index as u64) < (len as u64) {
            Some(index as usize)
        } else {
            None
        }
    } else {
        let back: u64 = (-(index + 1)) as u64 + 1;
        if back > len as u64 {
            None
        } else {
            Some(len - back as usize)
        }
    }
}

/// The position that an unsigned index addresses in a row of `len` cells.
pub fn unsigned_to_usize(index: u64, len: usize) -> (r: Option<usize>)
    ensures
        r == resolve(index as int, len as nat),
{
    if index < len as u64 {
        Some(index as usize)
    } else {
        None
    }
}

/// Normalizes a column of signed indices against a row of `len` cells.
pub fn cast_signed_index_ca(idx: &Column, len: usize) -> (out: Vec<Option<usize>>)
    requires
        idx.wf(),
        idx.dtype.is_signed(),
    ensures
        out@.len() == idx@.len(),
        forall|i: int| 0 <= i < idx@.len() ==> out@[i] == normalized(idx@[i], len as nat),
{
    let mut out: Vec<Option<usize>> = Vec::with_capacity(idx.values.len());
    let mut i: usize = 0;
    while i < idx.values.len()
        invariant
            idx.wf(),
            idx.dtype.is_signed(),
            i <= idx@.len(),
            out@.len() == i,
            forall|j: int| 0 <= j < i ==> out@[j] == normalized(idx@[j], len as nat),
        decreases idx@.len() - i,
    {
        let position = match &idx.values[i] {
            Some(Value::Int32(x)) => negative_to_usize(*x as i64, len),
            Some(Value::Int64(x)) => negative_to_usize(*x, len),
            Some(_) => {
                assert(idx@[i as int].unwrap().dtype_spec() == idx.dtype);
                None
            },
            None => None,
        };
        out.push(position);
        i += 1;
    }
    out
}

/// Normalizes a column of unsigned indices against a row of `len` cells.
pub fn cast_unsigned_index_ca(idx: &Column, len: usize) -> (out: Vec<Option<usize>>)
    requires
        idx.wf(),
        idx.dtype.is_unsigned(),
    ensures
        out@.len() == idx@.len(),
        forall|i: int| 0 <= i < idx@.len() ==> out@[i] == normalized(idx@[i], len as nat),
{
    let mut out: Vec<Option<usize>> = Vec::with_capacity(idx.values.len());
    let mut i: usize = 0;
    while i < idx.values.len()
        invariant
            idx.wf(),
            idx.dtype.is_unsigned(),
            i <= idx@.len(),
            out@.len() == i,
            forall|j: int| 0 <= j < i ==> out@[j] == normalized(idx@[j], len as nat),
        decreases idx@.len() - i,
    {
        let position = match &idx.values[i] {
            Some(Value::UInt32(x)) => unsigned_to_usize(*x as u64, len),
            Some(Value::UInt64(x)) => unsigned_to_usize(*x, len),
            Some(_) => {
                assert(idx@[i as int].unwrap().dtype_spec() == idx.dtype);
                None
            },
            None => None,
        };
        out.push(position);
        i += 1;
    }
    out
}

/// How many entries of `positions` are null.
fn count_nulls(positions: &Vec<Option<usize>>) -> (n: usize)
    ensures
        n == null_count_of(positions@),
{
    let mut n: usize = 0;
    let mut i: usize = 0;
    while i < positions.len()
        invariant
            i <= positions@.len(),
            n == null_count_of(positions@.subrange(0, i as int)),
            n <= i,
        decreases positions@.len() - i,
    {
        assert(positions@.subrange(0, i + 1).drop_last() == positions@.subrange(0, i as int));
        if positions[i].is_none() {
            n += 1;
        }
        i += 1;
    }
    assert(positions@.subrange(0, positions@.len() as int) == positions@);
    n
}

/// Normalizing can only add nulls, and it adds none exactly when every
/// non-null index addresses a cell.
pub proof fn lemma_null_counts(idx: Seq<Option<Value>>, out: Seq<Option<usize>>, len: nat)
    requires
        out.len() == idx.len(),
        forall|i: int| 0 <= i < idx.len() ==> out[i] == normalized(idx[i], len),
    ensures
        null_count_of(idx) <= null_count_of(out),
        null_count_of(idx) == null_count_of(out) <==> !some_out_of_bounds(idx, len),
    decreases idx.len(),
{
    if idx.len() > 0 {
        let idx0 = idx.drop_last();
        let out0 = out.drop_last();
        lemma_null_counts(idx0, out0, len);
        let n = idx.len() - 1;
        if some_out_of_bounds(idx0, len) {
            let i = choose|i: int|
                0 <= i < idx0.len() && (#[trigger] idx0[i]).is_some() && normalized(idx0[i], len).is_none();
            assert(idx[i] == idx0[i]);
        }
        if some_out_of_bounds(idx, len) {
            let i = choose|i: int|
                0 <= i < idx.len() && (#[trigger] idx[i]).is_some() && normalized(idx[i], len).is_none();
            if i < n {
                assert(idx0[i] == idx[i]);
            }
        }
        assert(idx[n] == idx.last());
        assert(out[n] == out.last());
    }
}

/// Normalizes an integer index column against a row of `len` cells.
///
/// Under the lenient policy an index outside the row becomes null. Under the
/// strict policy it is an error, found by comparing the null counts before
/// and after.
pub fn cast_index(idx: &Column, len: usize, null_on_oob: bool) -> (res: Result<Vec<Option<usize>>, ListError>)
    requires
        idx.wf(),
        idx.dtype.is_integer(),
    ensures
        res.is_ok() <==> (null_on_oob || !some_out_of_bounds(idx@, len as nat)),
        res matches Ok(out) ==> {
            &&& out@.len() == idx@.len()
            &&& forall|i: int| 0 <= i < idx@.len() ==> out@[i] == normalized(idx@[i], len as nat)
        },
        res matches Err(e) ==> e == ListError::ComputeError(ComputeFailure::OutOfBounds),
{
    let idx_null_count = idx.null_count();
    let out = match idx.dtype {
        ScalarType::UInt32 | ScalarType::UInt64 => cast_unsigned_index_ca(idx, len),
        _ => cast_signed_index_ca(idx, len),
    };
    proof {
        lemma_null_counts(idx@, out@, len as nat);
    }
    if count_nulls(&out) == idx_null_count || null_on_oob {
        Ok(out)
    } else {
        Err(ListError::ComputeError(ComputeFailure::OutOfBounds))
    }
}

/// The cells of `cells` at `positions`; a null position gives a null cell.
pub open spec fn taken(cells: Seq<Option<Value>>, positions: Seq<Option<usize>>) -> Seq<Option<Value>> {
    Seq::new(
        positions.len(),
        |i: int|
            match positions[i] {
                Some(p) => cells[p as int],
                None => None,
            },
    )
}

/// What `take_series` returns on success: for each index cell, the cell of
/// `cells` that it addresses, and null where it addresses none.
pub open spec fn take_spec(cells: Seq<Option<Value>>, idx: Seq<Option<Value>>) -> Seq<Option<Value>> {
    Seq::new(
        idx.len(),
        |i: int|
            match normalized(idx[i], cells.len()) {
                Some(p) => cells[p as int],
                None => None,
            },
    )
}

/// Picks the cells at the given positions.
pub fn take(cells: &Vec<Option<Value>>, positions: &Vec<Option<usize>>) -> (out: Vec<Option<Value>>)
    requires
        forall|i: int|
            0 <= i < positions@.len() && positions@[i].is_some() ==> (#[trigger] positions@[i]).unwrap()
                < cells@.len(),
    ensures
        out@ == taken(cells@, positions@),
{
    let mut out: Vec<Option<Value>> = Vec::with_capacity(positions.len());
    let mut i: usize = 0;
    while i < positions.len()
        invariant
            i <= positions@.len(),
            forall|i: int|
                0 <= i < positions@.len() && positions@[i].is_some() ==> (#[trigger] positions@[i]).unwrap()
                    < cells@.len(),
            out@.len() == i,
            forall|j: int| 0 <= j < i ==> out@[j] == taken(cells@, positions@)[j],
        decreases positions@.len() - i,
    {
        let cell = match positions[i] {
            Some(p) => {
                assert(positions@[i as int].is_some());
                duplicate_cell(&cells[p])
            },
            None => None,
        };
        out.push(cell);
        i += 1;
    }
    assert(out@ =~= taken(cells@, positions@));
    out
}

/// Picks from `s` the cells that the index column `idx` addresses.
///
/// Indices may be signed or unsigned; negative ones count from the end. A null
/// index gives a null cell. An index outside `s` gives a null cell under the
/// lenient policy and an error under the strict one. An index column that is
/// not of an integer type is an error.
pub fn take_series(s: &Column, idx: &Column, null_on_oob: bool) -> (res: Result<Column, ListError>)
    requires
        s.wf(),
        idx.wf(),
    ensures
        match res {
            Ok(out) => {
                &&& idx.dtype.is_integer()
                &&& null_on_oob || !some_out_of_bounds(idx@, s@.len())
                &&& out.wf()
                &&& out.dtype == s.dtype
                &&& out.name@ == s.name@
                &&& out@ == take_spec(s@, idx@)
            },
            Err(e) => if !idx.dtype.is_integer() {
                e == ListError::ComputeError(
                    ComputeFailure::InvalidIndexType(DataType::Scalar(idx.dtype)),
                )
            } else {
                &&& e == ListError::ComputeError(ComputeFailure::OutOfBounds)
                &&& !null_on_oob
                &&& some_out_of_bounds(idx@, s@.len())
            },
        },
{
    if !idx.dtype.is_integer() {
        return Err(ListError::ComputeError(ComputeFailure::InvalidIndexType(DataType::Scalar(idx.dtype))));
    }
    let len = s.len();
    let positions = match cast_index(idx, len, null_on_oob) {
        Ok(p) => p,
        Err(e) => {
            return Err(e);
        },
    };
    let values = take(&s.values, &positions);
    assert(values@ =~= take_spec(s@, idx@));
    Ok(Column { name: s.name.clone(), dtype: s.dtype, values })
}

} // verus!
