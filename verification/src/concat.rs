use vstd::prelude::*;
use crate::datatypes::{conforms, DataType, ListError, ScalarType, Value};
use crate::list::{unit_rows, view_row, view_rows, AnyColumn, ListBuilder, ListChunked, Row};
use crate::outside::{cast_rows, cast_spec};
use crate::supertype::{get_scalar_supertype, scalar_supertype};

verus! {

/// The inner type of a concatenation: the receiver's inner type, merged from
/// left to right with the scalar type of every operand.
pub open spec fn resolve_inner(acc: ScalarType, others: Seq<AnyColumn>) -> ScalarType
    decreases others.len(),
{
    if others.len() == 0 {
        acc
    } else {
        scalar_supertype(resolve_inner(acc, others.drop_last()), others.last().leaf_spec())
    }
}

/// Computes the inner type of a concatenation.
pub fn resolve_inner_type(inner: ScalarType, others: &[AnyColumn]) -> (res: ScalarType)
    ensures
        res == resolve_inner(inner, others@),
{
    let mut acc = inner;
    let mut k: usize = 0;
    assert(others@.subrange(0, 0) =~= Seq::empty());
    while k < others.len()
        invariant
            k <= others@.len(),
            acc == resolve_inner(inner, others@.subrange(0, k as int)),
        decreases others@.len() - k,
    {
        assert(others@.subrange(0, k + 1).drop_last() == others@.subrange(0, k as int));
        acc = get_scalar_supertype(acc, others[k].leaf());
        k += 1;
    }
    assert(others@.subrange(0, others@.len() as int) == others@);
    acc
}

/// The rows of an operand once its cells are cast to `inner` and, if it is a
/// flat column, each cell is wrapped into a row of its own. `None` where the
/// cast does not exist.
pub open spec fn coerced(op: AnyColumn, inner: ScalarType) -> Option<Seq<Row>> {
    match op {
        AnyColumn::Flat(c) => match cast_spec(c@, c.dtype, inner) {
            Some(cells) => Some(unit_rows(cells)),
            None => None,
        },
        AnyColumn::List(l) => cast_rows(l, inner),
    }
}

/// One operand made ready for concatenation with a receiver of `length` rows.
///
/// An operand whose cells cannot be cast is a `SchemaMismatch`. One that is
/// neither as long as the receiver nor of length one is a `ShapeMismatch`.
pub open spec fn coerce_one(op: AnyColumn, inner: ScalarType, length: usize) -> Result<Seq<Row>, ListError> {
    match coerced(op, inner) {
        None => Err(
            ListError::SchemaMismatch {
                got: op.dtype_spec(),
                expected: DataType::List(Box::new(DataType::Scalar(inner))),
            },
        ),
        Some(rows) => if rows.len() != length && rows.len() != 1 {
            Err(ListError::ShapeMismatch { len: rows.len() as usize, expected_len: length })
        } else {
            Ok(rows)
        },
    }
}

/// All operands made ready, in order; the error of the first that fails.
pub open spec fn coerce_all(others: Seq<AnyColumn>, inner: ScalarType, length: usize) -> Result<
    Seq<Seq<Row>>,
    ListError,
>
    decreases others.len(),
{
    if others.len() == 0 {
        Ok(Seq::empty())
    } else {
        match coerce_all(others.drop_last(), inner, length) {
            Err(e) => Err(e),
            Ok(done) => match coerce_one(others.last(), inner, length) {
                Err(e) => Err(e),
                Ok(rows) => Ok(done.push(rows)),
            },
        }
    }
}

/// A column of one row repeated to `length` rows; a column of `length` rows
/// as it is.
pub open spec fn broadcast_rows(rows: Seq<Row>, length: usize) -> Seq<Row> {
    if rows.len() == length {
        rows
    } else {
        Seq::new(length as nat, |i: int| rows[0])
    }
}

/// Makes one operand ready for concatenation: casts its cells to `inner`,
/// wraps a flat column into unit rows, checks its length against the
/// receiver's, and repeats a single row `length` times if broadcasting is
/// asked for.
pub fn coerce(op: &AnyColumn, inner: ScalarType, length: usize, allow_broadcast: bool) -> (res: Result<
    ListChunked,
    ListError,
>)
    requires
        op.wf(),
    ensures
        match coerce_one(*op, inner, length) {
            Err(e) => res == Err::<ListChunked, ListError>(e),
            Ok(rows) => {
                &&& res matches Ok(out)
                &&& out.wf()
                &&& out.inner == inner
                &&& rows.len() == op.len_spec()
                &&& out@ == if allow_broadcast {
                    broadcast_rows(rows, length)
                } else {
                    rows
                }
            },
        },
{
    let list = match op {
        AnyColumn::Flat(c) => match c.cast(inner) {
            Ok(cast) => ListChunked::unit_list(&cast),
            Err(_) => {
                return Err(
                    ListError::SchemaMismatch {
                        got: op.dtype(),
                        expected: DataType::List(Box::new(DataType::Scalar(inner))),
                    },
                );
            },
        },
        AnyColumn::List(l) => match l.cast_inner(inner) {
            Ok(cast) => cast,
            Err(_) => {
                return Err(
                    ListError::SchemaMismatch {
                        got: op.dtype(),
                        expected: DataType::List(Box::new(DataType::Scalar(inner))),
                    },
                );
            },
        },
    };
    if list.len() != length {
        if list.len() != 1 {
            return Err(ListError::ShapeMismatch { len: list.len(), expected_len: length });
        }
        if allow_broadcast {
            let out = list.new_from_index(0, length);
            assert(out@ =~= broadcast_rows(list@, length));
            return Ok(out);
        }
    }
    Ok(list)
}

/// Makes every operand ready for concatenation, in order, and stops at the
/// first that fails.
pub fn cast_rhs(others: &[AnyColumn], inner: ScalarType, length: usize, allow_broadcast: bool) -> (res:
    Result<Vec<ListChunked>, ListError>)
    requires
        forall|k: int| 0 <= k < others@.len() ==> (#[trigger] others@[k]).wf(),
    ensures
        match coerce_all(others@, inner, length) {
            Err(e) => res == Err::<Vec<ListChunked>, ListError>(e),
            Ok(rows) => {
                &&& res matches Ok(out)
                &&& out@.len() == others@.len()
                &&& rows.len() == others@.len()
                &&& forall|k: int|
                    0 <= k < out@.len() ==> {
                        &&& (#[trigger] out@[k]).wf()
                        &&& out@[k].inner == inner
                        &&& rows[k].len() == others@[k].len_spec()
                        &&& out@[k]@ == if allow_broadcast {
                            broadcast_rows(rows[k], length)
                        } else {
                            rows[k]
                        }
                    }
            },
        },
{
    let mut out: Vec<ListChunked> = Vec::with_capacity(others.len());
    let mut k: usize = 0;
    while k < others.len()
        invariant
            forall|k: int| 0 <= k < others@.len() ==> (#[trigger] others@[k]).wf(),
            k <= others@.len(),
            out@.len() == k,
            coerce_all(others@.subrange(0, k as int), inner, length) is Ok,
            coerce_all(others@.subrange(0, k as int), inner, length).unwrap().len() == k,
            forall|j: int|
                0 <= j < k ==> {
                    let rows = coerce_all(others@.subrange(0, k as int), inner, length).unwrap();
                    &&& (#[trigger] out@[j]).wf()
                    &&& out@[j].inner == inner
                    &&& rows[j].len() == others@[j].len_spec()
                    &&& out@[j]@ == if allow_broadcast {
                        broadcast_rows(rows[j], length)
                    } else {
                        rows[j]
                    }
                },
        decreases others@.len() - k,
    {
        proof {
            let next = others@.subrange(0, k + 1);
            assert(next.drop_last() == others@.subrange(0, k as int));
            assert(next.last() == others@[k as int]);
        }
        match coerce(&others[k], inner, length, allow_broadcast) {
            Ok(list) => {
                out.push(list);
            },
            Err(e) => {
                proof {
                    lemma_coerce_all_prefix_error(others@, k + 1, inner, length);
                }
                return Err(e);
            },
        }
        k += 1;
    }
    assert(others@.subrange(0, others@.len() as int) == others@);
    Ok(out)
}

/// An error among the first `k` operands is the error of them all.
pub proof fn lemma_coerce_all_prefix_error(others: Seq<AnyColumn>, k: int, inner: ScalarType, length: usize)
    requires
        0 <= k <= others.len(),
        coerce_all(others.subrange(0, k), inner, length) is Err,
    ensures
        coerce_all(others, inner, length) == coerce_all(others.subrange(0, k), inner, length),
    decreases others.len() - k,
{
    if k < others.len() {
        let next = others.subrange(0, k + 1);
        assert(next.drop_last() == others.subrange(0, k));
        lemma_coerce_all_prefix_error(others, k + 1, inner, length);
    } else {
        assert(others.subrange(0, k) == others);
    }
}

/// A row with further rows appended in order; null as soon as the row or one
/// of the appended rows is null.
pub open spec fn concat_row(row: Row, picked: Seq<Row>) -> Row
    decreases picked.len(),
{
    if picked.len() == 0 {
        row
    } else {
        match (concat_row(row, picked.drop_last()), picked.last()) {
            (Some(a), Some(b)) => Some(a + b),
            _ => None,
        }
    }
}

/// The row that each operand contributes to row `i` of the result: its own
/// row `i` if it is as long as the receiver, and its only row otherwise.
pub open spec fn picked_rows(ops: Seq<Seq<Row>>, i: int, length: nat) -> Seq<Row> {
    Seq::new(
        ops.len(),
        |k: int|
            if ops[k].len() == length {
                ops[k][i]
            } else {
                ops[k][0]
            },
    )
}

/// The rows of a concatenation of a receiver with operands that are ready.
pub open spec fn concat_rows(recv: Seq<Row>, ops: Seq<Seq<Row>>) -> Seq<Row> {
    Seq::new(recv.len(), |i: int| concat_row(recv[i], picked_rows(ops, i, recv.len())))
}

/// What a concatenation returns: the inner type and the rows, or the error.
///
/// The inner type is the common type of all inner types. The receiver is
/// cast to it, then every operand is made ready in order, and the first
/// failure is the error.
pub open spec fn concat_spec(ca: ListChunked, others: Seq<AnyColumn>) -> Result<(ScalarType, Seq<Row>), ListError> {
    let inner = resolve_inner(ca.inner, others);
    match cast_rows(ca, inner) {
        None => Err(
            ListError::SchemaMismatch {
                got: DataType::List(Box::new(DataType::Scalar(ca.inner))),
                expected: DataType::List(Box::new(DataType::Scalar(inner))),
            },
        ),
        Some(recv) => match coerce_all(others, inner, recv.len() as usize) {
            Err(e) => Err(e),
            Ok(ops) => Ok((inner, concat_rows(recv, ops))),
        },
    }
}

/// A null row stays null whatever is appended.
pub proof fn lemma_concat_row_null(picked: Seq<Row>)
    ensures
        concat_row(None, picked).is_none(),
    decreases picked.len(),
{
    if picked.len() > 0 {
        lemma_concat_row_null(picked.drop_last());
    }
}

/// A null among the appended rows makes the result null.
pub proof fn lemma_concat_row_null_operand(row: Row, picked: Seq<Row>, k: int)
    requires
        0 <= k < picked.len(),
        picked[k].is_none(),
    ensures
        concat_row(row, picked).is_none(),
    decreases picked.len(),
{
    if k < picked.len() - 1 {
        lemma_concat_row_null_operand(row, picked.drop_last(), k);
    }
}

/// A copy of `row` with the picked rows appended in order, or `None` if one
/// of them is null.
pub fn append_rows(row: &Vec<Option<Value>>, picked: &Vec<Option<Vec<Option<Value>>>>, inner: ScalarType) -> (r:
    Option<Vec<Option<Value>>>)
    requires
        conforms(row@, inner),
        forall|k: int|
            0 <= k < picked@.len() && picked@[k].is_some() ==> conforms((#[trigger] picked@[k]).unwrap()@, inner),
    ensures
        match concat_row(Some(row@), view_rows(picked@)) {
            Some(cells) => r.is_some() && r.unwrap()@ == cells,
            None => r.is_none(),
        },
        r.is_some() ==> conforms(r.unwrap()@, inner),
{
    let ghost start: Row = Some(row@);
    let mut acc = crate::column::duplicate_cells(row);
    let mut k: usize = 0;
    while k < picked.len()
        invariant
            k <= picked@.len(),
            forall|k: int|
                0 <= k < picked@.len() && picked@[k].is_some() ==> conforms(
                    (#[trigger] picked@[k]).unwrap()@,
                    inner,
                ),
            start == Some(row@),
            concat_row(start, view_rows(picked@).subrange(0, k as int)) == Some(acc@),
            conforms(acc@, inner),
        decreases picked@.len() - k,
    {
        proof {
            let next = view_rows(picked@).subrange(0, k + 1);
            assert(next.drop_last() == view_rows(picked@).subrange(0, k as int));
            assert(next.last() == view_rows(picked@)[k as int]);
        }
        match &picked[k] {
            Some(cells) => {
                let ghost before = acc@;
                let mut extra = crate::column::duplicate_cells(cells);
                acc.append(&mut extra);
                assert(acc@ == before + cells@);
                assert(picked@[k as int].is_some());
                assert forall|j: int| 0 <= j < acc@.len() && acc@[j].is_some() implies (
                #[trigger] acc@[j]).unwrap().dtype_spec()
                    == inner by {
                    if j < before.len() {
                        assert(acc@[j] == before[j]);
                    } else {
                        assert(acc@[j] == cells@[j - before.len()]);
                    }
                }
            },
            None => {
                proof {
                    assert(view_rows(picked@)[k as int].is_none());
                    lemma_concat_row_null_operand(start, view_rows(picked@), k as int);
                }
                return None;
            },
        }
        k += 1;
    }
    assert(view_rows(picked@).subrange(0, picked@.len() as int) == view_rows(picked@));
    Some(acc)
}

/// Row `i` of every column, in order.
pub open spec fn rows_at(columns: Seq<ListChunked>, i: int) -> Seq<Row> {
    Seq::new(columns.len(), |k: int| columns[k]@[i])
}

/// Copies row `i` out of every column.
pub fn pick_rows(columns: &Vec<ListChunked>, i: usize, inner: ScalarType) -> (picked: Vec<Option<Vec<Option<Value>>>>)
    requires
        forall|k: int|
            0 <= k < columns@.len() ==> (#[trigger] columns@[k]).wf() && columns@[k].inner == inner && i
                < columns@[k]@.len(),
    ensures
        view_rows(picked@) == rows_at(columns@, i as int),
        forall|k: int|
            0 <= k < picked@.len() && picked@[k].is_some() ==> conforms((#[trigger] picked@[k]).unwrap()@, inner),
{
    let mut picked: Vec<Option<Vec<Option<Value>>>> = Vec::with_capacity(columns.len());
    let mut k: usize = 0;
    while k < columns.len()
        invariant
            forall|k: int|
                0 <= k < columns@.len() ==> (#[trigger] columns@[k]).wf() && columns@[k].inner == inner && i
                    < columns@[k]@.len(),
            k <= columns@.len(),
            picked@.len() == k,
            forall|j: int| 0 <= j < k ==> view_row(#[trigger] picked@[j]) == columns@[j]@[i as int],
            forall|j: int|
                0 <= j < k && picked@[j].is_some() ==> conforms((#[trigger] picked@[j]).unwrap()@, inner),
        decreases columns@.len() - k,
    {
        assert(columns@[k as int].wf());
        let row = columns[k].get(i);
        assert(view_row(row) == columns@[k as int]@[i as int]);
        picked.push(row);
        k += 1;
    }
    assert(view_rows(picked@) =~= rows_at(columns@, i as int));
    picked
}

/// Whether some picked row is null.
pub fn has_null_row(picked: &Vec<Option<Vec<Option<Value>>>>) -> (r: bool)
    ensures
        r == (exists|k: int| 0 <= k < picked@.len() && picked@[k].is_none()),
{
    let mut k: usize = 0;
    while k < picked.len()
        invariant
            k <= picked@.len(),
            forall|j: int| 0 <= j < k ==> picked@[j].is_some(),
        decreases picked@.len() - k,
    {
        if picked[k].is_none() {
            return true;
        }
        k += 1;
    }
    false
}

/// An estimate of the cells of a concatenation: the cells of the receiver
/// and of all operands together, or the largest number there is if that is
/// less.
pub open spec fn size_estimate(first: nat, ops: Seq<ListChunked>) -> nat
    decreases ops.len(),
{
    if ops.len() == 0 {
        if first <= usize::MAX {
            first
        } else {
            usize::MAX as nat
        }
    } else {
        let sum = size_estimate(first, ops.drop_last()) + ops.last().values@.len();
        if sum <= usize::MAX {
            sum
        } else {
            usize::MAX as nat
        }
    }
}

/// Adds up the cells of the receiver and of all operands, to size the
/// builder of the result.
pub fn estimate_size(first: usize, ops: &Vec<ListChunked>) -> (r: usize)
    requires
        forall|k: int| 0 <= k < ops@.len() ==> (#[trigger] ops@[k]).wf(),
    ensures
        r == size_estimate(first as nat, ops@),
{
    let mut sum = first;
    let mut k: usize = 0;
    assert(ops@.subrange(0, 0) =~= Seq::empty());
    while k < ops.len()
        invariant
            forall|k: int| 0 <= k < ops@.len() ==> (#[trigger] ops@[k]).wf(),
            k <= ops@.len(),
            sum == size_estimate(first as nat, ops@.subrange(0, k as int)),
        decreases ops@.len() - k,
    {
        assert(ops@.subrange(0, k + 1).drop_last() == ops@.subrange(0, k as int));
        assert(ops@[k as int].wf());
        let more = ops[k].get_values_size();
        sum = if sum <= usize::MAX - more {
            sum + more
        } else {
            usize::MAX
        };
        k += 1;
    }
    assert(ops@.subrange(0, ops@.len() as int) == ops@);
    sum
}

/// Whether every operand has exactly one row.
pub fn all_unit_length(others: &[AnyColumn]) -> (r: bool)
    ensures
        r == (forall|k: int| 0 <= k < others@.len() ==> (#[trigger] others@[k]).len_spec() == 1),
{
    let mut k: usize = 0;
    while k < others.len()
        invariant
            k <= others@.len(),
            forall|j: int| 0 <= j < k ==> (#[trigger] others@[j]).len_spec() == 1,
        decreases others@.len() - k,
    {
        if others[k].len() != 1 {
            return false;
        }
        k += 1;
    }
    true
}

/// Concatenates a receiver that is already cast with operands of one row
/// each, none of which is repeated in memory: the one row of each operand is
/// read once and appended to every row of the receiver. A null among these
/// rows makes every row of the result null.
pub fn concat_broadcast(recv: &ListChunked, others: &[AnyColumn], inner: ScalarType) -> (res: Result<
    ListChunked,
    ListError,
>)
    requires
        recv.wf(),
        recv.inner == inner,
        recv@.len() != 1,
        forall|k: int| 0 <= k < others@.len() ==> (#[trigger] others@[k]).wf() && others@[k].len_spec() == 1,
    ensures
        match coerce_all(others@, inner, recv@.len() as usize) {
            Err(e) => res == Err::<ListChunked, ListError>(e),
            Ok(ops) => {
                &&& res matches Ok(out)
                &&& out.wf()
                &&& out.inner == inner
                &&& out.name@ == recv.name@
                &&& out@ == concat_rows(recv@, ops)
            },
        },
{
    let length = recv.len();
    let ops = match cast_rhs(others, inner, length, false) {
        Ok(ops) => ops,
        Err(e) => {
            return Err(e);
        },
    };
    let ghost rows = coerce_all(others@, inner, length).unwrap();
    assert forall|k: int| 0 <= k < ops@.len() implies (#[trigger] ops@[k]).wf() && ops@[k].inner == inner && 0
        < ops@[k]@.len() by {
        assert(others@[k].len_spec() == 1);
    }
    let to_append = pick_rows(&ops, 0, inner);
    assert forall|i: int| 0 <= i < length implies view_rows(to_append@) == picked_rows(rows, i, length as nat) by {
        assert forall|k: int| 0 <= k < rows.len() implies view_rows(to_append@)[k] == picked_rows(
            rows,
            i,
            length as nat,
        )[k] by {
            assert(ops@[k].wf());
            assert(others@[k].len_spec() == 1);
        }
        assert(view_rows(to_append@) =~= picked_rows(rows, i, length as nat));
    }
    if has_null_row(&to_append) {
        let out = ListChunked::full_null_with_dtype(recv.name.as_str(), length, inner);
        proof {
            let k = choose|k: int| 0 <= k < to_append@.len() && to_append@[k].is_none();
            assert(view_rows(to_append@)[k].is_none());
            assert forall|i: int| 0 <= i < length implies out@[i] == concat_rows(recv@, rows)[i] by {
                lemma_concat_row_null_operand(recv@[i], picked_rows(rows, i, length as nat), k);
            }
            assert(out@ =~= concat_rows(recv@, rows));
        }
        return Ok(out);
    }
    let estimate = estimate_size(recv.get_values_size(), &ops);
    let mut builder = ListBuilder::new(inner, estimate, length, recv.name.as_str());
    let mut i: usize = 0;
    while i < length
        invariant
            recv.wf(),
            recv.inner == inner,
            length == recv@.len(),
            i <= length,
            builder.wf(),
            builder.inner == inner,
            builder.name@ == recv.name@,
            builder@ == concat_rows(recv@, rows).subrange(0, i as int),
            forall|i: int| 0 <= i < length ==> view_rows(to_append@) == picked_rows(rows, i, length as nat),
            forall|k: int|
                0 <= k < to_append@.len() && to_append@[k].is_some() ==> conforms(
                    (#[trigger] to_append@[k]).unwrap()@,
                    inner,
                ),
        decreases length - i,
    {
        let ghost before = builder@;
        match recv.get(i) {
            Some(row) => match append_rows(&row, &to_append, inner) {
                Some(cells) => {
                    builder.append_row(&cells);
                },
                None => {
                    builder.append_null();
                },
            },
            None => {
                proof {
                    lemma_concat_row_null(picked_rows(rows, i as int, length as nat));
                }
                builder.append_null();
            },
        }
        assert(builder@ == before.push(concat_rows(recv@, rows)[i as int]));
        assert(concat_rows(recv@, rows).subrange(0, i + 1) == before.push(concat_rows(recv@, rows)[i as int]));
        i += 1;
    }
    assert(concat_rows(recv@, rows).subrange(0, length as int) == concat_rows(recv@, rows));
    Ok(builder.finish())
}

/// Concatenates a receiver that is already cast with operands row by row. An
/// operand of one row is first repeated to the receiver's length. A row of
/// the result is null where the receiver's row or any operand's row is.
pub fn concat_general(recv: &ListChunked, others: &[AnyColumn], inner: ScalarType) -> (res: Result<
    ListChunked,
    ListError,
>)
    requires
        recv.wf(),
        recv.inner == inner,
        forall|k: int| 0 <= k < others@.len() ==> (#[trigger] others@[k]).wf(),
    ensures
        match coerce_all(others@, inner, recv@.len() as usize) {
            Err(e) => res == Err::<ListChunked, ListError>(e),
            Ok(ops) => {
                &&& res matches Ok(out)
                &&& out.wf()
                &&& out.inner == inner
                &&& out.name@ == recv.name@
                &&& out@ == concat_rows(recv@, ops)
            },
        },
{
    let length = recv.len();
    let ops = match cast_rhs(others, inner, length, true) {
        Ok(ops) => ops,
        Err(e) => {
            return Err(e);
        },
    };
    let ghost rows = coerce_all(others@, inner, length).unwrap();
    assert forall|k: int| 0 <= k < ops@.len() implies (#[trigger] ops@[k]).wf() && ops@[k].inner == inner
        && ops@[k]@.len() == length by {
        assert(ops@[k]@ == broadcast_rows(rows[k], length));
    }
    let estimate = estimate_size(recv.get_values_size(), &ops);
    let mut builder = ListBuilder::new(inner, estimate, length, recv.name.as_str());
    let mut i: usize = 0;
    while i < length
        invariant
            recv.wf(),
            recv.inner == inner,
            length == recv@.len(),
            i <= length,
            builder.wf(),
            builder.inner == inner,
            builder.name@ == recv.name@,
            builder@ == concat_rows(recv@, rows).subrange(0, i as int),
            rows.len() == ops@.len(),
            forall|k: int|
                0 <= k < ops@.len() ==> (#[trigger] ops@[k]).wf() && ops@[k].inner == inner && ops@[k]@.len()
                    == length && ops@[k]@ == broadcast_rows(rows[k], length),
        decreases length - i,
    {
        let ghost before = builder@;
        match recv.get(i) {
            Some(row) => {
                let picked = pick_rows(&ops, i, inner);
                proof {
                    assert forall|k: int| 0 <= k < rows.len() implies view_rows(picked@)[k] == picked_rows(
                        rows,
                        i as int,
                        length as nat,
                    )[k] by {
                        assert(ops@[k].wf());
                    }
                    assert(view_rows(picked@) =~= picked_rows(rows, i as int, length as nat));
                }
                match append_rows(&row, &picked, inner) {
                    Some(cells) => {
                        builder.append_row(&cells);
                    },
                    None => {
                        builder.append_null();
                    },
                }
            },
            None => {
                proof {
                    lemma_concat_row_null(picked_rows(rows, i as int, length as nat));
                }
                builder.append_null();
            },
        }
        assert(builder@ == before.push(concat_rows(recv@, rows)[i as int]));
        assert(concat_rows(recv@, rows).subrange(0, i + 1) == before.push(concat_rows(recv@, rows)[i as int]));
        i += 1;
    }
    assert(concat_rows(recv@, rows).subrange(0, length as int) == concat_rows(recv@, rows));
    Ok(builder.finish())
}

} // verus!
