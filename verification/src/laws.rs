use vstd::prelude::*;
use crate::concat::{
    broadcast_rows, coerce_all, concat_row, concat_rows, concat_spec, lemma_concat_row_null, picked_rows,
    resolve_inner,
};
use crate::outside::cast_rows;
use crate::datatypes::{conforms, ListError, ScalarType, Value};
use crate::join::joined_cell;
use crate::list::{rows_conform, AnyColumn, ListChunked, Row};
use crate::namespace::{diff_rows, get_spec, lengths_spec};
use crate::reduce::{arg_extreme_spec, extreme_spec, int_of, means_of, sums_of};
use crate::rowwise::{
    in_order, reverse_rows, shift_rows, slice_rows, sorted_cells, sorted_rows, stable_unique_rows, text_le,
    unique_rows, value_le, NullBehavior, SortOptions,
};
use crate::take::{take_flat_rows, take_list_rows};

verus! {

/// A well-formed list column keeps the layout of its buffers: one offset
/// more than rows, offsets that never decrease, and as many cells as lie
/// between the first and the last offset.
pub proof fn lemma_layout(ca: ListChunked)
    requires
        ca.wf(),
    ensures
        ca.offsets@.len() == ca@.len() + 1,
        forall|i: int, j: int| 0 <= i <= j <= ca@.len() ==> ca.offsets@[i] <= ca.offsets@[j],
        ca.values@.len() == ca.offsets@[ca@.len() as int] - ca.offsets@[0],
        rows_conform(ca@, ca.inner),
{
    assert forall|i: int| 0 <= i < ca@.len() && ca@[i].is_some() implies conforms(
        (#[trigger] ca@[i]).unwrap(),
        ca.inner,
    ) by {
        crate::rowwise::lemma_conforms_subrange(
            ca.values@,
            ca.inner,
            ca.offsets@[i] as int,
            ca.offsets@[i + 1] as int,
        );
    }
}

/// Every operation gives as many cells, or rows, as the receiver has rows.
pub proof fn lemma_length_is_kept(
    rows: Seq<Row>,
    inner: ScalarType,
    idx: int,
    largest: bool,
    periods: int,
    offset: int,
    length: nat,
    flat_idx: Seq<Option<Value>>,
    list_idx: Seq<Row>,
)
    ensures
        lengths_spec(rows).len() == rows.len(),
        get_spec(rows, idx).len() == rows.len(),
        extreme_spec(rows, inner, largest).len() == rows.len(),
        arg_extreme_spec(rows, inner, largest).len() == rows.len(),
        reverse_rows(rows).len() == rows.len(),
        shift_rows(rows, periods).len() == rows.len(),
        slice_rows(rows, offset, length).len() == rows.len(),
        stable_unique_rows(rows).len() == rows.len(),
        take_flat_rows(rows, flat_idx).len() == rows.len(),
        take_list_rows(rows, list_idx).len() == rows.len(),
{
}

/// Where a row of the receiver is null, the reductions give a null cell:
/// the length, the cell at an index, the sum, the mean, the extremes and
/// their positions.
pub proof fn lemma_null_row_reduces_to_null(
    rows: Seq<Row>,
    i: int,
    inner: ScalarType,
    idx: int,
    largest: bool,
    sums: Seq<Option<Value>>,
    means: Seq<Option<Value>>,
    narrow: bool,
)
    requires
        0 <= i < rows.len(),
        rows[i].is_none(),
        sums_of(rows, inner, sums),
        means_of(rows, inner, narrow, means),
    ensures
        lengths_spec(rows)[i].is_none(),
        get_spec(rows, idx)[i].is_none(),
        sums[i].is_none(),
        means[i].is_none(),
        extreme_spec(rows, inner, largest)[i].is_none(),
        arg_extreme_spec(rows, inner, largest)[i].is_none(),
{
}

/// Where a row of the receiver is null, the row-wise transforms give a null
/// row: reverse, shift, slice, sort, difference, and both ways of dropping
/// repeated cells.
pub proof fn lemma_null_row_stays_null(
    rows: Seq<Row>,
    i: int,
    periods: int,
    offset: int,
    length: nat,
    sorted: Seq<Row>,
    unique: Seq<Row>,
    differences: Seq<Row>,
    dtype: ScalarType,
    options: SortOptions,
    lag: i64,
    behavior: NullBehavior,
)
    requires
        0 <= i < rows.len(),
        rows[i].is_none(),
        sorted_rows(rows, sorted, options),
        unique_rows(rows, unique),
        diff_rows(rows, differences, dtype, lag, behavior),
    ensures
        differences[i].is_none(),
        reverse_rows(rows)[i].is_none(),
        shift_rows(rows, periods)[i].is_none(),
        slice_rows(rows, offset, length)[i].is_none(),
        stable_unique_rows(rows)[i].is_none(),
        sorted[i].is_none(),
        unique[i].is_none(),
{
}

/// Where a row of the receiver is null, a join gives a null cell and a take
/// gives a null row, whatever the separator and the indices are.
pub proof fn lemma_null_row_joins_and_takes_to_null(
    rows: Seq<Row>,
    i: int,
    separator: Seq<char>,
    cell: Option<Value>,
    flat_idx: Seq<Option<Value>>,
    list_idx: Seq<Row>,
)
    requires
        0 <= i < rows.len(),
        rows[i].is_none(),
        joined_cell(rows[i], separator, cell),
    ensures
        cell.is_none(),
        take_flat_rows(rows, flat_idx)[i].is_none(),
        take_list_rows(rows, list_idx)[i].is_none(),
{
}

/// Where a row of the receiver is null, a concatenation that succeeds gives
/// a null row, whatever the operands are.
pub proof fn lemma_null_row_concats_to_null(ca: ListChunked, others: Seq<AnyColumn>, i: int)
    requires
        ca.wf(),
        0 <= i < ca@.len(),
        ca@[i].is_none(),
        concat_spec(ca, others) is Ok,
    ensures
        concat_spec(ca, others).unwrap().1.len() == ca@.len(),
        concat_spec(ca, others).unwrap().1[i].is_none(),
{
    let inner = resolve_inner(ca.inner, others);
    let recv = cast_rows(ca, inner).unwrap();
    let ops = coerce_all(others, inner, recv.len() as usize).unwrap();
    assert(recv[i].is_none());
    lemma_concat_row_null(picked_rows(ops, i, recv.len()));
    assert(concat_rows(recv, ops)[i] == concat_row(recv[i], picked_rows(ops, i, recv.len())));
}

/// What the `k`-th operand contributes once it is made ready has a null row
/// wherever the operand itself has one.
proof fn lemma_coerced_keeps_null_rows(others: Seq<AnyColumn>, inner: ScalarType, length: usize, k: int, j: int)
    requires
        0 <= k < others.len(),
        coerce_all(others, inner, length) is Ok,
        0 <= j < others[k].rows().len(),
        others[k].rows()[j].is_none(),
    ensures
        coerce_all(others, inner, length).unwrap().len() == others.len(),
        coerce_all(others, inner, length).unwrap()[k].len() == others[k].rows().len(),
        coerce_all(others, inner, length).unwrap()[k].len() == length || coerce_all(
            others,
            inner,
            length,
        ).unwrap()[k].len() == 1,
        coerce_all(others, inner, length).unwrap()[k][j].is_none(),
    decreases others.len(),
{
    lemma_coerce_all_len(others, inner, length);
    if k < others.len() - 1 {
        lemma_coerced_keeps_null_rows(others.drop_last(), inner, length, k, j);
    }
}

/// As many operands are made ready as there are.
proof fn lemma_coerce_all_len(others: Seq<AnyColumn>, inner: ScalarType, length: usize)
    requires
        coerce_all(others, inner, length) is Ok,
    ensures
        coerce_all(others, inner, length).unwrap().len() == others.len(),
    decreases others.len(),
{
    if others.len() > 0 {
        lemma_coerce_all_len(others.drop_last(), inner, length);
    }
}

/// Where the row that an operand contributes to a row of the result is
/// null, a concatenation that succeeds gives a null row. The operand
/// contributes its row at the same place if it is as long as the receiver,
/// and its only row otherwise; a null cell of a flat operand counts as a
/// null row.
pub proof fn lemma_null_operand_concats_to_null(ca: ListChunked, others: Seq<AnyColumn>, k: int, i: int)
    requires
        ca.wf(),
        0 <= i < ca@.len(),
        0 <= k < others.len(),
        concat_spec(ca, others) is Ok,
        others[k].rows().len() > 0,
        others[k].rows()[if others[k].rows().len() == ca@.len() {
            i
        } else {
            0
        }].is_none(),
    ensures
        concat_spec(ca, others).unwrap().1[i].is_none(),
{
    let inner = resolve_inner(ca.inner, others);
    let recv = cast_rows(ca, inner).unwrap();
    let ops = coerce_all(others, inner, recv.len() as usize).unwrap();
    let j = if others[k].rows().len() == ca@.len() {
        i
    } else {
        0
    };
    lemma_coerced_keeps_null_rows(others, inner, recv.len() as usize, k, j);
    assert(picked_rows(ops, i, recv.len())[k].is_none());
    crate::concat::lemma_concat_row_null_operand(recv[i], picked_rows(ops, i, recv.len()), k);
}

/// A concatenation without operands gives the receiver back: its inner type
/// and its rows.
pub proof fn lemma_concat_of_nothing(ca: ListChunked)
    ensures
        concat_spec(ca, Seq::empty()) == Ok::<(ScalarType, Seq<Row>), ListError>((ca.inner, ca@)),
{
    let none = Seq::<AnyColumn>::empty();
    let recv = cast_rows(ca, ca.inner).unwrap();
    assert(recv == ca@);
    let ops = coerce_all(none, ca.inner, recv.len() as usize).unwrap();
    assert forall|i: int| 0 <= i < recv.len() implies concat_rows(recv, ops)[i] == recv[i] by {
        assert(picked_rows(ops, i, recv.len()) =~= Seq::<Row>::empty());
    }
    assert(concat_rows(recv, ops) =~= recv);
}

/// An operand of one row counts as that row repeated to the length of the
/// receiver: the rows of a concatenation are the same whether such operands
/// are repeated beforehand or not.
pub proof fn lemma_broadcast_is_repetition(recv: Seq<Row>, ops: Seq<Seq<Row>>)
    requires
        recv.len() <= usize::MAX,
        forall|k: int| 0 <= k < ops.len() ==> (#[trigger] ops[k]).len() == recv.len() || ops[k].len() == 1,
    ensures
        concat_rows(recv, ops) == concat_rows(
            recv,
            Seq::new(ops.len(), |k: int| broadcast_rows(ops[k], recv.len() as usize)),
        ),
{
    let repeated = Seq::new(ops.len(), |k: int| broadcast_rows(ops[k], recv.len() as usize));
    assert forall|i: int| 0 <= i < recv.len() implies concat_rows(recv, ops)[i] == concat_rows(recv, repeated)[i] by {
        assert forall|k: int| 0 <= k < ops.len() implies picked_rows(ops, i, recv.len())[k] == picked_rows(
            repeated,
            i,
            recv.len(),
        )[k] by {
            assert(ops[k].len() == recv.len() || ops[k].len() == 1);
        }
        assert(picked_rows(ops, i, recv.len()) =~= picked_rows(repeated, i, recv.len()));
    }
    assert(concat_rows(recv, ops) =~= concat_rows(recv, repeated));
}

/// Whether two cells are alike in the order of cells: both null, or each no
/// later than the other. Alike integers and booleans are equal, alike
/// strings have the same text, and alike floats are the same number, or
/// both zero, or both no number.
pub open spec fn alike(a: Option<Value>, b: Option<Value>) -> bool {
    match (a, b) {
        (None, None) => true,
        (Some(x), Some(y)) => value_le(x, y) && value_le(y, x),
        _ => false,
    }
}

/// Whether two columns have null rows at the same places and, in their other
/// rows, as many cells and alike cells at every place.
pub open spec fn rows_alike(a: Seq<Row>, b: Seq<Row>) -> bool {
    &&& a.len() == b.len()
    &&& forall|i: int|
        0 <= i < a.len() ==> match (#[trigger] a[i], b[i]) {
            (Some(x), Some(y)) => x.len() == y.len() && forall|k: int|
                0 <= k < x.len() ==> alike(#[trigger] x[k], y[k]),
            (None, None) => true,
            _ => false,
        }
}

/// Every text is no later than itself.
proof fn lemma_text_le_reflexive(a: Seq<char>)
    ensures
        text_le(a, a),
    decreases a.len(),
{
    if a.len() > 0 {
        lemma_text_le_reflexive(a.drop_first());
    }
}

/// A text that is no later than a second, which is no later than a third,
/// is no later than the third.
proof fn lemma_text_le_transitive(a: Seq<char>, b: Seq<char>, c: Seq<char>)
    requires
        text_le(a, b),
        text_le(b, c),
    ensures
        text_le(a, c),
    decreases a.len(),
{
    if a.len() > 0 && a[0] == b[0] && b[0] == c[0] {
        lemma_text_le_transitive(a.drop_first(), b.drop_first(), c.drop_first());
    }
}

/// Among cells of one type, a cell may stand before itself, and a cell that
/// may stand before a second, which may stand before a third, may stand
/// before the third.
proof fn lemma_in_order_is_a_preorder(
    a: Option<Value>,
    b: Option<Value>,
    c: Option<Value>,
    dtype: ScalarType,
    descending: bool,
    nulls_last: bool,
)
    requires
        a.is_some() ==> a.unwrap().dtype_spec() == dtype,
        b.is_some() ==> b.unwrap().dtype_spec() == dtype,
        c.is_some() ==> c.unwrap().dtype_spec() == dtype,
    ensures
        in_order(a, a, descending, nulls_last),
        in_order(a, b, descending, nulls_last) && in_order(b, c, descending, nulls_last) ==> in_order(
            a,
            c,
            descending,
            nulls_last,
        ),
        in_order(a, b, descending, nulls_last) && in_order(b, a, descending, nulls_last) <==> alike(a, b),
{
    match (a, b, c) {
        (Some(Value::Utf8(x)), Some(Value::Utf8(y)), Some(Value::Utf8(z))) => {
            lemma_text_le_reflexive(x@);
            if text_le(x@, y@) && text_le(y@, z@) {
                lemma_text_le_transitive(x@, y@, z@);
            }
            if text_le(z@, y@) && text_le(y@, x@) {
                lemma_text_le_transitive(z@, y@, x@);
            }
        },
        (Some(Value::Utf8(x)), _, _) => {
            lemma_text_le_reflexive(x@);
        },
        _ => {},
    }
}

/// Two sorted rows of one type that hold the same cells equally often have
/// alike cells at every place.
pub proof fn lemma_sorted_rows_are_alike(
    x: Seq<Option<Value>>,
    y: Seq<Option<Value>>,
    dtype: ScalarType,
    descending: bool,
    nulls_last: bool,
)
    requires
        conforms(x, dtype),
        conforms(y, dtype),
        sorted_cells(x, descending, nulls_last),
        sorted_cells(y, descending, nulls_last),
        x.to_multiset() == y.to_multiset(),
    ensures
        x.len() == y.len(),
        forall|k: int| 0 <= k < x.len() ==> alike(#[trigger] x[k], y[k]),
    decreases x.len(),
{
    broadcast use vstd::multiset::group_multiset_axioms;
    broadcast use vstd::seq_lib::group_to_multiset_ensures;

    assert(x.len() == y.len()) by {
        x.to_multiset_ensures();
        y.to_multiset_ensures();
    }
    if x.len() > 0 {
        assert(x.to_multiset().contains(x[0]));
        assert(y.to_multiset().contains(y[0]));
        assert(x.to_multiset().contains(y[0]));
        assert(y.to_multiset().contains(x[0]));
        let i = choose|i: int| #![trigger x[i]] 0 <= i < x.len() && x[i] == y[0];
        let j = choose|j: int| #![trigger y[j]] 0 <= j < y.len() && y[j] == x[0];
        lemma_in_order_is_a_preorder(x[0], y[0], x[0], dtype, descending, nulls_last);
        lemma_in_order_is_a_preorder(y[0], x[0], y[0], dtype, descending, nulls_last);
        assert(in_order(x[0], y[0], descending, nulls_last)) by {
            if i > 0 {
                assert(in_order(x[0], x[i], descending, nulls_last));
            }
        }
        assert(in_order(y[0], x[0], descending, nulls_last)) by {
            if j > 0 {
                assert(in_order(y[0], y[j], descending, nulls_last));
            }
        }
        assert(alike(x[0], y[0]));
        let xs = x.drop_first();
        let ys = y.remove(j);
        assert(xs =~= x.remove(0));
        vstd::seq_lib::to_multiset_remove(x, 0);
        vstd::seq_lib::to_multiset_remove(y, j);
        assert(xs.to_multiset() =~= ys.to_multiset());
        assert forall|k: int| 0 <= k < xs.len() && xs[k].is_some() implies (#[trigger] xs[k]).unwrap().dtype_spec()
            == dtype by {
            assert(xs[k] == x[k + 1]);
        }
        assert forall|k: int| 0 <= k < ys.len() implies #[trigger] ys[k] == if k < j {
            y[k]
        } else {
            y[k + 1]
        } by {}
        assert forall|k: int| 0 <= k < ys.len() && ys[k].is_some() implies (#[trigger] ys[k]).unwrap().dtype_spec()
            == dtype by {
            if k < j {
                assert(y[k].is_some());
            } else {
                assert(y[k + 1].is_some());
            }
        }
        assert(sorted_cells(xs, descending, nulls_last)) by {
            assert forall|a: int, b: int| 0 <= a < b < xs.len() implies in_order(
                xs[a],
                xs[b],
                descending,
                nulls_last,
            ) by {
                assert(in_order(x[a + 1], x[b + 1], descending, nulls_last));
            }
        }
        assert(sorted_cells(ys, descending, nulls_last)) by {
            assert forall|a: int, b: int| 0 <= a < b < ys.len() implies in_order(
                ys[a],
                ys[b],
                descending,
                nulls_last,
            ) by {
                let a1 = if a < j {
                    a
                } else {
                    a + 1
                };
                let b1 = if b < j {
                    b
                } else {
                    b + 1
                };
                assert(in_order(y[a1], y[b1], descending, nulls_last));
            }
        }
        lemma_sorted_rows_are_alike(xs, ys, dtype, descending, nulls_last);
        assert forall|k: int| 0 <= k < x.len() implies alike(#[trigger] x[k], y[k]) by {
            if k > 0 {
                assert(alike(xs[k - 1], ys[k - 1]));
                assert(xs[k - 1] == x[k]);
                if k - 1 < j {
                    // The cells of `y` up to place `j` are all alike: they lie between
                    // `y[0]` and `y[j]`, which are alike.
                    assert(ys[k - 1] == y[k - 1]);
                    assert(in_order(y[k - 1], y[k], descending, nulls_last));
                    assert(in_order(y[k], y[j], descending, nulls_last)) by {
                        lemma_in_order_is_a_preorder(y[k], y[k], y[k], dtype, descending, nulls_last);
                    }
                    assert(in_order(y[0], y[k - 1], descending, nulls_last)) by {
                        lemma_in_order_is_a_preorder(y[0], y[0], y[0], dtype, descending, nulls_last);
                    }
                    lemma_in_order_is_a_preorder(y[k], y[j], y[0], dtype, descending, nulls_last);
                    lemma_in_order_is_a_preorder(y[k], y[0], y[k - 1], dtype, descending, nulls_last);
                    lemma_in_order_is_a_preorder(y[k - 1], y[k], y[k - 1], dtype, descending, nulls_last);
                    assert(alike(y[k - 1], y[k]));
                    lemma_in_order_is_a_preorder(x[k], y[k - 1], y[k], dtype, descending, nulls_last);
                    lemma_in_order_is_a_preorder(y[k], y[k - 1], x[k], dtype, descending, nulls_last);
                    lemma_in_order_is_a_preorder(x[k], y[k], x[k], dtype, descending, nulls_last);
                } else {
                    assert(ys[k - 1] == y[k]);
                }
            }
        }
    }
}

/// Sorting is idempotent up to the order of cells, whatever the inner type:
/// a column that is sorted again with the same options keeps its null rows,
/// and every other row keeps its length and gets, at every place, a cell
/// alike the one that stood there.
///
/// `once` is any outcome of sorting `input`, and `twice` any outcome of
/// sorting `once`.
pub proof fn lemma_sort_is_idempotent_up_to_order(
    input: Seq<Row>,
    once: Seq<Row>,
    twice: Seq<Row>,
    dtype: ScalarType,
    options: SortOptions,
)
    requires
        rows_conform(once, dtype),
        rows_conform(twice, dtype),
        sorted_rows(input, once, options),
        sorted_rows(once, twice, options),
    ensures
        rows_alike(once, twice),
{
    assert forall|i: int| 0 <= i < once.len() implies match (#[trigger] once[i], twice[i]) {
        (Some(x), Some(y)) => x.len() == y.len() && forall|k: int| 0 <= k < x.len() ==> alike(#[trigger] x[k], y[k]),
        (None, None) => true,
        _ => false,
    } by {
        match (once[i], twice[i]) {
            (Some(a), Some(b)) => {
                assert(input[i].is_some());
                lemma_sorted_rows_are_alike(a, b, dtype, options.descending, options.nulls_last);
            },
            _ => {},
        }
    }
}

/// Of two cells of one boolean or integer type, each of which may stand
/// before the other, both are the same cell.
proof fn lemma_in_order_antisymmetric(
    a: Option<Value>,
    b: Option<Value>,
    dtype: ScalarType,
    descending: bool,
    nulls_last: bool,
)
    requires
        dtype.is_ordered_spec(),
        a.is_some() ==> a.unwrap().dtype_spec() == dtype,
        b.is_some() ==> b.unwrap().dtype_spec() == dtype,
        in_order(a, b, descending, nulls_last),
        in_order(b, a, descending, nulls_last),
    ensures
        a == b,
{
    if a.is_some() && b.is_some() {
        assert(int_of(a) == int_of(b));
    }
}

/// Two sorted rows of one boolean or integer type that hold the same cells
/// equally often are the same row.
pub proof fn lemma_sorted_row_is_unique(
    x: Seq<Option<Value>>,
    y: Seq<Option<Value>>,
    dtype: ScalarType,
    descending: bool,
    nulls_last: bool,
)
    requires
        dtype.is_ordered_spec(),
        conforms(x, dtype),
        conforms(y, dtype),
        sorted_cells(x, descending, nulls_last),
        sorted_cells(y, descending, nulls_last),
        x.to_multiset() == y.to_multiset(),
    ensures
        x == y,
    decreases x.len(),
{
    broadcast use vstd::multiset::group_multiset_axioms;
    broadcast use vstd::seq_lib::group_to_multiset_ensures;

    assert(x.len() == y.len()) by {
        x.to_multiset_ensures();
        y.to_multiset_ensures();
    }
    if x.len() == 0 {
        assert(x =~= y);
    } else {
        assert(x.to_multiset().contains(x[0]));
        assert(y.to_multiset().contains(y[0]));
        assert(x.to_multiset().contains(y[0]));
        assert(y.to_multiset().contains(x[0]));
        let i = choose|i: int| #![trigger x[i]] 0 <= i < x.len() && x[i] == y[0];
        let j = choose|j: int| #![trigger y[j]] 0 <= j < y.len() && y[j] == x[0];
        assert(in_order(x[0], y[0], descending, nulls_last)) by {
            if i > 0 {
                assert(in_order(x[0], x[i], descending, nulls_last));
            }
        }
        assert(in_order(y[0], x[0], descending, nulls_last)) by {
            if j > 0 {
                assert(in_order(y[0], y[j], descending, nulls_last));
            }
        }
        lemma_in_order_antisymmetric(x[0], y[0], dtype, descending, nulls_last);
        assert(x.drop_first() =~= x.remove(0));
        assert(y.drop_first() =~= y.remove(0));
        vstd::seq_lib::to_multiset_remove(x, 0);
        vstd::seq_lib::to_multiset_remove(y, 0);
        assert(x.drop_first().to_multiset() =~= x.to_multiset().remove(x[0]));
        assert(y.drop_first().to_multiset() =~= y.to_multiset().remove(y[0]));
        assert forall|k: int| 0 <= k < x.drop_first().len() && x.drop_first()[k].is_some() implies (
        #[trigger] x.drop_first()[k]).unwrap().dtype_spec() == dtype by {
            assert(x.drop_first()[k] == x[k + 1]);
        }
        assert forall|k: int| 0 <= k < y.drop_first().len() && y.drop_first()[k].is_some() implies (
        #[trigger] y.drop_first()[k]).unwrap().dtype_spec() == dtype by {
            assert(y.drop_first()[k] == y[k + 1]);
        }
        assert(sorted_cells(x.drop_first(), descending, nulls_last)) by {
            assert forall|a: int, b: int| 0 <= a < b < x.drop_first().len() implies in_order(
                x.drop_first()[a],
                x.drop_first()[b],
                descending,
                nulls_last,
            ) by {
                assert(in_order(x[a + 1], x[b + 1], descending, nulls_last));
            }
        }
        assert(sorted_cells(y.drop_first(), descending, nulls_last)) by {
            assert forall|a: int, b: int| 0 <= a < b < y.drop_first().len() implies in_order(
                y.drop_first()[a],
                y.drop_first()[b],
                descending,
                nulls_last,
            ) by {
                assert(in_order(y[a + 1], y[b + 1], descending, nulls_last));
            }
        }
        lemma_sorted_row_is_unique(x.drop_first(), y.drop_first(), dtype, descending, nulls_last);
        assert(x =~= seq![x[0]] + x.drop_first());
        assert(y =~= seq![y[0]] + y.drop_first());
    }
}

/// Sorting is idempotent on columns of booleans and of integers: a column
/// that is sorted again with the same options stays as it is.
///
/// `once` is any outcome of sorting `input`, and `twice` any outcome of
/// sorting `once`.
pub proof fn lemma_sort_is_idempotent(
    input: Seq<Row>,
    once: Seq<Row>,
    twice: Seq<Row>,
    dtype: ScalarType,
    options: SortOptions,
)
    requires
        dtype.is_ordered_spec(),
        rows_conform(once, dtype),
        rows_conform(twice, dtype),
        sorted_rows(input, once, options),
        sorted_rows(once, twice, options),
    ensures
        twice == once,
{
    assert forall|i: int| 0 <= i < once.len() implies twice[i] == once[i] by {
        match (once[i], twice[i]) {
            (Some(a), Some(b)) => {
                assert(input[i].is_some());
                lemma_sorted_row_is_unique(a, b, dtype, options.descending, options.nulls_last);
            },
            _ => {},
        }
    }
    assert(twice =~= once);
}

} // verus!
