use vstd::prelude::*;
use crate::datatypes::{conforms, duplicate_cell, ScalarType, Value};
use crate::list::Row;
use crate::outside::{diff_is_outside, sort_of};
use crate::reduce::{int_of, signed_wrap, wrap_signed};

verus! {

/// How a sort orders the cells of a row.
#[derive(Clone, Copy, PartialEq, Eq, Structural, Debug)]
pub struct SortOptions {
    /// Largest first.
    pub descending: bool,
    /// Null cells after all others; before all others if unset.
    pub nulls_last: bool,
    /// Allows the outside sort to use several threads. The result is the same.
    pub multithreaded: bool,
}

/// What becomes of the places at the start of a row that a difference
/// cannot fill.
#[derive(Clone, Copy, PartialEq, Eq, Structural, Debug)]
pub enum NullBehavior {
    /// They stay in the row, as nulls.
    Ignore,
    /// They leave the row.
    Drop,
}

/// The cells of a row in opposite order.
pub open spec fn reversed(cells: Seq<Option<Value>>) -> Seq<Option<Value>> {
    Seq::new(cells.len(), |k: int| cells[cells.len() - 1 - k])
}

/// The cells of a row moved `periods` places towards its end (towards its
/// start for negative `periods`). The row keeps its length: cells that leave
/// it are lost, and the places that no cell moves into are null.
pub open spec fn shifted(cells: Seq<Option<Value>>, periods: int) -> Seq<Option<Value>> {
    Seq::new(
        cells.len(),
        |k: int|
            if 0 <= k - periods < cells.len() {
                cells[k - periods]
            } else {
                None
            },
    )
}

/// Where a slice of a row of `len` cells starts, and how many cells it has.
///
/// A negative `offset` counts from the end of the row; one that reaches
/// before the start of the row stands for the start. A non-negative `offset`
/// beyond the end of the row gives an empty slice. The slice never reaches
/// beyond the end of the row.
pub open spec fn slice_bounds(offset: int, length: nat, len: nat) -> (nat, nat) {
    if offset < 0 {
        if -offset <= len {
            (
                (len + offset) as nat,
                if length <= -offset {
                    length
                } else {
                    (-offset) as nat
                },
            )
        } else {
            (
                0,
                if length <= len {
                    length
                } else {
                    len
                },
            )
        }
    } else if offset <= len {
        (
            offset as nat,
            if length <= len - offset {
                length
            } else {
                (len - offset) as nat
            },
        )
    } else {
        (len, 0)
    }
}

/// The slice of a row that `offset` and `length` ask for.
pub open spec fn sliced(cells: Seq<Option<Value>>, offset: int, length: nat) -> Seq<Option<Value>> {
    let (start, count) = slice_bounds(offset, length, cells.len());
    cells.subrange(start as int, (start + count) as int)
}

/// The number that the bit pattern of a 32-bit float stands for in the order
/// of floats: the pattern without its sign bit, negated if the sign bit is
/// set. Both zeros stand for zero.
pub open spec fn float32_key(bits: u32) -> int {
    if bits >= 0x8000_0000 {
        -(bits - 0x8000_0000)
    } else {
        bits as int
    }
}

/// Whether the bit pattern of a 32-bit float is that of no number.
pub open spec fn float32_is_nan(bits: u32) -> bool {
    bits % 0x8000_0000 > 0x7f80_0000
}

/// The number that the bit pattern of a 64-bit float stands for in the order
/// of floats: the pattern without its sign bit, negated if the sign bit is
/// set. Both zeros stand for zero.
pub open spec fn float64_key(bits: u64) -> int {
    if bits >= 0x8000_0000_0000_0000 {
        -(bits - 0x8000_0000_0000_0000)
    } else {
        bits as int
    }
}

/// Whether the bit pattern of a 64-bit float is that of no number.
pub open spec fn float64_is_nan(bits: u64) -> bool {
    bits % 0x8000_0000_0000_0000 > 0x7ff0_0000_0000_0000
}

/// Whether text `a` comes no later than text `b`: texts compare character by
/// character, by code point, and a text comes before every text it starts.
pub open spec fn text_le(a: Seq<char>, b: Seq<char>) -> bool
    decreases a.len(),
{
    if a.len() == 0 {
        true
    } else if b.len() == 0 {
        false
    } else if a[0] != b[0] {
        (a[0] as u32) < (b[0] as u32)
    } else {
        text_le(a.drop_first(), b.drop_first())
    }
}

/// Whether cell value `a` comes no later than `b` in ascending order.
///
/// Booleans and integers compare by the integers they stand for, `false`
/// before `true`. Floats compare as numbers; the two zeros are equal, and
/// what is no number comes after every number. Strings compare as texts.
pub open spec fn value_le(a: Value, b: Value) -> bool {
    match (a, b) {
        (Value::Float32(x), Value::Float32(y)) => float32_is_nan(y) || (!float32_is_nan(x) && float32_key(x)
            <= float32_key(y)),
        (Value::Float64(x), Value::Float64(y)) => float64_is_nan(y) || (!float64_is_nan(x) && float64_key(x)
            <= float64_key(y)),
        (Value::Utf8(x), Value::Utf8(y)) => text_le(x@, y@),
        _ => int_of(Some(a)) <= int_of(Some(b)),
    }
}

/// Whether cell `a` may stand before cell `b` in a sorted row.
pub open spec fn in_order(a: Option<Value>, b: Option<Value>, descending: bool, nulls_last: bool) -> bool {
    match (a, b) {
        (None, None) => true,
        (None, Some(_)) => !nulls_last,
        (Some(_), None) => nulls_last,
        (Some(x), Some(y)) => if descending {
            value_le(y, x)
        } else {
            value_le(x, y)
        },
    }
}

/// Every cell of the row may stand before every later cell.
pub open spec fn sorted_cells(cells: Seq<Option<Value>>, descending: bool, nulls_last: bool) -> bool {
    forall|i: int, j: int| 0 <= i < j < cells.len() ==> in_order(cells[i], cells[j], descending, nulls_last)
}

/// What a sort of a row gives: the same cells, each as often as before, in
/// the order that `options` asks for.
pub open spec fn sorted_from(input: Seq<Option<Value>>, output: Seq<Option<Value>>, options: SortOptions) -> bool {
    &&& output.to_multiset() == input.to_multiset()
    &&& sorted_cells(output, options.descending, options.nulls_last)
}

/// The cells of a row without repetitions: of equal cells the first stays.
pub open spec fn stable_unique(cells: Seq<Option<Value>>) -> Seq<Option<Value>>
    decreases cells.len(),
{
    if cells.len() == 0 {
        cells
    } else {
        let front = stable_unique(cells.drop_last());
        if front.contains(cells.last()) {
            front
        } else {
            front.push(cells.last())
        }
    }
}

/// `output` holds every cell of `input` once, in some order.
pub open spec fn unique_from(input: Seq<Option<Value>>, output: Seq<Option<Value>>) -> bool {
    &&& output.no_duplicates()
    &&& forall|c: Option<Value>| output.contains(c) <==> input.contains(c)
}

/// Copies the cells between `start` and `end` of a buffer in opposite order.
pub fn reverse_range(values: &Vec<Option<Value>>, start: usize, end: usize) -> (out: Vec<Option<Value>>)
    requires
        start <= end <= values@.len(),
    ensures
        out@ == reversed(values@.subrange(start as int, end as int)),
{
    let mut out: Vec<Option<Value>> = Vec::with_capacity(end - start);
    let mut k: usize = end;
    while k > start
        invariant
            start <= k <= end <= values@.len(),
            out@.len() == end - k,
            forall|j: int| 0 <= j < out@.len() ==> out@[j] == values@[end - 1 - j],
        decreases k - start,
    {
        k -= 1;
        out.push(duplicate_cell(&values[k]));
    }
    assert(out@ =~= reversed(values@.subrange(start as int, end as int)));
    out
}

/// Copies the cells between `start` and `end` of a buffer, moved by
/// `periods` places.
pub fn shift_range(values: &Vec<Option<Value>>, start: usize, end: usize, periods: i64) -> (out: Vec<
    Option<Value>,
>)
    requires
        start <= end <= values@.len(),
    ensures
        out@ == shifted(values@.subrange(start as int, end as int), periods as int),
{
    let len = end - start;
    let mut out: Vec<Option<Value>> = Vec::with_capacity(len);
    let mut k: usize = 0;
    while k < len
        invariant
            start <= end <= values@.len(),
            len == end - start,
            k <= len,
            out@.len() == k,
            forall|j: int|
                0 <= j < k ==> out@[j] == shifted(values@.subrange(start as int, end as int), periods as int)[j],
        decreases len - k,
    {
        let from: i128 = k as i128 - periods as i128;
        if 0 <= from && from < len as i128 {
            out.push(duplicate_cell(&values[start + from as usize]));
        } else {
            out.push(None);
        }
        k += 1;
    }
    assert(out@ =~= shifted(values@.subrange(start as int, end as int), periods as int));
    out
}

/// Computes where a slice of a row of `len` cells starts and how many cells
/// it has.
pub fn slice_offsets(offset: i64, length: usize, len: usize) -> (r: (usize, usize))
    ensures
        (r.0 as nat, r.1 as nat) == slice_bounds(offset as int, length as nat, len as nat),
        r.0 + r.1 <= len,
        r.1 <= length,
{
    if offset < 0 {
        let back: u64 = (-(offset + 1)) as u64 + 1;
        if back <= len as u64 {
            let back = back as usize;
            (
                len - back,
                if length <= back {
                    length
                } else {
                    back
                },
            )
        } else {
            (
                0,
                if length <= len {
                    length
                } else {
                    len
                },
            )
        }
    } else if offset as u64 <= len as u64 {
        let from = offset as usize;
        (
            from,
            if length <= len - from {
                length
            } else {
                len - from
            },
        )
    } else {
        (len, 0)
    }
}

/// Copies the slice that `offset` and `length` ask for out of the row
/// between `start` and `end` of a buffer.
pub fn slice_range(values: &Vec<Option<Value>>, start: usize, end: usize, offset: i64, length: usize) -> (out:
    Vec<Option<Value>>)
    requires
        start <= end <= values@.len(),
    ensures
        out@ == sliced(values@.subrange(start as int, end as int), offset as int, length as nat),
        out@.len() <= end - start,
        out@.len() <= length,
{
    let (from, count) = slice_offsets(offset, length, end - start);
    let out = crate::reduce::copy_range(values, start + from, start + from + count);
    assert(out@ =~= sliced(values@.subrange(start as int, end as int), offset as int, length as nat));
    out
}

/// Every non-null row reversed.
pub open spec fn reverse_rows(rows: Seq<Row>) -> Seq<Row> {
    Seq::new(
        rows.len(),
        |i: int|
            match rows[i] {
                Some(row) => Some(reversed(row)),
                None => None,
            },
    )
}

/// Every non-null row shifted by `periods` places.
pub open spec fn shift_rows(rows: Seq<Row>, periods: int) -> Seq<Row> {
    Seq::new(
        rows.len(),
        |i: int|
            match rows[i] {
                Some(row) => Some(shifted(row, periods)),
                None => None,
            },
    )
}

/// Of every non-null row the slice that `offset` and `length` ask for.
pub open spec fn slice_rows(rows: Seq<Row>, offset: int, length: nat) -> Seq<Row> {
    Seq::new(
        rows.len(),
        |i: int|
            match rows[i] {
                Some(row) => Some(sliced(row, offset, length)),
                None => None,
            },
    )
}

/// Whether `output` is `input` with every non-null row sorted.
pub open spec fn sorted_rows(input: Seq<Row>, output: Seq<Row>, options: SortOptions) -> bool {
    &&& output.len() == input.len()
    &&& forall|i: int|
        0 <= i < input.len() ==> match (#[trigger] input[i], output[i]) {
            (Some(a), Some(b)) => sorted_from(a, b, options),
            (None, None) => true,
            _ => false,
        }
}

/// Whether `output` is `input` with every non-null row reduced to its
/// distinct cells, in some order.
pub open spec fn unique_rows(input: Seq<Row>, output: Seq<Row>) -> bool {
    &&& output.len() == input.len()
    &&& forall|i: int|
        0 <= i < input.len() ==> match (#[trigger] input[i], output[i]) {
            (Some(a), Some(b)) => unique_from(a, b),
            (None, None) => true,
            _ => false,
        }
}

/// Every non-null row reduced to its distinct cells, the first of equal
/// cells staying in its place.
pub open spec fn stable_unique_rows(rows: Seq<Row>) -> Seq<Row> {
    Seq::new(
        rows.len(),
        |i: int|
            match rows[i] {
                Some(row) => Some(stable_unique(row)),
                None => None,
            },
    )
}

/// The cell that stands for an optional boolean.
pub open spec fn bool_cell(b: Option<bool>) -> Option<Value> {
    match b {
        Some(x) => Some(Value::Boolean(x)),
        None => None,
    }
}

/// `n` copies of one cell.
pub open spec fn copies(n: nat, cell: Option<Value>) -> Seq<Option<Value>> {
    Seq::new(n, |i: int| cell)
}

/// How often a cell occurs among `n` copies of a cell.
proof fn lemma_copies_count(n: nat, cell: Option<Value>, other: Option<Value>)
    ensures
        copies(n, cell).to_multiset().count(other) == if other == cell {
            n
        } else {
            0
        },
    decreases n,
{
    broadcast use vstd::seq_lib::group_to_multiset_ensures;

    if n == 0 {
        assert(copies(0, cell) =~= Seq::empty());
    } else {
        lemma_copies_count((n - 1) as nat, cell, other);
        assert(copies(n, cell) =~= copies((n - 1) as nat, cell).push(cell));
    }
}

/// A sorted row of booleans: the nulls at the end that `nulls_last` asks
/// for, and between the other cells `false` before `true`, or `true` before
/// `false` if `descending` is set.
pub open spec fn sorted_bools(nulls: nat, falses: nat, trues: nat, descending: bool, nulls_last: bool) -> Seq<
    Option<Value>,
> {
    let front = if nulls_last {
        Seq::empty()
    } else {
        copies(nulls, None)
    };
    let back = if nulls_last {
        copies(nulls, None)
    } else {
        Seq::empty()
    };
    let middle = if descending {
        copies(trues, Some(Value::Boolean(true))) + copies(falses, Some(Value::Boolean(false)))
    } else {
        copies(falses, Some(Value::Boolean(false))) + copies(trues, Some(Value::Boolean(true)))
    };
    front + middle + back
}

/// How often a cell occurs in a sorted row of booleans.
proof fn lemma_sorted_bools_count(
    nulls: nat,
    falses: nat,
    trues: nat,
    descending: bool,
    nulls_last: bool,
    other: Option<Value>,
)
    ensures
        sorted_bools(nulls, falses, trues, descending, nulls_last).to_multiset().count(other) == if other
            == None::<Value> {
            nulls
        } else if other == Some(Value::Boolean(false)) {
            falses
        } else if other == Some(Value::Boolean(true)) {
            trues
        } else {
            0
        },
{
    let n = copies(nulls, None);
    let f = copies(falses, Some(Value::Boolean(false)));
    let t = copies(trues, Some(Value::Boolean(true)));
    let e = Seq::<Option<Value>>::empty();
    lemma_copies_count(nulls, None, other);
    lemma_copies_count(falses, Some(Value::Boolean(false)), other);
    lemma_copies_count(trues, Some(Value::Boolean(true)), other);
    lemma_copies_count(0, None, other);
    assert(copies(0, None) =~= e);
    let front = if nulls_last {
        e
    } else {
        n
    };
    let back = if nulls_last {
        n
    } else {
        e
    };
    let middle = if descending {
        t + f
    } else {
        f + t
    };
    vstd::seq_lib::lemma_multiset_commutative(t, f);
    vstd::seq_lib::lemma_multiset_commutative(f, t);
    vstd::seq_lib::lemma_multiset_commutative(front, middle);
    vstd::seq_lib::lemma_multiset_commutative(front + middle, back);
}

/// Appends `n` copies of a boolean cell.
fn push_copies(out: &mut Vec<Option<Value>>, cell: Option<bool>, n: usize)
    ensures
        final(out)@ == old(out)@ + copies(n as nat, bool_cell(cell)),
{
    let mut k: usize = 0;
    while k < n
        invariant
            k <= n,
            out@ == old(out)@ + copies(k as nat, bool_cell(cell)),
        decreases n - k,
    {
        let c = match cell {
            Some(x) => Some(Value::Boolean(x)),
            None => None,
        };
        out.push(c);
        assert(out@ =~= old(out)@ + copies((k + 1) as nat, bool_cell(cell)));
        k += 1;
    }
}

/// Sorts the row of booleans between `start` and `end` of a buffer by
/// counting its cells.
pub fn sort_bools(values: &Vec<Option<Value>>, start: usize, end: usize, descending: bool, nulls_last: bool) -> (out:
    Vec<Option<Value>>)
    requires
        start <= end <= values@.len(),
        conforms(values@, ScalarType::Boolean),
    ensures
        out@ == sort_spec(
            values@.subrange(start as int, end as int),
            ScalarType::Boolean,
            (SortOptions { descending, nulls_last, multithreaded: false }),
        ),
        conforms(out@, ScalarType::Boolean),
        out@.to_multiset() == values@.subrange(start as int, end as int).to_multiset(),
        sorted_cells(out@, descending, nulls_last),
{
    broadcast use vstd::seq_lib::group_to_multiset_ensures;

    broadcast use vstd::multiset::group_multiset_axioms;

    let ghost row = values@.subrange(start as int, end as int);
    let mut nulls: usize = 0;
    let mut falses: usize = 0;
    let mut trues: usize = 0;
    let mut k: usize = start;
    assert(values@.subrange(start as int, start as int) =~= Seq::empty());
    while k < end
        invariant
            start <= k <= end <= values@.len(),
            conforms(values@, ScalarType::Boolean),
            nulls + falses + trues == k - start,
            forall|c: Option<Value>|
                #[trigger] values@.subrange(start as int, k as int).to_multiset().count(c) == if c == None::<
                    Value,
                > {
                    nulls as nat
                } else if c == Some(Value::Boolean(false)) {
                    falses as nat
                } else if c == Some(Value::Boolean(true)) {
                    trues as nat
                } else {
                    0
                },
        decreases end - k,
    {
        proof {
            let prev = values@.subrange(start as int, k as int);
            let next = values@.subrange(start as int, k + 1);
            let cell = values@[k as int];
            assert(next =~= prev.push(cell));
            vstd::seq_lib::to_multiset_build(prev, cell);
            assert forall|c: Option<Value>| #[trigger] next.to_multiset().count(c) == prev.to_multiset().count(c) + if c
                == cell {
                1nat
            } else {
                0nat
            } by {
                vstd::multiset::lemma_insert_increases_count_by_1(prev.to_multiset(), cell);
                vstd::multiset::lemma_insert_other_elements_unchanged(prev.to_multiset(), cell, c);
            }
            if cell.is_some() {
                assert(cell.unwrap().dtype_spec() == ScalarType::Boolean);
            }
        }
        match &values[k] {
            Some(Value::Boolean(true)) => {
                trues += 1;
            },
            Some(_) => {
                falses += 1;
            },
            None => {
                nulls += 1;
            },
        }
        k += 1;
    }
    let mut out: Vec<Option<Value>> = Vec::with_capacity(end - start);
    if !nulls_last {
        push_copies(&mut out, None, nulls);
    }
    if descending {
        push_copies(&mut out, Some(true), trues);
        push_copies(&mut out, Some(false), falses);
    } else {
        push_copies(&mut out, Some(false), falses);
        push_copies(&mut out, Some(true), trues);
    }
    if nulls_last {
        push_copies(&mut out, None, nulls);
    }
    proof {
        let want = sorted_bools(nulls as nat, falses as nat, trues as nat, descending, nulls_last);
        assert(out@ =~= want);
        assert(values@.subrange(start as int, end as int).to_multiset().count(None::<Value>) == nulls);
        assert forall|c: Option<Value>| out@.to_multiset().count(c) == row.to_multiset().count(c) by {
            lemma_sorted_bools_count(nulls as nat, falses as nat, trues as nat, descending, nulls_last, c);
        }
        assert(out@.to_multiset() =~= row.to_multiset());
    }
    out
}

/// A row of type `dtype`, sorted as `options` asks.
///
/// A row of booleans has its nulls at the end that `nulls_last` names, and
/// between them `false` before `true`, or `true` before `false` if
/// `descending` is set. Every other row is sorted by the outside sort. How
/// many threads `options` allows makes no difference.
pub open spec fn sort_spec(cells: Seq<Option<Value>>, dtype: ScalarType, options: SortOptions) -> Seq<Option<Value>> {
    if dtype == ScalarType::Boolean {
        sorted_bools(
            cells.to_multiset().count(None),
            cells.to_multiset().count(Some(Value::Boolean(false))),
            cells.to_multiset().count(Some(Value::Boolean(true))),
            options.descending,
            options.nulls_last,
        )
    } else {
        sort_of(cells, dtype, options.descending, options.nulls_last)
    }
}

/// Every non-null row sorted.
pub open spec fn sort_rows(rows: Seq<Row>, dtype: ScalarType, options: SortOptions) -> Seq<Row> {
    Seq::new(
        rows.len(),
        |i: int|
            match rows[i] {
                Some(row) => Some(sort_spec(row, dtype, options)),
                None => None,
            },
    )
}

/// The integer that a cell brings into a difference. A null cell brings
/// none, and neither does an unsigned integer above the largest signed one
/// of 64 bits.
pub open spec fn diff_operand(cell: Option<Value>) -> Option<int> {
    match cell {
        Some(Value::Int32(x)) => Some(x as int),
        Some(Value::Int64(x)) => Some(x as int),
        Some(Value::UInt32(x)) => Some(x as int),
        Some(Value::UInt64(x)) => if x <= i64::MAX {
            Some(x as int)
        } else {
            None
        },
        _ => None,
    }
}

/// The difference of two integer cells of type `inner`: null if one of them
/// brings no integer. Differences of signed 32-bit integers are of that
/// type; all others are signed 64-bit integers. They wrap around at the
/// width of their type.
pub open spec fn int_difference(a: Option<Value>, b: Option<Value>, inner: ScalarType) -> Option<Value> {
    match (diff_operand(a), diff_operand(b)) {
        (Some(x), Some(y)) => if inner == ScalarType::Int32 {
            Some(Value::Int32(signed_wrap(x - y, 0x1_0000_0000) as i32))
        } else {
            Some(Value::Int64(signed_wrap(x - y, 0x1_0000_0000_0000_0000) as i64))
        },
        _ => None,
    }
}

/// The differences of a row of integers at a lag of `n`: each cell minus the
/// cell `n` places before it.
///
/// If nulls are ignored, the row keeps its length, and a place without a
/// cell `n` places before it holds null. If they are dropped, which takes a
/// positive lag, the first `n` places leave the row.
pub open spec fn int_diff(cells: Seq<Option<Value>>, inner: ScalarType, n: int, behavior: NullBehavior) -> Seq<
    Option<Value>,
> {
    if behavior == NullBehavior::Drop {
        Seq::new(
            if n <= cells.len() {
                (cells.len() - n) as nat
            } else {
                0
            },
            |k: int| int_difference(cells[k + n], cells[k], inner),
        )
    } else {
        Seq::new(
            cells.len(),
            |k: int|
                if 0 <= k - n < cells.len() {
                    int_difference(cells[k], cells[k - n], inner)
                } else {
                    None
                },
        )
    }
}

/// The integer that a cell brings into a difference.
fn operand_of(cell: &Option<Value>) -> (r: Option<i128>)
    ensures
        match diff_operand(*cell) {
            Some(x) => r == Some(x as i128) && -0x8000_0000_0000_0000 <= x <= 0x7fff_ffff_ffff_ffff,
            None => r.is_none(),
        },
{
    match cell {
        Some(Value::Int32(x)) => Some(*x as i128),
        Some(Value::Int64(x)) => Some(*x as i128),
        Some(Value::UInt32(x)) => Some(*x as i128),
        Some(Value::UInt64(x)) => if *x <= 0x7fff_ffff_ffff_ffff {
            Some(*x as i128)
        } else {
            None
        },
        _ => None,
    }
}

/// The difference of two integer cells of type `inner`.
fn difference(a: &Option<Value>, b: &Option<Value>, inner: ScalarType) -> (r: Option<Value>)
    ensures
        r == int_difference(*a, *b, inner),
        r.is_some() ==> r.unwrap().dtype_spec() == if inner == ScalarType::Int32 {
            ScalarType::Int32
        } else {
            ScalarType::Int64
        },
{
    match (operand_of(a), operand_of(b)) {
        (Some(x), Some(y)) => {
            let d: i128 = x - y;
            if inner == ScalarType::Int32 {
                Some(Value::Int32(wrap_signed(d, false) as i32))
            } else {
                Some(Value::Int64(wrap_signed(d, true)))
            }
        },
        _ => None,
    }
}

/// Takes the differences of the row of integers between `start` and `end`
/// of a buffer at a lag of `n`.
pub fn diff_range(
    values: &Vec<Option<Value>>,
    start: usize,
    end: usize,
    inner: ScalarType,
    n: i64,
    behavior: NullBehavior,
) -> (out: Vec<Option<Value>>)
    requires
        start <= end <= values@.len(),
        inner.is_integer_spec(),
        !diff_is_outside(inner, behavior),
        behavior == NullBehavior::Drop ==> n > 0,
    ensures
        out@ == int_diff(values@.subrange(start as int, end as int), inner, n as int, behavior),
        conforms(out@, diff_dtype(inner, behavior)),
{
    let len = end - start;
    let ghost row = values@.subrange(start as int, end as int);
    let dropping = match behavior {
        NullBehavior::Drop => true,
        NullBehavior::Ignore => false,
    };
    let count = if !dropping {
        len
    } else if n as u64 <= len as u64 {
        len - n as usize
    } else {
        0
    };
    let mut out: Vec<Option<Value>> = Vec::with_capacity(count);
    let mut k: usize = 0;
    while k < count
        invariant
            start <= end <= values@.len(),
            len == end - start,
            row == values@.subrange(start as int, end as int),
            inner.is_integer_spec(),
            !diff_is_outside(inner, behavior),
            dropping == (behavior == NullBehavior::Drop),
            dropping ==> n > 0,
            count == int_diff(row, inner, n as int, behavior).len(),
            count <= len,
            dropping ==> count + n <= len || count == 0,
            k <= count,
            out@.len() == k,
            forall|j: int| 0 <= j < k ==> out@[j] == int_diff(row, inner, n as int, behavior)[j],
            forall|j: int|
                0 <= j < k && out@[j].is_some() ==> (#[trigger] out@[j]).unwrap().dtype_spec() == diff_dtype(
                    inner,
                    behavior,
                ),
        decreases count - k,
    {
        let cell = if dropping {
            let later = k + n as usize;
            assert(row[k + n] == values@[start + later]);
            assert(row[k as int] == values@[start + k]);
            difference(&values[start + later], &values[start + k], inner)
        } else {
            let from: i128 = k as i128 - n as i128;
            if 0 <= from && from < len as i128 {
                assert(row[k as int] == values@[start + k]);
                assert(row[from as int] == values@[start + from]);
                difference(&values[start + k], &values[start + from as usize], inner)
            } else {
                None
            }
        };
        out.push(cell);
        k += 1;
    }
    assert(out@ =~= int_diff(row, inner, n as int, behavior));
    out
}

/// The type of the differences of cells of type `inner`: unsigned integers
/// give signed 64-bit differences (64-bit floats for 64-bit unsigned
/// integers when leading nulls are dropped); every other numeric type gives
/// differences of its own type.
pub open spec fn diff_dtype(inner: ScalarType, behavior: NullBehavior) -> ScalarType {
    match inner {
        ScalarType::UInt32 => ScalarType::Int64,
        ScalarType::UInt64 => if behavior == NullBehavior::Drop {
            ScalarType::Float64
        } else {
            ScalarType::Int64
        },
        t => t,
    }
}

/// The lag that is handed to the outside difference: `n`, but for the least
/// lag of all, which is replaced by the one above it.
pub open spec fn effective_lag(n: i64) -> i64 {
    if n == i64::MIN {
        (i64::MIN + 1) as i64
    } else {
        n
    }
}

/// Every cell of a subrange of a conforming buffer conforms.
pub proof fn lemma_conforms_subrange(cells: Seq<Option<Value>>, dtype: ScalarType, start: int, end: int)
    requires
        conforms(cells, dtype),
        0 <= start <= end <= cells.len(),
    ensures
        conforms(cells.subrange(start, end), dtype),
{
    assert forall|i: int| 0 <= i < end - start && cells.subrange(start, end)[i].is_some() implies (
    #[trigger] cells.subrange(start, end)[i]).unwrap().dtype_spec() == dtype by {
        assert(cells.subrange(start, end)[i] == cells[start + i]);
    }
}

} // verus!
