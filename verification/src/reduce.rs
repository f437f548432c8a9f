use vstd::prelude::*;
use crate::datatypes::{conforms, ScalarType, Value};
use crate::list::{ListChunked, Row};
use crate::outside::{
    fixed_mean, float_sum, has_mean, mean, mean_is_fixed, outside_extreme, outside_extreme_of,
};
use crate::rowwise::{float32_is_nan, float32_key, float64_is_nan, float64_key};
use crate::take::all_null;

verus! {

/// The integer that a boolean or integer cell stands for: `true` is one,
/// `false` is zero. A null cell, and a cell of another type, counts as zero.
pub open spec fn int_of(cell: Option<Value>) -> int {
    match cell {
        Some(Value::Boolean(b)) => if b {
            1
        } else {
            0
        },
        Some(Value::UInt32(x)) => x as int,
        Some(Value::UInt64(x)) => x as int,
        Some(Value::Int32(x)) => x as int,
        Some(Value::Int64(x)) => x as int,
        _ => 0,
    }
}

/// The mathematical sum of the non-null cells.
pub open spec fn total(cells: Seq<Option<Value>>) -> int
    decreases cells.len(),
{
    if cells.len() == 0 {
        0
    } else {
        total(cells.drop_last()) + int_of(cells.last())
    }
}

/// `t` reduced into the signed range of the given modulus, as two's
/// complement arithmetic does.
pub open spec fn signed_wrap(t: int, modulus: int) -> int {
    let r = t % modulus;
    if 2 * r < modulus {
        r
    } else {
        r - modulus
    }
}

/// The sum of a row of booleans or integers.
///
/// A row without a non-null cell has no sum. Booleans are counted, and
/// integers are added up and wrap around at the width of their type.
/// Strings have no sum. Floats are not summed here: see `is_sum_of`.
pub open spec fn sum_cell(cells: Seq<Option<Value>>, dtype: ScalarType) -> Option<Value> {
    if all_null(cells) {
        None
    } else {
        match dtype {
            ScalarType::Boolean => Some(Value::UInt64(total(cells) as u64)),
            ScalarType::UInt32 => Some(Value::UInt32((total(cells) % 0x1_0000_0000) as u32)),
            ScalarType::UInt64 => Some(Value::UInt64((total(cells) % 0x1_0000_0000_0000_0000) as u64)),
            ScalarType::Int32 => Some(Value::Int32(signed_wrap(total(cells), 0x1_0000_0000) as i32)),
            ScalarType::Int64 => Some(Value::Int64(signed_wrap(total(cells), 0x1_0000_0000_0000_0000) as i64)),
            _ => None,
        }
    }
}

/// Whether `cell` is a sum of a row of type `dtype`.
///
/// For every type but the floats there is one sum, `sum_cell`. A row of
/// floats is summed outside, in an order that is not fixed: its sum is some
/// float of its type, and null exactly if the row has no non-null cell.
pub open spec fn is_sum_of(cells: Seq<Option<Value>>, dtype: ScalarType, cell: Option<Value>) -> bool {
    if !dtype.is_float_spec() {
        cell == sum_cell(cells, dtype)
    } else if all_null(cells) {
        cell.is_none()
    } else {
        cell matches Some(v) && v.dtype_spec() == dtype
    }
}

/// The type of the sums of rows of type `inner`: booleans are counted in
/// unsigned 64-bit integers, every other type sums to itself.
pub open spec fn sum_dtype(inner: ScalarType) -> ScalarType {
    if inner == ScalarType::Boolean {
        ScalarType::UInt64
    } else {
        inner
    }
}

/// The sum of every row of booleans, integers or strings; null for a null
/// row.
pub open spec fn sum_spec(rows: Seq<Row>, inner: ScalarType) -> Seq<Option<Value>> {
    Seq::new(
        rows.len(),
        |i: int|
            match rows[i] {
                Some(row) => sum_cell(row, inner),
                None => None,
            },
    )
}

/// Whether `out` holds a sum of every row, and null for every null row.
pub open spec fn sums_of(rows: Seq<Row>, inner: ScalarType, out: Seq<Option<Value>>) -> bool {
    &&& out.len() == rows.len()
    &&& forall|i: int|
        0 <= i < rows.len() ==> match rows[i] {
            Some(row) => is_sum_of(row, inner, #[trigger] out[i]),
            None => out[i].is_none(),
        }
}

/// The type of the means of a column: 32-bit floats if `narrow` is set, and
/// 64-bit floats otherwise.
pub open spec fn mean_dtype(narrow: bool) -> ScalarType {
    if narrow {
        ScalarType::Float32
    } else {
        ScalarType::Float64
    }
}

/// The mean of a row of type `dtype` whose cells decide it: every type but
/// the 64-bit floats.
///
/// A row without a non-null cell, and a row of strings, has no mean. Every
/// other row has the mean that the outside mean gives.
pub open spec fn mean_cell(cells: Seq<Option<Value>>, dtype: ScalarType, narrow: bool) -> Option<Value> {
    if all_null(cells) || !has_mean(dtype) {
        None
    } else {
        fixed_mean(cells, dtype, narrow)
    }
}

/// Whether `cell` is a mean of a row of type `dtype`.
///
/// A row without a non-null cell, and a row of strings, has no mean. Every
/// other row has a mean, a float of the type that `narrow` asks for. For
/// every type but the 64-bit floats there is one mean, `mean_cell`. A row of
/// 64-bit floats is averaged by a sum whose order is not fixed: its mean is
/// some float.
pub open spec fn is_mean_of(cells: Seq<Option<Value>>, dtype: ScalarType, narrow: bool, cell: Option<Value>) -> bool {
    if all_null(cells) || !has_mean(dtype) {
        cell.is_none()
    } else {
        &&& cell matches Some(v) && v.dtype_spec() == mean_dtype(narrow)
        &&& mean_is_fixed(dtype) ==> cell == mean_cell(cells, dtype, narrow)
    }
}

/// The mean of every row of a type whose cells decide it; null for a null
/// row.
pub open spec fn mean_spec(rows: Seq<Row>, inner: ScalarType, narrow: bool) -> Seq<Option<Value>> {
    Seq::new(
        rows.len(),
        |i: int|
            match rows[i] {
                Some(row) => mean_cell(row, inner, narrow),
                None => None,
            },
    )
}

/// Whether `out` holds a mean of every row, and null for every null row.
pub open spec fn means_of(rows: Seq<Row>, inner: ScalarType, narrow: bool, out: Seq<Option<Value>>) -> bool {
    &&& out.len() == rows.len()
    &&& forall|i: int|
        0 <= i < rows.len() ==> match rows[i] {
            Some(row) => is_mean_of(row, inner, narrow, #[trigger] out[i]),
            None => out[i].is_none(),
        }
}

/// The sum of a slice of the prefix of a longer slice.
proof fn lemma_total_step(cells: Seq<Option<Value>>, start: int, k: int)
    requires
        0 <= start <= k < cells.len(),
    ensures
        total(cells.subrange(start, k + 1)) == total(cells.subrange(start, k)) + int_of(cells[k]),
{
    assert(cells.subrange(start, k + 1).drop_last() == cells.subrange(start, k));
}

/// The exact sum of the boolean and unsigned cells between `start` and `end`.
fn total_unsigned(values: &Vec<Option<Value>>, start: usize, end: usize) -> (t: u128)
    requires
        start <= end <= values@.len(),
        forall|j: int| start <= j < end ==> 0 <= int_of(#[trigger] values@[j]) <= u64::MAX,
    ensures
        t == total(values@.subrange(start as int, end as int)),
        t <= (end - start) * u64::MAX,
{
    let mut acc: u128 = 0;
    let mut k: usize = start;
    while k < end
        invariant
            start <= k <= end <= values@.len(),
            forall|j: int| start <= j < end ==> 0 <= int_of(#[trigger] values@[j]) <= u64::MAX,
            acc == total(values@.subrange(start as int, k as int)),
            acc <= (k - start) * u64::MAX,
        decreases end - k,
    {
        proof {
            lemma_total_step(values@, start as int, k as int);
            assert(0 <= int_of(values@[k as int]) <= u64::MAX);
        }
        let x: u128 = match &values[k] {
            Some(Value::Boolean(b)) => if *b {
                1
            } else {
                0
            },
            Some(Value::UInt32(x)) => *x as u128,
            Some(Value::UInt64(x)) => *x as u128,
            Some(Value::Int32(x)) => if *x >= 0 {
                *x as u128
            } else {
                0
            },
            Some(Value::Int64(x)) => if *x >= 0 {
                *x as u128
            } else {
                0
            },
            _ => 0,
        };
        assert(x == int_of(values@[k as int]));
        assert((k - start) * u64::MAX + u64::MAX == (k + 1 - start) * u64::MAX) by (nonlinear_arith);
        assert((k + 1 - start) * u64::MAX <= usize::MAX * u64::MAX) by (nonlinear_arith)
            requires
                k + 1 - start <= usize::MAX,
        ;
        acc = acc + x;
        k += 1;
    }
    acc
}

/// The exact sum of the signed cells between `start` and `end`.
fn total_signed(values: &Vec<Option<Value>>, start: usize, end: usize) -> (t: i128)
    requires
        start <= end <= values@.len(),
        forall|j: int| start <= j < end ==> i64::MIN <= int_of(#[trigger] values@[j]) <= i64::MAX,
    ensures
        t == total(values@.subrange(start as int, end as int)),
{
    let mut acc: i128 = 0;
    let mut k: usize = start;
    while k < end
        invariant
            start <= k <= end <= values@.len(),
            forall|j: int| start <= j < end ==> i64::MIN <= int_of(#[trigger] values@[j]) <= i64::MAX,
            acc == total(values@.subrange(start as int, k as int)),
            (k - start) * i64::MIN <= acc <= (k - start) * i64::MAX,
        decreases end - k,
    {
        proof {
            lemma_total_step(values@, start as int, k as int);
            assert(i64::MIN <= int_of(values@[k as int]) <= i64::MAX);
        }
        let x: i128 = match &values[k] {
            Some(Value::Boolean(b)) => if *b {
                1
            } else {
                0
            },
            Some(Value::UInt32(x)) => *x as i128,
            Some(Value::UInt64(x)) => if *x <= 0x7fff_ffff_ffff_ffff {
                *x as i128
            } else {
                0
            },
            Some(Value::Int32(x)) => *x as i128,
            Some(Value::Int64(x)) => *x as i128,
            _ => 0,
        };
        assert(x == int_of(values@[k as int]));
        assert((k - start) * i64::MAX + i64::MAX == (k + 1 - start) * i64::MAX) by (nonlinear_arith);
        assert((k - start) * i64::MIN + i64::MIN == (k + 1 - start) * i64::MIN) by (nonlinear_arith);
        assert((k + 1 - start) * i64::MAX <= usize::MAX * i64::MAX) by (nonlinear_arith)
            requires
                k + 1 - start <= usize::MAX,
        ;
        assert((k + 1 - start) * i64::MIN >= usize::MAX * i64::MIN) by (nonlinear_arith)
            requires
                k + 1 - start <= usize::MAX,
        ;
        acc = acc + x;
        k += 1;
    }
    acc
}

/// The remainder of a negative number, from the remainder of a non-negative
/// one.
proof fn lemma_negative_remainder(t: int, m: int)
    requires
        t < 0,
        m > 0,
    ensures
        t % m == m - 1 - ((-(t + 1)) % m),
{
    let u = -(t + 1);
    let q = u / m;
    let back = u % m;
    vstd::arithmetic::div_mod::lemma_fundamental_div_mod(u, m);
    vstd::arithmetic::div_mod::lemma_mod_bound(u, m);
    assert(t == (-(q + 1)) * m + (m - 1 - back)) by (nonlinear_arith)
        requires
            u == m * q + back,
            t == -u - 1,
    ;
    vstd::arithmetic::div_mod::lemma_fundamental_div_mod_converse(t, m, -(q + 1), m - 1 - back);
}

/// `t` reduced into the signed range of 32 bits, or of 64 bits if `wide` is
/// set.
pub fn wrap_signed(t: i128, wide: bool) -> (r: i64)
    ensures
        r == signed_wrap(
            t as int,
            if wide {
                0x1_0000_0000_0000_0000
            } else {
                0x1_0000_0000
            },
        ),
        !wide ==> i32::MIN <= r <= i32::MAX,
{
    let modulus: i128 = if wide {
        0x1_0000_0000_0000_0000
    } else {
        0x1_0000_0000
    };
    let low: i128 = if t >= 0 {
        t % modulus
    } else {
        proof {
            lemma_negative_remainder(t as int, modulus as int);
            vstd::arithmetic::div_mod::lemma_mod_bound(-(t + 1), modulus as int);
        }
        let back: i128 = (-(t + 1)) % modulus;
        modulus - 1 - back
    };
    proof {
        vstd::arithmetic::div_mod::lemma_mod_bound(t as int, modulus as int);
    }
    assert(low == (t as int) % (modulus as int));
    if 2 * low < modulus {
        low as i64
    } else {
        (low - modulus) as i64
    }
}

/// Whether no cell between `start` and `end` is non-null.
pub fn range_all_null(values: &Vec<Option<Value>>, start: usize, end: usize) -> (r: bool)
    requires
        start <= end <= values@.len(),
    ensures
        r == all_null(values@.subrange(start as int, end as int)),
{
    let mut k: usize = start;
    while k < end
        invariant
            start <= k <= end <= values@.len(),
            forall|j: int| start <= j < k ==> values@[j].is_none(),
        decreases end - k,
    {
        if values[k].is_some() {
            assert(values@.subrange(start as int, end as int)[k - start].is_some());
            return false;
        }
        k += 1;
    }
    true
}

/// Copies the cells between `start` and `end`.
pub fn copy_range(values: &Vec<Option<Value>>, start: usize, end: usize) -> (out: Vec<Option<Value>>)
    requires
        start <= end <= values@.len(),
    ensures
        out@ == values@.subrange(start as int, end as int),
{
    let mut out: Vec<Option<Value>> = Vec::with_capacity(end - start);
    let mut k: usize = start;
    while k < end
        invariant
            start <= k <= end <= values@.len(),
            out@ == values@.subrange(start as int, k as int),
        decreases end - k,
    {
        out.push(crate::datatypes::duplicate_cell(&values[k]));
        assert(out@ == values@.subrange(start as int, k + 1));
        k += 1;
    }
    out
}

/// The sum of the row between `start` and `end` of the value buffer.
///
/// With `null_free` set the caller vouches that the buffer holds no null
/// cell; the row is then not scanned for one.
pub fn sum_range(ca: &ListChunked, start: usize, end: usize, null_free: bool) -> (r: Option<Value>)
    requires
        ca.wf(),
        start <= end <= ca.values@.len(),
        null_free ==> forall|j: int| 0 <= j < ca.values@.len() ==> ca.values@[j].is_some(),
    ensures
        is_sum_of(ca.values@.subrange(start as int, end as int), ca.inner, r),
        r.is_some() ==> r.unwrap().dtype_spec() == sum_dtype(ca.inner),
{
    let ghost row = ca.values@.subrange(start as int, end as int);
    let empty = if null_free {
        proof {
            if start < end {
                assert(row[0] == ca.values@[start as int]);
            }
        }
        start == end
    } else {
        range_all_null(&ca.values, start, end)
    };
    if empty {
        return None;
    }
    assert forall|j: int| start <= j < end implies match ca.inner {
        ScalarType::Int32 | ScalarType::Int64 => i64::MIN <= int_of(#[trigger] ca.values@[j]) <= i64::MAX,
        _ => 0 <= int_of(ca.values@[j]) <= u64::MAX,
    } by {
        if ca.values@[j].is_some() {
            assert(ca.values@[j].unwrap().dtype_spec() == ca.inner);
        }
    }
    match ca.inner {
        ScalarType::Boolean => {
            let t = total_unsigned(&ca.values, start, end);
            proof {
                lemma_total_bound(row);
            }
            Some(Value::UInt64(t as u64))
        },
        ScalarType::UInt32 => {
            let t = total_unsigned(&ca.values, start, end);
            Some(Value::UInt32((t % 0x1_0000_0000) as u32))
        },
        ScalarType::UInt64 => {
            let t = total_unsigned(&ca.values, start, end);
            Some(Value::UInt64((t % 0x1_0000_0000_0000_0000) as u64))
        },
        ScalarType::Int32 => {
            let t = total_signed(&ca.values, start, end);
            Some(Value::Int32(wrap_signed(t, false) as i32))
        },
        ScalarType::Int64 => {
            let t = total_signed(&ca.values, start, end);
            Some(Value::Int64(wrap_signed(t, true)))
        },
        ScalarType::Float32 | ScalarType::Float64 => {
            let cells = copy_range(&ca.values, start, end);
            proof {
                crate::rowwise::lemma_conforms_subrange(ca.values@, ca.inner, start as int, end as int);
            }
            float_sum(&cells, ca.inner)
        },
        ScalarType::Utf8 => None,
    }
}

/// A row of booleans holds at most as many `true` as it has cells.
pub proof fn lemma_total_bound(cells: Seq<Option<Value>>)
    requires
        forall|j: int| 0 <= j < cells.len() ==> 0 <= int_of(#[trigger] cells[j]) <= 1,
    ensures
        0 <= total(cells) <= cells.len(),
    decreases cells.len(),
{
    if cells.len() > 0 {
        assert forall|j: int| 0 <= j < cells.drop_last().len() implies 0 <= int_of(#[trigger] cells.drop_last()[j])
            <= 1 by {
            assert(cells.drop_last()[j] == cells[j]);
        }
        lemma_total_bound(cells.drop_last());
        assert(cells.last() == cells[cells.len() - 1]);
    }
}

/// The position of the least cell of a row, or of the largest if `largest`
/// is set; the first such position where several cells tie. Null cells are
/// passed over, and a row without a non-null cell has no such position.
/// Cells compare by the integers they stand for.
pub open spec fn arg_extreme(cells: Seq<Option<Value>>, largest: bool) -> Option<int>
    decreases cells.len(),
{
    if cells.len() == 0 {
        None
    } else {
        let before = arg_extreme(cells.drop_last(), largest);
        if cells.last().is_none() {
            before
        } else {
            match before {
                None => Some(cells.len() - 1),
                Some(p) => if (largest && int_of(cells[p]) < int_of(cells.last())) || (!largest && int_of(
                    cells.last(),
                ) < int_of(cells[p])) {
                    Some(cells.len() - 1)
                } else {
                    Some(p)
                },
            }
        }
    }
}

/// The extreme position lies in the row, holds a non-null cell, and no
/// non-null cell of the row beats the cell it holds.
pub proof fn lemma_arg_extreme(cells: Seq<Option<Value>>, largest: bool)
    ensures
        arg_extreme(cells, largest).is_none() <==> all_null(cells),
        arg_extreme(cells, largest) matches Some(p) ==> {
            &&& 0 <= p < cells.len()
            &&& cells[p].is_some()
            &&& forall|j: int|
                0 <= j < cells.len() && cells[j].is_some() ==> if largest {
                    int_of(#[trigger] cells[j]) <= int_of(cells[p])
                } else {
                    int_of(cells[p]) <= int_of(cells[j])
                }
            &&& forall|j: int| 0 <= j < p && cells[j].is_some() ==> int_of(#[trigger] cells[j]) != int_of(cells[p])
        },
    decreases cells.len(),
{
    if cells.len() > 0 {
        let front = cells.drop_last();
        lemma_arg_extreme(front, largest);
        assert forall|j: int| 0 <= j < front.len() implies front[j] == cells[j] by {}
        if all_null(cells) {
            assert forall|j: int| 0 <= j < front.len() implies front[j].is_none() by {
                assert(cells[j].is_none());
            }
        }
        if all_null(front) && cells.last().is_none() {
            assert forall|j: int| 0 <= j < cells.len() implies cells[j].is_none() by {
                if j < front.len() {
                    assert(front[j].is_none());
                }
            }
        }
        match arg_extreme(cells, largest) {
            Some(p) => {
                assert forall|j: int| 0 <= j < cells.len() && cells[j].is_some() implies if largest {
                    int_of(#[trigger] cells[j]) <= int_of(cells[p])
                } else {
                    int_of(cells[p]) <= int_of(cells[j])
                } by {
                    if j < front.len() {
                        assert(front[j].is_some());
                    }
                }
                assert forall|j: int| 0 <= j < p && cells[j].is_some() implies int_of(#[trigger] cells[j]) != int_of(
                    cells[p],
                ) by {
                    assert(front[j].is_some());
                }
            },
            None => {},
        }
    }
}

/// The integer that an ordered cell stands for.
fn key_of(v: &Value) -> (k: i128)
    ensures
        k == int_of(Some(*v)),
{
    match v {
        Value::Boolean(b) => if *b {
            1
        } else {
            0
        },
        Value::UInt32(x) => *x as i128,
        Value::UInt64(x) => *x as i128,
        Value::Int32(x) => *x as i128,
        Value::Int64(x) => *x as i128,
        _ => 0,
    }
}

/// Finds the extreme position of the row between `start` and `end` of the
/// value buffer, counted from the start of the row.
pub fn arg_extreme_range(values: &Vec<Option<Value>>, start: usize, end: usize, largest: bool) -> (r: Option<
    usize,
>)
    requires
        start <= end <= values@.len(),
    ensures
        match arg_extreme(values@.subrange(start as int, end as int), largest) {
            Some(p) => r == Some(p as usize) && 0 <= p < end - start,
            None => r.is_none(),
        },
{
    let mut best: Option<usize> = None;
    let mut best_key: i128 = 0;
    let mut k: usize = start;
    while k < end
        invariant
            start <= k <= end <= values@.len(),
            match arg_extreme(values@.subrange(start as int, k as int), largest) {
                Some(p) => best == Some(p as usize) && 0 <= p < k - start && best_key == int_of(
                    values@[start + p],
                ),
                None => best.is_none(),
            },
        decreases end - k,
    {
        proof {
            let next = values@.subrange(start as int, k + 1);
            assert(next.drop_last() == values@.subrange(start as int, k as int));
            assert(next.last() == values@[k as int]);
            assert forall|p: int| 0 <= p < k + 1 - start implies next[p] == values@[start + p] by {}
        }
        if let Some(v) = &values[k] {
            let key = key_of(v);
            let better = match best {
                None => true,
                Some(_) => (largest && best_key < key) || (!largest && key < best_key),
            };
            if better {
                best = Some(k - start);
                best_key = key;
            }
        }
        k += 1;
    }
    best
}

/// Whether a cell holds the value `v`: the same number for a float, where
/// the two zeros are one number and all that is no number counts as one;
/// the same text for a string. A null cell holds no value.
pub open spec fn same_cell(cell: Option<Value>, v: Value) -> bool {
    match (cell, v) {
        (Some(Value::Float32(x)), Value::Float32(y)) => if float32_is_nan(x) || float32_is_nan(y) {
            float32_is_nan(x) && float32_is_nan(y)
        } else {
            float32_key(x) == float32_key(y)
        },
        (Some(Value::Float64(x)), Value::Float64(y)) => if float64_is_nan(x) || float64_is_nan(y) {
            float64_is_nan(x) && float64_is_nan(y)
        } else {
            float64_key(x) == float64_key(y)
        },
        (Some(Value::Utf8(x)), Value::Utf8(y)) => x@ == y@,
        _ => false,
    }
}

/// The first position of a row at which the cell holds `v`.
pub open spec fn first_same(cells: Seq<Option<Value>>, v: Value) -> Option<int>
    decreases cells.len(),
{
    if cells.len() == 0 {
        None
    } else {
        match first_same(cells.drop_last(), v) {
            Some(p) => Some(p),
            None => if same_cell(cells.last(), v) {
                Some(cells.len() - 1)
            } else {
                None
            },
        }
    }
}

/// The extreme cell of a row of type `dtype`: the least, or the largest if
/// `largest` is set.
///
/// Booleans and integers compare by the integers they stand for. Floats and
/// strings are compared by the outside minimum and maximum. A row without
/// a non-null cell has no extreme.
pub open spec fn extreme_cell(cells: Seq<Option<Value>>, dtype: ScalarType, largest: bool) -> Option<Value> {
    if dtype.is_ordered_spec() {
        match arg_extreme(cells, largest) {
            Some(p) => cells[p],
            None => None,
        }
    } else if all_null(cells) {
        None
    } else {
        outside_extreme_of(cells, dtype, largest)
    }
}

/// The position of the extreme cell of a row of type `dtype`; the first one
/// where several cells hold the extreme.
pub open spec fn extreme_position(cells: Seq<Option<Value>>, dtype: ScalarType, largest: bool) -> Option<int> {
    if dtype.is_ordered_spec() {
        arg_extreme(cells, largest)
    } else {
        match extreme_cell(cells, dtype, largest) {
            Some(v) => first_same(cells, v),
            None => None,
        }
    }
}

/// Whether a cell holds the value `v`.
fn is_same_cell(cell: &Option<Value>, v: &Value) -> (r: bool)
    ensures
        r == same_cell(*cell, *v),
{
    match (cell, v) {
        (Some(Value::Float32(x)), Value::Float32(y)) => {
            let x_nan = *x % 0x8000_0000 > 0x7f80_0000;
            let y_nan = *y % 0x8000_0000 > 0x7f80_0000;
            if x_nan || y_nan {
                x_nan && y_nan
            } else {
                // Without their sign bits two patterns of zero are equal; all
                // other numbers have one pattern each.
                *x == *y || (*x % 0x8000_0000 == 0 && *y % 0x8000_0000 == 0)
            }
        },
        (Some(Value::Float64(x)), Value::Float64(y)) => {
            let x_nan = *x % 0x8000_0000_0000_0000 > 0x7ff0_0000_0000_0000;
            let y_nan = *y % 0x8000_0000_0000_0000 > 0x7ff0_0000_0000_0000;
            if x_nan || y_nan {
                x_nan && y_nan
            } else {
                *x == *y || (*x % 0x8000_0000_0000_0000 == 0 && *y % 0x8000_0000_0000_0000 == 0)
            }
        },
        (Some(Value::Utf8(x)), Value::Utf8(y)) => *x == *y,
        _ => false,
    }
}

/// Finds the first position between `start` and `end` of a buffer at which
/// the cell holds `v`, counted from `start`.
fn first_same_range(values: &Vec<Option<Value>>, start: usize, end: usize, v: &Value) -> (r: Option<usize>)
    requires
        start <= end <= values@.len(),
    ensures
        match first_same(values@.subrange(start as int, end as int), *v) {
            Some(p) => r == Some(p as usize) && 0 <= p < end - start,
            None => r.is_none(),
        },
{
    let mut k: usize = start;
    while k < end
        invariant
            start <= k <= end <= values@.len(),
            first_same(values@.subrange(start as int, k as int), *v).is_none(),
        decreases end - k,
    {
        proof {
            let next = values@.subrange(start as int, k + 1);
            assert(next.drop_last() == values@.subrange(start as int, k as int));
            assert(next.last() == values@[k as int]);
        }
        if is_same_cell(&values[k], v) {
            proof {
                lemma_first_same_stays(values@, start as int, k + 1, end as int, *v);
            }
            return Some(k - start);
        }
        k += 1;
    }
    None
}

/// A position found in a part of a row from its start on is the position
/// found in the whole row.
proof fn lemma_first_same_stays(values: Seq<Option<Value>>, start: int, mid: int, end: int, v: Value)
    requires
        0 <= start <= mid <= end <= values.len(),
        first_same(values.subrange(start, mid), v).is_some(),
    ensures
        first_same(values.subrange(start, end), v) == first_same(values.subrange(start, mid), v),
    decreases end - mid,
{
    if mid < end {
        lemma_first_same_stays(values, start, mid, end - 1, v);
        assert(values.subrange(start, end).drop_last() == values.subrange(start, end - 1));
    }
}

/// Finds the extreme cell of the row between `start` and `end` of the value
/// buffer, and its position counted from the start of the row.
pub fn extreme_range(ca: &ListChunked, start: usize, end: usize, largest: bool) -> (r: (Option<usize>, Option<Value>))
    requires
        ca.wf(),
        start <= end <= ca.values@.len(),
    ensures
        r.1 == extreme_cell(ca.values@.subrange(start as int, end as int), ca.inner, largest),
        match extreme_position(ca.values@.subrange(start as int, end as int), ca.inner, largest) {
            Some(p) => r.0 == Some(p as usize) && 0 <= p < end - start,
            None => r.0.is_none(),
        },
        r.1.is_some() ==> r.1.unwrap().dtype_spec() == ca.inner,
{
    let ghost row = ca.values@.subrange(start as int, end as int);
    if ca.inner.is_ordered() {
        match arg_extreme_range(&ca.values, start, end, largest) {
            Some(p) => {
                assert(row[p as int] == ca.values@[start + p]);
                (Some(p), crate::datatypes::duplicate_cell(&ca.values[start + p]))
            },
            None => (None, None),
        }
    } else if range_all_null(&ca.values, start, end) {
        (None, None)
    } else {
        let cells = copy_range(&ca.values, start, end);
        proof {
            crate::rowwise::lemma_conforms_subrange(ca.values@, ca.inner, start as int, end as int);
            if start == end {
                assert(all_null(row));
            }
        }
        match outside_extreme(&cells, ca.inner, largest) {
            Some(v) => {
                let position = first_same_range(&ca.values, start, end, &v);
                (position, Some(v))
            },
            None => (None, None),
        }
    }
}

/// The position of the extreme cell of every row, as an unsigned 64-bit
/// integer; null for a null row and for a row without an extreme.
pub open spec fn arg_extreme_spec(rows: Seq<Row>, inner: ScalarType, largest: bool) -> Seq<Option<Value>> {
    Seq::new(
        rows.len(),
        |i: int|
            match rows[i] {
                Some(row) => match extreme_position(row, inner, largest) {
                    Some(p) => Some(Value::UInt64(p as u64)),
                    None => None,
                },
                None => None,
            },
    )
}

/// The extreme cell of every row; null for a null row and for a row without
/// an extreme.
pub open spec fn extreme_spec(rows: Seq<Row>, inner: ScalarType, largest: bool) -> Seq<Option<Value>> {
    Seq::new(
        rows.len(),
        |i: int|
            match rows[i] {
                Some(row) => extreme_cell(row, inner, largest),
                None => None,
            },
    )
}

/// The mean of the row between `start` and `end` of the value buffer: a
/// 64-bit float, or a 32-bit float if `narrow` is set.
pub fn mean_range(ca: &ListChunked, start: usize, end: usize, narrow: bool) -> (r: Option<Value>)
    requires
        ca.wf(),
        start <= end <= ca.values@.len(),
        narrow ==> ca.inner == ScalarType::Float32,
    ensures
        is_mean_of(ca.values@.subrange(start as int, end as int), ca.inner, narrow, r),
{
    if !(ca.inner.is_numeric() || ca.inner == ScalarType::Boolean) || range_all_null(&ca.values, start, end) {
        return None;
    }
    let cells = copy_range(&ca.values, start, end);
    proof {
        crate::rowwise::lemma_conforms_subrange(ca.values@, ca.inner, start as int, end as int);
    }
    mean(&cells, ca.inner, narrow)
}

} // verus!
