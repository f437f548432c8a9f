use vstd::prelude::*;
use vstd::string::StringExecFns;
use crate::datatypes::{ScalarType, Value};
use crate::list::{ListChunked, Row};

verus! {

/// The text that a cell contributes to a joined row: its string, and the
/// word `null` for a null cell.
pub open spec fn cell_text(cell: Option<Value>) -> Seq<char> {
    match cell {
        Some(Value::Utf8(s)) => s@,
        _ => "null"@,
    }
}

/// The texts of the cells of a row with `separator` between neighbours. An
/// empty row gives the empty text; there is no separator at either end.
pub open spec fn joined(row: Seq<Option<Value>>, separator: Seq<char>) -> Seq<char>
    decreases row.len(),
{
    if row.len() == 0 {
        Seq::empty()
    } else if row.len() == 1 {
        cell_text(row[0])
    } else {
        joined(row.drop_last(), separator) + separator + cell_text(row.last())
    }
}

/// Whether cell `i` of the outcome of a join is right for row `i`: null for a
/// null row, else a string that reads as the joined row.
pub open spec fn joined_cell(row: Row, separator: Seq<char>, cell: Option<Value>) -> bool {
    match row {
        Some(r) => cell matches Some(Value::Utf8(s)) && s@ == joined(r, separator),
        None => cell.is_none(),
    }
}

/// Joins the cells between `start` and `end` of the value buffer.
pub fn join_range(ca: &ListChunked, start: usize, end: usize, separator: &str) -> (s: String)
    requires
        start <= end <= ca.values@.len(),
    ensures
        s@ == joined(ca.values@.subrange(start as int, end as int), separator@),
{
    let mut buf = String::new();
    let mut k: usize = start;
    while k < end
        invariant
            start <= k <= end <= ca.values@.len(),
            buf@ == joined(ca.values@.subrange(start as int, k as int), separator@),
        decreases end - k,
    {
        proof {
            let next = ca.values@.subrange(start as int, k + 1);
            assert(next.drop_last() == ca.values@.subrange(start as int, k as int));
            assert(next.last() == ca.values@[k as int]);
            assert(Seq::<char>::empty() + cell_text(ca.values@[k as int]) == cell_text(ca.values@[k as int]));
        }
        if k > start {
            buf.append(separator);
        }
        match &ca.values[k] {
            Some(Value::Utf8(text)) => {
                buf.append(text.as_str());
            },
            _ => {
                buf.append("null");
            },
        }
        k += 1;
    }
    buf
}

} // verus!
