use vstd::prelude::*;
use crate::datatypes::{conforms, duplicate_cell, ScalarType, Value};

verus! {

/// A named, typed, nullable flat column.
#[derive(Debug)]
pub struct Column {
    pub name: String,
    pub dtype: ScalarType,
    pub values: Vec<Option<Value>>,
}

impl View for Column {
    type V = Seq<Option<Value>>;

    open spec fn view(&self) -> Seq<Option<Value>> {
        self.values@
    }
}

/// How many cells of `cells` are null.
pub open spec fn null_count_of<T>(cells: Seq<Option<T>>) -> nat
    decreases cells.len(),
{
    if cells.len() == 0 {
        0
    } else {
        null_count_of(cells.drop_last()) + if cells.last().is_none() {
            1nat
        } else {
            0nat
        }
    }
}

/// Copies a buffer of cells.
pub fn duplicate_cells(cells: &Vec<Option<Value>>) -> (r: Vec<Option<Value>>)
    ensures
        r@ == cells@,
{
    let mut out: Vec<Option<Value>> = Vec::with_capacity(cells.len());
    let mut i: usize = 0;
    while i < cells.len()
        invariant
            i <= cells@.len(),
            out@ == cells@.subrange(0, i as int),
        decreases cells@.len() - i,
    {
        out.push(duplicate_cell(&cells[i]));
        assert(out@ == cells@.subrange(0, i + 1));
        i += 1;
    }
    assert(cells@.subrange(0, cells@.len() as int) == cells@);
    out
}

/// Whether every non-null cell of `cells` has type `dtype`.
pub fn check_conforms(cells: &Vec<Option<Value>>, dtype: ScalarType) -> (r: bool)
    ensures
        r == conforms(cells@, dtype),
{
    let mut i: usize = 0;
    while i < cells.len()
        invariant
            i <= cells@.len(),
            conforms(cells@.subrange(0, i as int), dtype),
        decreases cells@.len() - i,
    {
        if let Some(v) = &cells[i] {
            if v.dtype() != dtype {
                assert(cells@[i as int].is_some());
                return false;
            }
        }
        assert forall|j: int| 0 <= j < i + 1 && cells@.subrange(0, i + 1)[j].is_some() implies (
        #[trigger] cells@.subrange(0, i + 1)[j]).unwrap().dtype_spec() == dtype by {
            if j < i {
                assert(cells@.subrange(0, i as int)[j] == cells@[j]);
            }
        }
        i += 1;
    }
    assert(cells@.subrange(0, cells@.len() as int) == cells@);
    true
}

impl Column {
    /// Every non-null cell has the column's type.
    pub open spec fn wf(&self) -> bool {
        conforms(self.values@, self.dtype)
    }

    /// Builds a column, or `None` when some cell is not of type `dtype`.
    pub fn new(name: &str, dtype: ScalarType, values: Vec<Option<Value>>) -> (r: Option<Column>)
        ensures
            r.is_some() == conforms(values@, dtype),
            r.is_some() ==> {
                let c = r.unwrap();
                c.wf() && c.name@ == name@ && c.dtype == dtype && c.values@ == values@
            },
    {
        if check_conforms(&values, dtype) {
            Some(Column { name: name.to_owned(), dtype, values })
        } else {
            None
        }
    }

    /// The number of cells.
    pub fn len(&self) -> (r: usize)
        ensures
            r == self@.len(),
    {
        self.values.len()
    }

    /// The number of null cells.
    pub fn null_count(&self) -> (r: usize)
        ensures
            r == null_count_of(self@),
    {
        let mut n: usize = 0;
        let mut i: usize = 0;
        while i < self.values.len()
            invariant
                i <= self.values@.len(),
                n == null_count_of(self.values@.subrange(0, i as int)),
                n <= i,
            decreases self.values@.len() - i,
        {
            assert(self.values@.subrange(0, i + 1).drop_last() == self.values@.subrange(0, i as int));
            if self.values[i].is_none() {
                n += 1;
            }
            i += 1;
        }
        assert(self.values@.subrange(0, self.values@.len() as int) == self.values@);
        n
    }

    /// A copy of this column.
    pub fn duplicate(&self) -> (r: Column)
        ensures
            r@ == self@,
            r.dtype == self.dtype,
            r.name@ == self.name@,
            self.wf() ==> r.wf(),
    {
        Column { name: self.name.clone(), dtype: self.dtype, values: duplicate_cells(&self.values) }
    }

}

impl Clone for Column {
    fn clone(&self) -> (r: Column)
        ensures
            r@ == self@,
            r.dtype == self.dtype,
            r.name@ == self.name@,
            self.wf() ==> r.wf(),
    {
        self.duplicate()
    }
}

} // verus!
