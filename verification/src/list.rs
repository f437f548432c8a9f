use vstd::prelude::*;
use crate::column::{check_conforms, duplicate_cells, Column};
use crate::datatypes::{conforms, duplicate_cell, DataType, ScalarType, Value};

verus! {

/// A named, nullable column whose rows are variable-length sequences of cells
/// of one scalar type.
///
/// Row `i` is the slice of `values` between `offsets[i]` and `offsets[i + 1]`;
/// `validity[i]` is false when the whole row is null.
#[derive(Debug)]
pub struct ListChunked {
    pub name: String,
    pub inner: ScalarType,
    pub offsets: Vec<usize>,
    pub validity: Vec<bool>,
    pub values: Vec<Option<Value>>,
}

/// One row of a list column: null, or a sequence of possibly-null cells.
pub type Row = Option<Seq<Option<Value>>>;

/// The offsets start at zero, never decrease, have one entry more than there
/// are rows, and end at the length of the value buffer.
pub open spec fn layout_ok(offsets: Seq<usize>, rows: nat, values_len: nat) -> bool {
    &&& offsets.len() == rows + 1
    &&& offsets[0] == 0
    &&& forall|i: int, j: int| 0 <= i <= j < offsets.len() ==> offsets[i] <= offsets[j]
    &&& offsets[rows as int] == values_len
}

/// The rows that the three buffers of a list column stand for.
pub open spec fn rows_of(offsets: Seq<usize>, validity: Seq<bool>, values: Seq<Option<Value>>) -> Seq<Row> {
    Seq::new(
        validity.len(),
        |i: int|
            if validity[i] {
                Some(values.subrange(offsets[i] as int, offsets[i + 1] as int))
            } else {
                None
            },
    )
}

/// A row held as a plain vector, seen as a sequence.
pub open spec fn view_row(row: Option<Vec<Option<Value>>>) -> Row {
    match row {
        Some(cells) => Some(cells@),
        None => None,
    }
}

/// The rows as plain nested vectors, seen as sequences.
pub open spec fn view_rows(rows: Seq<Option<Vec<Option<Value>>>>) -> Seq<Row> {
    Seq::new(rows.len(), |i: int| view_row(rows[i]))
}

/// The cells of the non-null rows, row after row.
pub open spec fn flat_cells(rows: Seq<Row>) -> Seq<Option<Value>>
    decreases rows.len(),
{
    if rows.len() == 0 {
        Seq::empty()
    } else {
        flat_cells(rows.drop_last()) + match rows.last() {
            Some(cells) => cells,
            None => Seq::empty(),
        }
    }
}

/// Every cell of every non-null row has type `dtype`.
pub open spec fn rows_conform(rows: Seq<Row>, dtype: ScalarType) -> bool {
    forall|i: int| 0 <= i < rows.len() && rows[i].is_some() ==> conforms((#[trigger] rows[i]).unwrap(), dtype)
}

impl View for ListChunked {
    type V = Seq<Row>;

    open spec fn view(&self) -> Seq<Row> {
        rows_of(self.offsets@, self.validity@, self.values@)
    }
}

impl ListChunked {
    /// The layout invariant of a list column.
    pub open spec fn wf(&self) -> bool {
        &&& layout_ok(self.offsets@, self.validity@.len(), self.values@.len())
        &&& conforms(self.values@, self.inner)
    }

    /// An empty column.
    pub fn new(name: &str, inner: ScalarType) -> (r: ListChunked)
        ensures
            r.wf(),
            r@.len() == 0,
            r.name@ == name@,
            r.inner == inner,
    {
        let mut offsets: Vec<usize> = Vec::new();
        offsets.push(0);
        ListChunked { name: name.to_owned(), inner, offsets, validity: Vec::new(), values: Vec::new() }
    }

    /// The number of rows.
    pub fn len(&self) -> (r: usize)
        ensures
            r == self@.len(),
    {
        self.validity.len()
    }

    /// The scalar type of the cells.
    pub fn inner_dtype(&self) -> (r: ScalarType)
        ensures
            r == self.inner,
    {
        self.inner
    }

    /// The column's type: a list of its inner type.
    pub fn dtype(&self) -> (r: DataType)
        ensures
            r == DataType::List(Box::new(DataType::Scalar(self.inner))),
    {
        DataType::List(Box::new(DataType::Scalar(self.inner)))
    }

    /// The total number of cells that the offsets span.
    pub fn get_values_size(&self) -> (r: usize)
        requires
            self.wf(),
        ensures
            r == self.offsets@[self@.len() as int] - self.offsets@[0],
            r == self.values@.len(),
    {
        self.offsets[self.validity.len()] - self.offsets[0]
    }

    /// A walk over the rows, from the first.
    pub fn amortized_iter(&self) -> (it: AmortizedListIter<'_>)
        requires
            self.wf(),
        ensures
            it.wf(),
            *it.ca == *self,
            it.position == 0,
    {
        AmortizedListIter { ca: self, position: 0 }
    }

    /// Whether row `i` is non-null.
    pub fn is_valid(&self, i: usize) -> (r: bool)
        requires
            i < self@.len(),
        ensures
            r == self@[i as int].is_some(),
    {
        self.validity[i]
    }

    /// Where row `i` starts and ends in the value buffer.
    pub fn bounds(&self, i: usize) -> (r: (usize, usize))
        requires
            self.wf(),
            i < self@.len(),
        ensures
            r.0 == self.offsets@[i as int],
            r.1 == self.offsets@[i + 1],
            r.0 <= r.1 <= self.values@.len(),
            self@[i as int].is_some() ==> self@[i as int].unwrap() == self.values@.subrange(
                r.0 as int,
                r.1 as int,
            ),
    {
        let rows = self.validity.len();
        (self.offsets[i], self.offsets[i + 1])
    }

    /// A copy of row `i`, or `None` for a null row.
    pub fn get(&self, i: usize) -> (r: Option<Vec<Option<Value>>>)
        requires
            self.wf(),
            i < self@.len(),
        ensures
            match self@[i as int] {
                Some(row) => r.is_some() && r.unwrap()@ == row,
                None => r.is_none(),
            },
            r.is_some() ==> conforms(r.unwrap()@, self.inner),
    {
        if !self.validity[i] {
            return None;
        }
        let (start, end) = self.bounds(i);
        let mut out: Vec<Option<Value>> = Vec::with_capacity(end - start);
        let mut k: usize = start;
        while k < end
            invariant
                start <= k <= end <= self.values@.len(),
                out@ == self.values@.subrange(start as int, k as int),
            decreases end - k,
        {
            out.push(duplicate_cell(&self.values[k]));
            assert(out@ == self.values@.subrange(start as int, k + 1));
            k += 1;
        }
        Some(out)
    }

    /// All rows as nested vectors.
    pub fn to_rows(&self) -> (r: Vec<Option<Vec<Option<Value>>>>)
        requires
            self.wf(),
        ensures
            view_rows(r@) == self@,
    {
        let mut out: Vec<Option<Vec<Option<Value>>>> = Vec::with_capacity(self.len());
        let mut i: usize = 0;
        while i < self.len()
            invariant
                self.wf(),
                i <= self@.len(),
                out@.len() == i,
                forall|j: int| 0 <= j < i ==> view_rows(out@)[j] == self@[j],
            decreases self@.len() - i,
        {
            let row = self.get(i);
            out.push(row);
            i += 1;
        }
        assert(view_rows(out@) =~= self@);
        out
    }

    /// A copy of this column.
    pub fn duplicate(&self) -> (r: ListChunked)
        ensures
            r@ == self@,
            r.name@ == self.name@,
            r.inner == self.inner,
            r.offsets@ == self.offsets@,
            r.validity@ == self.validity@,
            r.values@ == self.values@,
            self.wf() ==> r.wf(),
    {
        let r = ListChunked {
            name: self.name.clone(),
            inner: self.inner,
            offsets: self.offsets.clone(),
            validity: self.validity.clone(),
            values: duplicate_cells(&self.values),
        };
        assert(r@ =~= self@);
        r
    }

    /// Repeats row `index` `length` times.
    pub fn new_from_index(&self, index: usize, length: usize) -> (r: ListChunked)
        requires
            self.wf(),
            index < self@.len(),
        ensures
            r.wf(),
            r.name@ == self.name@,
            r.inner == self.inner,
            r@.len() == length,
            forall|i: int| 0 <= i < length ==> r@[i] == self@[index as int],
    {
        let row = self.get(index);
        let mut builder = ListBuilder::new(self.inner, 0, length, self.name.as_str());
        let mut i: usize = 0;
        while i < length
            invariant
                i <= length,
                builder.wf(),
                builder.name@ == self.name@,
                builder.inner == self.inner,
                builder@.len() == i,
                forall|j: int| 0 <= j < i ==> builder@[j] == self@[index as int],
                match self@[index as int] {
                    Some(cells) => row.is_some() && row.unwrap()@ == cells,
                    None => row.is_none(),
                },
                row.is_some() ==> conforms(row.unwrap()@, self.inner),
            decreases length - i,
        {
            builder.append_opt_row(row.as_ref());
            i += 1;
        }
        builder.finish()
    }

    /// The list column whose rows hold one cell of `column` each; a null cell
    /// becomes a null row.
    pub fn unit_list(column: &Column) -> (r: ListChunked)
        requires
            column.wf(),
        ensures
            r.wf(),
            r.name@ == column.name@,
            r.inner == column.dtype,
            r@ == unit_rows(column@),
    {
        let mut builder = ListBuilder::new(column.dtype, column.len(), column.len(), column.name.as_str());
        let mut i: usize = 0;
        while i < column.len()
            invariant
                column.wf(),
                i <= column@.len(),
                builder.wf(),
                builder.name@ == column.name@,
                builder.inner == column.dtype,
                builder@ == unit_rows(column@).subrange(0, i as int),
            decreases column@.len() - i,
        {
            let ghost before = builder@;
            match &column.values[i] {
                Some(v) => {
                    let mut row: Vec<Option<Value>> = Vec::with_capacity(1);
                    row.push(Some(v.duplicate()));
                    assert(row@ == seq![Some(*v)]);
                    assert(column@[i as int].unwrap().dtype_spec() == column.dtype);
                    builder.append_row(&row);
                },
                None => {
                    builder.append_null();
                },
            }
            assert(builder@ == before.push(unit_rows(column@)[i as int]));
            assert(unit_rows(column@).subrange(0, i + 1) == before.push(unit_rows(column@)[i as int]));
            i += 1;
        }
        assert(unit_rows(column@).subrange(0, column@.len() as int) == unit_rows(column@));
        builder.finish()
    }

    /// A column of `length` null rows.
    pub fn full_null_with_dtype(name: &str, length: usize, inner: ScalarType) -> (r: ListChunked)
        ensures
            r.wf(),
            r.name@ == name@,
            r.inner == inner,
            r@.len() == length,
            forall|i: int| 0 <= i < length ==> r@[i].is_none(),
    {
        let mut builder = ListBuilder::new(inner, 0, length, name);
        let mut i: usize = 0;
        while i < length
            invariant
                i <= length,
                builder.wf(),
                builder.name@ == name@,
                builder.inner == inner,
                builder@.len() == i,
                forall|j: int| 0 <= j < i ==> builder@[j].is_none(),
            decreases length - i,
        {
            builder.append_null();
            i += 1;
        }
        builder.finish()
    }

    /// Builds a column from nested vectors, or `None` when some cell is not of
    /// type `inner`. The value buffer holds the cells of the non-null rows,
    /// row after row, and nothing under a null row.
    pub fn from_rows(name: &str, inner: ScalarType, rows: &Vec<Option<Vec<Option<Value>>>>) -> (r: Option<
        ListChunked,
    >)
        ensures
            r.is_some() == rows_conform(view_rows(rows@), inner),
            r.is_some() ==> {
                let c = r.unwrap();
                c.wf() && c.name@ == name@ && c.inner == inner && c@ == view_rows(rows@) && c.values@
                    == flat_cells(view_rows(rows@))
            },
    {
        let mut builder = ListBuilder::new(inner, 0, rows.len(), name);
        let mut i: usize = 0;
        while i < rows.len()
            invariant
                i <= rows@.len(),
                builder.wf(),
                builder.name@ == name@,
                builder.inner == inner,
                builder@ == view_rows(rows@).subrange(0, i as int),
                builder.values@ == flat_cells(view_rows(rows@).subrange(0, i as int)),
                rows_conform(view_rows(rows@).subrange(0, i as int), inner),
            decreases rows@.len() - i,
        {
            let ghost before = builder@;
            assert(view_rows(rows@).subrange(0, i + 1).drop_last() == view_rows(rows@).subrange(0, i as int));
            assert(view_rows(rows@).subrange(0, i + 1).last() == view_rows(rows@)[i as int]);
            match &rows[i] {
                Some(row) => {
                    if !check_conforms(row, inner) {
                        assert(view_rows(rows@)[i as int] == Some(row@));
                        return None;
                    }
                    builder.append_row(row);
                },
                None => {
                    builder.append_null();
                },
            }
            assert(builder@ == before.push(view_rows(rows@)[i as int]));
            assert(view_rows(rows@).subrange(0, i + 1) == before.push(view_rows(rows@)[i as int]));
            i += 1;
        }
        assert(view_rows(rows@).subrange(0, rows@.len() as int) == view_rows(rows@));
        Some(builder.finish())
    }
}

/// One non-null row of a list column seen in place: where its cells lie in
/// the value buffer of the column. Nothing is copied.
#[derive(Clone, Copy, Debug)]
pub struct RowView {
    pub start: usize,
    pub end: usize,
}

/// Walks the rows of a list column once, front to back, and hands each out
/// as a view into the column.
#[derive(Debug)]
pub struct AmortizedListIter<'a> {
    pub ca: &'a ListChunked,
    pub position: usize,
}

impl<'a> AmortizedListIter<'a> {
    /// The column is well formed and the walk has not left it.
    pub open spec fn wf(&self) -> bool {
        self.ca.wf() && self.position <= self.ca@.len()
    }

    /// Whether a row is left.
    pub fn has_next(&self) -> (r: bool)
        requires
            self.wf(),
        ensures
            r == (self.position < self.ca@.len()),
    {
        self.position < self.ca.len()
    }

    /// The next row: `None` at the end of the column, `Some(None)` for a
    /// null row, and else the view of the row.
    pub fn next(&mut self) -> (r: Option<Option<RowView>>)
        requires
            old(self).wf(),
        ensures
            final(self).wf(),
            final(self).ca == old(self).ca,
            old(self).position == old(self).ca@.len() ==> r.is_none() && final(self).position == old(
                self,
            ).position,
            old(self).position < old(self).ca@.len() ==> {
                &&& final(self).position == old(self).position + 1
                &&& r matches Some(row)
                &&& match old(self).ca@[old(self).position as int] {
                    Some(cells) => {
                        &&& row matches Some(view)
                        &&& view.start <= view.end <= old(self).ca.values@.len()
                        &&& cells == old(self).ca.values@.subrange(view.start as int, view.end as int)
                    },
                    None => row.is_none(),
                }
            },
    {
        if self.position >= self.ca.len() {
            return None;
        }
        let i = self.position;
        self.position = i + 1;
        if self.ca.is_valid(i) {
            let (start, end) = self.ca.bounds(i);
            Some(Some(RowView { start, end }))
        } else {
            Some(None)
        }
    }
}

/// The most cells, and the most rows, that a builder reserves storage for
/// ahead of time.
pub const RESERVE_LIMIT: usize = 65536;

/// Accumulates rows into a new list column.
#[derive(Debug)]
pub struct ListBuilder {
    pub name: String,
    pub inner: ScalarType,
    pub offsets: Vec<usize>,
    pub validity: Vec<bool>,
    pub values: Vec<Option<Value>>,
}

impl View for ListBuilder {
    type V = Seq<Row>;

    /// The rows appended so far.
    open spec fn view(&self) -> Seq<Row> {
        rows_of(self.offsets@, self.validity@, self.values@)
    }
}

impl ListBuilder {
    /// The layout invariant, as for a finished column.
    pub open spec fn wf(&self) -> bool {
        &&& layout_ok(self.offsets@, self.validity@.len(), self.values@.len())
        &&& conforms(self.values@, self.inner)
    }

    /// An empty builder. The two capacities are estimates of the cells and
    /// rows to come: storage is reserved for them, up to a limit, and nothing
    /// else depends on them.
    pub fn new(inner: ScalarType, values_capacity: usize, rows_capacity: usize, name: &str) -> (r: ListBuilder)
        ensures
            r.wf(),
            r@.len() == 0,
            r.name@ == name@,
            r.inner == inner,
    {
        let rows = if rows_capacity < RESERVE_LIMIT {
            rows_capacity
        } else {
            RESERVE_LIMIT
        };
        let values = if values_capacity < RESERVE_LIMIT {
            values_capacity
        } else {
            RESERVE_LIMIT
        };
        let mut offsets: Vec<usize> = Vec::with_capacity(rows + 1);
        offsets.push(0);
        ListBuilder {
            name: name.to_owned(),
            inner,
            offsets,
            validity: Vec::with_capacity(rows),
            values: Vec::with_capacity(values),
        }
    }

    /// Appends a non-null row.
    pub fn append_row(&mut self, row: &Vec<Option<Value>>)
        requires
            old(self).wf(),
            conforms(row@, old(self).inner),
        ensures
            final(self).wf(),
            final(self)@ == old(self)@.push(Some(row@)),
            final(self).name == old(self).name,
            final(self).inner == old(self).inner,
            final(self).values@ == old(self).values@ + row@,
    {
        let mut k: usize = 0;
        while k < row.len()
            invariant
                k <= row@.len(),
                conforms(row@, self.inner),
                self.values@ == old(self).values@ + row@.subrange(0, k as int),
                self.offsets@ == old(self).offsets@,
                self.validity@ == old(self).validity@,
                self.name == old(self).name,
                self.inner == old(self).inner,
                conforms(self.values@, self.inner),
            decreases row@.len() - k,
        {
            let cell = duplicate_cell(&row[k]);
            assert(row@[k as int].is_some() ==> row@[k as int].unwrap().dtype_spec() == self.inner);
            let ghost before = self.values@;
            self.values.push(cell);
            assert(self.values@ == old(self).values@ + row@.subrange(0, k + 1));
            assert forall|j: int| 0 <= j < self.values@.len() && self.values@[j].is_some() implies (
            #[trigger] self.values@[j]).unwrap().dtype_spec() == self.inner by {
                if j < before.len() {
                    assert(self.values@[j] == before[j]);
                }
            }
            k += 1;
        }
        assert(row@.subrange(0, row@.len() as int) == row@);
        let ghost filled = *self;
        assert forall|i: int| 0 <= i < old(self).validity@.len() implies filled@[i] == old(self)@[i] by {
            if old(self).validity@[i] {
                assert(old(self).offsets@[i + 1] <= old(self).offsets@[old(self).validity@.len() as int]);
                assert(filled.values@.subrange(
                    old(self).offsets@[i] as int,
                    old(self).offsets@[i + 1] as int,
                ) =~= old(self).values@.subrange(
                    old(self).offsets@[i] as int,
                    old(self).offsets@[i + 1] as int,
                ));
            }
        }
        self.close_row(true);
        proof {
            let n = old(self).validity@.len() as int;
            assert(self.offsets@[n] == old(self).values@.len());
            assert(self.values@.subrange(old(self).values@.len() as int, self.values@.len() as int) == row@);
            assert(self@[n] == Some(row@));
            assert(self@ =~= old(self)@.push(Some(row@)));
        }
    }

    /// Appends a null row.
    pub fn append_null(&mut self)
        requires
            old(self).wf(),
        ensures
            final(self).wf(),
            final(self)@ == old(self)@.push(None),
            final(self).name == old(self).name,
            final(self).inner == old(self).inner,
            final(self).values@ == old(self).values@,
    {
        self.close_row(false);
        assert(self@ =~= old(self)@.push(None));
    }

    /// Appends a row, or a null row for `None`.
    pub fn append_opt_row(&mut self, row: Option<&Vec<Option<Value>>>)
        requires
            old(self).wf(),
            row.is_some() ==> conforms(row.unwrap()@, old(self).inner),
        ensures
            final(self).wf(),
            final(self)@ == old(self)@.push(
                match row {
                    Some(r) => Some(r@),
                    None => None,
                },
            ),
            final(self).name == old(self).name,
            final(self).inner == old(self).inner,
    {
        match row {
            Some(r) => self.append_row(r),
            None => self.append_null(),
        }
    }

    /// Ends the row under construction at the current end of the value buffer.
    fn close_row(&mut self, valid: bool)
        requires
            old(self).offsets@.len() == old(self).validity@.len() + 1,
            old(self).offsets@[0] == 0,
            forall|i: int, j: int|
                0 <= i <= j < old(self).offsets@.len() ==> old(self).offsets@[i] <= old(self).offsets@[j],
            old(self).offsets@[old(self).validity@.len() as int] <= old(self).values@.len(),
            conforms(old(self).values@, old(self).inner),
        ensures
            final(self).wf(),
            final(self).offsets@ == old(self).offsets@.push(old(self).values@.len() as usize),
            final(self).validity@ == old(self).validity@.push(valid),
            final(self).values@ == old(self).values@,
            final(self).name == old(self).name,
            final(self).inner == old(self).inner,
            forall|i: int| 0 <= i < old(self).validity@.len() ==> final(self)@[i] == old(self)@[i],
    {
        let end = self.values.len();
        self.offsets.push(end);
        self.validity.push(valid);
    }

    /// The finished column.
    pub fn finish(self) -> (r: ListChunked)
        requires
            self.wf(),
        ensures
            r.wf(),
            r@ == self@,
            r.name == self.name,
            r.inner == self.inner,
            r.values@ == self.values@,
    {
        let r = ListChunked {
            name: self.name,
            inner: self.inner,
            offsets: self.offsets,
            validity: self.validity,
            values: self.values,
        };
        assert(r@ =~= self@);
        r
    }
}

/// A column of either shape: flat, or a list column.
#[derive(Debug)]
pub enum AnyColumn {
    Flat(Column),
    List(ListChunked),
}

impl AnyColumn {
    /// The invariant of the column inside.
    pub open spec fn wf(&self) -> bool {
        match *self {
            AnyColumn::Flat(c) => c.wf(),
            AnyColumn::List(ca) => ca.wf(),
        }
    }

    pub open spec fn len_spec(&self) -> nat {
        match *self {
            AnyColumn::Flat(c) => c@.len(),
            AnyColumn::List(ca) => ca@.len(),
        }
    }

    pub open spec fn dtype_spec(&self) -> DataType {
        match *self {
            AnyColumn::Flat(c) => DataType::Scalar(c.dtype),
            AnyColumn::List(ca) => DataType::List(Box::new(DataType::Scalar(ca.inner))),
        }
    }

    /// The scalar type of the cells, whatever the shape.
    pub open spec fn leaf_spec(&self) -> ScalarType {
        match *self {
            AnyColumn::Flat(c) => c.dtype,
            AnyColumn::List(ca) => ca.inner,
        }
    }

    /// The rows of the column; a flat column is read as rows of one cell each,
    /// a null cell being a null row.
    pub open spec fn rows(&self) -> Seq<Row> {
        match *self {
            AnyColumn::Flat(c) => unit_rows(c@),
            AnyColumn::List(ca) => ca@,
        }
    }

    /// The number of rows.
    pub fn len(&self) -> (r: usize)
        ensures
            r == self.len_spec(),
    {
        match self {
            AnyColumn::Flat(c) => c.len(),
            AnyColumn::List(ca) => ca.len(),
        }
    }

    /// The column's type.
    #[verifier::when_used_as_spec(dtype_spec)]
    pub fn dtype(&self) -> (r: DataType)
        ensures
            r == self.dtype_spec(),
    {
        match self {
            AnyColumn::Flat(c) => DataType::Scalar(c.dtype),
            AnyColumn::List(ca) => ca.dtype(),
        }
    }

    /// The scalar type of the cells.
    #[verifier::when_used_as_spec(leaf_spec)]
    pub fn leaf(&self) -> (r: ScalarType)
        ensures
            r == self.leaf_spec(),
    {
        match self {
            AnyColumn::Flat(c) => c.dtype,
            AnyColumn::List(ca) => ca.inner,
        }
    }

    /// A copy of this column.
    pub fn duplicate(&self) -> (r: AnyColumn)
        ensures
            r.rows() == self.rows(),
            r.dtype_spec() == self.dtype_spec(),
            r.len_spec() == self.len_spec(),
            self.wf() ==> r.wf(),
            match (*self, r) {
                (AnyColumn::Flat(a), AnyColumn::Flat(b)) => b@ == a@ && b.name@ == a.name@,
                (AnyColumn::List(a), AnyColumn::List(b)) => b@ == a@ && b.name@ == a.name@,
                _ => false,
            },
    {
        match self {
            AnyColumn::Flat(c) => AnyColumn::Flat(c.duplicate()),
            AnyColumn::List(ca) => AnyColumn::List(ca.duplicate()),
        }
    }
}

impl Clone for ListChunked {
    fn clone(&self) -> (r: ListChunked)
        ensures
            r@ == self@,
            r.inner == self.inner,
            r.name@ == self.name@,
            r.offsets@ == self.offsets@,
            r.validity@ == self.validity@,
            r.values@ == self.values@,
            self.wf() ==> r.wf(),
    {
        self.duplicate()
    }
}

impl Clone for AnyColumn {
    fn clone(&self) -> (r: AnyColumn)
        ensures
            r.rows() == self.rows(),
            r.dtype_spec() == self.dtype_spec(),
            r.len_spec() == self.len_spec(),
            self.wf() ==> r.wf(),
    {
        self.duplicate()
    }
}

/// A flat buffer read as rows: a cell becomes a row that holds just that
/// cell, and a null cell becomes a null row.
pub open spec fn unit_rows(cells: Seq<Option<Value>>) -> Seq<Row> {
    Seq::new(
        cells.len(),
        |i: int|
            match cells[i] {
                Some(v) => Some(seq![Some(v)]),
                None => None,
            },
    )
}

} // verus!
