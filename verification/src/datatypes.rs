use vstd::prelude::*;

verus! {

/// The type of a single cell of a flat column.
///
/// Floating-point cells are carried by their bit patterns, so the two float
/// types appear here as tags only.
#[derive(Clone, Copy, PartialEq, Eq, Structural, Debug)]
pub enum ScalarType {
    Boolean,
    UInt32,
    UInt64,
    Int32,
    Int64,
    Float32,
    Float64,
    Utf8,
}

impl ScalarType {
    pub open spec fn is_signed_spec(self) -> bool {
        self == ScalarType::Int32 || self == ScalarType::Int64
    }

    pub open spec fn is_unsigned_spec(self) -> bool {
        self == ScalarType::UInt32 || self == ScalarType::UInt64
    }

    pub open spec fn is_float_spec(self) -> bool {
        self == ScalarType::Float32 || self == ScalarType::Float64
    }

    pub open spec fn is_integer_spec(self) -> bool {
        self.is_signed_spec() || self.is_unsigned_spec()
    }

    pub open spec fn is_numeric_spec(self) -> bool {
        self.is_integer_spec() || self.is_float_spec()
    }

    pub open spec fn is_ordered_spec(self) -> bool {
        self == ScalarType::Boolean || self.is_integer_spec()
    }

    /// The types whose cells this library can compare: booleans and
    /// integers.
    #[verifier::when_used_as_spec(is_ordered_spec)]
    pub fn is_ordered(self) -> (r: bool)
        ensures
            r == self.is_ordered_spec(),
    {
        match self {
            ScalarType::Boolean => true,
            _ => self.is_integer(),
        }
    }

    /// Signed integer types.
    #[verifier::when_used_as_spec(is_signed_spec)]
    pub fn is_signed(self) -> (r: bool)
        ensures
            r == self.is_signed_spec(),
    {
        match self {
            ScalarType::Int32 | ScalarType::Int64 => true,
            _ => false,
        }
    }

    /// Unsigned integer types.
    #[verifier::when_used_as_spec(is_unsigned_spec)]
    pub fn is_unsigned(self) -> (r: bool)
        ensures
            r == self.is_unsigned_spec(),
    {
        match self {
            ScalarType::UInt32 | ScalarType::UInt64 => true,
            _ => false,
        }
    }

    /// The two floating-point types.
    #[verifier::when_used_as_spec(is_float_spec)]
    pub fn is_float(self) -> (r: bool)
        ensures
            r == self.is_float_spec(),
    {
        match self {
            ScalarType::Float32 | ScalarType::Float64 => true,
            _ => false,
        }
    }

    /// Signed and unsigned integer types.
    #[verifier::when_used_as_spec(is_integer_spec)]
    pub fn is_integer(self) -> (r: bool)
        ensures
            r == self.is_integer_spec(),
    {
        self.is_signed() || self.is_unsigned()
    }

    /// Integer and floating-point types.
    #[verifier::when_used_as_spec(is_numeric_spec)]
    pub fn is_numeric(self) -> (r: bool)
        ensures
            r == self.is_numeric_spec(),
    {
        self.is_integer() || self.is_float()
    }
}

/// The type of a column: a scalar type, or a list of some column type.
#[derive(PartialEq, Eq, Debug)]
pub enum DataType {
    Scalar(ScalarType),
    List(Box<DataType>),
}

impl DataType {
    /// How many `List` layers wrap the scalar type.
    pub open spec fn depth(self) -> nat
        decreases self,
    {
        match self {
            DataType::Scalar(_) => 0,
            DataType::List(inner) => 1 + inner.depth(),
        }
    }

    /// The scalar type at the bottom of the nesting.
    pub open spec fn leaf(self) -> ScalarType
        decreases self,
    {
        match self {
            DataType::Scalar(t) => t,
            DataType::List(inner) => inner.leaf(),
        }
    }

    pub open spec fn is_list_spec(&self) -> bool {
        *self is List
    }

    #[verifier::when_used_as_spec(is_list_spec)]
    pub fn is_list(&self) -> (r: bool)
        ensures
            r == self.is_list_spec(),
    {
        match self {
            DataType::List(_) => true,
            DataType::Scalar(_) => false,
        }
    }

    /// A copy of this type.
    pub fn duplicate(&self) -> (r: DataType)
        ensures
            r == *self,
        decreases *self,
    {
        match self {
            DataType::Scalar(t) => DataType::Scalar(*t),
            DataType::List(inner) => DataType::List(Box::new(inner.duplicate())),
        }
    }

    /// Structural equality of two types.
    pub fn same(&self, other: &DataType) -> (r: bool)
        ensures
            r == (*self == *other),
        decreases *self,
    {
        match (self, other) {
            (DataType::Scalar(a), DataType::Scalar(b)) => *a == *b,
            (DataType::List(a), DataType::List(b)) => a.same(b),
            _ => false,
        }
    }
}

impl Clone for DataType {
    fn clone(&self) -> (r: DataType)
        ensures
            r == *self,
    {
        self.duplicate()
    }
}

/// One non-null cell. Float cells hold the IEEE 754 bit pattern of the number.
#[derive(PartialEq, Eq, Debug)]
pub enum Value {
    Boolean(bool),
    UInt32(u32),
    UInt64(u64),
    Int32(i32),
    Int64(i64),
    Float32(u32),
    Float64(u64),
    Utf8(String),
}

impl Value {
    pub open spec fn dtype_spec(&self) -> ScalarType {
        match *self {
            Value::Boolean(_) => ScalarType::Boolean,
            Value::UInt32(_) => ScalarType::UInt32,
            Value::UInt64(_) => ScalarType::UInt64,
            Value::Int32(_) => ScalarType::Int32,
            Value::Int64(_) => ScalarType::Int64,
            Value::Float32(_) => ScalarType::Float32,
            Value::Float64(_) => ScalarType::Float64,
            Value::Utf8(_) => ScalarType::Utf8,
        }
    }

    /// The scalar type this cell belongs to.
    #[verifier::when_used_as_spec(dtype_spec)]
    pub fn dtype(&self) -> (r: ScalarType)
        ensures
            r == self.dtype_spec(),
    {
        match self {
            Value::Boolean(_) => ScalarType::Boolean,
            Value::UInt32(_) => ScalarType::UInt32,
            Value::UInt64(_) => ScalarType::UInt64,
            Value::Int32(_) => ScalarType::Int32,
            Value::Int64(_) => ScalarType::Int64,
            Value::Float32(_) => ScalarType::Float32,
            Value::Float64(_) => ScalarType::Float64,
            Value::Utf8(_) => ScalarType::Utf8,
        }
    }

    /// A copy of this cell.
    pub fn duplicate(&self) -> (r: Value)
        ensures
            r == *self,
    {
        match self {
            Value::Boolean(x) => Value::Boolean(*x),
            Value::UInt32(x) => Value::UInt32(*x),
            Value::UInt64(x) => Value::UInt64(*x),
            Value::Int32(x) => Value::Int32(*x),
            Value::Int64(x) => Value::Int64(*x),
            Value::Float32(x) => Value::Float32(*x),
            Value::Float64(x) => Value::Float64(*x),
            Value::Utf8(x) => Value::Utf8(x.clone()),
        }
    }
}

impl Clone for Value {
    fn clone(&self) -> (r: Value)
        ensures
            r == *self,
    {
        self.duplicate()
    }
}

/// A copy of a possibly-null cell.
pub fn duplicate_cell(cell: &Option<Value>) -> (r: Option<Value>)
    ensures
        r == *cell,
{
    match cell {
        Some(v) => Some(v.duplicate()),
        None => None,
    }
}

/// Every non-null cell of `cells` has type `dtype`.
pub open spec fn conforms(cells: Seq<Option<Value>>, dtype: ScalarType) -> bool {
    forall|i: int| 0 <= i < cells.len() && cells[i].is_some() ==> (#[trigger] cells[i]).unwrap().dtype_spec() == dtype
}

/// Why an operation on a list column failed.
#[derive(PartialEq, Eq, Debug)]
pub enum ListError {
    /// Two types have no common supertype, or a cast between them does not exist.
    SchemaMismatch { got: DataType, expected: DataType },
    /// An operand is neither as long as the receiver nor of length one.
    ShapeMismatch { len: usize, expected_len: usize },
    /// The operation cannot be computed on this input.
    ComputeError(ComputeFailure),
}

/// The ways a computation can fail.
#[derive(PartialEq, Eq, Debug)]
pub enum ComputeFailure {
    /// An index lies outside its row under the strict policy.
    OutOfBounds,
    /// Every index of a signed index column is null.
    AllIndicesNull,
    /// The index column is not of an integer or list-of-integer type.
    InvalidIndexType(DataType),
    /// The inner type is not the one the operation is defined on.
    InvalidInnerType { inner: ScalarType, required: ScalarType },
    /// The operation is not defined on cells of this type.
    UnsupportedInnerType(ScalarType),
    /// A difference that drops its leading nulls needs a positive lag.
    NonPositiveLag(i64),
}

impl Clone for ComputeFailure {
    fn clone(&self) -> (r: ComputeFailure)
        ensures
            r == *self,
    {
        match self {
            ComputeFailure::OutOfBounds => ComputeFailure::OutOfBounds,
            ComputeFailure::AllIndicesNull => ComputeFailure::AllIndicesNull,
            ComputeFailure::InvalidIndexType(dtype) => ComputeFailure::InvalidIndexType(dtype.duplicate()),
            ComputeFailure::InvalidInnerType { inner, required } => ComputeFailure::InvalidInnerType {
                inner: *inner,
                required: *required,
            },
            ComputeFailure::UnsupportedInnerType(inner) => ComputeFailure::UnsupportedInnerType(*inner),
            ComputeFailure::NonPositiveLag(n) => ComputeFailure::NonPositiveLag(*n),
        }
    }
}

impl Clone for ListError {
    fn clone(&self) -> (r: ListError)
        ensures
            r == *self,
    {
        match self {
            ListError::SchemaMismatch { got, expected } => ListError::SchemaMismatch {
                got: got.duplicate(),
                expected: expected.duplicate(),
            },
            ListError::ShapeMismatch { len, expected_len } => ListError::ShapeMismatch {
                len: *len,
                expected_len: *expected_len,
            },
            ListError::ComputeError(failure) => ListError::ComputeError(failure.clone()),
        }
    }
}

} // verus!
