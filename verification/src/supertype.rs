use vstd::prelude::*;
use crate::datatypes::{DataType, ListError, ScalarType};

verus! {

/// The least scalar type that cells of both types can be cast to.
///
/// A type is its own supertype. Strings take up every type. A boolean
/// widens to any number. A float and any other number meet in the 64-bit
/// float. Two unsigned integers meet in the wider one, and so do two signed
/// ones. A signed and an unsigned integer meet in the signed 64-bit integer,
/// unless the unsigned one has 64 bits: then only the 64-bit float holds
/// both.
pub open spec fn scalar_supertype(l: ScalarType, r: ScalarType) -> ScalarType {
    if l == r {
        l
    } else if l == ScalarType::Utf8 || r == ScalarType::Utf8 {
        ScalarType::Utf8
    } else if l == ScalarType::Boolean {
        r
    } else if r == ScalarType::Boolean {
        l
    } else if l.is_float_spec() || r.is_float_spec() {
        ScalarType::Float64
    } else if l.is_unsigned_spec() && r.is_unsigned_spec() {
        ScalarType::UInt64
    } else if l.is_signed_spec() && r.is_signed_spec() {
        ScalarType::Int64
    } else if l == ScalarType::UInt64 || r == ScalarType::UInt64 {
        ScalarType::Float64
    } else {
        ScalarType::Int64
    }
}

/// Computes the least scalar type that cells of both types can be cast to.
pub fn get_scalar_supertype(l: ScalarType, r: ScalarType) -> (t: ScalarType)
    ensures
        t == scalar_supertype(l, r),
{
    if l == r {
        l
    } else {
        match (l, r) {
            (ScalarType::Utf8, _) | (_, ScalarType::Utf8) => ScalarType::Utf8,
            (ScalarType::Boolean, other) | (other, ScalarType::Boolean) => other,
            (ScalarType::Float32, _) | (ScalarType::Float64, _) | (_, ScalarType::Float32) | (
                _,
                ScalarType::Float64,
            ) => ScalarType::Float64,
            (ScalarType::UInt32, ScalarType::UInt64) | (ScalarType::UInt64, ScalarType::UInt32) => ScalarType::UInt64,
            (ScalarType::Int32, ScalarType::Int64) | (ScalarType::Int64, ScalarType::Int32) => ScalarType::Int64,
            (ScalarType::UInt64, _) | (_, ScalarType::UInt64) => ScalarType::Float64,
            _ => ScalarType::Int64,
        }
    }
}

/// The common type of two column types.
///
/// Two scalar types meet in their scalar supertype. A list type takes a
/// scalar type up into its inner type, and two list types meet in the list
/// of what their inner types meet in.
pub open spec fn supertype(l: DataType, r: DataType) -> DataType
    decreases l, r,
{
    match (l, r) {
        (DataType::Scalar(a), DataType::Scalar(b)) => DataType::Scalar(scalar_supertype(a, b)),
        (DataType::List(a), DataType::List(b)) => DataType::List(Box::new(supertype(*a, *b))),
        (DataType::List(a), DataType::Scalar(_)) => DataType::List(Box::new(supertype(*a, r))),
        (DataType::Scalar(_), DataType::List(b)) => DataType::List(Box::new(supertype(l, *b))),
    }
}

/// Computes the common type of two column types.
pub fn supertype_of(l: &DataType, r: &DataType) -> (t: DataType)
    ensures
        t == supertype(*l, *r),
    decreases *l, *r,
{
    match (l, r) {
        (DataType::Scalar(a), DataType::Scalar(b)) => DataType::Scalar(get_scalar_supertype(*a, *b)),
        (DataType::List(a), DataType::List(b)) => DataType::List(Box::new(supertype_of(a, b))),
        (DataType::List(a), DataType::Scalar(_)) => DataType::List(Box::new(supertype_of(a, r))),
        (DataType::Scalar(_), DataType::List(b)) => DataType::List(Box::new(supertype_of(l, b))),
    }
}

/// Computes the common type of two column types. Every pair of the types of
/// this library has one, so the result is never `None`.
pub fn get_supertype(l: &DataType, r: &DataType) -> (res: Option<DataType>)
    ensures
        res == Some(supertype(*l, *r)),
{
    Some(supertype_of(l, r))
}

/// Computes the common type of two column types. Every pair of the types of
/// this library has one, so this never fails.
pub fn try_get_supertype(l: &DataType, r: &DataType) -> (res: Result<DataType, ListError>)
    ensures
        res == Ok::<DataType, ListError>(supertype(*l, *r)),
{
    Ok(supertype_of(l, r))
}

/// Computes the common type of a type and a list of further types, merged
/// from left to right.
pub fn get_supertype_of_all(first: &DataType, others: &Vec<DataType>) -> (res: Result<DataType, ListError>)
    ensures
        res == Ok::<DataType, ListError>(supertype_of_all(*first, others@)),
{
    let mut acc = first.duplicate();
    let mut k: usize = 0;
    assert(others@.subrange(0, 0) =~= Seq::empty());
    while k < others.len()
        invariant
            k <= others@.len(),
            acc == supertype_of_all(*first, others@.subrange(0, k as int)),
        decreases others@.len() - k,
    {
        assert(others@.subrange(0, k + 1).drop_last() == others@.subrange(0, k as int));
        acc = supertype_of(&acc, &others[k]);
        k += 1;
    }
    assert(others@.subrange(0, others@.len() as int) == others@);
    Ok(acc)
}

/// The common type of a type and a sequence of further types, merged from
/// left to right.
pub open spec fn supertype_of_all(first: DataType, others: Seq<DataType>) -> DataType
    decreases others.len(),
{
    if others.len() == 0 {
        first
    } else {
        supertype(supertype_of_all(first, others.drop_last()), others.last())
    }
}

/// Merging scalar types does not depend on their order, nor on how they are
/// grouped, and a type merged with itself stays as it is.
pub proof fn lemma_scalar_supertype_is_a_join(a: ScalarType, b: ScalarType, c: ScalarType)
    ensures
        scalar_supertype(a, a) == a,
        scalar_supertype(a, b) == scalar_supertype(b, a),
        scalar_supertype(scalar_supertype(a, b), c) == scalar_supertype(a, scalar_supertype(b, c)),
{
}

/// Both types can be cast to their common type without another widening:
/// the common type merged with either of them is the common type again.
pub proof fn lemma_scalar_supertype_accepts_both(a: ScalarType, b: ScalarType)
    ensures
        scalar_supertype(scalar_supertype(a, b), a) == scalar_supertype(a, b),
        scalar_supertype(scalar_supertype(a, b), b) == scalar_supertype(a, b),
{
}

/// Merging column types does not depend on their order, and a type merged
/// with itself stays as it is.
pub proof fn lemma_supertype_commutes(l: DataType, r: DataType)
    ensures
        supertype(l, l) == l,
        supertype(l, r) == supertype(r, l),
    decreases l, r,
{
    match (l, r) {
        (DataType::Scalar(a), DataType::Scalar(b)) => {},
        (DataType::List(a), DataType::List(b)) => {
            lemma_supertype_commutes(*a, *b);
        },
        (DataType::List(a), DataType::Scalar(_)) => {
            lemma_supertype_commutes(*a, r);
            lemma_supertype_commutes(*a, *a);
        },
        (DataType::Scalar(_), DataType::List(b)) => {
            lemma_supertype_commutes(l, *b);
        },
    }
}

/// The common type nests as deeply as the deeper of the two types, and its
/// scalar type is the supertype of their scalar types.
pub proof fn lemma_supertype_shape(l: DataType, r: DataType)
    ensures
        supertype(l, r).depth() == if l.depth() >= r.depth() {
            l.depth()
        } else {
            r.depth()
        },
        supertype(l, r).leaf() == scalar_supertype(l.leaf(), r.leaf()),
    decreases l, r,
{
    match (l, r) {
        (DataType::Scalar(a), DataType::Scalar(b)) => {},
        (DataType::List(a), DataType::List(b)) => {
            lemma_supertype_shape(*a, *b);
        },
        (DataType::List(a), DataType::Scalar(_)) => {
            lemma_supertype_shape(*a, r);
        },
        (DataType::Scalar(_), DataType::List(b)) => {
            lemma_supertype_shape(l, *b);
        },
    }
}

} // verus!
