//! Vectorised operations over list-typed columns: columns whose rows are
//! variable-length sequences of cells of one scalar type.
//!
//! A list column is three buffers: offsets, row validity and a flat buffer
//! of cells ([`list`]). Its operations are the methods of
//! [`ListNameSpaceImpl`] ([`namespace`]): reductions of every row to one cell
//! ([`reduce`]), transforms of every row ([`rowwise`]), element addressing
//! ([`index`], [`take`]), joining of strings ([`join`]) and concatenation
//! with operands of other types and lengths ([`concat`], [`supertype`]).
//!
//! Contracts speak of a column by its rows, a sequence of optional sequences
//! of optional cells. Floats are held as bit patterns. What needs their
//! arithmetic or their order, the order of strings, casts between types,
//! sorting, and dropping of repeated cells is done by `polars-core` behind
//! the trusted functions of [`outside`]. [`laws`] holds what is proved of the
//! operations together.

pub mod column;
pub mod concat;
pub mod datatypes;
pub mod index;
pub mod join;
pub mod laws;
pub mod list;
pub mod namespace;
pub mod outside;
pub mod reduce;
pub mod rowwise;
pub mod supertype;
pub mod take;

pub use column::Column;
pub use concat::cast_rhs;
pub use datatypes::{ComputeFailure, DataType, ListError, ScalarType, Value};
pub use index::{cast_index, cast_signed_index_ca, cast_unsigned_index_ca, negative_to_usize, take_series};
pub use list::{AmortizedListIter, AnyColumn, ListBuilder, ListChunked, RowView};
pub use namespace::{has_inner_nulls, AsList, ListNameSpaceImpl};
pub use rowwise::{NullBehavior, SortOptions};
pub use supertype::{get_supertype, get_supertype_of_all, try_get_supertype};
