//! Schema-driven SQL statements for one record type per table.
//!
//! A [`schema::Schema`] lists a record type's fields in declaration order, with
//! the role each plays in addressing a record. From it the [`statement`]
//! builders make fetch, insert, update and delete statements whose values are
//! always bound parameters, and [`rows`] turns what a store returns into
//! records. [`laws`] and [`marks`] state what holds of every schema.

use vstd::prelude::*;

pub mod laws;
pub mod marks;
pub mod rows;
pub mod schema;
pub mod sqltext;
pub mod statement;
pub mod value;

verus! {

} // verus!
