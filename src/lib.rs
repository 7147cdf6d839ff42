//! Builds a cross-referenced catalog of transit feeds and operators out of
//! registry documents: first-write-wins tables of feeds and operators, and two
//! mutually consistent relationship indices (operator to feeds, feed to
//! operators) that hold each pair once.
//!
//! - `model`: the records, their views, and the catalog's transitions as spec
//!   functions.
//! - `index`: recording one relationship in an index.
//! - `catalog`: ingesting operators, feeds and whole documents.
//! - `laws`: the catalog invariant over any run; first-write-wins.
//! - `keys`: the keys of a built catalog do not depend on document order.
//! - `idempotence`: re-ingesting the same documents changes nothing.

pub mod model;
pub mod index;
pub mod catalog;
pub mod laws;
pub mod keys;
pub mod idempotence;
