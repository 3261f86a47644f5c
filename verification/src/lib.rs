//! Decoding of access-control lists for registry keys: a catalog-driven
//! breakdown of raw permission bitmasks into named rights, resolution of
//! textual security identifiers into display names and categories, and
//! assembly of an ordered, partial-failure-tolerant report.

pub mod entry;
pub mod principal;
pub mod report;
pub mod rights;
