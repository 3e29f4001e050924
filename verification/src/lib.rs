//! Verified core of a directory-usage reporter: it measures nothing itself,
//! but states and proves what the report says — sizes summed exactly, entries
//! sorted descending by size with ties kept in input order, bars scaled to a
//! fifty-glyph maximum, and byte counts rendered as megabytes with two
//! decimals and thousands separators.

pub mod chart;
pub mod entries;
pub mod numfmt;
pub mod report;
