//! Verified core of a spreadsheet replenishment pipeline: header-row column
//! resolution, row extraction and validation, and generation of the
//! replenishment report as a plain list of cell writes for a tabular writer.

pub mod columns;
pub mod error;
pub mod extract;
pub mod num;
pub mod report;
pub mod text;
