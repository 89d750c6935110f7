//! A spreadsheet view of delimiter-separated files: the sheet model, the
//! file format, the command language and the screen state of the viewer.
use vstd::prelude::*;

pub mod text;
pub mod cells;
pub mod cmd_err;
pub mod csv_io;
pub mod terminal;
pub mod render;
pub mod parse;
pub mod commands;
pub mod sort;
pub mod input;
pub mod row_ops;
pub mod col_ops;
pub mod find_ops;
pub mod sheet_ops;
pub mod dispatch;
pub mod backup;

verus! {

} // verus!
