//! Records: tables of rows of cells, laid out by a definition.

pub mod cells;
pub mod decode;
pub mod encode;
pub mod laws;
pub mod rows;
