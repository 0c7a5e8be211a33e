//! Verified extraction engine for positioned-text exam-result documents.
//!
//! The engine rebuilds, from a page's drawing operations, the text runs the
//! page shows, classifies each run as a label or a field value by keyword and
//! positional anchor, and assembles the classified values into result records
//! ready to be written into a spreadsheet by the surrounding application.

pub mod assemble;
pub mod classify;
pub mod fontmap;
pub mod interp;
pub mod pos;
pub mod text;
