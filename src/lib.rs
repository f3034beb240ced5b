//! Keeps an HTML table embedded in a markdown document in step with a table
//! of another document: rows are joined by a key column, configured columns
//! are copied over, and every byte outside the table is left as it was.

pub mod text;
pub mod dom;
pub mod locate;
pub mod table;
pub mod sync;
pub mod splice;
pub mod pipeline;
pub mod laws;
pub mod options;
