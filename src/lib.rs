use vstd::prelude::*;

pub mod edit_diff;
pub mod error;
pub mod history;
pub mod language;
pub mod row;
pub mod text_buffer;
pub mod width;

pub use edit_diff::{EditDiff, UndoRedo};
pub use error::Error;
pub use history::History;
pub use language::{Indent, Language};
pub use row::Row;
pub use text_buffer::{CursorDir, FilePath, TextBuffer};

verus! {

} // verus!
