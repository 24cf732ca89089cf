//! State engine behind an interactive table view: an insertion-ordered
//! column registry, a store of sparse records, a stable sort by column,
//! and a cursor and selection that always stay inside the table.
pub mod column;
pub mod laws;
pub mod record;
pub mod sort;
pub mod view;
pub mod width;

pub use column::{Alignment, ColumnDef};
pub use record::Record;
pub use view::SpreadsheetView;
pub use width::ColumnWidth;
