//! Symbol-level codec for square-cell grid codes on a recursively subdivided
//! 6x6 world grid: the symbol table, the grouping of codes for display, and
//! the translation between codes and the cells they name.

pub mod codec;
pub mod error;
pub mod grid;
pub mod grouping;
pub mod strings;

pub use codec::{cells_from_digipin, digipin_from_cells};
pub use error::Error;
pub use grid::{lookup_grid, symbol_at, DIGIPIN_GRID};
pub use grouping::{group_code, strip_separators, SEPARATOR};
