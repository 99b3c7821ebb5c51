//! Import of KiCad footprints, symbols and board outlines.

pub mod content;
pub mod contour;
pub mod drawing;
pub mod extent;
pub mod footprint;
pub mod number;
pub mod outline;
pub mod primitive;
pub mod rounding;
pub mod sexp;
pub mod symbol;

pub use footprint::import_footprint;
pub use number::{Num, Ratio, Reading, Readings, Turn};
pub use outline::import_board_outline;
pub use symbol::{
    apply_role_map, import_part, import_symbol, import_symbol_named, join_symbol_footprint,
    ElecType, JoinReport, Symbol, SymbolPin,
};
