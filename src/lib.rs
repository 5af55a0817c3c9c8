//! Reshapes the per-row key matrices of a split keyboard's layout export into
//! the flat, row-major key lists that keymap firmware builds consume, and
//! assembles the resulting keymap document.

pub mod cell;
pub mod reshape;
pub mod assemble;

pub use assemble::{
    KEYMAP_VERSION, Keymap, LayerShapeError, convert_layout, is_layer_empty, keys_per_layer,
    select_layers,
};
pub use cell::Cell;
pub use reshape::{RowCountError, flatten_layer};
