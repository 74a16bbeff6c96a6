//! Arrangement engine for multi-monitor layouts: output model, logical
//! geometry, canvas projection, edge snapping, pointer interaction and
//! normalization of positions.
pub mod output;
pub mod snap;
pub mod normalize;
pub mod layout;
pub mod text;
pub mod display;
pub mod interaction;
pub mod wrap;
