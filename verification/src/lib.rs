//! Cover images for a playlist grid in a terminal.

pub mod canvas;
pub mod cover_laws;
pub mod cover_model;
pub mod covers;
pub mod draw;
pub mod encode;
pub mod encode_laws;
pub mod fixtures;
pub mod golden;
pub mod grid;
pub mod kitty;
pub mod kitty_laws;
pub mod palette;
pub mod picture_laws;
pub mod raster;
pub mod run_laws;
pub mod scenario;
pub mod screen;
pub mod screen_laws;
pub mod snapshot;
pub mod snapshot_laws;
pub mod store_laws;
pub mod text;
pub mod text_laws;
pub mod url_map;
