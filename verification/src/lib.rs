//! A verified core for a screen-watching chess assistant: a symbolic 8x8
//! board with orientation-aware rendering, move inference between two board
//! states, the integer image logic of the vision pipeline (binarisation,
//! template-score scanning, difference gating, piece-template slicing), and a
//! UCI engine driver whose line parsing is specified exactly.
pub mod board;
pub mod config;
pub mod detect;
pub mod error;
pub mod image;
pub mod locator;
pub mod monitor;
pub mod moves;
pub mod pattern;
pub mod text;
pub mod uci;
pub mod vision;
