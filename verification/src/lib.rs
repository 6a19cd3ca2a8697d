//! Two small turn-based grid games over a shared board model: a
//! gravity-drop connection game and a free-placement connection game.
//! The board, placement rules, win detection, rendering and the
//! turn/session logic are verified; console I/O lives outside.

pub mod tile;
pub mod grid;
pub mod board;
pub mod win;
pub mod input;
pub mod session;
pub mod render;
