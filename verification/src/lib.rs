//! A verified engine for the board game Neutron.
//!
//! Two players each own a row of pieces and share a single neutron. A move
//! slides a piece in one of the eight compass directions until it meets
//! another piece or the edge of the board. Bringing the neutron to an end
//! row, or pinning it so that it cannot move, ends the game.
//!
//! The engine is split into the board itself ([`grid`]), the turn engine
//! ([`game`]), and the parsing of textual player input ([`game_io`]).
//! Everything here is verified; drawing the board and talking to the
//! players is left to the binary built on top of this crate.

pub mod enums;
pub mod game;
pub mod game_io;
pub mod grid;
