//! Client side of the UCI chess-engine protocol: decoding of the engine's
//! `info` lines into an analysis record, and rendering of the commands that
//! start a search.

pub mod analysis;
pub mod number;
pub mod textbuf;
pub mod tokens;
pub mod uciengine;
