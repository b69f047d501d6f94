//! Shared logic of a two-player networked chess game: the chess rules
//! (bitboards, board, move generation), the lobby and game state kept by the
//! server, the small state machines of the user interface, and a few
//! generic helpers (a 2D grid, stopwatches, paths, logger settings).

pub mod chess;
pub mod game;
pub mod id;
pub mod message;
pub mod text;
pub mod threading;
pub mod time;
pub mod ui;
pub mod file;
pub mod framestats;
pub mod logger;
pub mod maths;
pub mod networking;
pub mod random;
pub mod server;
pub mod error;
