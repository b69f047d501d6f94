//! Geometry helpers shared by the client and the server.

pub mod vec2d;
