//! Playlist, ticker and command logic of a small control centre for the
//! `play` program of SoX.

pub mod text;
pub mod lines;
pub mod playlist;
pub mod ticker;
pub mod commands;
