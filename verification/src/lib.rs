//! Playlist generation over a music library: the decisions of the
//! generator, with their contracts proved by Verus.

pub mod audio;
pub mod db;
pub mod handlers;
pub mod models;
mod rng;
pub mod services;
