//! The dialogue with a receiver: launch the media player, load a stream, stop it.

pub mod commands;
pub mod laws;
pub mod media;
pub mod replies;
pub mod service;
pub mod session;
