//! RockCast: internet radio for Google Cast receivers and local speakers.

pub mod app;
pub mod audio;
pub mod cast;
pub mod clock;
pub mod json;
pub mod local;
pub mod net;
pub mod observers;
pub mod order;
pub mod output;
pub mod personal_data;
pub mod playback;
pub mod stations;
pub mod text;
