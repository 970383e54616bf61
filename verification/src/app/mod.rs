//! The player as its user sees it: stations, outputs, what is shown, and what each
//! click and each report leads to.

pub mod catalog;
pub mod devices;
pub mod laws;
pub mod panels;
pub mod personal;
pub mod play;
pub mod poll;
pub mod state;
pub mod voice;
pub mod words;
