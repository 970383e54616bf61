//! Audio streams: what they hold, how they are taken apart, how they are paced.

pub mod adts;
pub mod codec;
pub mod format;
pub mod icy;
pub mod live;
pub mod opus;
pub mod pcm;
pub mod reading;
pub mod spectrum;
