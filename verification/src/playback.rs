//! The states of playback.

use crate::text;
use vstd::prelude::*;

verus! {

/// Where playback stands. Each attempt to play has a generation of its own.
#[derive(Debug, Clone, Copy, PartialEq, Eq, Structural)]
pub enum PlaybackPhase {
    Idle,
    Opening { generation: u64, local: bool },
    Playing { generation: u64, local: bool },
    Stopping { generation: u64 },
    Failed { generation: u64 },
}

impl PlaybackPhase {
    /// The attempt that a phase belongs to.
    pub open spec fn attempt(self) -> Option<u64> {
        match self {
            PlaybackPhase::Idle => None,
            PlaybackPhase::Opening { generation, .. } => Some(generation),
            PlaybackPhase::Playing { generation, .. } => Some(generation),
            PlaybackPhase::Stopping { generation } => Some(generation),
            PlaybackPhase::Failed { generation } => Some(generation),
        }
    }

    /// The attempt that a phase belongs to; none while nothing was tried.
    pub fn generation(self) -> (g: Option<u64>)
        ensures
            g == self.attempt(),
            g is None <==> self == PlaybackPhase::Idle,
    {
        match self {
            PlaybackPhase::Idle => None,
            PlaybackPhase::Opening { generation, local: _ } => Some(generation),
            PlaybackPhase::Playing { generation, local: _ } => Some(generation),
            PlaybackPhase::Stopping { generation } => Some(generation),
            PlaybackPhase::Failed { generation } => Some(generation),
        }
    }
}

/// What an attempt to play reports.
#[derive(Debug)]
pub enum PlaybackEvent {
    Status { text: String, generation: u64 },
    Title { title: String, generation: u64 },
    PlayOk { url: String, tap_url: Option<String>, generation: u64, local: bool },
    StopOk { generation: u64 },
    Error { message: String, generation: u64 },
}

/// The contents of a [`PlaybackEvent`].
#[verifier::ext_equal]
pub enum EventView {
    Status(Seq<char>, u64),
    Title(Seq<char>, u64),
    PlayOk { url: Seq<char>, tap_url: Option<Seq<char>>, generation: u64, local: bool },
    StopOk(u64),
    Error(Seq<char>, u64),
}

impl View for PlaybackEvent {
    type V = EventView;

    open spec fn view(&self) -> EventView {
        match self {
            PlaybackEvent::Status { text, generation } => EventView::Status(text@, *generation),
            PlaybackEvent::Title { title, generation } => EventView::Title(title@, *generation),
            PlaybackEvent::PlayOk { url, tap_url, generation, local } => EventView::PlayOk {
                url: url@,
                tap_url: text::maybe(*tap_url),
                generation: *generation,
                local: *local,
            },
            PlaybackEvent::StopOk { generation } => EventView::StopOk(*generation),
            PlaybackEvent::Error { message, generation } => EventView::Error(
                message@,
                *generation,
            ),
        }
    }
}

impl PlaybackEvent {
    /// The attempt that an event belongs to.
    pub open spec fn attempt(&self) -> u64 {
        match self {
            PlaybackEvent::Status { generation, .. } => *generation,
            PlaybackEvent::Title { generation, .. } => *generation,
            PlaybackEvent::PlayOk { generation, .. } => *generation,
            PlaybackEvent::StopOk { generation } => *generation,
            PlaybackEvent::Error { generation, .. } => *generation,
        }
    }

    /// The attempt that an event belongs to.
    pub fn generation(&self) -> (g: u64)
        ensures
            g == self.attempt(),
    {
        match self {
            PlaybackEvent::Status { text: _, generation } => *generation,
            PlaybackEvent::Title { title: _, generation } => *generation,
            PlaybackEvent::PlayOk { url: _, tap_url: _, generation, local: _ } => *generation,
            PlaybackEvent::StopOk { generation } => *generation,
            PlaybackEvent::Error { message: _, generation } => *generation,
        }
    }
}

} // verus!
