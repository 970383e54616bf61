//! Commands by voice: a button that is held while one speaks.

use super::play;
use super::state::{ActionView, AppAction, AppView, Flags, Prompt, RockCastApp, VoiceView};
use super::words::{Phrase, PhraseView};
use crate::order;
use crate::text;
use vstd::prelude::*;

verus! {

/// The language that commands are spoken in.
pub const VOICE_LOCALE: &'static str = "ru-RU";

/// Whether there is a token for the server that understands commands.
pub open spec fn has_token(a: AppView) -> bool {
    text::trimmed(a.choices.rockserver_bearer_token).len() > 0
}

/// Whether the button does anything.
pub open spec fn can_listen(a: AppView) -> bool {
    a.choices.rockserver_enabled && !a.voice.busy
}

/// The player, once the button was pressed.
pub open spec fn listening(a: AppView) -> AppView {
    if !can_listen(a) {
        a
    } else if !has_token(a) {
        AppView {
            flags: Flags { rockserver_setup_open: true, ..a.flags },
            ..a.with_status(a.choices.say(PhraseView::TokenRequired))
        }
    } else {
        AppView {
            voice: VoiceView { busy: true, recording: true, ..a.voice },
            ..a.with_status(a.choices.plain("Слушаю, пока удерживается кнопка…"@))
        }
    }
}

/// What pressing the button leads to.
pub open spec fn listen_actions(a: AppView) -> Seq<ActionView> {
    if !can_listen(a) {
        Seq::empty()
    } else if !has_token(a) {
        seq![ActionView::Say(Prompt::TokenMissing)]
    } else {
        seq![
            ActionView::Say(Prompt::Beep),
            ActionView::Record(a.choices.rockserver_url, a.choices.rockserver_bearer_token),
        ]
    }
}

/// The player, once the button was released.
pub open spec fn released(a: AppView) -> AppView {
    if a.voice.recording {
        AppView {
            voice: VoiceView { recording: false, ..a.voice },
            ..a.with_status(a.choices.plain("Распознаю команду…"@))
        }
    } else {
        a
    }
}

/// What releasing the button leads to.
pub open spec fn release_actions(a: AppView) -> Seq<ActionView> {
    if a.voice.recording {
        seq![ActionView::EndRecording]
    } else {
        Seq::empty()
    }
}

/// The player, once it was pressed where `on_button`.
pub open spec fn pressed(a: AppView, on_button: bool) -> AppView {
    if on_button && !a.voice.busy {
        listening(a)
    } else {
        a
    }
}

/// What is written on the button.
pub open spec fn caption_of(v: VoiceView) -> Seq<char> {
    if v.recording {
        "Слушаю…"@
    } else if v.busy {
        "Распознаю…"@
    } else {
        "Голос"@
    }
}

impl RockCastApp {
    /// Records a command, unless one is being recorded or understood. Without a token
    /// the settings of the server are shown instead.
    pub fn start_voice(&mut self) -> (out: Vec<AppAction>)
        ensures
            final(self)@ == listening(old(self)@),
            order::views(out@) == listen_actions(old(self)@),
    {
        if !self.choices.rockserver_enabled || self.voice.busy {
            return play::nothing();
        }
        let token = text::trim(self.choices.rockserver_bearer_token.as_str());
        if text::is_empty(token.as_str()) {
            self.flags.rockserver_setup_open = true;
            self.shown.status = self.choices.say(Phrase::TokenRequired);
            return play::one(AppAction::Say(Prompt::TokenMissing));
        }
        self.voice.busy = true;
        self.shown.status = self.choices.plain("Слушаю, пока удерживается кнопка…");
        self.voice.recording = true;
        let record = AppAction::Record {
            url: self.choices.rockserver_url.clone(),
            token: self.choices.rockserver_bearer_token.clone(),
        };
        let out = play::all_of(play::one(AppAction::Say(Prompt::Beep)), play::one(record));
        proof {
            assert(order::views(out@) =~= listen_actions(old(self)@));
        }
        out
    }

    /// Ends the recording of a command, which is then understood.
    pub fn stop_voice_recording(&mut self) -> (out: Vec<AppAction>)
        ensures
            final(self)@ == released(old(self)@),
            order::views(out@) == release_actions(old(self)@),
    {
        if self.voice.recording {
            self.voice.recording = false;
            self.shown.status = self.choices.plain("Распознаю команду…");
            play::one(AppAction::EndRecording)
        } else {
            play::nothing()
        }
    }

    /// What the button is doing: whether it is held down, and whether the mouse is,
    /// wherever it points. A recording goes on until the mouse is released.
    pub fn voice_button(&mut self, on_button: bool, mouse_down: bool) -> (out: Vec<AppAction>)
        ensures
            ({
                let a = pressed(old(self)@, on_button);
                let begin = if on_button && !old(self)@.voice.busy {
                    listen_actions(old(self)@)
                } else {
                    Seq::empty()
                };
                if mouse_down {
                    &&& final(self)@ == a
                    &&& order::views(out@) == begin
                } else {
                    &&& final(self)@ == released(a)
                    &&& order::views(out@) == begin + release_actions(a)
                }
            }),
    {
        let begin = if on_button && !self.voice.busy {
            self.start_voice()
        } else {
            play::nothing()
        };
        if mouse_down {
            return begin;
        }
        let end = self.stop_voice_recording();
        play::all_of(begin, end)
    }

    /// What is written on the button.
    pub fn voice_caption(&self) -> (s: &'static str)
        ensures
            s@ == caption_of(self@.voice),
            self.voice.recording ==> s@ == "Слушаю…"@,
            !self.voice.recording && self.voice.busy ==> s@ == "Распознаю…"@,
            !self.voice.recording && !self.voice.busy ==> s@ == "Голос"@,
    {
        if self.voice.recording {
            "Слушаю…"
        } else if self.voice.busy {
            "Распознаю…"
        } else {
            "Голос"
        }
    }
}

/// While a command is recorded or understood no other is recorded, and a recording
/// that was begun is ended by releasing the mouse.
pub proof fn one_command_at_a_time(a: AppView)
    ensures
        listen_actions(listening(a)).len() > 0 ==> !has_token(a),
        has_token(a) && can_listen(a) ==> release_actions(listening(a)) == seq![
            ActionView::EndRecording,
        ],
        release_actions(released(a)) == Seq::<ActionView>::empty(),
        released(a).voice.busy == a.voice.busy,
{
}

/// Nothing is recorded without a server in use and a token for it.
pub proof fn nothing_is_recorded_without_a_server(a: AppView, i: int)
    requires
        0 <= i < listen_actions(a).len(),
        listen_actions(a)[i] is Record,
    ensures
        a.choices.rockserver_enabled,
        has_token(a),
{
}

} // verus!
