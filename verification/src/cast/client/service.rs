//! Playing on a receiver: from the connection to the stream, and back.

use super::commands;
use super::commands::{Command, CommandView};
use super::media;
use super::replies::{AwaitView, Awaiting, CastChannel, Reply, ReplyView};
use super::session::{AppSession, AppView};
use crate::cast::channel;
use crate::cast::channel::{
    ChannelError, ErrorView, NS_CONNECTION, NS_MEDIA, NS_RECEIVER, RECEIVER_ID,
};
use crate::cast::discovery;
use crate::cast::discovery::{DeviceView, DiscoveredDevice, DiscoveryError};
use crate::json;
use crate::json::{Json, JsonView};
use crate::order;
use crate::text;
use vstd::prelude::*;

verus! {

/// How long the state of a receiver is waited for, in milliseconds.
pub const STATUS_TIMEOUT_MS: u64 = 8_000;

/// How long the launch of the media player is waited for, in milliseconds.
pub const LAUNCH_TIMEOUT_MS: u64 = 12_000;

/// How long a stream may take to load, in milliseconds.
pub const LOAD_TIMEOUT_MS: u64 = 15_000;

/// How long a receiver may hear nothing, in milliseconds.
pub const PING_INTERVAL_MS: u64 = 5_000;

/// What goes wrong with a receiver.
#[derive(Debug)]
pub enum CastError {
    Discovery(DiscoveryError),
    Channel(ChannelError),
}

/// The error in words: those of what went wrong.
pub open spec fn error_text(e: CastError) -> Seq<char> {
    match e {
        CastError::Discovery(e) => discovery::error_text(e),
        CastError::Channel(e) => channel::error_text(e@),
    }
}

impl CastError {
    /// The error in words: those of what went wrong.
    pub fn message(&self) -> (s: String)
        ensures
            s@ == error_text(*self),
            self matches CastError::Discovery(DiscoveryError::Mdns(e)) ==> s@ == "mDNS: "@ + e@,
            self matches CastError::Channel(e) ==> s@ == channel::error_text(e@),
    {
        match self {
            CastError::Discovery(e) => e.message(),
            CastError::Channel(e) => e.message(),
        }
    }
}

/// A receiver that was found.
#[derive(Debug)]
pub struct CastDeviceInfo {
    pub discovered: DiscoveredDevice,
}

impl View for CastDeviceInfo {
    type V = DeviceView;

    open spec fn view(&self) -> DeviceView {
        self.discovered@
    }
}

impl Clone for CastDeviceInfo {
    fn clone(&self) -> (r: CastDeviceInfo)
        ensures
            r@ == self@,
    {
        CastDeviceInfo { discovered: self.discovered.clone() }
    }
}

impl CastDeviceInfo {
    /// The receiver as it is listed.
    pub fn label(&self) -> (s: String)
        ensures
            s@ == discovery::label_of(self@),
    {
        self.discovered.label()
    }
}

/// Whether a receiver that last heard a ping so long ago needs another.
pub fn ping_due(since_ping_ms: u64) -> (r: bool)
    ensures
        r == (since_ping_ms > PING_INTERVAL_MS),
        r <==> since_ping_ms > 5_000,
{
    since_ping_ms > PING_INTERVAL_MS
}

/// Every command can be written, and so can be sent.
pub open spec fn all_writable(list: Seq<Command>) -> bool {
    forall|i: int| 0 <= i < list.len() ==> json::can_be_written((#[trigger] list[i]).value)
}

fn command(destination: &str, namespace: &'static str, value: Json) -> (c: Command)
    ensures
        c@ == (CommandView { destination: destination@, namespace: namespace@, value: value@ }),
        c.value == value,
{
    Command { destination: destination.to_string(), namespace, value }
}

/// A command to an application, or to the receiver itself.
pub open spec fn to(destination: Seq<char>, namespace: Seq<char>, value: JsonView) -> CommandView {
    CommandView { destination, namespace, value }
}

/// A stream that is playing on a receiver.
#[derive(Debug)]
pub struct LiveSession {
    pub channel: CastChannel,
    pub app: AppSession,
    pub media_session_id: Option<i64>,
}

/// The number of the request that stops the application, which is the last one; that
/// which stops the media comes before it.
pub open spec fn stop_app_id(media: Option<i64>, id: u32) -> u32 {
    if media is Some {
        channel::id_after(id)
    } else {
        id
    }
}

/// What stops a stream: the media where the receiver named it, the application, and
/// both virtual connections.
pub open spec fn stop_views(app: AppView, media: Option<i64>, id: u32) -> Seq<CommandView> {
    let rest_id = stop_app_id(media, id);
    (match media {
        Some(m) => seq![to(app.transport_id, NS_MEDIA@, commands::stop_media_view(id, m))],
        None => Seq::empty(),
    }) + seq![
        to(RECEIVER_ID@, NS_RECEIVER@, commands::stop_app_view(rest_id, app.session_id)),
        to(app.transport_id, NS_CONNECTION@, commands::close_view()),
        to(RECEIVER_ID@, NS_CONNECTION@, commands::close_view()),
    ]
}

impl LiveSession {
    /// The commands that stop the stream.
    pub fn send_stop(&mut self) -> (out: Vec<Command>)
        ensures
            order::views(out@) == stop_views(
                old(self).app@,
                old(self).media_session_id,
                old(self).channel.request_id,
            ),
            all_writable(out@),
            final(self).app == old(self).app,
            final(self).media_session_id == old(self).media_session_id,
            final(self).channel.inbox == old(self).channel.inbox,
            final(self).channel.request_id == channel::id_after(
                stop_app_id(old(self).media_session_id, old(self).channel.request_id),
            ),
    {
        let mut out: Vec<Command> = Vec::new();
        if let Some(m) = self.media_session_id {
            let id: u32 = self.channel.next_request_id();
            out.push(
                command(self.app.transport_id.as_str(), NS_MEDIA, commands::stop_media(id, m)),
            );
        }
        let id: u32 = self.channel.next_request_id();
        out.push(
            command(
                RECEIVER_ID,
                NS_RECEIVER,
                commands::stop_app(id, self.app.session_id.as_str()),
            ),
        );
        out.push(command(self.app.transport_id.as_str(), NS_CONNECTION, commands::close()));
        out.push(command(RECEIVER_ID, NS_CONNECTION, commands::close()));
        proof {
            assert(order::views(out@) =~= stop_views(
                old(self).app@,
                old(self).media_session_id,
                old(self).channel.request_id,
            ));
        }
        out
    }
}

/// How far a stream has come.
#[derive(Debug)]
pub enum PlayStage {
    /// The receiver is being connected to.
    Connecting,
    /// It was asked for its state.
    Asking,
    /// It was told to launch the media player.
    Launching,
    /// The media player is being connected to.
    Joining(AppSession),
    /// The media player was told to load the stream, as its content type of this
    /// number.
    Loading(AppSession, usize),
    Playing(AppSession, Option<i64>),
    Failed,
}

/// The contents of a [`PlayStage`].
pub enum StageView {
    Connecting,
    Asking,
    Launching,
    Joining(AppView),
    Loading(AppView, int),
    Playing(AppView, Option<i64>),
    Failed,
}

impl View for PlayStage {
    type V = StageView;

    open spec fn view(&self) -> StageView {
        match self {
            PlayStage::Connecting => StageView::Connecting,
            PlayStage::Asking => StageView::Asking,
            PlayStage::Launching => StageView::Launching,
            PlayStage::Joining(app) => StageView::Joining(app@),
            PlayStage::Loading(app, i) => StageView::Loading(app@, *i as int),
            PlayStage::Playing(app, media) => StageView::Playing(app@, *media),
            PlayStage::Failed => StageView::Failed,
        }
    }
}

/// What happened on the way to a stream.
#[derive(Debug)]
pub enum PlayEvent {
    /// The receiver was connected to.
    Connected(CastChannel),
    /// All was sent, and nothing is waited for.
    Sent,
    /// What was waited for came.
    Replied(Reply),
    /// Connecting, sending or waiting failed.
    Failed(ChannelError),
}

/// The contents of a [`PlayEvent`].
pub enum EventView {
    /// The number of the channel's next request.
    Connected(u32),
    Sent,
    Replied(ReplyView),
    Failed(ErrorView),
}

impl View for PlayEvent {
    type V = EventView;

    open spec fn view(&self) -> EventView {
        match self {
            PlayEvent::Connected(c) => EventView::Connected(c.request_id),
            PlayEvent::Sent => EventView::Sent,
            PlayEvent::Replied(r) => EventView::Replied(r@),
            PlayEvent::Failed(e) => EventView::Failed(e@),
        }
    }
}

/// What to do next.
#[derive(Debug)]
pub enum PlayAction {
    /// Nothing: what happened was not waited for.
    Nothing,
    /// Tell the user, send these, and wait for the answer, where there is one.
    Send {
        status: Option<String>,
        commands: Vec<Command>,
        wait: Option<(Awaiting, u64)>,
    },
    /// The stream plays: send these, and tell the user. Where sending fails, it plays
    /// all the same.
    Playing { commands: Vec<Command>, status: Option<String> },
    /// Tell the user, and give up.
    Fail { status: Option<String>, error: ChannelError },
}

/// The contents of a [`PlayAction`].
#[verifier::ext_equal]
pub enum ActionView {
    Nothing,
    Send {
        status: Option<Seq<char>>,
        commands: Seq<CommandView>,
        wait: Option<(AwaitView, u64)>,
    },
    Playing { commands: Seq<CommandView>, status: Option<Seq<char>> },
    Fail { status: Option<Seq<char>>, error: ErrorView },
}

/// What is waited for, and for how long.
pub open spec fn wait_view(w: Option<(Awaiting, u64)>) -> Option<(AwaitView, u64)> {
    match w {
        Some((a, ms)) => Some((a@, ms)),
        None => None,
    }
}

impl View for PlayAction {
    type V = ActionView;

    open spec fn view(&self) -> ActionView {
        match self {
            PlayAction::Nothing => ActionView::Nothing,
            PlayAction::Send { status, commands, wait } => ActionView::Send {
                status: text::maybe(*status),
                commands: order::views(commands@),
                wait: wait_view(*wait),
            },
            PlayAction::Playing { commands, status } => ActionView::Playing {
                commands: order::views(commands@),
                status: text::maybe(*status),
            },
            PlayAction::Fail { status, error } => ActionView::Fail {
                status: text::maybe(*status),
                error: error@,
            },
        }
    }
}

impl PlayAction {
    /// What is to be sent can be.
    pub open spec fn can_be_sent(self) -> bool {
        match self {
            PlayAction::Send { status, commands, wait } => all_writable(commands@),
            PlayAction::Playing { commands, status } => all_writable(commands@),
            _ => true,
        }
    }
}

/// A stream on its way to a receiver.
#[derive(Debug)]
pub struct CastPlay {
    pub device: CastDeviceInfo,
    pub url: String,
    /// The content types under which the stream is offered, in turn.
    pub content_types: Vec<String>,
    pub title: String,
    pub channel: CastChannel,
    pub stage: PlayStage,
}

/// The contents of a [`CastPlay`].
#[verifier::ext_equal]
pub struct PlayView {
    pub device: DeviceView,
    pub url: Seq<char>,
    pub content_types: Seq<Seq<char>>,
    pub title: Seq<char>,
    pub request_id: u32,
    pub stage: StageView,
}

impl View for CastPlay {
    type V = PlayView;

    open spec fn view(&self) -> PlayView {
        PlayView {
            device: self.device@,
            url: self.url@,
            content_types: text::texts(self.content_types@),
            title: self.title@,
            request_id: self.channel.request_id,
            stage: self.stage@,
        }
    }
}

/// A stream that failed.
pub open spec fn failing(p: PlayView, status: Option<Seq<char>>, error: ErrorView) -> (
    PlayView,
    ActionView,
) {
    (PlayView { stage: StageView::Failed, ..p }, ActionView::Fail { status, error })
}

/// The media player was found, and is connected to.
pub open spec fn joining(p: PlayView, app: AppView) -> (PlayView, ActionView) {
    (
        PlayView { stage: StageView::Joining(app), ..p },
        ActionView::Send {
            status: None,
            commands: seq![to(app.transport_id, NS_CONNECTION@, commands::connect_view())],
            wait: None,
        },
    )
}

/// The stream is offered as its content type of this number, unless it was cancelled
/// or there is no such; then it failed.
pub open spec fn loading(
    p: PlayView,
    app: AppView,
    i: int,
    status: Option<Seq<char>>,
    error: ErrorView,
    cancelled: bool,
) -> (PlayView, ActionView) {
    if i >= p.content_types.len() {
        failing(p, status, error)
    } else if cancelled {
        failing(p, status, ErrorView::Cancelled)
    } else {
        (
            PlayView {
                stage: StageView::Loading(app, i),
                request_id: channel::id_after(p.request_id),
                ..p
            },
            ActionView::Send {
                status,
                commands: seq![
                    to(
                        app.transport_id,
                        NS_MEDIA@,
                        commands::load_view(
                            p.request_id,
                            app.session_id,
                            p.url,
                            p.content_types[i],
                            p.title,
                        ),
                    ),
                ],
                wait: Some((AwaitView::Load(p.request_id, p.url, 0), LOAD_TIMEOUT_MS)),
            },
        )
    }
}

/// What the user is told when a content type was refused.
pub open spec fn retry_text(content_type: Seq<char>) -> Seq<char> {
    "Retry with "@ + content_type + "..."@
}

/// The stream plays.
pub open spec fn playing(p: PlayView, app: AppView, media: Option<i64>) -> (PlayView, ActionView) {
    (
        PlayView {
            stage: StageView::Playing(app, media),
            request_id: if media is Some {
                channel::id_after(p.request_id)
            } else {
                p.request_id
            },
            ..p
        },
        ActionView::Playing {
            commands: match media {
                Some(m) => seq![
                    to(app.transport_id, NS_MEDIA@, commands::play_view(p.request_id, m)),
                ],
                None => Seq::empty(),
            },
            status: Some("Playing on «"@ + p.device.name + "»"@),
        },
    )
}

/// What happens next on the way to a stream.
pub open spec fn stepped(p: PlayView, e: EventView, cancelled: bool) -> (PlayView, ActionView) {
    match (p.stage, e) {
        (StageView::Connecting, EventView::Connected(id)) => (
            PlayView { stage: StageView::Asking, request_id: channel::id_after(id), ..p },
            ActionView::Send {
                status: Some("Starting stream: "@ + p.title),
                commands: seq![
                    to(RECEIVER_ID@, NS_CONNECTION@, commands::connect_view()),
                    to(RECEIVER_ID@, NS_RECEIVER@, commands::get_status_view(id)),
                ],
                wait: Some((AwaitView::Status(id), STATUS_TIMEOUT_MS)),
            },
        ),
        (StageView::Asking, EventView::Replied(ReplyView::Status(Some(app)))) => joining(p, app),
        (StageView::Asking, EventView::Replied(ReplyView::Status(None))) => (
            PlayView {
                stage: StageView::Launching,
                request_id: channel::id_after(p.request_id),
                ..p
            },
            ActionView::Send {
                status: None,
                commands: seq![
                    to(RECEIVER_ID@, NS_RECEIVER@, commands::launch_view(p.request_id)),
                ],
                wait: Some((AwaitView::Launch(p.request_id), LAUNCH_TIMEOUT_MS)),
            },
        ),
        (StageView::Launching, EventView::Replied(ReplyView::Launched(app))) => joining(p, app),
        (StageView::Joining(app), EventView::Sent) => loading(
            p,
            app,
            0,
            None,
            ErrorView::Cancelled,
            cancelled,
        ),
        (StageView::Loading(app, i), EventView::Replied(ReplyView::Loaded(media))) => playing(
            p,
            app,
            media,
        ),
        (StageView::Loading(app, i), EventView::Failed(error)) => loading(
            p,
            app,
            i + 1,
            Some(retry_text(p.content_types[i])),
            error,
            cancelled,
        ),
        (StageView::Playing(_, _), _) => (p, ActionView::Nothing),
        (StageView::Failed, _) => (p, ActionView::Nothing),
        (_, EventView::Failed(error)) => failing(p, None, error),
        (_, _) => (p, ActionView::Nothing),
    }
}

impl CastPlay {
    /// A content type is offered only where there is one.
    pub open spec fn wf(self) -> bool {
        &&& self.content_types@.len() > 0
        &&& self.stage matches PlayStage::Loading(_, i) ==> i < self.content_types@.len()
    }

    fn fail(&mut self, status: Option<String>, error: ChannelError) -> (a: PlayAction)
        ensures
            (final(self)@, a@) == failing(old(self)@, text::maybe(status), error@),
            final(self).content_types == old(self).content_types,
            final(self).channel == old(self).channel,
            final(self).stage is Failed,
            a.can_be_sent(),
    {
        self.stage = PlayStage::Failed;
        PlayAction::Fail { status, error }
    }

    fn join(&mut self, app: AppSession) -> (a: PlayAction)
        ensures
            (final(self)@, a@) == joining(old(self)@, app@),
            final(self).content_types == old(self).content_types,
            final(self).channel == old(self).channel,
            final(self).stage is Joining,
            a.can_be_sent(),
    {
        let mut out: Vec<Command> = Vec::new();
        out.push(command(app.transport_id.as_str(), NS_CONNECTION, commands::connect()));
        proof {
            assert(order::views(out@) =~= seq![
                to(app@.transport_id, NS_CONNECTION@, commands::connect_view()),
            ]);
        }
        self.stage = PlayStage::Joining(app);
        PlayAction::Send { status: None, commands: out, wait: None }
    }

    fn offer(
        &mut self,
        app: AppSession,
        i: usize,
        status: Option<String>,
        error: ChannelError,
        cancelled: bool,
    ) -> (a: PlayAction)
        ensures
            (final(self)@, a@) == loading(
                old(self)@,
                app@,
                i as int,
                text::maybe(status),
                error@,
                cancelled,
            ),
            final(self).content_types == old(self).content_types,
            final(self).channel.inbox == old(self).channel.inbox,
            final(self).stage matches PlayStage::Loading(_, k) ==> k < old(self).content_types@.len(),
            a.can_be_sent(),
    {
        proof {
            assert(self@.content_types.len() == self.content_types@.len());
        }
        if i >= self.content_types.len() {
            return self.fail(status, error);
        }
        if cancelled {
            return self.fail(status, ChannelError::Cancelled);
        }
        let req: u32 = self.channel.next_request_id();
        let mut out: Vec<Command> = Vec::new();
        let value = commands::load(
            req,
            app.session_id.as_str(),
            self.url.as_str(),
            self.content_types[i].as_str(),
            self.title.as_str(),
        );
        out.push(command(app.transport_id.as_str(), NS_MEDIA, value));
        proof {
            assert(old(self)@.content_types[i as int] == self.content_types@[i as int]@);
            assert(order::views(out@) =~= seq![
                to(
                    app@.transport_id,
                    NS_MEDIA@,
                    commands::load_view(
                        req,
                        app@.session_id,
                        self.url@,
                        old(self)@.content_types[i as int],
                        self.title@,
                    ),
                ),
            ]);
        }
        let wait = Awaiting::Load { req, url: self.url.clone(), idle_hits: 0 };
        self.stage = PlayStage::Loading(app, i);
        PlayAction::Send { status, commands: out, wait: Some((wait, LOAD_TIMEOUT_MS)) }
    }

    fn begin_playing(&mut self, app: AppSession, media: Option<i64>) -> (a: PlayAction)
        ensures
            (final(self)@, a@) == playing(old(self)@, app@, media),
            final(self).content_types == old(self).content_types,
            final(self).channel.inbox == old(self).channel.inbox,
            final(self).stage is Playing,
            a.can_be_sent(),
    {
        let mut out: Vec<Command> = Vec::new();
        if let Some(m) = media {
            let id: u32 = self.channel.next_request_id();
            out.push(command(app.transport_id.as_str(), NS_MEDIA, commands::play(id, m)));
        }
        proof {
            assert(order::views(out@) =~= match media {
                Some(m) => seq![
                    to(
                        app@.transport_id,
                        NS_MEDIA@,
                        commands::play_view(old(self).channel.request_id, m),
                    ),
                ],
                None => Seq::empty(),
            });
        }
        let status = text::joined_two("Playing on «", self.device.discovered.name.as_str());
        let status = text::joined_two(status.as_str(), "»");
        self.stage = PlayStage::Playing(app, media);
        PlayAction::Playing { commands: out, status: Some(status) }
    }

    fn ask(&mut self) -> (a: PlayAction)
        requires
            old(self).stage is Connecting,
        ensures
            (final(self)@, a@) == stepped(
                old(self)@,
                EventView::Connected(old(self).channel.request_id),
                false,
            ),
            final(self).content_types == old(self).content_types,
            final(self).channel.inbox == old(self).channel.inbox,
            final(self).stage is Asking,
            a.can_be_sent(),
    {
        let status = text::joined_two("Starting stream: ", self.title.as_str());
        let req: u32 = self.channel.next_request_id();
        let mut out: Vec<Command> = Vec::new();
        out.push(command(RECEIVER_ID, NS_CONNECTION, commands::connect()));
        out.push(command(RECEIVER_ID, NS_RECEIVER, commands::get_status(req)));
        proof {
            assert(order::views(out@) =~= seq![
                to(RECEIVER_ID@, NS_CONNECTION@, commands::connect_view()),
                to(RECEIVER_ID@, NS_RECEIVER@, commands::get_status_view(req)),
            ]);
        }
        self.stage = PlayStage::Asking;
        PlayAction::Send {
            status: Some(status),
            commands: out,
            wait: Some((Awaiting::Status { req }, STATUS_TIMEOUT_MS)),
        }
    }

    fn launch(&mut self) -> (a: PlayAction)
        requires
            old(self).stage is Asking,
        ensures
            (final(self)@, a@) == stepped(
                old(self)@,
                EventView::Replied(ReplyView::Status(None)),
                false,
            ),
            final(self).content_types == old(self).content_types,
            final(self).channel.inbox == old(self).channel.inbox,
            final(self).stage is Launching,
            a.can_be_sent(),
    {
        let req: u32 = self.channel.next_request_id();
        let mut out: Vec<Command> = Vec::new();
        out.push(command(RECEIVER_ID, NS_RECEIVER, commands::launch(req)));
        proof {
            assert(order::views(out@) =~= seq![
                to(RECEIVER_ID@, NS_RECEIVER@, commands::launch_view(req)),
            ]);
        }
        self.stage = PlayStage::Launching;
        PlayAction::Send {
            status: None,
            commands: out,
            wait: Some((Awaiting::Launch { req }, LAUNCH_TIMEOUT_MS)),
        }
    }

    /// What happens next on the way to the stream.
    pub fn step(&mut self, event: PlayEvent, cancelled: bool) -> (a: PlayAction)
        requires
            old(self).wf(),
        ensures
            (final(self)@, a@) == stepped(old(self)@, event@, cancelled),
            final(self).wf(),
            a.can_be_sent(),
            final(self).channel.inbox == match (old(self).stage, event) {
                (PlayStage::Connecting, PlayEvent::Connected(c)) => c.inbox,
                _ => old(self).channel.inbox,
            },
    {
        let mut stage = PlayStage::Failed;
        std::mem::swap(&mut self.stage, &mut stage);
        match (stage, event) {
            (PlayStage::Connecting, PlayEvent::Connected(channel)) => {
                self.channel = channel;
                self.stage = PlayStage::Connecting;
                self.ask()
            },
            (PlayStage::Asking, PlayEvent::Replied(Reply::Status(Some(app)))) => self.join(app),
            (PlayStage::Asking, PlayEvent::Replied(Reply::Status(None))) => {
                self.stage = PlayStage::Asking;
                self.launch()
            },
            (PlayStage::Launching, PlayEvent::Replied(Reply::Launched(app))) => self.join(app),
            (PlayStage::Joining(app), PlayEvent::Sent) => self.offer(
                app,
                0,
                None,
                ChannelError::Cancelled,
                cancelled,
            ),
            (PlayStage::Loading(app, i), PlayEvent::Replied(Reply::Loaded(media))) => {
                self.begin_playing(app, media)
            },
            (PlayStage::Loading(app, i), PlayEvent::Failed(error)) => {
                proof {
                    assert(old(self)@.content_types[i as int] == self.content_types@[i as int]@);
                }
                let total: usize = self.content_types.len();
                let status = text::joined_two("Retry with ", self.content_types[i].as_str());
                let status = text::joined_two(status.as_str(), "...");
                self.offer(app, i + 1, Some(status), error, cancelled)
            },
            (PlayStage::Playing(app, media), _) => {
                self.stage = PlayStage::Playing(app, media);
                PlayAction::Nothing
            },
            (PlayStage::Failed, _) => PlayAction::Nothing,
            (_, PlayEvent::Failed(error)) => self.fail(None, error),
            (other, _) => {
                self.stage = other;
                PlayAction::Nothing
            },
        }
    }
}

/// What was found, each as a receiver to play on.
fn wrapped(list: Vec<DiscoveredDevice>) -> (out: Vec<CastDeviceInfo>)
    ensures
        order::views(out@) == order::views(list@),
{
    let mut out: Vec<CastDeviceInfo> = Vec::new();
    let mut i: usize = 0;
    while i < list.len()
        invariant
            i <= list@.len(),
            order::views(out@) == order::views(list@).subrange(0, i as int),
        decreases list@.len() - i,
    {
        let ghost before = out@;
        let info = CastDeviceInfo { discovered: list[i].clone() };
        let ghost held = info@;
        out.push(info);
        i = i + 1;
        proof {
            assert(order::views(out@) =~= order::views(before).push(held));
            assert(order::views(out@) =~= order::views(list@).subrange(0, i as int));
        }
    }
    proof {
        assert(order::views(list@).subrange(0, i as int) =~= order::views(list@));
    }
    out
}

/// The receiver that plays, if one does.
#[derive(Debug)]
pub struct CastService {
    /// The identity of the receiver, and what plays there.
    pub current: Option<(String, LiveSession)>,
    /// Whether what is waited for was cancelled.
    pub cancel: bool,
}

/// What a new stream does to what played before.
pub open spec fn replaced(current: Option<(String, LiveSession)>, id: Seq<char>) -> Seq<
    CommandView,
> {
    match current {
        Some((old_id, s)) => if old_id@ != id {
            stop_views(s.app@, s.media_session_id, s.channel.request_id)
        } else {
            Seq::empty()
        },
        None => Seq::empty(),
    }
}

impl CastService {
    /// Nothing plays.
    pub fn new() -> (s: CastService)
        ensures
            s.current is None,
            !s.cancel,
    {
        CastService { current: None, cancel: false }
    }

    /// Cancels what is waited for.
    pub fn cancel_pending(&mut self)
        ensures
            final(self).cancel,
            final(self).current == old(self).current,
    {
        self.cancel = true;
    }

    /// The receivers of a search, in the order in which they are listed.
    pub fn scan(reports: Vec<DiscoveredDevice>) -> (out: Vec<CastDeviceInfo>)
        ensures
            order::views(out@) == discovery::listed(order::views(reports@)),
    {
        wrapped(discovery::discover(reports))
    }

    /// Begins a stream: whatever was waited for is no longer cancelled, a stream on
    /// another receiver is stopped, and the receiver is to be connected to. The
    /// commands go to the receiver that played before.
    pub fn play(
        &mut self,
        device: &CastDeviceInfo,
        url: &str,
        content_type: &str,
        title: &str,
    ) -> (r: (CastPlay, Vec<Command>, String))
        ensures
            final(self).current is None,
            !final(self).cancel,
            r.0.wf(),
            r.0@ == (PlayView {
                device: device@,
                url: url@,
                content_types: media::candidates(content_type@),
                title: title@,
                request_id: 1,
                stage: StageView::Connecting,
            }),
            r.0.channel.inbox@.len() == 0,
            order::views(r.1@) == replaced(old(self).current, device@.id),
            all_writable(r.1@),
            old(self).current is None ==> r.1@.len() == 0,
            old(self).current matches Some((id, s)) ==> {
                &&& id@ == device@.id ==> r.1@.len() == 0
                &&& id@ != device@.id ==> order::views(r.1@) == stop_views(
                    s.app@,
                    s.media_session_id,
                    s.channel.request_id,
                )
            },
            r.2@ == "Connecting to «"@ + device@.name + "»…"@,
    {
        self.cancel = false;
        let mut current: Option<(String, LiveSession)> = None;
        std::mem::swap(&mut self.current, &mut current);
        let mut out: Vec<Command> = Vec::new();
        proof {
            assert(order::views(out@) =~= Seq::empty());
        }
        if let Some((id, session)) = current {
            if !text::same(id.as_str(), device.discovered.id.as_str()) {
                let mut old_session = session;
                out = old_session.send_stop();
            }
        }
        let status = text::joined_two("Connecting to «", device.discovered.name.as_str());
        let status = text::joined_two(status.as_str(), "»…");
        let content_types = media::candidate_content_types(content_type);
        proof {
            media::candidates_differ_and_end_with_mpeg(content_type@);
            assert(text::texts(content_types@).len() == content_types@.len());
        }
        let play = CastPlay {
            device: CastDeviceInfo { discovered: device.discovered.clone() },
            url: url.to_string(),
            content_types,
            title: title.to_string(),
            channel: CastChannel::new(),
            stage: PlayStage::Connecting,
        };
        (play, out, status)
    }

    /// Keeps a stream that plays, to be stopped later. One that does not play is
    /// given up.
    pub fn keep(&mut self, play: CastPlay)
        ensures
            final(self).cancel == old(self).cancel,
            match play.stage {
                PlayStage::Playing(app, media) => final(self).current matches Some((id, s))
                    && id@ == play@.device.id && s.app == app && s.media_session_id == media
                    && s.channel == play.channel,
                _ => final(self).current == old(self).current,
            },
    {
        if let PlayStage::Playing(app, media) = play.stage {
            self.current = Some(
                (
                    play.device.discovered.id,
                    LiveSession { channel: play.channel, app, media_session_id: media },
                ),
            );
        }
    }

    /// Cancels what is waited for, and stops what plays.
    pub fn stop(&mut self) -> (out: Vec<Command>)
        ensures
            final(self).cancel,
            final(self).current is None,
            order::views(out@) == match old(self).current {
                Some((_, s)) => stop_views(s.app@, s.media_session_id, s.channel.request_id),
                None => Seq::empty(),
            },
            all_writable(out@),
    {
        self.cancel = true;
        let mut current: Option<(String, LiveSession)> = None;
        std::mem::swap(&mut self.current, &mut current);
        let mut out: Vec<Command> = Vec::new();
        proof {
            assert(order::views(out@) =~= Seq::empty());
        }
        if let Some((_, session)) = current {
            let mut old_session = session;
            out = old_session.send_stop();
        }
        out
    }
}

/// Once a stream was cancelled it is offered under no further content type.
pub proof fn a_cancelled_stream_is_not_offered(p: PlayView, e: EventView)
    requires
        p.stage is Joining || p.stage is Loading,
        e is Sent || e is Failed,
    ensures
        stepped(p, e, true).1 is Fail || stepped(p, e, true).1 is Nothing,
{
}

/// A receiver that refuses every content type was offered each of them once, in
/// their order, and then the stream has failed with its last words.
pub proof fn refusals_lead_to_the_next_content_type(p: PlayView, app: AppView, i: int, e: ErrorView)
    requires
        p.stage == StageView::Loading(app, i),
        0 <= i < p.content_types.len(),
    ensures
        i + 1 < p.content_types.len() ==> {
            let (next, action) = stepped(p, EventView::Failed(e), false);
            &&& next.stage == StageView::Loading(app, i + 1)
            &&& next.content_types == p.content_types
            &&& action matches ActionView::Send { status, commands, wait } && commands.len() == 1
                && commands[0].value == commands::load_view(
                p.request_id,
                app.session_id,
                p.url,
                p.content_types[i + 1],
                p.title,
            )
        },
        i + 1 == p.content_types.len() ==> stepped(p, EventView::Failed(e), false).1 == (
        ActionView::Fail { status: Some(retry_text(p.content_types[i])), error: e }),
{
}

/// A stream plays only once the receiver has said that it is loaded.
pub proof fn only_a_loaded_stream_plays(p: PlayView, e: EventView, cancelled: bool)
    requires
        !(p.stage is Playing),
        stepped(p, e, cancelled).0.stage is Playing,
    ensures
        p.stage is Loading,
        e matches EventView::Replied(ReplyView::Loaded(media)) && stepped(p, e, cancelled).0.stage
            == StageView::Playing(p.stage->Loading_0, media),
{
}

/// A stream that plays or failed stays as it is, whatever happens.
pub proof fn an_ended_play_stays_ended(p: PlayView, e: EventView, cancelled: bool)
    requires
        p.stage is Playing || p.stage is Failed,
    ensures
        stepped(p, e, cancelled) == (p, ActionView::Nothing),
{
}

/// What stops a stream ends by closing both virtual connections, the application's
/// and then the receiver's own.
pub proof fn stopping_ends_with_closing(app: AppView, media: Option<i64>, id: u32)
    ensures
        ({
            let s = stop_views(app, media, id);
            &&& s.len() == if media is Some {
                4int
            } else {
                3
            }
            &&& s[s.len() - 2] == to(app.transport_id, NS_CONNECTION@, commands::close_view())
            &&& s[s.len() - 1] == to(RECEIVER_ID@, NS_CONNECTION@, commands::close_view())
        }),
{
}

} // verus!
