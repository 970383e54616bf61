//! Waiting for an answer: which message is one, and what becomes of the others.

use super::media;
use super::session;
use super::session::{AppSession, AppView};
use crate::cast::channel;
use crate::cast::channel::{ChannelError, ErrorView, Heartbeat, NS_DEVICEAUTH, NS_MEDIA, NS_RECEIVER};
use crate::cast::proto::{CastMessage, MessageView, Payload, PayloadView};
use crate::json;
use crate::json::{Json, JsonView};
use crate::order;
use crate::text;
use vstd::prelude::*;

verus! {

/// What is waited for.
#[derive(Debug)]
pub enum Awaiting {
    /// The answer to the challenge of a new connection.
    Auth,
    /// The state of the receiver.
    Status { req: u32 },
    /// The media player, once it was launched.
    Launch { req: u32 },
    /// A stream, once it was loaded. `idle_hits` counts the answers that say idle.
    Load { req: u32, url: String, idle_hits: u32 },
}

/// An answer.
#[derive(Debug)]
pub enum Reply {
    Auth,
    /// The application that plays media, where one runs.
    Status(Option<AppSession>),
    Launched(AppSession),
    /// The media session, where the receiver names one.
    Loaded(Option<i64>),
}

/// The contents of an [`Awaiting`].
#[verifier::ext_equal]
pub enum AwaitView {
    Auth,
    Status(u32),
    Launch(u32),
    Load(u32, Seq<char>, u32),
}

/// The contents of a [`Reply`].
#[verifier::ext_equal]
pub enum ReplyView {
    Auth,
    Status(Option<AppView>),
    Launched(AppView),
    Loaded(Option<i64>),
}

impl View for Awaiting {
    type V = AwaitView;

    open spec fn view(&self) -> AwaitView {
        match self {
            Awaiting::Auth => AwaitView::Auth,
            Awaiting::Status { req } => AwaitView::Status(*req),
            Awaiting::Launch { req } => AwaitView::Launch(*req),
            Awaiting::Load { req, url, idle_hits } => AwaitView::Load(*req, url@, *idle_hits),
        }
    }
}

impl View for Reply {
    type V = ReplyView;

    open spec fn view(&self) -> ReplyView {
        match self {
            Reply::Auth => ReplyView::Auth,
            Reply::Status(a) => ReplyView::Status(session::maybe_app(*a)),
            Reply::Launched(a) => ReplyView::Launched(a@),
            Reply::Loaded(m) => ReplyView::Loaded(*m),
        }
    }
}

/// What an optional answer holds.
pub open spec fn maybe_reply(r: Option<Reply>) -> Option<ReplyView> {
    match r {
        Some(x) => Some(x@),
        None => None,
    }
}

/// What a call came to.
pub open spec fn judgement(r: Result<Option<Reply>, ChannelError>) -> Result<
    Option<ReplyView>,
    ErrorView,
> {
    match r {
        Ok(x) => Ok(maybe_reply(x)),
        Err(e) => Err(e@),
    }
}

/// What a value means for a launch: the media player, nothing, or why it does not
/// run.
pub open spec fn launched(v: JsonView, req: u32) -> Result<Option<ReplyView>, Seq<char>> {
    let kind = media::text_or_empty(v, "type"@);
    if kind == "RECEIVER_STATUS"@ {
        match session::dmr_in(v) {
            Some(app) => Ok(Some(ReplyView::Launched(app))),
            None => Ok(None),
        }
    } else if kind == "LAUNCH_ERROR"@ && media::request_of(v) == req {
        Err(
            "LAUNCH_ERROR: "@ + match v.text_of("reason"@) {
                Some(r) => r,
                None => "?"@,
            },
        )
    } else {
        Ok(None)
    }
}

/// What a value means for a wait: the answer, nothing, or why there will be none.
pub open spec fn judged_json(w: AwaitView, v: JsonView) -> (
    AwaitView,
    Result<Option<ReplyView>, Seq<char>>,
) {
    match w {
        AwaitView::Auth => (w, Ok(None)),
        AwaitView::Status(req) => (
            w,
            if v.text_of("type"@) == Some("RECEIVER_STATUS"@) && (media::request_of(v) == req
                || media::request_of(v) == 0) {
                Ok(Some(ReplyView::Status(session::dmr_in(v))))
            } else {
                Ok(None)
            },
        ),
        AwaitView::Launch(req) => (w, launched(v, req)),
        AwaitView::Load(req, url, hits) => {
            let (after, r) = media::load_reply(v, req, url, hits);
            (
                AwaitView::Load(req, url, after),
                match r {
                    Ok(Some(s)) => Ok(Some(ReplyView::Loaded(s))),
                    Ok(None) => Ok(None),
                    Err(m) => Err(m),
                },
            )
        },
    }
}

/// The namespace on which an answer comes.
pub open spec fn namespace_of(w: AwaitView) -> Seq<char> {
    match w {
        AwaitView::Auth => NS_DEVICEAUTH@,
        AwaitView::Status(_) => NS_RECEIVER@,
        AwaitView::Launch(_) => NS_RECEIVER@,
        AwaitView::Load(_, _, _) => NS_MEDIA@,
    }
}

/// What a message means for a wait. A message on another namespace, or of bytes, means
/// nothing; a text that is no JSON ends the wait.
pub open spec fn judged(w: AwaitView, m: MessageView) -> (
    AwaitView,
    Result<Option<ReplyView>, ErrorView>,
) {
    if m.namespace != namespace_of(w) {
        (w, Ok(None))
    } else if w == AwaitView::Auth {
        (w, Ok(Some(ReplyView::Auth)))
    } else {
        match m.payload {
            PayloadView::Binary(_) => (w, Ok(None)),
            PayloadView::Text(s) => match json::json_in(s) {
                Err(e) => (w, Err(ErrorView::Msg(e))),
                Ok(v) => {
                    let (after, r) = judged_json(w, v);
                    (
                        after,
                        match r {
                            Ok(x) => Ok(x),
                            Err(e) => Err(ErrorView::Msg(e)),
                        },
                    )
                },
            },
        }
    }
}

impl Awaiting {
    /// What a value means for the wait.
    pub fn judge_json(&mut self, v: &Json) -> (r: Result<Option<Reply>, ChannelError>)
        ensures
            final(self)@ == judged_json(old(self)@, v@).0,
            match r {
                Ok(x) => judged_json(old(self)@, v@).1 == Ok::<Option<ReplyView>, Seq<char>>(
                    maybe_reply(x),
                ),
                Err(e) => judged_json(old(self)@, v@).1 matches Err(m) && e@ == ErrorView::Msg(m),
            },
    {
        match self {
            Awaiting::Auth => Ok(None),
            Awaiting::Status { req } => {
                let wanted = match v.text_of("type") {
                    Some(t) => text::same(t, "RECEIVER_STATUS"),
                    None => false,
                };
                let rid: u32 = media::request_id(v);
                if wanted && (rid == *req || rid == 0) {
                    Ok(Some(Reply::Status(session::parse_dmr(v))))
                } else {
                    Ok(None)
                }
            },
            Awaiting::Launch { req } => {
                let kind = match v.text_of("type") {
                    Some(t) => t,
                    None => "",
                };
                if text::same(kind, "RECEIVER_STATUS") {
                    return match session::parse_dmr(v) {
                        Some(app) => Ok(Some(Reply::Launched(app))),
                        None => Ok(None),
                    };
                }
                if text::same(kind, "LAUNCH_ERROR") && media::request_id(v) == *req {
                    let reason = match v.text_of("reason") {
                        Some(r) => r,
                        None => "?",
                    };
                    return Err(ChannelError::Msg(text::joined_two("LAUNCH_ERROR: ", reason)));
                }
                Ok(None)
            },
            Awaiting::Load { req, url, idle_hits } => {
                match media::read_load_reply(v, *req, url.as_str(), idle_hits) {
                    Ok(Some(s)) => Ok(Some(Reply::Loaded(s))),
                    Ok(None) => Ok(None),
                    Err(e) => Err(e),
                }
            },
        }
    }

    /// What a message means for the wait.
    pub fn judge(&mut self, m: &CastMessage) -> (r: Result<Option<Reply>, ChannelError>)
        ensures
            final(self)@ == judged(old(self)@, m@).0,
            judgement(r) == judged(old(self)@, m@).1,
    {
        let namespace = match self {
            Awaiting::Auth => NS_DEVICEAUTH,
            Awaiting::Status { req: _ } => NS_RECEIVER,
            Awaiting::Launch { req: _ } => NS_RECEIVER,
            Awaiting::Load { req: _, url: _, idle_hits: _ } => NS_MEDIA,
        };
        if !text::same(m.namespace.as_str(), namespace) {
            return Ok(None);
        }
        if let Awaiting::Auth = self {
            return Ok(Some(Reply::Auth));
        }
        match &m.payload {
            Payload::Binary(_b) => Ok(None),
            Payload::String(s) => match json::parse_json(s.as_str()) {
                Err(e) => Err(ChannelError::Msg(e)),
                Ok(v) => self.judge_json(&v),
            },
        }
    }
}

/// What became of a message that came in during a wait.
#[derive(Debug)]
pub enum Received {
    /// It was a heartbeat that asks for nothing.
    Ignored,
    /// It was a heartbeat: send a PONG.
    Pong,
    /// It was not what is waited for, and is kept.
    Kept,
    /// It was the answer.
    Answer(Reply),
}

/// The contents of a [`Received`].
#[verifier::ext_equal]
pub enum ReceivedView {
    Ignored,
    Pong,
    Kept,
    Answer(ReplyView),
}

impl View for Received {
    type V = ReceivedView;

    open spec fn view(&self) -> ReceivedView {
        match self {
            Received::Ignored => ReceivedView::Ignored,
            Received::Pong => ReceivedView::Pong,
            Received::Kept => ReceivedView::Kept,
            Received::Answer(r) => ReceivedView::Answer(r@),
        }
    }
}

/// Looks through messages that were kept, from the `i`th on: the first that is the
/// answer leaves the list.
pub open spec fn scanned(w: AwaitView, inbox: Seq<MessageView>, i: int) -> (
    AwaitView,
    Seq<MessageView>,
    Result<Option<ReplyView>, ErrorView>,
)
    decreases inbox.len() - i,
{
    if i < 0 || i >= inbox.len() {
        (w, inbox, Ok(None))
    } else {
        let (after, r) = judged(w, inbox[i]);
        match r {
            Err(e) => (after, inbox, Err(e)),
            Ok(Some(x)) => (after, inbox.remove(i), Ok(Some(x))),
            Ok(None) => scanned(after, inbox, i + 1),
        }
    }
}

/// What becomes of a message that comes in during a wait.
pub open spec fn received(w: AwaitView, inbox: Seq<MessageView>, m: MessageView) -> (
    AwaitView,
    Seq<MessageView>,
    Result<ReceivedView, ErrorView>,
) {
    match channel::heartbeat_of(m) {
        Heartbeat::Quiet => (w, inbox, Ok(ReceivedView::Ignored)),
        Heartbeat::Pong => (w, inbox, Ok(ReceivedView::Pong)),
        Heartbeat::Other => {
            let (after, r) = judged(w, m);
            match r {
                Err(e) => (after, inbox, Err(e)),
                Ok(Some(x)) => (after, inbox, Ok(ReceivedView::Answer(x))),
                Ok(None) => (after, inbox.push(m), Ok(ReceivedView::Kept)),
            }
        },
    }
}

/// What this side of a channel keeps: messages that nobody has asked for yet, and the
/// number of the next request.
#[derive(Debug)]
pub struct CastChannel {
    pub inbox: Vec<CastMessage>,
    pub request_id: u32,
}

impl CastChannel {
    /// A channel that was just opened.
    pub fn new() -> (c: CastChannel)
        ensures
            c.inbox@.len() == 0,
            c.request_id == 1,
    {
        CastChannel { inbox: Vec::new(), request_id: 1 }
    }

    /// The number for a request.
    pub fn next_request_id(&mut self) -> (id: u32)
        ensures
            id == old(self).request_id,
            final(self).request_id == channel::id_after(old(self).request_id),
            final(self).inbox == old(self).inbox,
    {
        let id: u32 = self.request_id;
        self.request_id = if id == u32::MAX {
            1
        } else {
            id + 1
        };
        id
    }

    /// Looks through the messages that were kept.
    pub fn scan_inbox(&mut self, w: &mut Awaiting) -> (r: Result<Option<Reply>, ChannelError>)
        ensures
            (final(w)@, order::views(final(self).inbox@), judgement(r)) == scanned(
                old(w)@,
                order::views(old(self).inbox@),
                0,
            ),
            final(self).request_id == old(self).request_id,
    {
        let ghost start = scanned(w@, order::views(self.inbox@), 0);
        let ghost kept = self.inbox@;
        let mut i: usize = 0;
        while i < self.inbox.len()
            invariant
                i <= self.inbox@.len(),
                self.inbox@ == kept,
                kept == old(self).inbox@,
                self.request_id == old(self).request_id,
                start == scanned(old(w)@, order::views(old(self).inbox@), 0),
                start == scanned(w@, order::views(kept), i as int),
            decreases self.inbox@.len() - i,
        {
            proof {
                assert(order::views(kept)[i as int] == kept[i as int]@);
            }
            match w.judge(&self.inbox[i]) {
                Err(e) => return Err(e),
                Ok(Some(x)) => {
                    self.inbox.remove(i);
                    proof {
                        assert(order::views(self.inbox@) =~= order::views(kept).remove(i as int));
                    }
                    return Ok(Some(x));
                },
                Ok(None) => {},
            }
            i = i + 1;
        }
        Ok(None)
    }

    /// Takes in a message during a wait.
    pub fn receive(&mut self, w: &mut Awaiting, m: CastMessage) -> (r: Result<
        Received,
        ChannelError,
    >)
        ensures
            final(w)@ == received(old(w)@, order::views(old(self).inbox@), m@).0,
            order::views(final(self).inbox@) == received(
                old(w)@,
                order::views(old(self).inbox@),
                m@,
            ).1,
            match r {
                Ok(x) => received(old(w)@, order::views(old(self).inbox@), m@).2 == Ok::<
                    ReceivedView,
                    ErrorView,
                >(x@),
                Err(e) => received(old(w)@, order::views(old(self).inbox@), m@).2 == Err::<
                    ReceivedView,
                    ErrorView,
                >(e@),
            },
            final(self).request_id == old(self).request_id,
    {
        let ghost before = self.inbox@;
        match channel::handle_heartbeat(&m) {
            Heartbeat::Quiet => return Ok(Received::Ignored),
            Heartbeat::Pong => return Ok(Received::Pong),
            Heartbeat::Other => {},
        }
        match w.judge(&m) {
            Err(e) => Err(e),
            Ok(Some(x)) => Ok(Received::Answer(x)),
            Ok(None) => {
                let ghost held = m@;
                self.inbox.push(m);
                proof {
                    assert(order::views(self.inbox@) =~= order::views(before).push(held));
                }
                Ok(Received::Kept)
            },
        }
    }

    /// Takes in a message while nothing is waited for: it is kept, unless it is a
    /// heartbeat.
    pub fn pump(&mut self, m: CastMessage) -> (h: Heartbeat)
        ensures
            h == channel::heartbeat_of(m@),
            order::views(final(self).inbox@) == if h == Heartbeat::Other {
                order::views(old(self).inbox@).push(m@)
            } else {
                order::views(old(self).inbox@)
            },
            final(self).request_id == old(self).request_id,
    {
        let ghost before = self.inbox@;
        let h = channel::handle_heartbeat(&m);
        if let Heartbeat::Other = h {
            let ghost held = m@;
            self.inbox.push(m);
            proof {
                assert(order::views(self.inbox@) =~= order::views(before).push(held));
            }
        }
        h
    }
}

/// No request has the number 0, which in answers stands for none, and the next one
/// has another number.
pub proof fn request_numbers_are_not_zero_and_change(id: u32)
    ensures
        channel::id_after(id) != 0,
        channel::id_after(id) != id,
{
}

proof fn lemma_scan(w: AwaitView, inbox: Seq<MessageView>, i: int)
    requires
        0 <= i,
    ensures
        match scanned(w, inbox, i).2 {
            Ok(Some(_)) => exists|k: int|
                0 <= k < inbox.len() && scanned(w, inbox, i).1 == #[trigger] inbox.remove(k),
            _ => scanned(w, inbox, i).1 == inbox,
        },
    decreases inbox.len() - i,
{
    if i < inbox.len() {
        let (after, r) = judged(w, inbox[i]);
        if let Ok(None) = r {
            lemma_scan(after, inbox, i + 1);
        } else if let Ok(Some(x)) = r {
            assert(scanned(w, inbox, i).1 == inbox.remove(i));
        }
    }
}

/// No message is lost in a wait: an answer takes one message out of the list, all
/// others stay in their order, and a message that is neither answer nor heartbeat is
/// kept behind them.
pub proof fn no_message_is_lost(w: AwaitView, inbox: Seq<MessageView>, m: MessageView)
    ensures
        match scanned(w, inbox, 0).2 {
            Ok(Some(_)) => exists|k: int|
                0 <= k < inbox.len() && scanned(w, inbox, 0).1 == #[trigger] inbox.remove(k),
            _ => scanned(w, inbox, 0).1 == inbox,
        },
        received(w, inbox, m).2 == Ok::<ReceivedView, ErrorView>(ReceivedView::Kept) ==> received(
            w,
            inbox,
            m,
        ).1 == inbox.push(m),
        channel::heartbeat_of(m) == Heartbeat::Other ==> (received(w, inbox, m).2 matches Ok(
            ReceivedView::Kept,
        ) || received(w, inbox, m).2 matches Ok(ReceivedView::Answer(_)) || received(
            w,
            inbox,
            m,
        ).2 is Err),
{
    lemma_scan(w, inbox, 0);
}

/// A heartbeat is never taken for an answer, whatever is waited for.
pub proof fn heartbeats_answer_nothing(w: AwaitView, inbox: Seq<MessageView>, m: MessageView)
    requires
        m.namespace == crate::cast::channel::NS_HEARTBEAT@,
    ensures
        received(w, inbox, m).0 == w,
        received(w, inbox, m).1 == inbox,
        received(w, inbox, m).2 == Ok::<ReceivedView, ErrorView>(ReceivedView::Ignored)
            || received(w, inbox, m).2 == Ok::<ReceivedView, ErrorView>(ReceivedView::Pong),
{
}

} // verus!
