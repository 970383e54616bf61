//! What holds of the dialogue with a receiver, step by step.

use super::commands;
use super::commands::CommandView;
use super::media;
use super::media::LoadProgress;
use super::replies;
use super::replies::{AwaitView, ReceivedView, ReplyView};
use super::service;
use super::service::{ActionView, EventView, PlayView, StageView};
use super::session;
use super::session::AppView;
use crate::cast::channel;
use crate::cast::channel::{ErrorView, Heartbeat, NS_CONNECTION, NS_MEDIA, NS_RECEIVER, RECEIVER_ID};
use crate::cast::proto::{MessageView, PayloadView};
use crate::json;
use crate::json::JsonView;
use crate::text;
use vstd::prelude::*;

verus! {

/// The commands that are sent by an action.
pub open spec fn sent_by(a: ActionView) -> Seq<CommandView> {
    match a {
        ActionView::Send { commands, .. } => commands,
        ActionView::Playing { commands, .. } => commands,
        _ => Seq::empty(),
    }
}

/// The application that a stream has come to.
pub open spec fn app_of(s: StageView) -> Option<AppView> {
    match s {
        StageView::Joining(app) => Some(app),
        StageView::Loading(app, _) => Some(app),
        StageView::Playing(app, _) => Some(app),
        _ => None,
    }
}

/// The namespaces differ.
pub proof fn namespaces_differ()
    ensures
        NS_MEDIA@ == "urn:x-cast:com.google.cast.media"@,
        NS_RECEIVER@ == "urn:x-cast:com.google.cast.receiver"@,
        NS_CONNECTION@ == "urn:x-cast:com.google.cast.tp.connection"@,
        channel::NS_HEARTBEAT@ == "urn:x-cast:com.google.cast.tp.heartbeat"@,
        channel::NS_DEVICEAUTH@ == "urn:x-cast:com.google.cast.tp.deviceauth"@,
        NS_MEDIA@ != NS_RECEIVER@,
        NS_MEDIA@ != NS_CONNECTION@,
        NS_RECEIVER@ != NS_CONNECTION@,
        RECEIVER_ID@ == "receiver-0"@,
        channel::SENDER_ID@ == "sender-0"@,
{
    reveal_strlit("urn:x-cast:com.google.cast.media");
    reveal_strlit("urn:x-cast:com.google.cast.receiver");
    reveal_strlit("urn:x-cast:com.google.cast.tp.connection");
    assert(NS_MEDIA@.len() == 32);
    assert(NS_RECEIVER@.len() == 35);
    assert(NS_CONNECTION@.len() == 40);
}

/// A command of a play on the media namespace goes to the application that was joined,
/// one on the receiver namespace to the receiver itself, and one on the connection
/// namespace to the receiver first and then to the application that is being joined.
pub proof fn media_commands_go_to_the_joined_application(
    p: PlayView,
    e: EventView,
    cancelled: bool,
    k: int,
)
    requires
        0 <= k < sent_by(service::stepped(p, e, cancelled).1).len(),
    ensures
        ({
            let (q, a) = service::stepped(p, e, cancelled);
            let c = sent_by(a)[k];
            &&& c.namespace == "urn:x-cast:com.google.cast.media"@ ==> {
                &&& app_of(p.stage) is Some
                &&& app_of(q.stage) == app_of(p.stage)
                &&& c.destination == app_of(p.stage)->0.transport_id
            }
            &&& c.namespace == "urn:x-cast:com.google.cast.receiver"@ ==> c.destination
                == "receiver-0"@
            &&& c.namespace == "urn:x-cast:com.google.cast.tp.connection"@ ==> {
                &&& c.value.text_of("type"@) == Some("CONNECT"@)
                &&& p.stage is Connecting ==> c.destination == "receiver-0"@
                &&& !(p.stage is Connecting) ==> q.stage is Joining && c.destination
                    == q.stage->Joining_0.transport_id
            }
            &&& c.namespace == "urn:x-cast:com.google.cast.media"@ || c.namespace
                == "urn:x-cast:com.google.cast.receiver"@ || c.namespace
                == "urn:x-cast:com.google.cast.tp.connection"@
        }),
{
    namespaces_differ();
    commands::connections_are_opened_and_closed();
}

/// No media command is sent before the application was connected to: a play comes to an
/// application only by a command that connects to it, and keeps to it from then on.
pub proof fn an_application_is_connected_to_before_it_is_used(
    p: PlayView,
    e: EventView,
    cancelled: bool,
)
    ensures
        ({
            let (q, a) = service::stepped(p, e, cancelled);
            &&& app_of(q.stage) is Some && app_of(p.stage) is None ==> {
                &&& q.stage is Joining
                &&& sent_by(a).len() == 1
                &&& sent_by(a)[0].destination == q.stage->Joining_0.transport_id
                &&& sent_by(a)[0].namespace == "urn:x-cast:com.google.cast.tp.connection"@
                &&& sent_by(a)[0].value.text_of("type"@) == Some("CONNECT"@)
            }
            &&& app_of(p.stage) is Some ==> app_of(q.stage) == app_of(p.stage) || q.stage is Failed
            &&& q.device == p.device && q.url == p.url && q.title == p.title && q.content_types
                == p.content_types
        }),
{
    namespaces_differ();
    commands::connections_are_opened_and_closed();
}

/// The application that a play joins is the one that the receiver named, running or
/// launched.
pub proof fn the_application_that_was_named_is_joined(
    p: PlayView,
    app: AppView,
    cancelled: bool,
)
    ensures
        p.stage is Asking ==> service::stepped(
            p,
            EventView::Replied(ReplyView::Status(Some(app))),
            cancelled,
        ).0.stage == StageView::Joining(app),
        p.stage is Launching ==> service::stepped(
            p,
            EventView::Replied(ReplyView::Launched(app)),
            cancelled,
        ).0.stage == StageView::Joining(app),
{
}

/// Where an action waits for the answer to a request, the last command that it sends is
/// that request, and the next request gets the number after it.
pub proof fn a_play_waits_for_the_answer_to_its_own_request(
    p: PlayView,
    e: EventView,
    cancelled: bool,
)
    ensures
        ({
            let (q, a) = service::stepped(p, e, cancelled);
            a matches ActionView::Send { status, commands: sent, wait } ==> {
                &&& wait matches Some((AwaitView::Status(req), ms)) ==> {
                    &&& ms == 8_000
                    &&& p.stage is Connecting && e == EventView::Connected(req)
                    &&& q.stage is Asking
                    &&& sent.len() == 2
                    &&& sent[0].namespace == NS_CONNECTION@
                    &&& sent[1].namespace == NS_RECEIVER@
                    &&& sent[1].value.text_of("type"@) == Some("GET_STATUS"@)
                    &&& sent[1].value.member("requestId"@) == Some(JsonView::Unsigned(req as u64))
                    &&& q.request_id == channel::id_after(req)
                    &&& status == Some("Starting stream: "@ + p.title)
                }
                &&& wait matches Some((AwaitView::Launch(req), ms)) ==> {
                    &&& ms == 12_000
                    &&& p.stage is Asking && q.stage is Launching
                    &&& req == p.request_id
                    &&& sent.len() == 1
                    &&& sent[0].namespace == NS_RECEIVER@
                    &&& sent[0].value.text_of("type"@) == Some("LAUNCH"@)
                    &&& sent[0].value.text_of("appId"@) == Some("CC1AD845"@)
                    &&& sent[0].value.member("requestId"@) == Some(JsonView::Unsigned(req as u64))
                    &&& q.request_id == channel::id_after(req)
                    &&& status is None
                }
                &&& wait matches Some((AwaitView::Load(req, url, hits), ms)) ==> {
                    &&& ms == 15_000
                    &&& req == p.request_id && url == p.url && hits == 0
                    &&& q.stage is Loading
                    &&& sent.len() == 1
                    &&& sent[0].namespace == NS_MEDIA@
                    &&& sent[0].value.member("requestId"@) == Some(JsonView::Unsigned(req as u64))
                    &&& q.request_id == channel::id_after(req)
                }
                &&& wait is None ==> q.stage is Joining && q.request_id == p.request_id
                &&& !(wait matches Some((AwaitView::Auth, _)))
            }
        }),
{
    match (p.stage, e) {
        (StageView::Connecting, EventView::Connected(id)) => {
            commands::the_receiver_is_asked_and_told(id);
        },
        (StageView::Asking, _) => {
            commands::the_receiver_is_asked_and_told(p.request_id);
        },
        (StageView::Joining(app), _) => {
            if p.content_types.len() > 0 {
                commands::a_stream_is_loaded(
                    p.request_id,
                    app.session_id,
                    p.url,
                    p.content_types[0],
                    p.title,
                );
            }
        },
        (StageView::Loading(app, i), _) => {
            if i + 1 < p.content_types.len() {
                commands::a_stream_is_loaded(
                    p.request_id,
                    app.session_id,
                    p.url,
                    p.content_types[i + 1],
                    p.title,
                );
            }
        },
        _ => {},
    }
}

/// What is loaded is the stream of the play, under its title, in the session of the
/// application, as the content type whose turn it is: the first once the application was
/// joined, the one after the refused one later.
pub proof fn the_stream_is_offered_under_each_type_in_turn(
    p: PlayView,
    e: EventView,
    cancelled: bool,
)
    ensures
        ({
            let (q, a) = service::stepped(p, e, cancelled);
            q.stage matches StageView::Loading(app, i) ==> p.stage != q.stage ==> {
                &&& !cancelled
                &&& p.stage matches StageView::Joining(x) ==> i == 0 && e is Sent
                &&& p.stage matches StageView::Loading(x, k) ==> i == k + 1 && e is Failed
                &&& i < p.content_types.len()
                &&& sent_by(a).len() == 1
                &&& sent_by(a)[0].destination == app.transport_id
                &&& sent_by(a)[0].namespace == NS_MEDIA@
                &&& sent_by(a)[0].value.text_of("type"@) == Some("LOAD"@)
                &&& sent_by(a)[0].value.text_of("sessionId"@) == Some(app.session_id)
                &&& sent_by(a)[0].value.member("autoplay"@) == Some(JsonView::Bool(true))
                &&& sent_by(a)[0].value.member("media"@) matches Some(m) && {
                    &&& m.text_of("contentId"@) == Some(p.url)
                    &&& m.text_of("contentType"@) == Some(p.content_types[i])
                    &&& m.member("metadata"@) matches Some(d) && d.text_of("title"@) == Some(
                        p.title,
                    )
                }
            }
        }),
{
    let (q, a) = service::stepped(p, e, cancelled);
    if let StageView::Loading(app, i) = q.stage {
        if p.stage != q.stage {
            commands::a_stream_is_loaded(
                p.request_id,
                app.session_id,
                p.url,
                p.content_types[i],
                p.title,
            );
        }
    }
}

/// Once a stream is loaded the player is told to play the media session that it named,
/// and the user is told the name of the receiver.
pub proof fn a_loaded_stream_is_played(
    p: PlayView,
    app: AppView,
    i: int,
    media: Option<i64>,
    cancelled: bool,
)
    requires
        p.stage == StageView::Loading(app, i),
    ensures
        ({
            let (q, a) = service::stepped(
                p,
                EventView::Replied(ReplyView::Loaded(media)),
                cancelled,
            );
            &&& q.stage == StageView::Playing(app, media)
            &&& a matches ActionView::Playing { commands: sent, status } && status == Some(
                "Playing on «"@ + p.device.name + "»"@,
            )
            &&& media is None ==> sent_by(a).len() == 0 && q.request_id == p.request_id
            &&& media matches Some(m) ==> {
                &&& sent_by(a).len() == 1
                &&& sent_by(a)[0].destination == app.transport_id
                &&& sent_by(a)[0].namespace == NS_MEDIA@
                &&& sent_by(a)[0].value.text_of("type"@) == Some("PLAY"@)
                &&& sent_by(a)[0].value.member("requestId"@) == Some(
                    JsonView::Unsigned(p.request_id as u64),
                )
                &&& sent_by(a)[0].value.member("mediaSessionId"@) matches Some(s) && s.signed()
                    == Some(m)
                &&& q.request_id == channel::id_after(p.request_id)
            }
        }),
{
    if let Some(m) = media {
        commands::media_and_application_are_named(p.request_id, m, app.session_id);
    }
}

/// A play that fails before it loads a stream fails with what went wrong. One that was
/// cancelled when its turn to load came fails as cancelled. One that runs out of content
/// types fails with the words of the last refusal, and the user is told which was refused.
pub proof fn a_play_fails_with_what_went_wrong(p: PlayView, error: ErrorView, cancelled: bool)
    ensures
        ({
            let (q, a) = service::stepped(p, EventView::Failed(error), cancelled);
            &&& p.stage is Connecting || p.stage is Asking || p.stage is Launching
                || p.stage is Joining ==> q.stage is Failed && a == (ActionView::Fail {
                status: None,
                error,
            })
            &&& p.stage matches StageView::Loading(app, i) ==> {
                &&& i + 1 >= p.content_types.len() ==> q.stage is Failed && a == (
                ActionView::Fail {
                    status: Some("Retry with "@ + p.content_types[i] + "..."@),
                    error,
                })
                &&& i + 1 < p.content_types.len() && cancelled ==> q.stage is Failed && a == (
                ActionView::Fail {
                    status: Some("Retry with "@ + p.content_types[i] + "..."@),
                    error: ErrorView::Cancelled,
                })
                &&& i + 1 < p.content_types.len() && !cancelled ==> (a matches ActionView::Send {
                    status,
                    commands: sent,
                    wait,
                } && status == Some("Retry with "@ + p.content_types[i] + "..."@))
            }
        }),
        p.stage is Joining && cancelled ==> service::stepped(
            p,
            EventView::Sent,
            true,
        ).0.stage is Failed && (service::stepped(p, EventView::Sent, true).1 matches ActionView::Fail {
            status,
            error: x,
        } && x == ErrorView::Cancelled && status is None),
{
}

/// What stops a stream: the media session where there is one, then the application, each
/// by a request with a number of its own, and at last both connections are closed. What is
/// for the application goes to it, what is for the receiver to the receiver.
pub proof fn stopping_ends_media_application_and_connections(
    app: AppView,
    media: Option<i64>,
    id: u32,
)
    ensures
        ({
            let s = service::stop_views(app, media, id);
            let n = s.len() - 3;
            &&& n == if media is Some {
                1int
            } else {
                0
            }
            &&& media matches Some(m) ==> {
                &&& s[0].destination == app.transport_id
                &&& s[0].namespace == NS_MEDIA@
                &&& s[0].value.text_of("type"@) == Some("STOP"@)
                &&& s[0].value.member("requestId"@) == Some(JsonView::Unsigned(id as u64))
                &&& s[0].value.member("mediaSessionId"@) matches Some(x) && x.signed() == Some(m)
            }
            &&& s[n].destination == "receiver-0"@
            &&& s[n].namespace == NS_RECEIVER@
            &&& s[n].value.text_of("type"@) == Some("STOP"@)
            &&& s[n].value.text_of("sessionId"@) == Some(app.session_id)
            &&& s[n].value.member("requestId"@) == Some(
                JsonView::Unsigned(
                    if media is Some {
                        channel::id_after(id)
                    } else {
                        id
                    } as u64,
                ),
            )
            &&& s[n + 1].destination == app.transport_id
            &&& s[n + 1].namespace == NS_CONNECTION@
            &&& s[n + 1].value.text_of("type"@) == Some("CLOSE"@)
            &&& s[n + 2].destination == "receiver-0"@
            &&& s[n + 2].namespace == NS_CONNECTION@
            &&& s[n + 2].value.text_of("type"@) == Some("CLOSE"@)
        }),
{
    commands::connections_are_opened_and_closed();
    let rest = service::stop_app_id(media, id);
    commands::media_and_application_are_named(rest, 0, app.session_id);
    if let Some(m) = media {
        commands::media_and_application_are_named(id, m, app.session_id);
    }
}

/// The number of a request is one more than the last, and after the largest it is 1.
pub proof fn requests_are_numbered_in_turn(id: u32)
    ensures
        id < u32::MAX ==> channel::id_after(id) == id + 1,
        id == u32::MAX ==> channel::id_after(id) == 1,
{
}

/// The content types that stand for Ogg and MPEG all differ.
proof fn lemma_types()
    ensures
        "audio/ogg; codecs=opus"@.len() == 22,
        "audio/ogg; codecs=vorbis"@.len() == 24,
        "audio/ogg"@.len() == 9,
        "application/ogg"@.len() == 15,
        "audio/opus"@.len() == 10 && "audio/opus"@[6] == 'o',
        "audio/mpeg"@.len() == 10 && "audio/mpeg"@[6] == 'm',
{
    reveal_strlit("audio/ogg; codecs=opus");
    reveal_strlit("audio/ogg; codecs=vorbis");
    reveal_strlit("audio/ogg");
    reveal_strlit("application/ogg");
    reveal_strlit("audio/opus");
    reveal_strlit("audio/mpeg");
}

proof fn lemma_new_at_the_end(list: Seq<Seq<char>>, value: Seq<char>)
    ensures
        value.len() > 0 && (forall|i: int| 0 <= i < list.len() ==> #[trigger] list[i] != value)
            ==> media::with_new(list, value) == list.push(value),
        value.len() == 0 ==> media::with_new(list, value) == list,
        forall|i: int|
            0 <= i < list.len() && #[trigger] list[i] == value ==> media::with_new(list, value)
                == list,
{
}

/// A stream that is no Ogg is offered as what it says it is, tidied, and then as MPEG.
pub proof fn a_stream_is_offered_as_itself_and_as_mpeg(content_type: Seq<char>)
    requires
        !text::has_text(text::ascii_lower(text::trimmed(content_type)), "opus"@),
        !text::has_text(text::ascii_lower(text::trimmed(content_type)), "vorbis"@),
        text::ascii_lower(text::trimmed(content_type)) != "audio/ogg"@,
        text::ascii_lower(text::trimmed(content_type)) != "application/ogg"@,
    ensures
        ({
            let own = text::ascii_lower(text::trimmed(content_type));
            media::candidates(content_type) == if own.len() == 0 || own == "audio/mpeg"@ {
                seq!["audio/mpeg"@]
            } else {
                seq![own, "audio/mpeg"@]
            }
        }),
{
    lemma_types();
    let own = text::ascii_lower(text::trimmed(content_type));
    let none = Seq::<Seq<char>>::empty();
    lemma_new_at_the_end(none, own);
    if own.len() > 0 {
        assert(none.push(own) =~= seq![own]);
        assert(seq![own][0] == own);
        lemma_new_at_the_end(seq![own], "audio/mpeg"@);
        assert(seq![own].push("audio/mpeg"@) =~= seq![own, "audio/mpeg"@]);
    } else {
        lemma_new_at_the_end(none, "audio/mpeg"@);
        assert(none.push("audio/mpeg"@) =~= seq!["audio/mpeg"@]);
    }
}

/// Opus is offered as what it says it is, then as Ogg with Opus, as Ogg by either name,
/// as Opus, and at last as MPEG.
pub proof fn opus_is_offered_in_this_order(content_type: Seq<char>)
    requires
        text::has_text(text::ascii_lower(text::trimmed(content_type)), "opus"@),
        !(seq![
            "audio/ogg; codecs=opus"@,
            "audio/ogg"@,
            "application/ogg"@,
            "audio/opus"@,
            "audio/mpeg"@,
        ].contains(text::ascii_lower(text::trimmed(content_type)))),
    ensures
        media::candidates(content_type) == seq![
            text::ascii_lower(text::trimmed(content_type)),
            "audio/ogg; codecs=opus"@,
            "audio/ogg"@,
            "application/ogg"@,
            "audio/opus"@,
            "audio/mpeg"@,
        ],
{
    lemma_types();
    let own = text::ascii_lower(text::trimmed(content_type));
    let all = seq![
        "audio/ogg; codecs=opus"@,
        "audio/ogg"@,
        "application/ogg"@,
        "audio/opus"@,
        "audio/mpeg"@,
    ];
    assert(own != all[0] && own != all[1] && own != all[2] && own != all[3] && own != all[4]);
    assert(own.len() > 0) by {
        reveal_strlit("opus");
    }
    let none = Seq::<Seq<char>>::empty();
    lemma_new_at_the_end(none, own);
    assert(none.push(own) =~= seq![own]);
    lemma_new_at_the_end(seq![own], all[0]);
    let a = seq![own].push(all[0]);
    lemma_new_at_the_end(a, all[1]);
    let b = a.push(all[1]);
    lemma_new_at_the_end(b, all[2]);
    let c = b.push(all[2]);
    lemma_new_at_the_end(c, all[3]);
    let d = c.push(all[3]);
    lemma_new_at_the_end(d, all[4]);
    assert(d.push(all[4]) =~= seq![own, all[0], all[1], all[2], all[3], all[4]]);
}

/// Any other Ogg is offered as what it says it is, then as Ogg with Vorbis, as Ogg by
/// either name, and at last as MPEG.
pub proof fn vorbis_is_offered_in_this_order(content_type: Seq<char>)
    requires
        !text::has_text(text::ascii_lower(text::trimmed(content_type)), "opus"@),
        text::has_text(text::ascii_lower(text::trimmed(content_type)), "vorbis"@) || text::ascii_lower(
            text::trimmed(content_type),
        ) == "audio/ogg"@,
        !(seq![
            "audio/ogg; codecs=vorbis"@,
            "application/ogg"@,
            "audio/mpeg"@,
        ].contains(text::ascii_lower(text::trimmed(content_type)))),
    ensures
        text::ascii_lower(text::trimmed(content_type)) != "audio/ogg"@ ==> media::candidates(
            content_type,
        ) == seq![
            text::ascii_lower(text::trimmed(content_type)),
            "audio/ogg; codecs=vorbis"@,
            "audio/ogg"@,
            "application/ogg"@,
            "audio/mpeg"@,
        ],
        text::ascii_lower(text::trimmed(content_type)) == "audio/ogg"@ ==> media::candidates(
            content_type,
        ) == seq!["audio/ogg"@, "audio/ogg; codecs=vorbis"@, "application/ogg"@, "audio/mpeg"@],
{
    lemma_types();
    let own = text::ascii_lower(text::trimmed(content_type));
    let out = seq!["audio/ogg; codecs=vorbis"@, "application/ogg"@, "audio/mpeg"@];
    assert(own != out[0] && own != out[1] && own != out[2]);
    assert(own.len() > 0) by {
        reveal_strlit("vorbis");
    }
    let none = Seq::<Seq<char>>::empty();
    lemma_new_at_the_end(none, own);
    assert(none.push(own) =~= seq![own]);
    lemma_new_at_the_end(seq![own], out[0]);
    let a = seq![own].push(out[0]);
    lemma_new_at_the_end(a, "audio/ogg"@);
    if own == "audio/ogg"@ {
        assert(a[0] == "audio/ogg"@);
        lemma_new_at_the_end(a, out[1]);
        let c = a.push(out[1]);
        lemma_new_at_the_end(c, out[2]);
        assert(c.push(out[2]) =~= seq!["audio/ogg"@, out[0], out[1], out[2]]);
    } else {
        let b = a.push("audio/ogg"@);
        lemma_new_at_the_end(b, out[1]);
        let c = b.push(out[1]);
        lemma_new_at_the_end(c, out[2]);
        assert(c.push(out[2]) =~= seq![own, out[0], "audio/ogg"@, out[1], out[2]]);
    }
}

/// The words of a receiver differ from each other.
proof fn lemma_words()
    ensures
        "MEDIA_STATUS"@.len() == 12,
        "LOAD_FAILED"@.len() == 11,
        "LOAD_CANCELLED"@.len() == 14,
        "INVALID_REQUEST"@.len() == 15,
        "RECEIVER_STATUS"@.len() == 15 && "RECEIVER_STATUS"@[0] == 'R',
        "LAUNCH_ERROR"@.len() == 12 && "LAUNCH_ERROR"@[0] == 'L',
        "ERROR"@.len() == 5,
        "IDLE"@.len() == 4,
        "BUFFERING"@.len() == 9,
        "PLAYING"@.len() == 7,
        "PAUSED"@.len() == 6,
        ""@.len() == 0,
{
    reveal_strlit("MEDIA_STATUS");
    reveal_strlit("LOAD_FAILED");
    reveal_strlit("LOAD_CANCELLED");
    reveal_strlit("INVALID_REQUEST");
    reveal_strlit("RECEIVER_STATUS");
    reveal_strlit("LAUNCH_ERROR");
    reveal_strlit("ERROR");
    reveal_strlit("IDLE");
    reveal_strlit("BUFFERING");
    reveal_strlit("PLAYING");
    reveal_strlit("PAUSED");
    reveal_strlit("");
}

/// The number of the request that an answer names is read to 32 bits, and is 0 where the
/// answer names none.
pub proof fn answers_name_their_request(v: JsonView)
    ensures
        v.member("requestId"@) matches Some(JsonView::Unsigned(n)) ==> media::request_of(v) == n
            % 4_294_967_296,
        v.member("requestId"@) is None ==> media::request_of(v) == 0,
        v.member("requestId"@) matches Some(JsonView::Text(_)) ==> media::request_of(v) == 0,
        v.member("requestId"@) matches Some(JsonView::Negative(_)) ==> media::request_of(v) == 0,
{
}

/// A stream that the receiver buffers, plays or has paused is loaded, in the media
/// session that it names, where the answer is to the request or speaks of the stream.
pub proof fn a_live_stream_is_loaded(
    v: JsonView,
    list: Seq<JsonView>,
    req: u32,
    url: Seq<char>,
    hits: u32,
)
    requires
        v.text_of("type"@) == Some("MEDIA_STATUS"@),
        v.list_of("status"@) == Some(list),
        list.len() > 0,
        v.member("requestId"@) == Some(JsonView::Unsigned(req as u64)) || (list[0].member(
            "media"@,
        ) matches Some(m) && m.text_of("contentId"@) == Some(url)),
        list[0].text_of("playerState"@) == Some("BUFFERING"@) || list[0].text_of("playerState"@)
            == Some("PLAYING"@) || list[0].text_of("playerState"@) == Some("PAUSED"@),
    ensures
        ({
            let (after, r) = media::load_reply(v, req, url, hits);
            &&& r matches Ok(Some(s)) && match list[0].member("mediaSessionId"@) {
                Some(m) => s == m.signed(),
                None => s is None,
            }
            &&& after == if list[0].text_of("playerState"@) == Some("PAUSED"@) {
                hits
            } else {
                0
            }
        }),
{
    lemma_words();
}

/// A player that is idle for good has not loaded the stream, and says why.
pub proof fn a_final_reason_ends_the_wait(
    v: JsonView,
    list: Seq<JsonView>,
    req: u32,
    url: Seq<char>,
    reason: Seq<char>,
)
    requires
        v.list_of("status"@) == Some(list),
        list.len() > 0,
        v.member("requestId"@) == Some(JsonView::Unsigned(req as u64)) || (list[0].member(
            "media"@,
        ) matches Some(m) && m.text_of("contentId"@) == Some(url)),
        list[0].text_of("playerState"@) == Some("IDLE"@),
        list[0].text_of("idleReason"@) == Some(reason),
    ensures
        reason == "ERROR"@ || reason == "CANCELLED"@ || reason == "INTERRUPTED"@ || reason
            == "FINISHED"@ ==> media::progress_of(v, req, url) == Err::<LoadProgress, Seq<char>>(
            "Cast LOAD stalled in IDLE ("@ + reason + ")"@,
        ),
        reason != "ERROR"@ && reason != "CANCELLED"@ && reason != "INTERRUPTED"@ && reason
            != "FINISHED"@ ==> media::progress_of(v, req, url) == Ok::<LoadProgress, Seq<char>>(
            LoadProgress::Pending,
        ),
{
    lemma_words();
}

/// An answer to another request that speaks of another stream says nothing, and so does
/// one of another request without a status; the answer to the request without a status
/// says that the stream is loaded.
pub proof fn answers_for_others_say_nothing(
    v: JsonView,
    req: u32,
    url: Seq<char>,
    n: u64,
)
    requires
        v.member("requestId"@) == Some(JsonView::Unsigned(n)),
    ensures
        n % 4_294_967_296 != req && (v.list_of("status"@) matches Some(list) && list.len() > 0
            && list[0].member("media"@) is None) ==> media::progress_of(v, req, url) == Ok::<
            LoadProgress,
            Seq<char>,
        >(LoadProgress::Pending),
        n % 4_294_967_296 != req && v.list_of("status"@) is None ==> media::progress_of(
            v,
            req,
            url,
        ) == Ok::<LoadProgress, Seq<char>>(LoadProgress::Pending),
        n == req && v.list_of("status"@) is None ==> media::progress_of(v, req, url) == Ok::<
            LoadProgress,
            Seq<char>,
        >(LoadProgress::Ready(None)),
        n == req && (v.list_of("status"@) matches Some(list) && list.len() == 0)
            ==> media::progress_of(v, req, url) == Ok::<LoadProgress, Seq<char>>(
            LoadProgress::Ready(None),
        ),
{
}

/// A refusal of the request ends it, with the kind of the refusal. One that names no
/// request counts as one of this request, and one of another does not.
pub proof fn refusals_end_the_request(
    v: JsonView,
    kind: Seq<char>,
    req: u32,
    url: Seq<char>,
    hits: u32,
)
    requires
        v.text_of("type"@) == Some(kind),
        kind == "LOAD_FAILED"@ || kind == "LOAD_CANCELLED"@ || kind == "INVALID_REQUEST"@ || kind
            == "ERROR"@,
    ensures
        media::load_reply(v, req, url, hits).0 == hits,
        v.member("requestId"@) == Some(JsonView::Unsigned(req as u64)) || v.member(
            "requestId"@,
        ) is None ==> media::load_reply(v, req, url, hits).1 == Err::<
            Option<Option<i64>>,
            Seq<char>,
        >("Cast rejected LOAD: "@ + kind),
        (v.member("requestId"@) matches Some(JsonView::Unsigned(n)) && 0 < n < 4_294_967_296 && n
            != req) ==> media::load_reply(v, req, url, hits).1 == Ok::<
            Option<Option<i64>>,
            Seq<char>,
        >(None),
{
    lemma_words();
}

/// An answer that the player of this stream is idle counts one more, and the tenth in a
/// row ends the wait.
pub proof fn the_tenth_idle_answer_ends_the_wait(
    v: JsonView,
    list: Seq<JsonView>,
    req: u32,
    url: Seq<char>,
    hits: u32,
)
    requires
        v.text_of("type"@) == Some("MEDIA_STATUS"@),
        v.list_of("status"@) == Some(list),
        list.len() > 0,
        list[0].member("media"@) matches Some(m) && m.text_of("contentId"@) == Some(url),
        list[0].text_of("playerState"@) == Some("IDLE"@),
        hits < u32::MAX,
    ensures
        media::load_reply(v, req, url, hits).0 == hits + 1,
        hits >= 9 ==> media::load_reply(v, req, url, hits).1 == Err::<
            Option<Option<i64>>,
            Seq<char>,
        >("Cast stayed IDLE too long after LOAD"@),
        hits < 9 && list[0].text_of("idleReason"@) is None ==> media::load_reply(
            v,
            req,
            url,
            hits,
        ).1 == Ok::<Option<Option<i64>>, Seq<char>>(None),
{
    lemma_words();
    reveal_strlit("CANCELLED");
    reveal_strlit("INTERRUPTED");
    reveal_strlit("FINISHED");
    assert("CANCELLED"@.len() == 9);
    assert("INTERRUPTED"@.len() == 11);
    assert("FINISHED"@.len() == 8);
}

/// How an application is reached stands in its status, and both parts are needed.
pub proof fn an_application_says_how_it_is_reached(app: JsonView)
    ensures
        session::session_of(app) matches Some(s) ==> app.text_of("transportId"@) == Some(
            s.transport_id,
        ) && app.text_of("sessionId"@) == Some(s.session_id),
        session::session_of(app) is Some <==> app.text_of("transportId"@) is Some && app.text_of(
            "sessionId"@,
        ) is Some,
{
}

proof fn lemma_no_player(apps: Seq<JsonView>, k: int)
    requires
        0 <= k <= apps.len(),
        forall|j: int|
            k <= j < apps.len() ==> ((#[trigger] apps[j]).text_of("appId"@) matches Some(id) && id
                != "CC1AD845"@),
    ensures
        session::by_id(apps, k) is None,
    decreases apps.len() - k,
{
    if k < apps.len() {
        assert(apps[k].text_of("appId"@) is Some);
        lemma_no_player(apps, k + 1);
    }
}

proof fn lemma_nameless(apps: Seq<JsonView>, i: int, k: int)
    requires
        0 <= k <= i < apps.len(),
        apps[i].text_of("appId"@) is None,
        forall|j: int|
            k <= j < i ==> ((#[trigger] apps[j]).text_of("appId"@) matches Some(id) && id
                != "CC1AD845"@),
    ensures
        session::by_id(apps, k) == Some(None::<AppView>),
    decreases i - k,
{
    if k < i {
        assert(apps[k].text_of("appId"@) is Some);
        lemma_nameless(apps, i, k + 1);
    }
}

proof fn lemma_first_media(apps: Seq<JsonView>, i: int, k: int)
    requires
        0 <= k <= i < apps.len(),
        session::plays_media(apps[i]),
        forall|j: int| k <= j < i ==> !session::plays_media(#[trigger] apps[j]),
    ensures
        session::by_namespace(apps, k) == session::session_of(apps[i]),
    decreases i - k,
{
    if k < i {
        assert(!session::plays_media(apps[k]));
        lemma_first_media(apps, i, k + 1);
    }
}

/// Which application of a receiver is used: the media player where it runs; where it does
/// not and all applications have names, the first that lists the namespace of media; and
/// none where an application without a name comes before the media player.
pub proof fn the_media_player_is_used(v: JsonView, status: JsonView, apps: Seq<JsonView>, i: int)
    requires
        v.member("status"@) == Some(status),
        status.list_of("applications"@) == Some(apps),
        0 <= i < apps.len(),
    ensures
        apps[i].text_of("appId"@) == Some("CC1AD845"@) && (forall|j: int|
            0 <= j < i ==> ((#[trigger] apps[j]).text_of("appId"@) matches Some(id) && id
                != "CC1AD845"@)) ==> session::dmr_in(v) == session::session_of(apps[i]),
        apps[i].text_of("appId"@) is None && (forall|j: int|
            0 <= j < i ==> ((#[trigger] apps[j]).text_of("appId"@) matches Some(id) && id
                != "CC1AD845"@)) ==> session::dmr_in(v) is None,
        session::plays_media(apps[i]) && (forall|j: int|
            0 <= j < apps.len() ==> ((#[trigger] apps[j]).text_of("appId"@) matches Some(id) && id
                != "CC1AD845"@)) && (forall|j: int|
            0 <= j < i ==> !session::plays_media(#[trigger] apps[j])) ==> session::dmr_in(v)
            == session::session_of(apps[i]),
{
    if apps[i].text_of("appId"@) == Some("CC1AD845"@) && (forall|j: int|
        0 <= j < i ==> ((#[trigger] apps[j]).text_of("appId"@) matches Some(id) && id
            != "CC1AD845"@)) {
        session::the_media_player_is_found(apps, i, 0);
    }
    if apps[i].text_of("appId"@) is None && (forall|j: int|
        0 <= j < i ==> ((#[trigger] apps[j]).text_of("appId"@) matches Some(id) && id
            != "CC1AD845"@)) {
        lemma_nameless(apps, i, 0);
    }
    if session::plays_media(apps[i]) && (forall|j: int|
        0 <= j < apps.len() ==> ((#[trigger] apps[j]).text_of("appId"@) matches Some(id) && id
            != "CC1AD845"@)) && (forall|j: int|
        0 <= j < i ==> !session::plays_media(#[trigger] apps[j])) {
        lemma_no_player(apps, 0);
        lemma_first_media(apps, i, 0);
    }
}

/// An application plays media where it lists the namespace of media, by its name or as an
/// object that has the name.
pub proof fn an_application_plays_media_where_it_lists_it(
    app: JsonView,
    list: Seq<JsonView>,
    i: int,
)
    requires
        app.list_of("namespaces"@) == Some(list),
        0 <= i < list.len(),
    ensures
        list[i] == JsonView::Text("urn:x-cast:com.google.cast.media"@) || list[i].text_of("name"@)
            == Some("urn:x-cast:com.google.cast.media"@) ==> session::plays_media(app),
        session::plays_media(app) ==> exists|k: int|
            0 <= k < list.len() && (#[trigger] list[k] == JsonView::Text(
                "urn:x-cast:com.google.cast.media"@,
            ) || list[k].text_of("name"@) == Some("urn:x-cast:com.google.cast.media"@)),
{
    if list[i] == JsonView::Text("urn:x-cast:com.google.cast.media"@) || list[i].text_of("name"@)
        == Some("urn:x-cast:com.google.cast.media"@) {
        let l = app.list_of("namespaces"@)->0;
        assert(session::is_media(list[i]));
        assert(0 <= i < l.len() && session::is_media(l[i]));
        assert(session::plays_media(app));
    }
    if session::plays_media(app) {
        let k = choose|k: int| 0 <= k < list.len() && session::is_media(#[trigger] list[k]);
        assert(list[k] == JsonView::Text("urn:x-cast:com.google.cast.media"@) || list[k].text_of(
            "name"@,
        ) == Some("urn:x-cast:com.google.cast.media"@));
    }
}

/// The state of a receiver answers the request for it, also where it names no request, and
/// says which application plays media.
pub proof fn the_state_answers_its_request(v: JsonView, req: u32)
    requires
        v.text_of("type"@) == Some("RECEIVER_STATUS"@),
    ensures
        v.member("requestId"@) == Some(JsonView::Unsigned(req as u64)) || v.member(
            "requestId"@,
        ) is None ==> replies::judged_json(AwaitView::Status(req), v) == (
            AwaitView::Status(req),
            Ok::<Option<ReplyView>, Seq<char>>(Some(ReplyView::Status(session::dmr_in(v)))),
        ),
        (v.member("requestId"@) matches Some(JsonView::Unsigned(n)) && 0 < n < 4_294_967_296 && n
            != req) ==> replies::judged_json(AwaitView::Status(req), v).1 == Ok::<
            Option<ReplyView>,
            Seq<char>,
        >(None),
        session::dmr_in(v) matches Some(app) ==> replies::judged_json(
            AwaitView::Launch(req),
            v,
        ).1 == Ok::<Option<ReplyView>, Seq<char>>(Some(ReplyView::Launched(app))),
        session::dmr_in(v) is None ==> replies::judged_json(AwaitView::Launch(req), v).1 == Ok::<
            Option<ReplyView>,
            Seq<char>,
        >(None),
{
}

/// A launch that fails ends the request for it with the reason.
pub proof fn a_failed_launch_ends_its_request(v: JsonView, req: u32)
    requires
        v.text_of("type"@) == Some("LAUNCH_ERROR"@),
        v.member("requestId"@) == Some(JsonView::Unsigned(req as u64)),
    ensures
        v.text_of("reason"@) matches Some(reason) ==> replies::judged_json(
            AwaitView::Launch(req),
            v,
        ).1 == Err::<Option<ReplyView>, Seq<char>>("LAUNCH_ERROR: "@ + reason),
        v.text_of("reason"@) is None ==> replies::judged_json(AwaitView::Launch(req), v).1 == Err::<
            Option<ReplyView>,
            Seq<char>,
        >("LAUNCH_ERROR: "@ + "?"@),
        replies::judged_json(AwaitView::Status(req), v).1 == Ok::<Option<ReplyView>, Seq<char>>(
            None,
        ),
{
    lemma_words();
}

/// What is waited for comes on its own namespace. What comes on another leaves the wait
/// as it is, and so do bytes. A text that is no JSON ends it.
pub proof fn answers_come_on_their_namespace(w: AwaitView, m: MessageView)
    ensures
        ({
            let ns = match w {
                AwaitView::Auth => "urn:x-cast:com.google.cast.tp.deviceauth"@,
                AwaitView::Status(_) => "urn:x-cast:com.google.cast.receiver"@,
                AwaitView::Launch(_) => "urn:x-cast:com.google.cast.receiver"@,
                AwaitView::Load(_, _, _) => "urn:x-cast:com.google.cast.media"@,
            };
            &&& m.namespace != ns ==> replies::judged(w, m) == (
                w,
                Ok::<Option<ReplyView>, ErrorView>(None),
            )
            &&& m.namespace == ns && w is Auth ==> replies::judged(w, m) == (
                w,
                Ok::<Option<ReplyView>, ErrorView>(Some(ReplyView::Auth)),
            )
            &&& m.namespace == ns && !(w is Auth) && m.payload is Binary ==> replies::judged(w, m)
                == (w, Ok::<Option<ReplyView>, ErrorView>(None))
            &&& m.payload matches PayloadView::Text(s) ==> m.namespace == ns && !(w is Auth)
                ==> match json::json_in(s) {
                Err(e) => replies::judged(w, m) == (
                    w,
                    Err::<Option<ReplyView>, ErrorView>(ErrorView::Msg(e)),
                ),
                Ok(v) => replies::judged(w, m).0 == replies::judged_json(w, v).0 && match (
                    replies::judged_json(w, v).1,
                    replies::judged(w, m).1,
                ) {
                    (Ok(a), Ok(b)) => a == b,
                    (Err(a), Err(b)) => b == ErrorView::Msg(a),
                    _ => false,
                },
            }
        }),
{
}

/// Of the messages that wait, the first that answers is taken, and all others stay in
/// their order.
pub proof fn the_first_answer_is_taken(w: AwaitView, inbox: Seq<MessageView>, i: int, k: int)
    requires
        0 <= i <= k < inbox.len(),
        forall|j: int|
            i <= j < k ==> replies::judged(w, #[trigger] inbox[j]) == (
                w,
                Ok::<Option<ReplyView>, ErrorView>(None),
            ),
        replies::judged(w, inbox[k]).1 matches Ok(Some(_)),
    ensures
        replies::scanned(w, inbox, i).2 == replies::judged(w, inbox[k]).1,
        replies::scanned(w, inbox, i).1 == inbox.remove(k),
    decreases k - i,
{
    if i < k {
        assert(replies::judged(w, inbox[i]) == (w, Ok::<Option<ReplyView>, ErrorView>(None)));
        the_first_answer_is_taken(w, inbox, i + 1, k);
    }
}

/// A message that comes in and answers is handed out at once, and leaves those that wait.
pub proof fn an_answer_is_handed_out(w: AwaitView, inbox: Seq<MessageView>, m: MessageView)
    requires
        m.namespace != "urn:x-cast:com.google.cast.tp.heartbeat"@,
    ensures
        replies::judged(w, m).1 matches Ok(Some(x)) ==> replies::received(w, inbox, m) == (
            replies::judged(w, m).0,
            inbox,
            Ok::<ReceivedView, ErrorView>(ReceivedView::Answer(x)),
        ),
        replies::judged(w, m).1 matches Ok(None) ==> replies::received(w, inbox, m) == (
            replies::judged(w, m).0,
            inbox.push(m),
            Ok::<ReceivedView, ErrorView>(ReceivedView::Kept),
        ),
        replies::judged(w, m).1 matches Err(e) ==> replies::received(w, inbox, m) == (
            replies::judged(w, m).0,
            inbox,
            Err::<ReceivedView, ErrorView>(e),
        ),
{
}

/// A ping is to be answered, and nothing else on the namespace of heartbeats is.
pub proof fn pings_are_answered(m: MessageView)
    ensures
        m.namespace != "urn:x-cast:com.google.cast.tp.heartbeat"@ ==> channel::heartbeat_of(m)
            is Other,
        m.namespace == "urn:x-cast:com.google.cast.tp.heartbeat"@ && m.payload is Binary
            ==> channel::heartbeat_of(m) is Quiet,
        m.payload matches PayloadView::Text(s) ==> m.namespace
            == "urn:x-cast:com.google.cast.tp.heartbeat"@ ==> match json::json_in(s) {
            Ok(v) => (channel::heartbeat_of(m) is Pong <==> v.text_of("type"@) == Some("PING"@))
                && !(channel::heartbeat_of(m) is Other),
            Err(_) => channel::heartbeat_of(m) is Quiet,
        },
{
}

} // verus!
