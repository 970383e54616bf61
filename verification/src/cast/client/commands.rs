//! The commands that a receiver understands.

use crate::cast::channel::DEFAULT_MEDIA_RECEIVER;
use crate::json;
use crate::json::{Json, JsonView};
use vstd::prelude::*;

verus! {

/// How the sender names itself.
pub const USER_AGENT: &'static str = "RockCast/0.1";

/// Opens a virtual connection.
pub open spec fn connect_view() -> JsonView {
    json::object_of(
        seq![
            ("type"@, JsonView::Text("CONNECT"@)),
            ("userAgent"@, JsonView::Text(USER_AGENT@)),
        ],
    )
}

/// Opens a virtual connection.
pub fn connect() -> (j: Json)
    ensures
        j@ == connect_view(),
        json::can_be_written(j),
{
    let mut members: Vec<(String, Json)> = Vec::new();
    members.push(json::pair("type", json::text_value("CONNECT")));
    members.push(json::pair("userAgent", json::text_value(USER_AGENT)));
    proof {
        assert(json::pairs_of(members@) =~= seq![
            ("type"@, JsonView::Text("CONNECT"@)),
            ("userAgent"@, JsonView::Text(USER_AGENT@)),
        ]);
        assert(json::all_nest(members@, 99));
    }
    json::whole_object(members)
}

/// Closes a virtual connection.
pub open spec fn close_view() -> JsonView {
    json::object_of(
        seq![
            ("type"@, JsonView::Text("CLOSE"@)),
            ("userAgent"@, JsonView::Text(USER_AGENT@)),
        ],
    )
}

/// Closes a virtual connection.
pub fn close() -> (j: Json)
    ensures
        j@ == close_view(),
        json::can_be_written(j),
{
    let mut members: Vec<(String, Json)> = Vec::new();
    members.push(json::pair("type", json::text_value("CLOSE")));
    members.push(json::pair("userAgent", json::text_value(USER_AGENT)));
    proof {
        assert(json::pairs_of(members@) =~= seq![
            ("type"@, JsonView::Text("CLOSE"@)),
            ("userAgent"@, JsonView::Text(USER_AGENT@)),
        ]);
        assert(json::all_nest(members@, 99));
    }
    json::whole_object(members)
}

/// Asks for the state of the receiver.
pub open spec fn get_status_view(req: u32) -> JsonView {
    json::object_of(
        seq![
            ("type"@, JsonView::Text("GET_STATUS"@)),
            ("requestId"@, JsonView::Unsigned(req as u64)),
        ],
    )
}

/// Asks for the state of the receiver.
pub fn get_status(req: u32) -> (j: Json)
    ensures
        j@ == get_status_view(req),
        json::can_be_written(j),
{
    let mut members: Vec<(String, Json)> = Vec::new();
    members.push(json::pair("type", json::text_value("GET_STATUS")));
    members.push(json::pair("requestId", Json::Unsigned(req as u64)));
    proof {
        assert(json::pairs_of(members@) =~= seq![
            ("type"@, JsonView::Text("GET_STATUS"@)),
            ("requestId"@, JsonView::Unsigned(req as u64)),
        ]);
        assert(json::all_nest(members@, 99));
    }
    json::whole_object(members)
}

/// Launches the media player.
pub open spec fn launch_view(req: u32) -> JsonView {
    json::object_of(
        seq![
            ("type"@, JsonView::Text("LAUNCH"@)),
            ("requestId"@, JsonView::Unsigned(req as u64)),
            ("appId"@, JsonView::Text(DEFAULT_MEDIA_RECEIVER@)),
        ],
    )
}

/// Launches the media player.
pub fn launch(req: u32) -> (j: Json)
    ensures
        j@ == launch_view(req),
        json::can_be_written(j),
{
    let mut members: Vec<(String, Json)> = Vec::new();
    members.push(json::pair("type", json::text_value("LAUNCH")));
    members.push(json::pair("requestId", Json::Unsigned(req as u64)));
    members.push(json::pair("appId", json::text_value(DEFAULT_MEDIA_RECEIVER)));
    proof {
        assert(json::pairs_of(members@) =~= seq![
            ("type"@, JsonView::Text("LAUNCH"@)),
            ("requestId"@, JsonView::Unsigned(req as u64)),
            ("appId"@, JsonView::Text(DEFAULT_MEDIA_RECEIVER@)),
        ]);
        assert(json::all_nest(members@, 99));
    }
    json::whole_object(members)
}

/// What is shown of a stream.
pub open spec fn media_metadata_view(title: Seq<char>) -> JsonView {
    json::object_of(
        seq![
            ("metadataType"@, JsonView::Unsigned(0)),
            ("title"@, JsonView::Text(title)),
        ],
    )
}

/// What is shown of a stream.
pub fn media_metadata(title: &str) -> (j: Json)
    ensures
        j@ == media_metadata_view(title@),
        json::is_whole(j),
        json::nests(j, 98),
{
    let mut members: Vec<(String, Json)> = Vec::new();
    members.push(json::pair("metadataType", Json::Unsigned(0)));
    members.push(json::pair("title", json::text_value(title)));
    proof {
        assert(json::pairs_of(members@) =~= seq![
            ("metadataType"@, JsonView::Unsigned(0)),
            ("title"@, JsonView::Text(title@)),
        ]);
        assert(json::all_nest(members@, 97));
    }
    json::whole_object(members)
}

/// A live stream.
pub open spec fn live_media_view(
    url: Seq<char>,
    content_type: Seq<char>,
    title: Seq<char>,
) -> JsonView {
    json::object_of(
        seq![
            ("contentId"@, JsonView::Text(url)),
            ("streamType"@, JsonView::Text("LIVE"@)),
            ("contentType"@, JsonView::Text(content_type)),
            ("metadata"@, media_metadata_view(title)),
        ],
    )
}

/// A live stream.
pub fn live_media(url: &str, content_type: &str, title: &str) -> (j: Json)
    ensures
        j@ == live_media_view(url@, content_type@, title@),
        json::is_whole(j),
        json::nests(j, 99),
{
    let mut members: Vec<(String, Json)> = Vec::new();
    members.push(json::pair("contentId", json::text_value(url)));
    members.push(json::pair("streamType", json::text_value("LIVE")));
    members.push(json::pair("contentType", json::text_value(content_type)));
    members.push(json::pair("metadata", media_metadata(title)));
    proof {
        assert(json::pairs_of(members@) =~= seq![
            ("contentId"@, JsonView::Text(url@)),
            ("streamType"@, JsonView::Text("LIVE"@)),
            ("contentType"@, JsonView::Text(content_type@)),
            ("metadata"@, media_metadata_view(title@)),
        ]);
        assert(json::all_nest(members@, 98));
    }
    json::whole_object(members)
}

/// Data of the sender's own: none.
pub open spec fn no_data_view() -> JsonView {
    json::object_of(Seq::empty())
}

/// Data of the sender's own: none.
pub fn no_data() -> (j: Json)
    ensures
        j@ == no_data_view(),
        json::is_whole(j),
        json::nests(j, 99),
{
    let members: Vec<(String, Json)> = Vec::new();
    proof {
        assert(json::pairs_of(members@) =~= Seq::empty());
        assert(json::all_nest(members@, 98));
    }
    json::whole_object(members)
}

/// Loads a live stream and plays it.
pub open spec fn load_view(
    req: u32,
    session_id: Seq<char>,
    url: Seq<char>,
    content_type: Seq<char>,
    title: Seq<char>,
) -> JsonView {
    json::object_of(
        seq![
            ("type"@, JsonView::Text("LOAD"@)),
            ("requestId"@, JsonView::Unsigned(req as u64)),
            ("sessionId"@, JsonView::Text(session_id)),
            ("autoplay"@, JsonView::Bool(true)),
            ("currentTime"@, JsonView::Unsigned(0)),
            ("media"@, live_media_view(url, content_type, title)),
            ("customData"@, no_data_view()),
        ],
    )
}

/// Loads a live stream and plays it.
pub fn load(req: u32, session_id: &str, url: &str, content_type: &str, title: &str) -> (j: Json)
    ensures
        j@ == load_view(req, session_id@, url@, content_type@, title@),
        json::can_be_written(j),
{
    let mut members: Vec<(String, Json)> = Vec::new();
    members.push(json::pair("type", json::text_value("LOAD")));
    members.push(json::pair("requestId", Json::Unsigned(req as u64)));
    members.push(json::pair("sessionId", json::text_value(session_id)));
    members.push(json::pair("autoplay", Json::Bool(true)));
    members.push(json::pair("currentTime", Json::Unsigned(0)));
    members.push(json::pair("media", live_media(url, content_type, title)));
    members.push(json::pair("customData", no_data()));
    proof {
        assert(json::pairs_of(members@) =~= seq![
            ("type"@, JsonView::Text("LOAD"@)),
            ("requestId"@, JsonView::Unsigned(req as u64)),
            ("sessionId"@, JsonView::Text(session_id@)),
            ("autoplay"@, JsonView::Bool(true)),
            ("currentTime"@, JsonView::Unsigned(0)),
            ("media"@, live_media_view(url@, content_type@, title@)),
            ("customData"@, no_data_view()),
        ]);
        assert(json::all_nest(members@, 99));
    }
    json::whole_object(members)
}

/// Plays what is loaded.
pub open spec fn play_view(req: u32, media_session_id: i64) -> JsonView {
    json::object_of(
        seq![
            ("type"@, JsonView::Text("PLAY"@)),
            ("requestId"@, JsonView::Unsigned(req as u64)),
            ("mediaSessionId"@, json::signed_view(media_session_id)),
        ],
    )
}

/// Plays what is loaded.
pub fn play(req: u32, media_session_id: i64) -> (j: Json)
    ensures
        j@ == play_view(req, media_session_id),
        json::can_be_written(j),
{
    let mut members: Vec<(String, Json)> = Vec::new();
    members.push(json::pair("type", json::text_value("PLAY")));
    members.push(json::pair("requestId", Json::Unsigned(req as u64)));
    members.push(json::pair("mediaSessionId", json::signed_value(media_session_id)));
    proof {
        assert(json::pairs_of(members@) =~= seq![
            ("type"@, JsonView::Text("PLAY"@)),
            ("requestId"@, JsonView::Unsigned(req as u64)),
            ("mediaSessionId"@, json::signed_view(media_session_id)),
        ]);
        assert(json::all_nest(members@, 99));
    }
    json::whole_object(members)
}

/// Stops what is playing.
pub open spec fn stop_media_view(req: u32, media_session_id: i64) -> JsonView {
    json::object_of(
        seq![
            ("type"@, JsonView::Text("STOP"@)),
            ("requestId"@, JsonView::Unsigned(req as u64)),
            ("mediaSessionId"@, json::signed_view(media_session_id)),
        ],
    )
}

/// Stops what is playing.
pub fn stop_media(req: u32, media_session_id: i64) -> (j: Json)
    ensures
        j@ == stop_media_view(req, media_session_id),
        json::can_be_written(j),
{
    let mut members: Vec<(String, Json)> = Vec::new();
    members.push(json::pair("type", json::text_value("STOP")));
    members.push(json::pair("requestId", Json::Unsigned(req as u64)));
    members.push(json::pair("mediaSessionId", json::signed_value(media_session_id)));
    proof {
        assert(json::pairs_of(members@) =~= seq![
            ("type"@, JsonView::Text("STOP"@)),
            ("requestId"@, JsonView::Unsigned(req as u64)),
            ("mediaSessionId"@, json::signed_view(media_session_id)),
        ]);
        assert(json::all_nest(members@, 99));
    }
    json::whole_object(members)
}

/// Stops an application.
pub open spec fn stop_app_view(req: u32, session_id: Seq<char>) -> JsonView {
    json::object_of(
        seq![
            ("type"@, JsonView::Text("STOP"@)),
            ("requestId"@, JsonView::Unsigned(req as u64)),
            ("sessionId"@, JsonView::Text(session_id)),
        ],
    )
}

/// Stops an application.
pub fn stop_app(req: u32, session_id: &str) -> (j: Json)
    ensures
        j@ == stop_app_view(req, session_id@),
        json::can_be_written(j),
{
    let mut members: Vec<(String, Json)> = Vec::new();
    members.push(json::pair("type", json::text_value("STOP")));
    members.push(json::pair("requestId", Json::Unsigned(req as u64)));
    members.push(json::pair("sessionId", json::text_value(session_id)));
    proof {
        assert(json::pairs_of(members@) =~= seq![
            ("type"@, JsonView::Text("STOP"@)),
            ("requestId"@, JsonView::Unsigned(req as u64)),
            ("sessionId"@, JsonView::Text(session_id@)),
        ]);
        assert(json::all_nest(members@, 99));
    }
    json::whole_object(members)
}

/// A command on its way: to whom, on which namespace, and what it says.
#[derive(Debug)]
pub struct Command {
    pub destination: String,
    pub namespace: &'static str,
    pub value: Json,
}

/// The contents of a [`Command`].
pub struct CommandView {
    pub destination: Seq<char>,
    pub namespace: Seq<char>,
    pub value: JsonView,
}

impl View for Command {
    type V = CommandView;

    open spec fn view(&self) -> CommandView {
        CommandView {
            destination: self.destination@,
            namespace: self.namespace@,
            value: self.value@,
        }
    }
}

/// The names of members differ: two of one length begin with different characters.
proof fn lemma_names()
    ensures
        "type"@.len() == 4,
        "appId"@.len() == 5 && "appId"@[0] == 'a',
        "media"@.len() == 5 && "media"@[0] == 'm',
        "title"@.len() == 5 && "title"@[0] == 't',
        "autoplay"@.len() == 8 && "autoplay"@[0] == 'a',
        "metadata"@.len() == 8 && "metadata"@[0] == 'm',
        "userAgent"@.len() == 9 && "userAgent"@[0] == 'u',
        "requestId"@.len() == 9 && "requestId"@[0] == 'r',
        "sessionId"@.len() == 9 && "sessionId"@[0] == 's',
        "contentId"@.len() == 9 && "contentId"@[0] == 'c',
        "customData"@.len() == 10 && "customData"@[0] == 'c',
        "streamType"@.len() == 10 && "streamType"@[0] == 's',
        "currentTime"@.len() == 11 && "contentType"@.len() == 11,
        "metadataType"@.len() == 12,
        "mediaSessionId"@.len() == 14,
{
    reveal_strlit("type");
    reveal_strlit("appId");
    reveal_strlit("media");
    reveal_strlit("title");
    reveal_strlit("autoplay");
    reveal_strlit("metadata");
    reveal_strlit("userAgent");
    reveal_strlit("requestId");
    reveal_strlit("sessionId");
    reveal_strlit("contentId");
    reveal_strlit("customData");
    reveal_strlit("streamType");
    reveal_strlit("currentTime");
    reveal_strlit("contentType");
    reveal_strlit("metadataType");
    reveal_strlit("mediaSessionId");
}

/// Connecting and closing say their type and who sends them.
pub proof fn connections_are_opened_and_closed()
    ensures
        connect_view().text_of("type"@) == Some("CONNECT"@),
        connect_view().text_of("userAgent"@) == Some("RockCast/0.1"@),
        close_view().text_of("type"@) == Some("CLOSE"@),
        close_view().text_of("userAgent"@) == Some("RockCast/0.1"@),
{
    lemma_names();
    let a = seq![
        ("type"@, JsonView::Text("CONNECT"@)),
        ("userAgent"@, JsonView::Text(USER_AGENT@)),
    ];
    let b = seq![("type"@, JsonView::Text("CLOSE"@)), ("userAgent"@, JsonView::Text(USER_AGENT@))];
    json::the_last_member_of_a_name_counts(a, 0);
    json::the_last_member_of_a_name_counts(a, 1);
    json::the_last_member_of_a_name_counts(b, 0);
    json::the_last_member_of_a_name_counts(b, 1);
}

/// Asking for the state and launching the player each carry the number of their request.
pub proof fn the_receiver_is_asked_and_told(req: u32)
    ensures
        get_status_view(req).text_of("type"@) == Some("GET_STATUS"@),
        get_status_view(req).member("requestId"@) == Some(JsonView::Unsigned(req as u64)),
        launch_view(req).text_of("type"@) == Some("LAUNCH"@),
        launch_view(req).member("requestId"@) == Some(JsonView::Unsigned(req as u64)),
        launch_view(req).text_of("appId"@) == Some("CC1AD845"@),
{
    lemma_names();
    let a = seq![
        ("type"@, JsonView::Text("GET_STATUS"@)),
        ("requestId"@, JsonView::Unsigned(req as u64)),
    ];
    let b = seq![
        ("type"@, JsonView::Text("LAUNCH"@)),
        ("requestId"@, JsonView::Unsigned(req as u64)),
        ("appId"@, JsonView::Text(DEFAULT_MEDIA_RECEIVER@)),
    ];
    json::the_last_member_of_a_name_counts(a, 0);
    json::the_last_member_of_a_name_counts(a, 1);
    json::the_last_member_of_a_name_counts(b, 0);
    json::the_last_member_of_a_name_counts(b, 1);
    json::the_last_member_of_a_name_counts(b, 2);
}

/// A stream is described by its address, its content type and its title, and is live.
pub proof fn a_stream_is_described(url: Seq<char>, content_type: Seq<char>, title: Seq<char>)
    ensures
        ({
            let v = live_media_view(url, content_type, title);
            &&& v.text_of("contentId"@) == Some(url)
            &&& v.text_of("streamType"@) == Some("LIVE"@)
            &&& v.text_of("contentType"@) == Some(content_type)
            &&& v.member("metadata"@) matches Some(m) && m.text_of("title"@) == Some(title)
                && m.member("metadataType"@) == Some(JsonView::Unsigned(0))
        }),
{
    lemma_names();
    let a = seq![
        ("contentId"@, JsonView::Text(url)),
        ("streamType"@, JsonView::Text("LIVE"@)),
        ("contentType"@, JsonView::Text(content_type)),
        ("metadata"@, media_metadata_view(title)),
    ];
    let b = seq![
        ("metadataType"@, JsonView::Unsigned(0)),
        ("title"@, JsonView::Text(title)),
    ];
    json::the_last_member_of_a_name_counts(a, 0);
    json::the_last_member_of_a_name_counts(a, 1);
    json::the_last_member_of_a_name_counts(a, 2);
    json::the_last_member_of_a_name_counts(a, 3);
    json::the_last_member_of_a_name_counts(b, 0);
    json::the_last_member_of_a_name_counts(b, 1);
}

/// A stream is loaded in the session of the player, from its beginning, to be played at
/// once, and is the one that is described.
pub proof fn a_stream_is_loaded(
    req: u32,
    session_id: Seq<char>,
    url: Seq<char>,
    content_type: Seq<char>,
    title: Seq<char>,
)
    ensures
        ({
            let v = load_view(req, session_id, url, content_type, title);
            &&& v.text_of("type"@) == Some("LOAD"@)
            &&& v.member("requestId"@) == Some(JsonView::Unsigned(req as u64))
            &&& v.text_of("sessionId"@) == Some(session_id)
            &&& v.member("autoplay"@) == Some(JsonView::Bool(true))
            &&& v.member("currentTime"@) == Some(JsonView::Unsigned(0))
            &&& v.member("media"@) matches Some(m) && {
                &&& m.text_of("contentId"@) == Some(url)
                &&& m.text_of("contentType"@) == Some(content_type)
                &&& m.text_of("streamType"@) == Some("LIVE"@)
                &&& m.member("metadata"@) matches Some(d) && d.text_of("title"@) == Some(title)
            }
        }),
{
    lemma_names();
    a_stream_is_described(url, content_type, title);
    let a = seq![
        ("type"@, JsonView::Text("LOAD"@)),
        ("requestId"@, JsonView::Unsigned(req as u64)),
        ("sessionId"@, JsonView::Text(session_id)),
        ("autoplay"@, JsonView::Bool(true)),
        ("currentTime"@, JsonView::Unsigned(0)),
        ("media"@, live_media_view(url, content_type, title)),
        ("customData"@, no_data_view()),
    ];
    json::the_last_member_of_a_name_counts(a, 0);
    json::the_last_member_of_a_name_counts(a, 1);
    json::the_last_member_of_a_name_counts(a, 2);
    json::the_last_member_of_a_name_counts(a, 3);
    json::the_last_member_of_a_name_counts(a, 4);
    json::the_last_member_of_a_name_counts(a, 5);
}

/// Playing and stopping name the media session, and stopping the application its
/// session, each with the number of its request.
pub proof fn media_and_application_are_named(req: u32, media: i64, session_id: Seq<char>)
    ensures
        play_view(req, media).text_of("type"@) == Some("PLAY"@),
        play_view(req, media).member("requestId"@) == Some(JsonView::Unsigned(req as u64)),
        play_view(req, media).member("mediaSessionId"@) matches Some(m) && m.signed() == Some(
            media,
        ),
        stop_media_view(req, media).text_of("type"@) == Some("STOP"@),
        stop_media_view(req, media).member("requestId"@) == Some(JsonView::Unsigned(req as u64)),
        stop_media_view(req, media).member("mediaSessionId"@) matches Some(m) && m.signed() == Some(
            media,
        ),
        stop_app_view(req, session_id).text_of("type"@) == Some("STOP"@),
        stop_app_view(req, session_id).member("requestId"@) == Some(
            JsonView::Unsigned(req as u64),
        ),
        stop_app_view(req, session_id).text_of("sessionId"@) == Some(session_id),
{
    lemma_names();
    let a = seq![
        ("type"@, JsonView::Text("PLAY"@)),
        ("requestId"@, JsonView::Unsigned(req as u64)),
        ("mediaSessionId"@, json::signed_view(media)),
    ];
    let b = seq![
        ("type"@, JsonView::Text("STOP"@)),
        ("requestId"@, JsonView::Unsigned(req as u64)),
        ("mediaSessionId"@, json::signed_view(media)),
    ];
    let c = seq![
        ("type"@, JsonView::Text("STOP"@)),
        ("requestId"@, JsonView::Unsigned(req as u64)),
        ("sessionId"@, JsonView::Text(session_id)),
    ];
    json::the_last_member_of_a_name_counts(a, 0);
    json::the_last_member_of_a_name_counts(a, 1);
    json::the_last_member_of_a_name_counts(a, 2);
    json::the_last_member_of_a_name_counts(b, 0);
    json::the_last_member_of_a_name_counts(b, 1);
    json::the_last_member_of_a_name_counts(b, 2);
    json::the_last_member_of_a_name_counts(c, 0);
    json::the_last_member_of_a_name_counts(c, 1);
    json::the_last_member_of_a_name_counts(c, 2);
}

} // verus!
