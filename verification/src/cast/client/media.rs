//! Loading a stream: under which content types it is offered, and what the answers
//! mean.

use crate::cast::channel::{ChannelError, ErrorView};
use crate::json::{Json, JsonView};
use crate::text;
use vstd::prelude::*;

verus! {

/// A list with a text behind it, unless the text is empty or there already.
pub open spec fn with_new(list: Seq<Seq<char>>, value: Seq<char>) -> Seq<Seq<char>> {
    if value.len() == 0 || list.contains(value) {
        list
    } else {
        list.push(value)
    }
}

/// The content types under which a stream is offered, best first: its own, for Ogg
/// the others that mean the same, and at last MPEG.
pub open spec fn candidates(content_type: Seq<char>) -> Seq<Seq<char>> {
    let own = text::ascii_lower(text::trimmed(content_type));
    let first = with_new(Seq::empty(), own);
    let ogg = if text::has_text(own, "opus"@) {
        with_new(
            with_new(
                with_new(with_new(first, "audio/ogg; codecs=opus"@), "audio/ogg"@),
                "application/ogg"@,
            ),
            "audio/opus"@,
        )
    } else if text::has_text(own, "vorbis"@) || own == "audio/ogg"@ || own == "application/ogg"@ {
        with_new(
            with_new(with_new(first, "audio/ogg; codecs=vorbis"@), "audio/ogg"@),
            "application/ogg"@,
        )
    } else {
        first
    };
    with_new(ogg, "audio/mpeg"@)
}

fn push_new(list: &mut Vec<String>, value: &str)
    ensures
        text::texts(final(list)@) == with_new(text::texts(old(list)@), value@),
{
    let ghost before = list@;
    if value.as_bytes().len() == 0 || text::listed(list, value) {
        proof {
            lemma_empty(value);
        }
        return;
    }
    proof {
        lemma_empty(value);
    }
    list.push(value.to_string());
    proof {
        assert(text::texts(list@) =~= text::texts(before).push(value@));
    }
}

proof fn lemma_empty(s: &str)
    ensures
        (s@.len() == 0) == (vstd::utf8::encode_utf8(s@).len() == 0),
{
    reveal_with_fuel(vstd::utf8::encode_utf8, 2);
    if s@.len() > 0 {
        vstd::utf8::encode_utf8_first_scalar(s@);
    }
}

/// The content types under which a stream is offered, best first.
pub fn candidate_content_types(content_type: &str) -> (out: Vec<String>)
    ensures
        text::texts(out@) == candidates(content_type@),
{
    let trimmed = text::trim(content_type);
    let own = text::ascii_lowercase(trimmed.as_str());
    let own = own.as_str();
    let mut out: Vec<String> = Vec::new();
    proof {
        assert(text::texts(out@) =~= Seq::empty());
    }
    push_new(&mut out, own);
    if text::contains(own, "opus") {
        push_new(&mut out, "audio/ogg; codecs=opus");
        push_new(&mut out, "audio/ogg");
        push_new(&mut out, "application/ogg");
        push_new(&mut out, "audio/opus");
    } else if text::contains(own, "vorbis") || text::same(own, "audio/ogg") || text::same(
        own,
        "application/ogg",
    ) {
        push_new(&mut out, "audio/ogg; codecs=vorbis");
        push_new(&mut out, "audio/ogg");
        push_new(&mut out, "application/ogg");
    }
    push_new(&mut out, "audio/mpeg");
    out
}

/// Where loading a stream stands.
#[derive(Debug, Clone, Copy, PartialEq, Eq, Structural)]
pub enum LoadProgress {
    /// The receiver has not said enough yet.
    Pending,
    /// The stream is loaded, in this media session where the receiver names one.
    Ready(Option<i64>),
}

/// The number of the request that an answer belongs to, to 32 bits; 0 where it names
/// none.
pub open spec fn request_of(v: JsonView) -> u32 {
    match v.member("requestId"@) {
        Some(x) => match x.unsigned() {
            Some(n) => (n % 0x1_0000_0000) as u32,
            None => 0,
        },
        None => 0,
    }
}

/// The number of the request that an answer belongs to.
pub fn request_id(v: &Json) -> (r: u32)
    ensures
        r == request_of(v@),
{
    match v.get("requestId") {
        Some(x) => match x.as_u64() {
            Some(n) => (n % 0x1_0000_0000) as u32,
            None => 0,
        },
        None => 0,
    }
}

/// The first entry of the status in an answer.
pub open spec fn status_of(v: JsonView) -> Option<JsonView> {
    match v.list_of("status"@) {
        Some(list) => if list.len() > 0 {
            Some(list[0])
        } else {
            None
        },
        None => None,
    }
}

fn first_status(v: &Json) -> (r: Option<&Json>)
    ensures
        match r {
            Some(st) => status_of(v@) == Some(st@),
            None => status_of(v@) is None,
        },
{
    match v.list_of("status") {
        Some(list) => if list.len() > 0 {
            Some(&list[0])
        } else {
            None
        },
        None => None,
    }
}

/// The text of a member, empty where there is none.
pub open spec fn text_or_empty(v: JsonView, name: Seq<char>) -> Seq<char> {
    match v.text_of(name) {
        Some(s) => s,
        None => ""@,
    }
}

fn member_text<'a>(v: &'a Json, name: &str) -> (s: &'a str)
    ensures
        s@ == text_or_empty(v@, name@),
{
    match v.text_of(name) {
        Some(s) => s,
        None => "",
    }
}

/// Whether a status speaks of the stream at this address.
pub open spec fn is_about(st: JsonView, url: Seq<char>) -> bool {
    match st.member("media"@) {
        Some(m) => m.text_of("contentId"@) == Some(url),
        None => false,
    }
}

fn speaks_of(st: &Json, url: &str) -> (r: bool)
    ensures
        r == is_about(st@, url@),
{
    match st.get("media") {
        Some(m) => match m.text_of("contentId") {
            Some(c) => text::same(c, url),
            None => false,
        },
        None => false,
    }
}

/// A reason for which a player that is idle will not begin to play.
pub open spec fn is_final_reason(reason: Seq<char>) -> bool {
    reason == "ERROR"@ || reason == "CANCELLED"@ || reason == "INTERRUPTED"@ || reason
        == "FINISHED"@
}

/// What an answer says of loading the stream at `url` by the request `req`, or why it
/// will not be loaded.
pub open spec fn progress_of(v: JsonView, req: u32, url: Seq<char>) -> Result<
    LoadProgress,
    Seq<char>,
> {
    match status_of(v) {
        None => if request_of(v) == req {
            Ok(LoadProgress::Ready(None))
        } else {
            Ok(LoadProgress::Pending)
        },
        Some(st) => {
            let state = text_or_empty(st, "playerState"@);
            let reason = text_or_empty(st, "idleReason"@);
            if request_of(v) != req && !is_about(st, url) {
                Ok(LoadProgress::Pending)
            } else if state == "BUFFERING"@ || state == "PLAYING"@ || state == "PAUSED"@ {
                Ok(
                    LoadProgress::Ready(
                        match st.member("mediaSessionId"@) {
                            Some(m) => m.signed(),
                            None => None,
                        },
                    ),
                )
            } else if state == "IDLE"@ && is_final_reason(reason) {
                Err("Cast LOAD stalled in IDLE ("@ + reason + ")"@)
            } else {
                Ok(LoadProgress::Pending)
            }
        },
    }
}

/// What an answer says of loading a stream.
pub fn classify_media_status(v: &Json, req: u32, url: &str) -> (r: Result<
    LoadProgress,
    ChannelError,
>)
    ensures
        match r {
            Ok(p) => progress_of(v@, req, url@) == Ok::<LoadProgress, Seq<char>>(p),
            Err(e) => progress_of(v@, req, url@) matches Err(m) && e@ == ErrorView::Msg(m),
        },
{
    let rid: u32 = request_id(v);
    let st = match first_status(v) {
        Some(st) => st,
        None => {
            return if rid == req {
                Ok(LoadProgress::Ready(None))
            } else {
                Ok(LoadProgress::Pending)
            };
        },
    };
    if rid != req && !speaks_of(st, url) {
        return Ok(LoadProgress::Pending);
    }
    let state = member_text(st, "playerState");
    if text::same(state, "BUFFERING") || text::same(state, "PLAYING") || text::same(
        state,
        "PAUSED",
    ) {
        let session = match st.get("mediaSessionId") {
            Some(m) => m.as_i64(),
            None => None,
        };
        return Ok(LoadProgress::Ready(session));
    }
    let reason = member_text(st, "idleReason");
    if text::same(state, "IDLE") && (text::same(reason, "ERROR") || text::same(reason, "CANCELLED")
        || text::same(reason, "INTERRUPTED") || text::same(reason, "FINISHED")) {
        let m = text::joined_two("Cast LOAD stalled in IDLE (", reason);
        return Err(ChannelError::Msg(text::joined_two(m.as_str(), ")")));
    }
    Ok(LoadProgress::Pending)
}

/// How often a receiver may say that it is idle before loading is given up.
pub const MAX_IDLE_HITS: u32 = 10;

/// How often a receiver has said that it is idle, after one more answer.
pub open spec fn idle_after(v: JsonView, url: Seq<char>, hits: u32) -> u32 {
    match status_of(v) {
        None => hits,
        Some(st) => {
            let state = text_or_empty(st, "playerState"@);
            if is_about(st, url) && state == "IDLE"@ {
                if hits == u32::MAX {
                    hits
                } else {
                    (hits + 1) as u32
                }
            } else if state == "BUFFERING"@ || state == "PLAYING"@ {
                0
            } else {
                hits
            }
        },
    }
}

/// Whether an answer counts as one more of those that say idle.
pub open spec fn counts_as_idle(v: JsonView, url: Seq<char>) -> bool {
    match status_of(v) {
        None => false,
        Some(st) => is_about(st, url) && text_or_empty(st, "playerState"@) == "IDLE"@,
    }
}

/// A type of answer by which a request to load is refused.
pub open spec fn is_refusal(kind: Seq<char>) -> bool {
    kind == "LOAD_FAILED"@ || kind == "LOAD_CANCELLED"@ || kind == "INVALID_REQUEST"@ || kind
        == "ERROR"@
}

/// What an answer on the media namespace means for a request to load: the count of
/// idle answers, and the media session once the stream is loaded, or why it is not.
pub open spec fn load_reply(v: JsonView, req: u32, url: Seq<char>, hits: u32) -> (
    u32,
    Result<Option<Option<i64>>, Seq<char>>,
) {
    let kind = text_or_empty(v, "type"@);
    if kind == "MEDIA_STATUS"@ {
        let after = idle_after(v, url, hits);
        if counts_as_idle(v, url) && after >= MAX_IDLE_HITS {
            (after, Err("Cast stayed IDLE too long after LOAD"@))
        } else {
            (
                after,
                match progress_of(v, req, url) {
                    Ok(LoadProgress::Pending) => Ok(None),
                    Ok(LoadProgress::Ready(session)) => Ok(Some(session)),
                    Err(m) => Err(m),
                },
            )
        }
    } else if is_refusal(kind) {
        (
            hits,
            if request_of(v) == req || request_of(v) == 0 {
                Err("Cast rejected LOAD: "@ + kind)
            } else {
                Ok(None)
            },
        )
    } else {
        (hits, Ok(None))
    }
}

/// What an answer on the media namespace means for a request to load.
pub fn read_load_reply(v: &Json, req: u32, url: &str, idle_hits: &mut u32) -> (r: Result<
    Option<Option<i64>>,
    ChannelError,
>)
    ensures
        *final(idle_hits) == load_reply(v@, req, url@, *old(idle_hits)).0,
        match r {
            Ok(s) => load_reply(v@, req, url@, *old(idle_hits)).1 == Ok::<
                Option<Option<i64>>,
                Seq<char>,
            >(s),
            Err(e) => load_reply(v@, req, url@, *old(idle_hits)).1 matches Err(m) && e@
                == ErrorView::Msg(m),
        },
{
    let kind = member_text(v, "type");
    if text::same(kind, "MEDIA_STATUS") {
        if let Some(st) = first_status(v) {
            let state = member_text(st, "playerState");
            if speaks_of(st, url) && text::same(state, "IDLE") {
                if *idle_hits < u32::MAX {
                    *idle_hits = *idle_hits + 1;
                }
                if *idle_hits >= MAX_IDLE_HITS {
                    return Err(
                        ChannelError::Msg("Cast stayed IDLE too long after LOAD".to_string()),
                    );
                }
            } else if text::same(state, "BUFFERING") || text::same(state, "PLAYING") {
                *idle_hits = 0;
            }
        }
        return match classify_media_status(v, req, url) {
            Ok(LoadProgress::Pending) => Ok(None),
            Ok(LoadProgress::Ready(session)) => Ok(Some(session)),
            Err(e) => Err(e),
        };
    }
    if text::same(kind, "LOAD_FAILED") || text::same(kind, "LOAD_CANCELLED") || text::same(
        kind,
        "INVALID_REQUEST",
    ) || text::same(kind, "ERROR") {
        let rid: u32 = request_id(v);
        return if rid == req || rid == 0 {
            Err(ChannelError::Msg(text::joined_two("Cast rejected LOAD: ", kind)))
        } else {
            Ok(None)
        };
    }
    Ok(None)
}

/// A stream that the receiver buffers or plays counts as loaded, and one that is only
/// idle does not.
pub proof fn only_a_live_stream_is_loaded(v: JsonView, req: u32, url: Seq<char>, st: JsonView)
    requires
        status_of(v) == Some(st),
        request_of(v) == req || is_about(st, url),
    ensures
        text_or_empty(st, "playerState"@) == "BUFFERING"@ || text_or_empty(st, "playerState"@)
            == "PLAYING"@ ==> (progress_of(v, req, url) matches Ok(LoadProgress::Ready(_))),
        text_or_empty(st, "playerState"@) == "IDLE"@ ==> !(progress_of(v, req, url) matches Ok(
            LoadProgress::Ready(_),
        )),
{
    reveal_strlit("IDLE");
    reveal_strlit("BUFFERING");
    reveal_strlit("PLAYING");
    reveal_strlit("PAUSED");
    assert("IDLE"@.len() == 4);
}

/// The candidates are never empty, no content type is offered twice, and MPEG is
/// always among them.
pub proof fn candidates_differ_and_end_with_mpeg(content_type: Seq<char>)
    ensures
        candidates(content_type).contains("audio/mpeg"@),
        candidates(content_type).no_duplicates(),
        forall|i: int|
            0 <= i < candidates(content_type).len() ==> (#[trigger] candidates(
                content_type,
            )[i]).len() > 0,
{
    let own = text::ascii_lower(text::trimmed(content_type));
    let first = with_new(Seq::empty(), own);
    lemma_new(Seq::empty(), own);
    let o1 = with_new(first, "audio/ogg; codecs=opus"@);
    let o2 = with_new(o1, "audio/ogg"@);
    let o3 = with_new(o2, "application/ogg"@);
    lemma_new(first, "audio/ogg; codecs=opus"@);
    lemma_new(o1, "audio/ogg"@);
    lemma_new(o2, "application/ogg"@);
    lemma_new(o3, "audio/opus"@);
    let v1 = with_new(first, "audio/ogg; codecs=vorbis"@);
    let v2 = with_new(v1, "audio/ogg"@);
    lemma_new(first, "audio/ogg; codecs=vorbis"@);
    lemma_new(v1, "audio/ogg"@);
    lemma_new(v2, "application/ogg"@);
    let o4 = with_new(o3, "audio/opus"@);
    let v3 = with_new(v2, "application/ogg"@);
    lemma_new(o4, "audio/mpeg"@);
    lemma_new(v3, "audio/mpeg"@);
    lemma_new(first, "audio/mpeg"@);
    reveal_strlit("audio/mpeg");
}

/// Opus is also offered under every name for Ogg.
pub proof fn opus_is_offered_as_ogg(content_type: Seq<char>)
    requires
        text::has_text(text::ascii_lower(text::trimmed(content_type)), "opus"@),
    ensures
        candidates(content_type).contains("audio/ogg; codecs=opus"@),
        candidates(content_type).contains("audio/ogg"@),
        candidates(content_type).contains("application/ogg"@),
        candidates(content_type).contains("audio/opus"@),
{
    let own = text::ascii_lower(text::trimmed(content_type));
    let first = with_new(Seq::empty(), own);
    let o1 = with_new(first, "audio/ogg; codecs=opus"@);
    let o2 = with_new(o1, "audio/ogg"@);
    let o3 = with_new(o2, "application/ogg"@);
    let o4 = with_new(o3, "audio/opus"@);
    lemma_keeps(first, "audio/ogg; codecs=opus"@);
    lemma_keeps(o1, "audio/ogg"@);
    lemma_keeps(o2, "application/ogg"@);
    lemma_keeps(o3, "audio/opus"@);
    lemma_keeps(o4, "audio/mpeg"@);
    reveal_strlit("audio/ogg; codecs=opus");
    reveal_strlit("audio/ogg");
    reveal_strlit("application/ogg");
    reveal_strlit("audio/opus");
}

proof fn lemma_keeps(list: Seq<Seq<char>>, value: Seq<char>)
    ensures
        forall|x: Seq<char>| list.contains(x) ==> #[trigger] with_new(list, value).contains(x),
        value.len() > 0 ==> with_new(list, value).contains(value),
{
    let out = with_new(list, value);
    assert forall|x: Seq<char>| list.contains(x) implies #[trigger] out.contains(x) by {
        let i = list.index_of(x);
        assert(out[i] == x);
    }
    if value.len() > 0 && !list.contains(value) {
        assert(out[list.len() as int] == value);
    }
}

/// Every text of a list has characters, and no text stands twice.
spec fn is_tidy(list: Seq<Seq<char>>) -> bool {
    &&& list.no_duplicates()
    &&& forall|i: int| 0 <= i < list.len() ==> (#[trigger] list[i]).len() > 0
}

proof fn lemma_new(list: Seq<Seq<char>>, value: Seq<char>)
    ensures
        is_tidy(list) ==> is_tidy(with_new(list, value)),
        value.len() > 0 ==> with_new(list, value).contains(value),
{
    lemma_keeps(list, value);
    let out = with_new(list, value);
    if is_tidy(list) && value.len() > 0 && !list.contains(value) {
        assert forall|i: int, j: int| 0 <= i < out.len() && 0 <= j < out.len() && i != j implies out[i]
            != out[j] by {
            if i == list.len() {
                assert(out[j] == list[j]);
            } else if j == list.len() {
                assert(out[i] == list[i]);
            }
        }
        assert forall|i: int| 0 <= i < out.len() implies (#[trigger] out[i]).len() > 0 by {
            if i < list.len() {
                assert(out[i] == list[i]);
            }
        }
    }
}

/// A receiver that stays idle is given up: once it has said so often enough, one more
/// such answer ends the wait.
pub proof fn waiting_for_an_idle_receiver_ends(
    v: JsonView,
    req: u32,
    url: Seq<char>,
    hits: u32,
)
    requires
        text_or_empty(v, "type"@) == "MEDIA_STATUS"@,
        counts_as_idle(v, url),
        hits >= MAX_IDLE_HITS - 1,
    ensures
        load_reply(v, req, url, hits).1 is Err,
{
}

} // verus!
