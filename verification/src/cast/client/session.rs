//! Which application of a receiver plays media.

use crate::cast::channel::{DEFAULT_MEDIA_RECEIVER, NS_MEDIA};
use crate::json;
use crate::json::{Json, JsonView};
use crate::text;
use vstd::prelude::*;

verus! {

/// An application that runs on a receiver.
#[derive(Debug, Clone)]
pub struct AppSession {
    pub transport_id: String,
    pub session_id: String,
}

/// The contents of an [`AppSession`].
#[verifier::ext_equal]
pub struct AppView {
    pub transport_id: Seq<char>,
    pub session_id: Seq<char>,
}

impl View for AppSession {
    type V = AppView;

    open spec fn view(&self) -> AppView {
        AppView { transport_id: self.transport_id@, session_id: self.session_id@ }
    }
}

/// What an optional application holds.
pub open spec fn maybe_app(a: Option<AppSession>) -> Option<AppView> {
    match a {
        Some(s) => Some(s@),
        None => None,
    }
}

/// How the application of a status is reached; none where it does not say.
pub open spec fn session_of(app: JsonView) -> Option<AppView> {
    match (app.text_of("transportId"@), app.text_of("sessionId"@)) {
        (Some(transport_id), Some(session_id)) => Some(AppView { transport_id, session_id }),
        _ => None,
    }
}

/// Whether a namespace of an application is that of media.
pub open spec fn is_media(namespace: JsonView) -> bool {
    namespace.text_of("name"@) == Some(NS_MEDIA@) || namespace.text() == Some(NS_MEDIA@)
}

/// Whether an application understands media commands.
pub open spec fn plays_media(app: JsonView) -> bool {
    match app.list_of("namespaces"@) {
        Some(list) => exists|i: int| 0 <= i < list.len() && is_media(#[trigger] list[i]),
        None => false,
    }
}

/// Looks for the media player by its name. Gives up (`Some(None)`) at an application
/// without one.
pub open spec fn by_id(apps: Seq<JsonView>, i: int) -> Option<Option<AppView>>
    decreases apps.len() - i,
{
    if i < 0 || i >= apps.len() {
        None
    } else {
        match apps[i].text_of("appId"@) {
            None => Some(None),
            Some(id) => if id == DEFAULT_MEDIA_RECEIVER@ {
                Some(session_of(apps[i]))
            } else {
                by_id(apps, i + 1)
            },
        }
    }
}

/// Looks for an application that understands media commands.
pub open spec fn by_namespace(apps: Seq<JsonView>, i: int) -> Option<AppView>
    decreases apps.len() - i,
{
    if i < 0 || i >= apps.len() {
        None
    } else if plays_media(apps[i]) {
        session_of(apps[i])
    } else {
        by_namespace(apps, i + 1)
    }
}

/// The application of a receiver that plays media: the media player, else the first
/// that understands media commands.
pub open spec fn dmr_in(v: JsonView) -> Option<AppView> {
    match v.member("status"@) {
        None => None,
        Some(status) => match status.list_of("applications"@) {
            None => None,
            Some(apps) => match by_id(apps, 0) {
                Some(found) => found,
                None => by_namespace(apps, 0),
            },
        },
    }
}

fn read_session(app: &Json) -> (r: Option<AppSession>)
    ensures
        maybe_app(r) == session_of(app@),
{
    match (app.text_of("transportId"), app.text_of("sessionId")) {
        (Some(t), Some(s)) => Some(
            AppSession { transport_id: t.to_string(), session_id: s.to_string() },
        ),
        _ => None,
    }
}

fn understands_media(app: &Json) -> (r: bool)
    ensures
        r == plays_media(app@),
{
    let list = match app.list_of("namespaces") {
        Some(list) => list,
        None => return false,
    };
    let ghost all = json::items(list@);
    let mut i: usize = 0;
    while i < list.len()
        invariant
            i <= list@.len(),
            all == json::items(list@),
            app@.list_of("namespaces"@) is Some,
            app@.list_of("namespaces"@)->0 == all,
            forall|k: int| 0 <= k < i ==> !is_media(#[trigger] all[k]),
        decreases list@.len() - i,
    {
        let n = &list[i];
        let named = match n.text_of("name") {
            Some(s) => text::same(s, NS_MEDIA),
            None => false,
        };
        let plain = match n.as_str() {
            Some(s) => text::same(s, NS_MEDIA),
            None => false,
        };
        proof {
            assert(all[i as int] == n@);
        }
        if named || plain {
            proof {
                assert(is_media(all[i as int]));
                assert(0 <= i < all.len());
                assert(plays_media(app@));
            }
            return true;
        }
        i = i + 1;
    }
    false
}

/// The application of a receiver that plays media, in what it says of its state.
pub fn parse_dmr(v: &Json) -> (r: Option<AppSession>)
    ensures
        maybe_app(r) == dmr_in(v@),
{
    let status = match v.get("status") {
        Some(s) => s,
        None => return None,
    };
    let apps = match status.list_of("applications") {
        Some(a) => a,
        None => return None,
    };
    let ghost all = json::items(apps@);
    let mut i: usize = 0;
    while i < apps.len()
        invariant
            i <= apps@.len(),
            all == json::items(apps@),
            v@.member("status"@) == Some(status@),
            status@.list_of("applications"@) == Some(all),
            by_id(all, 0) == by_id(all, i as int),
        decreases apps@.len() - i,
    {
        proof {
            assert(all[i as int] == apps@[i as int]@);
        }
        match apps[i].text_of("appId") {
            None => return None,
            Some(id) => {
                if text::same(id, DEFAULT_MEDIA_RECEIVER) {
                    return read_session(&apps[i]);
                }
            },
        }
        i = i + 1;
    }
    let mut k: usize = 0;
    while k < apps.len()
        invariant
            k <= apps@.len(),
            all == json::items(apps@),
            v@.member("status"@) == Some(status@),
            status@.list_of("applications"@) == Some(all),
            by_id(all, 0) is None,
            by_namespace(all, 0) == by_namespace(all, k as int),
        decreases apps@.len() - k,
    {
        proof {
            assert(all[k as int] == apps@[k as int]@);
        }
        if understands_media(&apps[k]) {
            return read_session(&apps[k]);
        }
        k = k + 1;
    }
    None
}

/// The media player is found wherever it stands among applications that all have a
/// name.
pub proof fn the_media_player_is_found(apps: Seq<JsonView>, i: int, k: int)
    requires
        0 <= k <= i < apps.len(),
        apps[i].text_of("appId"@) == Some(DEFAULT_MEDIA_RECEIVER@),
        forall|j: int|
            k <= j < i ==> ((#[trigger] apps[j]).text_of("appId"@) matches Some(id) && id
                != DEFAULT_MEDIA_RECEIVER@),
    ensures
        by_id(apps, k) == Some(session_of(apps[i])),
    decreases i - k,
{
    if k < i {
        assert(apps[k].text_of("appId"@) is Some);
        the_media_player_is_found(apps, i, k + 1);
    }
}

} // verus!
