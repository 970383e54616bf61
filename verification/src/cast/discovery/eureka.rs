//! What a receiver says of itself over HTTP.

use super::lan::Ipv4;
use super::{DeviceView, DiscoveredDevice, CAST_PORT};
use crate::cast::discovery::lan;
use crate::json;
use crate::json::{Json, JsonView};
use crate::text;
use vstd::prelude::*;

verus! {

/// The port on which receivers describe themselves.
pub const EUREKA_PORT: u16 = 8008;

/// How long a description is waited for, in milliseconds.
pub const EUREKA_TIMEOUT_MS: u64 = 400;

/// What a receiver says of itself.
#[derive(Debug)]
pub struct EurekaInfo {
    pub name: String,
    pub model: String,
    pub id: String,
}

/// The contents of an [`EurekaInfo`].
#[verifier::ext_equal]
pub struct InfoView {
    pub name: Seq<char>,
    pub model: Seq<char>,
    pub id: Seq<char>,
}

impl View for EurekaInfo {
    type V = InfoView;

    open spec fn view(&self) -> InfoView {
        InfoView { name: self.name@, model: self.model@, id: self.id@ }
    }
}

/// The request that asks a receiver to describe itself.
pub open spec fn request_of(ip: Ipv4) -> Seq<char> {
    "GET /setup/eureka_info?params=name,device_info,build_info HTTP/1.1\r\nHost: "@
        + lan::address_text(ip)
        + "\r\nConnection: close\r\nAccept: */*\r\nUser-Agent: RockCast/0.1\r\n\r\n"@
}

/// The request that asks a receiver to describe itself.
pub fn eureka_request(ip: Ipv4) -> (s: String)
    ensures
        s@ == request_of(ip),
        s@ == "GET /setup/eureka_info?params=name,device_info,build_info HTTP/1.1\r\nHost: "@
            + lan::address_text(ip)
            + "\r\nConnection: close\r\nAccept: */*\r\nUser-Agent: RockCast/0.1\r\n\r\n"@,
{
    let head = text::joined_two(
        "GET /setup/eureka_info?params=name,device_info,build_info HTTP/1.1\r\nHost: ",
        ip.text().as_str(),
    );
    text::joined_two(
        head.as_str(),
        "\r\nConnection: close\r\nAccept: */*\r\nUser-Agent: RockCast/0.1\r\n\r\n",
    )
}

/// What separates the parts of a reply.
pub open spec fn blank_line() -> Seq<char> {
    "\r\n\r\n"@
}

/// The second part of a reply: what stands behind its first blank line, up to the
/// next one.
pub open spec fn is_body(reply: Seq<char>, body: Seq<char>) -> bool {
    exists|i: int|
        text::first_at(reply, blank_line(), i) && is_up_to_blank(
            #[trigger] reply.skip(i + blank_line().len()),
            body,
        )
}

/// `part` is what stands in `rest` up to the first blank line.
pub open spec fn is_up_to_blank(rest: Seq<char>, part: Seq<char>) -> bool {
    if text::has_text(rest, blank_line()) {
        text::first_at(rest, blank_line(), part.len() as int) && part == rest.take(
            part.len() as int,
        )
    } else {
        part == rest
    }
}

/// The second part of a reply, unless it has only one.
pub open spec fn reply_body(reply: Seq<char>) -> Option<Seq<char>> {
    if text::has_text(reply, blank_line()) {
        Some(choose|body: Seq<char>| is_body(reply, body))
    } else {
        None
    }
}

/// The second part of a reply, unless it has only one.
pub fn body_of(reply: &str) -> (r: Option<String>)
    ensures
        match r {
            Some(body) => is_body(reply@, body@) && reply_body(reply@) == Some(body@),
            None => reply_body(reply@) is None,
        },
{
    let all: Vec<char> = text::chars_of(reply);
    let line: Vec<char> = text::chars_of("\r\n\r\n");
    match text::find_chars(&all, &line) {
        Some(i) => {
            let total: usize = all.len();
            let from: usize = i + line.len();
            let rest_text = text::text_of(all.as_slice(), from, total);
            let rest: Vec<char> = text::chars_of(rest_text.as_str());
            proof {
                assert(rest@ =~= reply@.skip(i + blank_line().len()));
            }
            match text::find_chars(&rest, &line) {
                Some(n) => {
                    let body = text::text_of(rest.as_slice(), 0, n);
                    proof {
                        assert(body@ =~= rest@.take(n as int));
                        assert(is_up_to_blank(reply@.skip(i + blank_line().len()), body@));
                        assert(is_body(reply@, body@));
                        a_reply_has_one_body(reply@, body@, reply_body(reply@)->0);
                    }
                    Some(body)
                },
                None => {
                    proof {
                        assert(is_up_to_blank(reply@.skip(i + blank_line().len()), rest@));
                        assert(is_body(reply@, rest@));
                        a_reply_has_one_body(reply@, rest@, reply_body(reply@)->0);
                    }
                    Some(rest_text)
                },
            }
        },
        None => None,
    }
}

/// What a receiver that says nothing is called.
pub open spec fn plain_name(ip: Ipv4) -> Seq<char> {
    "Cast "@ + lan::address_text(ip)
}

/// A text, or nothing where there is none.
pub open spec fn or_nothing(o: Option<Seq<char>>) -> Seq<char> {
    match o {
        Some(s) => s,
        None => Seq::empty(),
    }
}

/// The member of a member.
pub open spec fn inner_text(v: JsonView, outer: Seq<char>, name: Seq<char>) -> Option<Seq<char>> {
    match v.member(outer) {
        Some(m) => m.text_of(name),
        None => None,
    }
}

/// What a description says of a receiver.
pub open spec fn described(v: JsonView, ip: Ipv4) -> InfoView {
    let name = text::trimmed(or_nothing(v.text_of("name"@)));
    let maker = inner_text(v, "device_info"@, "manufacturer"@);
    let model = inner_text(v, "device_info"@, "model_name"@);
    let udn = v.text_of("ssdp_udn"@);
    let mac = v.text_of("mac_address"@);
    let id = or_nothing(
        if udn is Some {
            udn
        } else {
            mac
        },
    );
    InfoView {
        name: if name.len() == 0 {
            plain_name(ip)
        } else {
            name
        },
        model: or_nothing(
            if maker is Some {
                maker
            } else {
                model
            },
        ),
        id: if id.len() == 0 {
            lan::address_text(ip)
        } else {
            id
        },
    }
}

fn given(o: Option<&str>) -> (s: String)
    ensures
        match o {
            Some(t) => s@ == t@,
            None => s@.len() == 0,
        },
{
    match o {
        Some(t) => t.to_string(),
        None => String::new(),
    }
}

fn inner<'a>(v: &'a Json, outer: &str, name: &str) -> (r: Option<&'a str>)
    ensures
        match r {
            Some(s) => inner_text(v@, outer@, name@) == Some(s@),
            None => inner_text(v@, outer@, name@) is None,
        },
{
    match v.get(outer) {
        Some(m) => m.text_of(name),
        None => None,
    }
}

/// What a description says of a receiver: its name, or its address where it gives
/// none; its maker or else its model; its identity, or its address where it gives
/// none.
pub fn describe(v: &Json, ip: Ipv4) -> (info: EurekaInfo)
    ensures
        info@ == described(v@, ip),
        v@.text_of("name"@) matches Some(n) ==> text::trimmed(n).len() > 0 ==> info.name@
            == text::trimmed(n),
        v@.text_of("name"@) is None ==> info.name@ == "Cast "@ + lan::address_text(ip),
        v@.text_of("name"@) matches Some(n) ==> text::trimmed(n).len() == 0 ==> info.name@
            == "Cast "@ + lan::address_text(ip),
        v@.member("device_info"@) matches Some(m) ==> {
            &&& m.text_of("manufacturer"@) matches Some(s) ==> info.model@ == s
            &&& m.text_of("manufacturer"@) is None ==> (m.text_of("model_name"@) matches Some(s)
                ==> info.model@ == s)
            &&& m.text_of("manufacturer"@) is None && m.text_of("model_name"@) is None
                ==> info.model@.len() == 0
        },
        v@.member("device_info"@) is None ==> info.model@.len() == 0,
        v@.text_of("ssdp_udn"@) matches Some(s) ==> s.len() > 0 ==> info.id@ == s,
        v@.text_of("ssdp_udn"@) is None ==> (v@.text_of("mac_address"@) matches Some(s) ==> s.len()
            > 0 ==> info.id@ == s),
        v@.text_of("ssdp_udn"@) is None && v@.text_of("mac_address"@) is None ==> info.id@
            == lan::address_text(ip),
{
    let name = text::trim(given(v.text_of("name")).as_str());
    let maker = inner(v, "device_info", "manufacturer");
    let model = if maker.is_some() {
        given(maker)
    } else {
        given(inner(v, "device_info", "model_name"))
    };
    let udn = v.text_of("ssdp_udn");
    let id = if udn.is_some() {
        given(udn)
    } else {
        given(v.text_of("mac_address"))
    };
    proof {
        let all = described(v@, ip);
        assert(or_nothing(v@.text_of("name"@)) =~= match v@.text_of("name"@) {
            Some(t) => t,
            None => Seq::empty(),
        });
        assert(model@ =~= all.model);
    }
    let id = if text::is_empty(id.as_str()) {
        ip.text()
    } else {
        id
    };
    let name = if text::is_empty(name.as_str()) {
        text::joined_two("Cast ", ip.text().as_str())
    } else {
        name
    };
    EurekaInfo { name, model, id }
}

/// What a reply's body says of a receiver; nothing where it is no JSON.
pub open spec fn body_info(body: Seq<char>, ip: Ipv4) -> Option<InfoView> {
    match json::json_in(text::trimmed(body)) {
        Ok(v) => Some(described(v, ip)),
        Err(_) => None,
    }
}

/// What a receiver's reply, as it came over the network, says of it. Nothing where
/// the reply has no body, or one that is no JSON.
pub fn fetch_eureka(reply: &Vec<u8>, ip: Ipv4) -> (r: Option<EurekaInfo>)
    ensures
        match (r, reply_body(text::lossy_utf8(reply@))) {
            (Some(i), Some(body)) => body_info(body, ip) == Some(i@),
            (None, Some(body)) => body_info(body, ip) is None,
            (r, None) => r is None,
        },
        reply_body(text::lossy_utf8(reply@)) matches Some(body) ==> (r is Some <==> json::json_in(
            text::trimmed(body),
        ) is Ok),
{
    let words = text::lossy_text(reply.as_slice());
    match body_of(words.as_str()) {
        Some(body) => {
            match json::parse_json(text::trim(body.as_str()).as_str()) {
                Ok(v) => Some(describe(&v, ip)),
                Err(_) => None,
            }
        },
        None => None,
    }
}

/// A receiver that answered at an address, with what it said of itself.
pub open spec fn answered(info: Option<InfoView>, ip: Ipv4) -> DeviceView {
    let said = match info {
        Some(i) => i,
        None => InfoView {
            name: plain_name(ip),
            model: Seq::empty(),
            id: lan::address_text(ip),
        },
    };
    DeviceView {
        name: said.name,
        model: if said.model.len() == 0 {
            "Cast"@
        } else {
            said.model
        },
        host: lan::address_text(ip),
        port: CAST_PORT,
        id: said.id,
    }
}

/// A receiver that answered at an address, with what it said of itself.
pub fn eureka_fallback(info: Option<EurekaInfo>, ip: Ipv4) -> (d: DiscoveredDevice)
    ensures
        d@ == answered(
            match info {
                Some(i) => Some(i@),
                None => None,
            },
            ip,
        ),
        d.host@ == lan::address_text(ip),
        d.port == 8009,
        info matches Some(i) ==> d.name@ == i.name@ && d.id@ == i.id@ && (i.model@.len() > 0
            ==> d.model@ == i.model@) && (i.model@.len() == 0 ==> d.model@ == "Cast"@),
        info is None ==> d.name@ == "Cast "@ + lan::address_text(ip) && d.model@ == "Cast"@ && d.id@
            == lan::address_text(ip),
{
    let said = match info {
        Some(i) => i,
        None => {
            let model = String::new();
            proof {
                assert(model@ =~= Seq::empty());
            }
            EurekaInfo {
                name: text::joined_two("Cast ", ip.text().as_str()),
                model,
                id: ip.text(),
            }
        },
    };
    let model = if text::is_empty(said.model.as_str()) {
        "Cast".to_string()
    } else {
        said.model
    };
    DiscoveredDevice { name: said.name, model, host: ip.text(), port: CAST_PORT, id: said.id }
}

/// A reply has one body.
pub proof fn a_reply_has_one_body(reply: Seq<char>, a: Seq<char>, b: Seq<char>)
    requires
        is_body(reply, a),
        is_body(reply, b),
    ensures
        a == b,
{
    let n = blank_line().len();
    let i = choose|i: int|
        text::first_at(reply, blank_line(), i) && is_up_to_blank(#[trigger] reply.skip(i + n), a);
    let j = choose|j: int|
        text::first_at(reply, blank_line(), j) && is_up_to_blank(#[trigger] reply.skip(j + n), b);
    assert(i == j);
    let rest = reply.skip(i + n);
    if text::has_text(rest, blank_line()) {
        assert(a.len() == b.len());
    }
}

/// A receiver that answers is listed with a name, a model, an identity, and the
/// address at which it answered.
pub proof fn what_answers_can_be_listed(info: Option<InfoView>, ip: Ipv4)
    requires
        info matches Some(i) ==> i.name.len() > 0 && i.id.len() > 0,
    ensures
        answered(info, ip).name.len() > 0,
        answered(info, ip).model.len() > 0,
        answered(info, ip).id.len() > 0,
        answered(info, ip).host == lan::address_text(ip),
{
    reveal_strlit("Cast");
    reveal_strlit("Cast ");
    reveal_strlit(".");
}

/// A description gives every receiver a name and an identity.
pub proof fn descriptions_name_receivers(v: JsonView, ip: Ipv4)
    ensures
        described(v, ip).name.len() > 0,
        described(v, ip).id.len() > 0,
{
    reveal_strlit("Cast ");
    reveal_strlit(".");
}

/// What stands behind the first blank line of a reply is its body, where no other blank
/// line follows.
pub proof fn the_body_stands_behind_the_blank_line(head: Seq<char>, body: Seq<char>)
    requires
        text::first_at(head + "\r\n\r\n"@ + body, "\r\n\r\n"@, head.len() as int),
        !text::has_text(body, "\r\n\r\n"@),
    ensures
        reply_body(head + "\r\n\r\n"@ + body) == Some(body),
{
    let reply = head + "\r\n\r\n"@ + body;
    let i = head.len() as int;
    assert(reply.skip(i + blank_line().len()) =~= body);
    assert(is_up_to_blank(reply.skip(i + blank_line().len()), body));
    assert(is_body(reply, body));
    assert(text::occurs_at(reply, blank_line(), i));
    a_reply_has_one_body(reply, body, reply_body(reply)->0);
}

/// A reply without a blank line has no body.
pub proof fn a_reply_without_a_blank_line_has_no_body(reply: Seq<char>)
    requires
        !text::has_text(reply, "\r\n\r\n"@),
    ensures
        reply_body(reply) is None,
{
}

} // verus!
