//! The HTTP headers of radio streams.

use crate::text;
use reqwest::header::{HeaderMap, HeaderValue};
use vstd::prelude::*;

verus! {

/// The headers of a request or an answer.
#[verifier::external_type_specification]
#[verifier::external_body]
#[verifier::reject_recursive_types(T)]
pub struct ExHeaderMap<T>(reqwest::header::HeaderMap<T>);

/// The value of a header.
#[verifier::external_type_specification]
#[verifier::external_body]
pub struct ExHeaderValue(reqwest::header::HeaderValue);

/// What headers hold: under each name, in lower case, the bytes of its first value.
pub uninterp spec fn headers_in(h: HeaderMap<HeaderValue>) -> Map<Seq<char>, Seq<u8>>;

/// A name that a header can have: up to 64 letters, digits and `-`.
pub open spec fn is_header_name(name: Seq<char>) -> bool {
    &&& 0 < name.len() <= 64
    &&& forall|i: int|
        0 <= i < name.len() ==> {
            let c = #[trigger] name[i];
            'a' <= c <= 'z' || 'A' <= c <= 'Z' || '0' <= c <= '9' || c == '-'
        }
}

/// A text that the value of a header can be: printable ASCII.
pub open spec fn is_header_text(value: Seq<char>) -> bool {
    forall|i: int| 0 <= i < value.len() ==> ' ' <= #[trigger] value[i] <= '~'
}

/// The bytes of an ASCII text.
pub open spec fn ascii_bytes(s: Seq<char>) -> Seq<u8> {
    s.map_values(|c: char| c as u8)
}

/// [`reqwest::header::HeaderMap::new`]: no headers.
#[verifier::external_body]
fn no_headers() -> (h: HeaderMap<HeaderValue>)
    ensures
        headers_in(h).dom() == Set::<Seq<char>>::empty(),
{
    HeaderMap::new()
}

/// [`reqwest::header::HeaderMap::insert`] with a value made by
/// [`reqwest::header::HeaderValue::from_static`]: the header has that one value
/// then, and the others stay. Names are the same whatever their case. The limit is
/// far below the number of headers at which the call panics, and the name and the
/// value are of forms at which it does not.
#[verifier::external_body]
fn insert_header(h: &mut HeaderMap<HeaderValue>, name: &'static str, value: &'static str)
    requires
        is_header_name(name@),
        is_header_text(value@),
        headers_in(*old(h)).dom().finite(),
        headers_in(*old(h)).len() < 1000,
    ensures
        headers_in(*final(h)) == headers_in(*old(h)).insert(
            text::ascii_lower(name@),
            ascii_bytes(value@),
        ),
{
    h.insert(name, HeaderValue::from_static(value));
}

/// [`reqwest::header::HeaderMap::get`]: the bytes of the first value of a header.
#[verifier::external_body]
fn header_bytes(h: &HeaderMap<HeaderValue>, name: &str) -> (r: Option<Vec<u8>>)
    requires
        is_header_name(name@),
    ensures
        match r {
            Some(b) => headers_in(*h).contains_key(text::ascii_lower(name@)) && b@ == headers_in(
                *h,
            )[text::ascii_lower(name@)],
            None => !headers_in(*h).contains_key(text::ascii_lower(name@)),
        },
{
    h.get(name).map(|v| v.as_bytes().to_vec())
}

/// A byte that a header value may hold to be read as text: printable ASCII or a tab.
pub open spec fn is_visible(b: u8) -> bool {
    32 <= b < 127 || b == 9
}

/// The text of a header value, where all of it can be read.
pub open spec fn header_text(bytes: Seq<u8>) -> Option<Seq<char>> {
    if forall|i: int| 0 <= i < bytes.len() ==> is_visible(#[trigger] bytes[i]) {
        Some(bytes.map_values(|b: u8| b as char))
    } else {
        None
    }
}

/// The text of a header value, where all of it can be read.
pub fn visible_text(bytes: &Vec<u8>) -> (r: Option<String>)
    ensures
        text::maybe(r) == header_text(bytes@),
{
    let mut out = String::new();
    let mut i: usize = 0;
    while i < bytes.len()
        invariant
            i <= bytes@.len(),
            forall|k: int| 0 <= k < i ==> is_visible(#[trigger] bytes@[k]),
            out@ == bytes@.take(i as int).map_values(|b: u8| b as char),
        decreases bytes@.len() - i,
    {
        let b: u8 = bytes[i];
        if !((32 <= b && b < 127) || b == 9) {
            return None;
        }
        out.push(b as char);
        i = i + 1;
        proof {
            assert(out@ =~= bytes@.take(i as int).map_values(|b: u8| b as char));
        }
    }
    proof {
        assert(bytes@.take(i as int) =~= bytes@);
    }
    Some(out)
}

/// The interval that the value of a header gives: 0 where there is none, or it is no
/// number that fits.
pub open spec fn interval_of(value: Option<Seq<u8>>) -> nat {
    match value {
        Some(bytes) => match header_text(bytes) {
            Some(s) => match text::unsigned_value(s) {
                Some(n) => if n <= usize::MAX {
                    n
                } else {
                    0
                },
                None => 0,
            },
            None => 0,
        },
        None => 0,
    }
}

/// The interval that the value of a header gives.
pub fn interval_in(value: Option<Vec<u8>>) -> (n: usize)
    ensures
        n == interval_of(
            match value {
                Some(b) => Some(b@),
                None => None,
            },
        ),
{
    let bytes = match value {
        Some(b) => b,
        None => return 0,
    };
    let s = match visible_text(&bytes) {
        Some(s) => s,
        None => return 0,
    };
    match text::parse_usize(s.as_str()) {
        Some(n) => n,
        None => 0,
    }
}

/// The header that gives the distance between two ICY metadata blocks: under its
/// usual name, else under that of Icecast.
pub open spec fn interval_header(h: Map<Seq<char>, Seq<u8>>) -> Option<Seq<u8>> {
    if h.contains_key("icy-metaint"@) {
        Some(h["icy-metaint"@])
    } else if h.contains_key("ice-metaint"@) {
        Some(h["ice-metaint"@])
    } else {
        None
    }
}

/// How many bytes of audio stand between two ICY metadata blocks, 0 where there are
/// none.
pub fn metadata_interval(headers: &HeaderMap<HeaderValue>) -> (n: usize)
    ensures
        n == interval_of(interval_header(headers_in(*headers))),
        headers_in(*headers).contains_key("icy-metaint"@) ==> n == interval_of(
            Some(headers_in(*headers)["icy-metaint"@]),
        ),
        !headers_in(*headers).contains_key("icy-metaint"@) && headers_in(*headers).contains_key(
            "ice-metaint"@,
        ) ==> n == interval_of(Some(headers_in(*headers)["ice-metaint"@])),
        !headers_in(*headers).contains_key("icy-metaint"@) && !headers_in(*headers).contains_key(
            "ice-metaint"@,
        ) ==> n == 0,
{
    proof {
        reveal_strlit("icy-metaint");
        reveal_strlit("ice-metaint");
        assert(text::ascii_lower("icy-metaint"@) =~= "icy-metaint"@);
        assert(text::ascii_lower("ice-metaint"@) =~= "ice-metaint"@);
    }
    let value = match header_bytes(headers, "icy-metaint") {
        Some(b) => Some(b),
        None => header_bytes(headers, "ice-metaint"),
    };
    interval_in(value)
}

/// The headers of a request for a radio stream.
pub open spec fn request_headers(connection_close: bool) -> Map<Seq<char>, Seq<u8>> {
    let base = Map::<Seq<char>, Seq<u8>>::empty().insert(
        "icy-metadata"@,
        ascii_bytes("1"@),
    ).insert("accept"@, ascii_bytes("*/*"@));
    if connection_close {
        base.insert("connection"@, ascii_bytes("close"@))
    } else {
        base
    }
}

/// The headers of a request for a radio stream: metadata is asked for, and any kind
/// of audio accepted.
pub fn stream_headers(connection_close: bool) -> (h: HeaderMap<HeaderValue>)
    ensures
        headers_in(h) == request_headers(connection_close),
        headers_in(h).contains_key("icy-metadata"@) && headers_in(h)["icy-metadata"@] == seq![49u8],
        headers_in(h).contains_key("accept"@) && headers_in(h)["accept"@] == seq![42u8, 47u8, 42u8],
        headers_in(h).contains_key("connection"@) <==> connection_close,
        connection_close ==> headers_in(h)["connection"@] == ascii_bytes("close"@),
        forall|k: Seq<char>| #[trigger]
            headers_in(h).contains_key(k) ==> k == "icy-metadata"@ || k == "accept"@ || k
                == "connection"@,
{
    proof {
        reveal_strlit("Icy-MetaData");
        reveal_strlit("icy-metadata");
        reveal_strlit("Accept");
        reveal_strlit("accept");
        reveal_strlit("Connection");
        reveal_strlit("connection");
        reveal_strlit("1");
        reveal_strlit("*/*");
        reveal_strlit("close");
        assert(text::ascii_lower("Icy-MetaData"@) =~= "icy-metadata"@);
        assert(text::ascii_lower("Accept"@) =~= "accept"@);
        assert(text::ascii_lower("Connection"@) =~= "connection"@);
    }
    let mut headers = no_headers();
    insert_header(&mut headers, "Icy-MetaData", "1");
    insert_header(&mut headers, "Accept", "*/*");
    if connection_close {
        insert_header(&mut headers, "Connection", "close");
    }
    proof {
        assert("icy-metadata"@.len() != "accept"@.len());
        assert("icy-metadata"@.len() != "connection"@.len());
        assert("accept"@.len() != "connection"@.len());
        assert(ascii_bytes("1"@) =~= seq![49u8]);
        assert(ascii_bytes("*/*"@) =~= seq![42u8, 47u8, 42u8]);
    }
    headers
}

proof fn lemma_read_as_written(s: Seq<char>)
    requires
        is_header_text(s),
    ensures
        header_text(ascii_bytes(s)) == Some(s),
{
    let bytes = ascii_bytes(s);
    assert forall|i: int| 0 <= i < bytes.len() implies is_visible(#[trigger] bytes[i]) by {
        assert(' ' <= s[i] <= '~');
        assert(bytes[i] == s[i] as u8);
    }
    assert(bytes.map_values(|b: u8| b as char) =~= s) by {
        assert forall|i: int| 0 <= i < s.len() implies bytes.map_values(|b: u8| b as char)[i]
            == #[trigger] s[i] by {
            assert(' ' <= s[i] <= '~');
        }
    }
}

/// A header that holds a number in decimal digits gives that number, where it fits.
pub proof fn an_interval_is_read_as_it_was_written(n: nat)
    requires
        n <= usize::MAX,
    ensures
        interval_of(Some(ascii_bytes(text::decimal(n)))) == n,
{
    text::a_number_is_read_as_it_was_written(n);
    let s = text::decimal(n);
    assert forall|i: int| 0 <= i < s.len() implies ' ' <= #[trigger] s[i] <= '~' by {
        assert('0' <= s[i] <= '9');
    }
    lemma_read_as_written(s);
}

/// Headers that name an interval under its usual name give it, whatever stands under that
/// of Icecast, and under that of Icecast where the usual one lacks.
pub proof fn the_usual_name_of_the_interval_comes_first(
    h: Map<Seq<char>, Seq<u8>>,
    n: nat,
)
    requires
        n <= usize::MAX,
    ensures
        h.contains_key("icy-metaint"@) && h["icy-metaint"@] == ascii_bytes(text::decimal(n))
            ==> interval_of(interval_header(h)) == n,
        !h.contains_key("icy-metaint"@) && h.contains_key("ice-metaint"@) && h["ice-metaint"@]
            == ascii_bytes(text::decimal(n)) ==> interval_of(interval_header(h)) == n,
        !h.contains_key("icy-metaint"@) && !h.contains_key("ice-metaint"@) ==> interval_of(
            interval_header(h),
        ) == 0,
{
    an_interval_is_read_as_it_was_written(n);
}

/// A header with a byte that cannot be read gives no interval, and neither does one that
/// is no number.
pub proof fn what_is_no_number_is_no_interval(bytes: Seq<u8>, i: int)
    requires
        0 <= i < bytes.len(),
        !(32 <= bytes[i] < 127 || bytes[i] == 9),
    ensures
        interval_of(Some(bytes)) == 0,
        header_text(bytes) is None,
{
    assert(!is_visible(bytes[i]));
}

/// A number that is too large for the machine is no interval.
pub proof fn what_does_not_fit_is_no_interval(n: nat)
    requires
        n > usize::MAX,
    ensures
        interval_of(Some(ascii_bytes(text::decimal(n)))) == 0,
        interval_of(None) == 0,
{
    text::a_number_is_read_as_it_was_written(n);
    let s = text::decimal(n);
    assert forall|i: int| 0 <= i < s.len() implies ' ' <= #[trigger] s[i] <= '~' by {
        assert('0' <= s[i] <= '9');
    }
    lemma_read_as_written(s);
}

} // verus!
