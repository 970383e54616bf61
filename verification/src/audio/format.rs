//! What a stream holds, and what its ICY metadata says.

use crate::text;
use vstd::prelude::*;

verus! {

/// What a stream holds.
#[derive(Debug, Clone, Copy, PartialEq, Eq, Structural)]
pub enum StreamFormat {
    Mp3,
    AacAdts,
    OpusOgg,
    Ogg,
    Flac,
    Wav,
}

/// Two bytes that begin an ADTS frame: twelve set bits, then the layer bits clear.
pub open spec fn is_adts_sync(b0: u8, b1: u8) -> bool {
    b0 == 0xFF && (b1 & 0xF6) == 0xF0
}

/// Two bytes that begin an MPEG audio frame: eleven set bits, and a version that
/// is not reserved.
pub open spec fn is_mp3_sync(b0: u8, b1: u8) -> bool {
    b0 == 0xFF && (b1 & 0xE0) == 0xE0 && (b1 & 0x18) != 0x08
}

/// Whether an ADTS frame can begin at `i`.
pub open spec fn adts_sync_at(bytes: Seq<u8>, i: int) -> bool {
    0 <= i && i + 1 < bytes.len() && is_adts_sync(bytes[i], bytes[i + 1])
}

/// Whether an MPEG audio frame can begin at `i`.
pub open spec fn mp3_sync_at(bytes: Seq<u8>, i: int) -> bool {
    0 <= i && i + 1 < bytes.len() && is_mp3_sync(bytes[i], bytes[i + 1])
}

/// Where the first ADTS frame can begin.
pub open spec fn first_adts_sync(bytes: Seq<u8>, r: Option<usize>) -> bool {
    match r {
        Some(i) => adts_sync_at(bytes, i as int) && forall|k: int|
            0 <= k < i ==> !adts_sync_at(bytes, k),
        None => forall|k: int| !adts_sync_at(bytes, k),
    }
}

/// Where the first MPEG audio frame can begin.
pub open spec fn first_mp3_sync(bytes: Seq<u8>, r: Option<usize>) -> bool {
    match r {
        Some(i) => mp3_sync_at(bytes, i as int) && forall|k: int|
            0 <= k < i ==> !mp3_sync_at(bytes, k),
        None => forall|k: int| !mp3_sync_at(bytes, k),
    }
}

/// Where the first ADTS frame can begin.
pub fn find_adts_sync(bytes: &[u8]) -> (r: Option<usize>)
    ensures
        first_adts_sync(bytes@, r),
{
    let n: usize = bytes.len();
    let mut i: usize = 0;
    while i < n && n - i >= 2
        invariant
            i <= n,
            n == bytes@.len(),
            forall|k: int| 0 <= k < i ==> !adts_sync_at(bytes@, k),
        decreases n - i,
    {
        if bytes[i] == 0xFF && (bytes[i + 1] & 0xF6) == 0xF0 {
            return Some(i);
        }
        i = i + 1;
    }
    None
}

/// Where the first MPEG audio frame can begin.
pub fn find_mp3_sync(bytes: &[u8]) -> (r: Option<usize>)
    ensures
        first_mp3_sync(bytes@, r),
{
    let n: usize = bytes.len();
    let mut i: usize = 0;
    while i < n && n - i >= 2
        invariant
            i <= n,
            n == bytes@.len(),
            forall|k: int| 0 <= k < i ==> !mp3_sync_at(bytes@, k),
        decreases n - i,
    {
        let b0: u8 = bytes[i];
        let b1: u8 = bytes[i + 1];
        if b0 == 0xFF && (b1 & 0xE0) == 0xE0 && (b1 & 0x18) != 0x08 {
            return Some(i);
        }
        i = i + 1;
    }
    None
}

/// What an address, a content type and the first bytes say of a stream: the first
/// two where they name a format other than MPEG, else the sync that comes first.
pub open spec fn format_of(url: Seq<char>, content_type: Seq<char>, peek: Seq<u8>) -> StreamFormat {
    let ct = text::ascii_lower(content_type);
    let u = text::ascii_lower(url);
    if text::has_text(ct, "opus"@) || text::finishes_with(u, ".opus"@) || text::has_text(
        u,
        ".opus?"@,
    ) {
        StreamFormat::OpusOgg
    } else if text::has_text(ct, "flac"@) {
        StreamFormat::Flac
    } else if text::has_text(ct, "wav"@) || text::has_text(ct, "wave"@) || text::has_text(
        ct,
        "pcm"@,
    ) {
        StreamFormat::Wav
    } else if text::has_text(ct, "ogg"@) || text::has_text(ct, "vorbis"@) {
        StreamFormat::Ogg
    } else if text::has_text(ct, "aac"@) || text::has_text(ct, "aacp"@) || text::has_text(
        ct,
        "x-aac"@,
    ) || text::has_text(ct, "he-aac"@) || text::has_text(u, "aacp"@) || text::has_text(u, ".aac"@)
        || text::has_text(u, "/aac"@) {
        StreamFormat::AacAdts
    } else if exists|a: int|
        #![trigger adts_sync_at(peek, a)]
        adts_sync_at(peek, a) && forall|m: int| 0 <= m < a ==> !mp3_sync_at(peek, m) {
        StreamFormat::AacAdts
    } else {
        StreamFormat::Mp3
    }
}

/// What a stream holds, from its address, its content type and its first bytes.
pub fn infer_stream_format(url: &str, content_type: &str, peek: &[u8]) -> (f: StreamFormat)
    ensures
        f == format_of(url@, content_type@, peek@),
        ({
            let ct = text::ascii_lower(content_type@);
            let u = text::ascii_lower(url@);
            let opus = text::has_text(ct, "opus"@) || text::finishes_with(u, ".opus"@)
                || text::has_text(u, ".opus?"@);
            let flac = text::has_text(ct, "flac"@);
            let wav = text::has_text(ct, "wav"@) || text::has_text(ct, "wave"@) || text::has_text(
                ct,
                "pcm"@,
            );
            let ogg = text::has_text(ct, "ogg"@) || text::has_text(ct, "vorbis"@);
            let aac = text::has_text(ct, "aac"@) || text::has_text(ct, "aacp"@) || text::has_text(
                ct,
                "x-aac"@,
            ) || text::has_text(ct, "he-aac"@) || text::has_text(u, "aacp"@) || text::has_text(
                u,
                ".aac"@,
            ) || text::has_text(u, "/aac"@);
            &&& f is OpusOgg <==> opus
            &&& f is Flac <==> flac && !opus
            &&& f is Wav <==> wav && !flac && !opus
            &&& f is Ogg <==> ogg && !wav && !flac && !opus
            &&& aac && !ogg && !wav && !flac && !opus ==> f is AacAdts
            &&& f is Mp3 ==> !aac
        }),
{
    let ct = text::ascii_lowercase(content_type);
    let ct = ct.as_str();
    let lower = text::ascii_lowercase(url);
    let u = lower.as_str();
    if text::contains(ct, "opus") || text::ends_with(u, ".opus") || text::contains(u, ".opus?") {
        return StreamFormat::OpusOgg;
    }
    if text::contains(ct, "flac") {
        return StreamFormat::Flac;
    }
    if text::contains(ct, "wav") || text::contains(ct, "wave") || text::contains(ct, "pcm") {
        return StreamFormat::Wav;
    }
    if text::contains(ct, "ogg") || text::contains(ct, "vorbis") {
        return StreamFormat::Ogg;
    }
    if text::contains(ct, "aac") || text::contains(ct, "aacp") || text::contains(ct, "x-aac")
        || text::contains(ct, "he-aac") || text::contains(u, "aacp") || text::contains(u, ".aac")
        || text::contains(u, "/aac") {
        return StreamFormat::AacAdts;
    }
    let adts = find_adts_sync(peek);
    let mp3 = find_mp3_sync(peek);
    match (adts, mp3) {
        (Some(a), Some(m)) => if a <= m {
            proof {
                assert(adts_sync_at(peek@, a as int));
            }
            StreamFormat::AacAdts
        } else {
            StreamFormat::Mp3
        },
        (Some(a), None) => {
            proof {
                assert(adts_sync_at(peek@, a as int));
            }
            StreamFormat::AacAdts
        },
        _ => StreamFormat::Mp3,
    }
}

/// Whether a stream holds MPEG audio.
pub fn is_mp3_stream(url: &str, content_type: &str, peek: &[u8]) -> (r: bool)
    ensures
        r == (format_of(url@, content_type@, peek@) == StreamFormat::Mp3),
{
    infer_stream_format(url, content_type, peek) == StreamFormat::Mp3
}

/// What a demuxer of the crate `symphonia` is told before it looks at a stream.
#[verifier::external_type_specification]
#[verifier::external_body]
pub struct ExHint(symphonia::core::probe::Hint);

/// What a hint holds: under `extension` the extension that a file with such contents
/// would have, under `mime type` the type, each where it was given.
pub uninterp spec fn hints_in(h: symphonia::core::probe::Hint) -> Map<Seq<char>, Seq<char>>;

/// [`symphonia::core::probe::Hint::with_extension`]: the hint gives this extension
/// then, and its type stays.
#[verifier::external_body]
fn name_extension(hint: &mut symphonia::core::probe::Hint, extension: &str)
    ensures
        hints_in(*final(hint)) == hints_in(*old(hint)).insert("extension"@, extension@),
{
    hint.with_extension(extension);
}

/// The extension of files that hold a format.
pub open spec fn extension_of(format: StreamFormat) -> Seq<char> {
    match format {
        StreamFormat::Mp3 => "mp3"@,
        StreamFormat::AacAdts => "adts"@,
        StreamFormat::OpusOgg => "ogg"@,
        StreamFormat::Ogg => "ogg"@,
        StreamFormat::Flac => "flac"@,
        StreamFormat::Wav => "wav"@,
    }
}

/// Makes a hint name a format.
pub fn apply_format_hint(hint: &mut symphonia::core::probe::Hint, format: StreamFormat)
    ensures
        hints_in(*final(hint)) == hints_in(*old(hint)).insert("extension"@, extension_of(format)),
        hints_in(*final(hint)).contains_key("extension"@),
        format is Mp3 ==> hints_in(*final(hint))["extension"@] == "mp3"@,
        format is AacAdts ==> hints_in(*final(hint))["extension"@] == "adts"@,
        format is OpusOgg || format is Ogg ==> hints_in(*final(hint))["extension"@] == "ogg"@,
        format is Flac ==> hints_in(*final(hint))["extension"@] == "flac"@,
        format is Wav ==> hints_in(*final(hint))["extension"@] == "wav"@,
{
    let extension = match format {
        StreamFormat::Mp3 => "mp3",
        StreamFormat::AacAdts => "adts",
        StreamFormat::OpusOgg => "ogg",
        StreamFormat::Ogg => "ogg",
        StreamFormat::Flac => "flac",
        StreamFormat::Wav => "wav",
    };
    name_extension(hint, extension);
}

/// Makes a hint name what a stream holds.
pub fn apply_hint(
    hint: &mut symphonia::core::probe::Hint,
    url: &str,
    content_type: &str,
    peek: &[u8],
)
    ensures
        hints_in(*final(hint)) == hints_in(*old(hint)).insert(
            "extension"@,
            extension_of(format_of(url@, content_type@, peek@)),
        ),
{
    let format = infer_stream_format(url, content_type, peek);
    apply_format_hint(hint, format);
}

/// Where the mark that begins a title stands first, whatever its case.
pub open spec fn title_mark_at(s: Seq<char>, i: int) -> bool {
    text::first_at(text::ascii_lower(s), "streamtitle='"@, i)
}

/// Whether `title` is what stands between the mark and the next quote.
pub open spec fn is_title_of(s: Seq<char>, title: Seq<char>) -> bool {
    exists|i: int, j: int|
        {
            &&& #[trigger] title_mark_at(s, i)
            &&& i + "streamtitle='"@.len() <= j < s.len()
            &&& #[trigger] s[j] == '\''
            &&& forall|k: int| i + "streamtitle='"@.len() <= k < j ==> s[k] != '\''
            &&& title == s.subrange((i + "streamtitle='"@.len()) as int, j)
        }
}

/// Whether there is a mark, and a quote behind it.
pub open spec fn has_title(s: Seq<char>) -> bool {
    exists|title: Seq<char>| #[trigger] is_title_of(s, title)
}

/// The title in the text of an ICY metadata block.
pub fn title_in(s: &str) -> (r: Option<String>)
    ensures
        match r {
            Some(t) => is_title_of(s@, t@),
            None => !has_title(s@),
        },
{
    let lower = text::ascii_lowercase(s);
    let mark = text::chars_of("streamtitle='");
    let hay = text::chars_of(lower.as_str());
    let chars = text::chars_of(s);
    let n: usize = chars.len();
    let at: usize = match text::find_chars(&hay, &mark) {
        Some(i) => i,
        None => return None,
    };
    proof {
        assert(hay@.len() == n);
    }
    let start: usize = at + mark.len();
    let mut j: usize = start;
    while j < n
        invariant
            start <= j <= n,
            n == chars@.len(),
            chars@ == s@,
            forall|k: int| start <= k < j ==> s@[k] != '\'',
            start == at + "streamtitle='"@.len(),
            title_mark_at(s@, at as int),
        decreases n - j,
    {
        if chars[j] == '\'' {
            let t = text::text_of(chars.as_slice(), start, j);
            proof {
                assert(s@[j as int] == '\'');
                assert(title_mark_at(s@, at as int));
            }
            return Some(t);
        }
        j = j + 1;
    }
    proof {
        assert forall|t: Seq<char>| !is_title_of(s@, t) by {
            if is_title_of(s@, t) {
                let (i, j) = choose|i: int, j: int|
                    {
                        &&& #[trigger] title_mark_at(s@, i)
                        &&& i + "streamtitle='"@.len() <= j < s@.len()
                        &&& #[trigger] s@[j] == '\''
                        &&& forall|k: int|
                            i + "streamtitle='"@.len() <= k < j ==> s@[k] != '\''
                        &&& t == s@.subrange((i + "streamtitle='"@.len()) as int, j)
                    };
                assert(i == at);
            }
        }
    }
    None
}

/// The title in an ICY metadata block. Bytes that are not UTF-8 are read as
/// replacement characters.
pub fn parse_stream_title(meta: &[u8]) -> (r: Option<String>)
    ensures
        match r {
            Some(t) => is_title_of(text::lossy_utf8(meta@), t@),
            None => !has_title(text::lossy_utf8(meta@)),
        },
{
    let s = text::lossy_text(meta);
    title_in(s.as_str())
}

/// The two bytes that begin a frame: behind a byte of set bits, one of four for ADTS, and
/// one whose top three bits are set, without the reserved version, for MPEG.
pub proof fn the_bytes_that_begin_a_frame(b0: u8, b1: u8)
    ensures
        is_adts_sync(b0, b1) <==> b0 == 255 && (b1 == 240 || b1 == 241 || b1 == 248 || b1 == 249),
        is_mp3_sync(b0, b1) <==> b0 == 255 && b1 >= 224 && b1 / 8 % 4 != 1,
{
    assert((b1 & 0xF6) == 0xF0 <==> (b1 == 240 || b1 == 241 || b1 == 248 || b1 == 249))
        by (bit_vector);
    assert((b1 & 0xE0) == 0xE0 <==> b1 >= 224) by (bit_vector);
    assert((b1 & 0x18) != 0x08 <==> b1 / 8 % 4 != 1) by (bit_vector);
}

/// Where neither the address nor the content type names a format, the frame that begins
/// first says what a stream holds: ADTS where the first two bytes that can begin a frame
/// begin one of ADTS, else MPEG.
pub proof fn the_first_frame_says_what_a_stream_holds(
    url: Seq<char>,
    content_type: Seq<char>,
    peek: Seq<u8>,
    i: int,
)
    requires
        format_of(url, content_type, Seq::empty()) is Mp3,
        0 <= i && i + 1 < peek.len(),
        forall|k: int| 0 <= k < i ==> !(#[trigger] adts_sync_at(peek, k)),
        forall|k: int| 0 <= k < i ==> !(#[trigger] mp3_sync_at(peek, k)),
    ensures
        peek[i] == 255 && (peek[i + 1] == 240 || peek[i + 1] == 241 || peek[i + 1] == 248 || peek[i
            + 1] == 249) ==> format_of(url, content_type, peek) is AacAdts,
        peek[i] == 255 && peek[i + 1] >= 224 && peek[i + 1] / 8 % 4 != 1 && peek[i + 1] != 240
            && peek[i + 1] != 241 && peek[i + 1] != 248 && peek[i + 1] != 249 ==> format_of(
            url,
            content_type,
            peek,
        ) is Mp3,
{
    the_bytes_that_begin_a_frame(peek[i], peek[i + 1]);
    if is_adts_sync(peek[i], peek[i + 1]) {
        assert(adts_sync_at(peek, i));
    } else if is_mp3_sync(peek[i], peek[i + 1]) {
        assert(mp3_sync_at(peek, i));
        assert forall|a: int| #[trigger] adts_sync_at(peek, a) implies a > i by {}
    }
}

/// A stream whose first bytes hold no frame is taken for MPEG where nothing names it.
pub proof fn a_stream_without_a_frame_is_mpeg(
    url: Seq<char>,
    content_type: Seq<char>,
    peek: Seq<u8>,
)
    requires
        format_of(url, content_type, Seq::empty()) is Mp3,
        forall|k: int| !(#[trigger] adts_sync_at(peek, k)),
    ensures
        format_of(url, content_type, peek) is Mp3,
{
}

/// The title is what stands between the mark, in letters of any case, and the next quote.
pub proof fn a_title_stands_between_its_quotes(
    front: Seq<char>,
    mark: Seq<char>,
    title: Seq<char>,
    rest: Seq<char>,
)
    requires
        text::ascii_lower(mark) == "streamtitle='"@,
        text::first_at(
            text::ascii_lower(front + mark + title + seq!['\''] + rest),
            "streamtitle='"@,
            front.len() as int,
        ),
        forall|k: int| 0 <= k < title.len() ==> #[trigger] title[k] != '\'',
    ensures
        is_title_of(front + mark + title + seq!['\''] + rest, title),
{
    let s = front + mark + title + seq!['\''] + rest;
    let i = front.len() as int;
    let n = "streamtitle='"@.len();
    assert(mark.len() == n);
    let j = i + n + title.len();
    assert(s[j] == '\'');
    assert forall|k: int| i + n <= k < j implies s[k] != '\'' by {
        assert(s[k] == title[k - i - n]);
    }
    assert(s.subrange(i + n, j) =~= title);
    assert(title_mark_at(s, i));
}

/// A text has at most one title.
pub proof fn a_text_has_one_title(s: Seq<char>, a: Seq<char>, b: Seq<char>)
    requires
        is_title_of(s, a),
        is_title_of(s, b),
    ensures
        a == b,
{
    let n = "streamtitle='"@.len();
    let (i, j) = choose|i: int, j: int|
        {
            &&& #[trigger] title_mark_at(s, i)
            &&& i + n <= j < s.len()
            &&& #[trigger] s[j] == '\''
            &&& forall|k: int| i + n <= k < j ==> s[k] != '\''
            &&& a == s.subrange((i + n) as int, j)
        };
    let (p, q) = choose|p: int, q: int|
        {
            &&& #[trigger] title_mark_at(s, p)
            &&& p + n <= q < s.len()
            &&& #[trigger] s[q] == '\''
            &&& forall|k: int| p + n <= k < q ==> s[k] != '\''
            &&& b == s.subrange((p + n) as int, q)
        };
    assert(i == p);
    assert(j == q);
}

} // verus!
