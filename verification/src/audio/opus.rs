//! Opus packets out of a live Ogg stream.

use vstd::prelude::*;
use vstd::slice::slice_subrange;
use vstd::slice::slice_to_vec;

verus! {

/// What the next step of a reader is.
#[derive(Debug)]
pub enum OggStep {
    /// So many bytes more are to be read.
    Need(usize),
    /// An Opus packet.
    Packet(Vec<u8>),
    /// The stream is no Ogg/Opus stream, for this reason.
    Failed(String),
}

/// The contents of an [`OggStep`].
#[verifier::ext_equal]
pub enum StepView {
    Need(nat),
    Packet(Seq<u8>),
    Failed(Seq<char>),
}

impl View for OggStep {
    type V = StepView;

    open spec fn view(&self) -> StepView {
        match self {
            OggStep::Need(n) => StepView::Need(*n as nat),
            OggStep::Packet(p) => StepView::Packet(p@),
            OggStep::Failed(e) => StepView::Failed(e@),
        }
    }
}

/// What stands at the beginning of a buffer.
#[verifier::ext_equal]
pub enum PageView {
    /// A page that lacks so many bytes at least.
    Need(nat),
    /// No page.
    Invalid,
    /// A page: whether it begins with the rest of a packet, its segments, and how
    /// many bytes it takes.
    Page(bool, Seq<Seq<u8>>, nat),
}

/// The sum of the lengths of segments.
pub open spec fn body_len(lacing: Seq<u8>) -> nat
    decreases lacing.len(),
{
    if lacing.len() == 0 {
        0
    } else {
        body_len(lacing.drop_last()) + lacing.last() as nat
    }
}

/// The segments of a page, whose lengths `lacing` gives.
pub open spec fn segments_of(lacing: Seq<u8>, body: Seq<u8>) -> Seq<Seq<u8>>
    decreases lacing.len(),
{
    if lacing.len() == 0 {
        Seq::empty()
    } else {
        let start = body_len(lacing.drop_last());
        segments_of(lacing.drop_last(), body).push(
            body.subrange(start as int, (start + lacing.last() as nat) as int),
        )
    }
}

/// The mark at the beginning of a page.
pub open spec fn page_mark() -> Seq<u8> {
    seq![0x4fu8, 0x67u8, 0x67u8, 0x53u8]
}

/// The mark at the beginning of the first packet: `OpusHead`.
pub open spec fn head_mark() -> Seq<u8> {
    seq![0x4fu8, 0x70u8, 0x75u8, 0x73u8, 0x48u8, 0x65u8, 0x61u8, 0x64u8]
}

/// The mark at the beginning of the second packet: `OpusTags`.
pub open spec fn tags_mark() -> Seq<u8> {
    seq![0x4fu8, 0x70u8, 0x75u8, 0x73u8, 0x54u8, 0x61u8, 0x67u8, 0x73u8]
}

/// What stands at the beginning of a buffer: a header of 27 bytes, of which the last
/// counts the segments, their lengths, and the segments.
pub open spec fn page_in(buf: Seq<u8>) -> PageView {
    if buf.len() < 27 {
        PageView::Need((27 - buf.len()) as nat)
    } else if buf.subrange(0, 4) != page_mark() {
        PageView::Invalid
    } else {
        let count = buf[26] as nat;
        if buf.len() < 27 + count {
            PageView::Need((27 + count - buf.len()) as nat)
        } else {
            let lacing = buf.subrange(27, (27 + count) as int);
            let used = 27 + count + body_len(lacing);
            if buf.len() < used {
                PageView::Need((used - buf.len()) as nat)
            } else {
                PageView::Page(
                    buf[5] & 0x01 != 0,
                    segments_of(lacing, buf.subrange((27 + count) as int, used as int)),
                    used,
                )
            }
        }
    }
}

/// What a reader holds.
#[verifier::ext_equal]
pub struct OggView {
    /// Bytes that were read and not looked at.
    pub buffer: Seq<u8>,
    /// The packet so far.
    pub packet: Seq<u8>,
    /// The segments of the page that were not looked at.
    pub segments: Seq<Seq<u8>>,
    /// The rest of a packet whose beginning was missed is being passed over.
    pub skipping: bool,
    pub head: bool,
    pub tags: bool,
}

/// What a reader comes to with what it holds. Segments are joined until one is
/// shorter than 255 bytes: that ends a packet. The first two packets are headers.
pub open spec fn next_of(v: OggView) -> (OggView, StepView)
    decreases v.buffer.len(), v.segments.len(),
{
    if v.segments.len() == 0 {
        match page_in(v.buffer) {
            PageView::Need(n) => (v, StepView::Need(n)),
            PageView::Invalid => (
                OggView { buffer: v.buffer.skip(27), ..v },
                StepView::Failed("invalid ogg page"@),
            ),
            PageView::Page(continued, segments, used) => next_of(
                OggView {
                    buffer: v.buffer.skip(used as int),
                    segments,
                    skipping: v.skipping || (continued && v.packet.len() == 0),
                    ..v
                },
            ),
        }
    } else {
        let segment = v.segments[0];
        let rest = OggView { segments: v.segments.skip(1), ..v };
        let packet = v.packet + segment;
        if v.skipping {
            next_of(OggView { skipping: segment.len() >= 255, ..rest })
        } else if segment.len() >= 255 {
            next_of(OggView { packet, ..rest })
        } else {
            let done = OggView { packet: Seq::empty(), ..rest };
            if !v.head {
                if starts(packet, head_mark()) {
                    next_of(OggView { head: true, ..done })
                } else {
                    (done, StepView::Failed("ogg/opus stream missing OpusHead"@))
                }
            } else if !v.tags {
                if starts(packet, tags_mark()) {
                    next_of(OggView { tags: true, ..done })
                } else {
                    (done, StepView::Failed("ogg/opus stream missing OpusTags"@))
                }
            } else {
                (done, StepView::Packet(packet))
            }
        }
    }
}

/// Whether a packet begins with a mark.
pub open spec fn starts(packet: Seq<u8>, mark: Seq<u8>) -> bool {
    packet.len() >= mark.len() && packet.subrange(0, mark.len() as int) == mark
}

/// Whether bytes begin with a mark.
fn begins(bytes: &[u8], mark: &[u8]) -> (r: bool)
    ensures
        r == starts(bytes@, mark@),
{
    let n: usize = mark.len();
    if bytes.len() < n {
        return false;
    }
    let mut i: usize = 0;
    while i < n
        invariant
            i <= n,
            n == mark@.len(),
            n <= bytes@.len(),
            forall|k: int| 0 <= k < i ==> bytes@[k] == mark@[k],
        decreases n - i,
    {
        if bytes[i] != mark[i] {
            proof {
                assert(bytes@.subrange(0, n as int)[i as int] != mark@[i as int]);
            }
            return false;
        }
        i = i + 1;
    }
    proof {
        assert(bytes@.subrange(0, n as int) =~= mark@);
    }
    true
}

proof fn lemma_body_len(lacing: Seq<u8>, k: int)
    requires
        0 <= k <= lacing.len(),
    ensures
        body_len(lacing.subrange(0, k)) <= body_len(lacing),
        body_len(lacing) <= 255 * lacing.len(),
    decreases lacing.len(),
{
    if lacing.len() > 0 {
        if k == lacing.len() {
            assert(lacing.subrange(0, k) =~= lacing);
            lemma_body_len(lacing.drop_last(), k - 1);
        } else {
            lemma_body_len(lacing.drop_last(), k);
            assert(lacing.drop_last().subrange(0, k) =~= lacing.subrange(0, k));
        }
    }
}

/// A page, or how many bytes of it are missing, or none where there is no page.
#[derive(Debug)]
pub enum OggPage {
    Need(usize),
    Invalid,
    Page { continued: bool, segments: Vec<Vec<u8>>, used: usize },
}

/// What byte lists hold.
pub open spec fn lists(v: Seq<Vec<u8>>) -> Seq<Seq<u8>> {
    v.map_values(|b: Vec<u8>| b@)
}

impl View for OggPage {
    type V = PageView;

    open spec fn view(&self) -> PageView {
        match self {
            OggPage::Need(n) => PageView::Need(*n as nat),
            OggPage::Invalid => PageView::Invalid,
            OggPage::Page { continued, segments, used } => PageView::Page(
                *continued,
                lists(segments@),
                *used as nat,
            ),
        }
    }
}

/// What stands at the beginning of a buffer.
pub fn parse_page(buf: &[u8]) -> (r: OggPage)
    ensures
        r@ == page_in(buf@),
        r matches OggPage::Page { used, .. } ==> 27 <= used <= buf@.len(),
        r matches OggPage::Need(n) ==> 0 < n <= 65_025,
{
    let n: usize = buf.len();
    if n < 27 {
        return OggPage::Need(27 - n);
    }
    let mark: [u8; 4] = [0x4f, 0x67, 0x67, 0x53];
    proof {
        assert(mark@ =~= page_mark());
    }
    if !begins(slice_subrange(buf, 0, 4), mark.as_slice()) {
        proof {
            assert(buf@.subrange(0, 4).subrange(0, 4) =~= buf@.subrange(0, 4));
        }
        return OggPage::Invalid;
    }
    proof {
        assert(buf@.subrange(0, 4).subrange(0, 4) =~= buf@.subrange(0, 4));
    }
    let count: usize = buf[26] as usize;
    if n < 27 + count {
        return OggPage::Need(27 + count - n);
    }
    let lacing = slice_subrange(buf, 27, 27 + count);
    let ghost lace = buf@.subrange(27, (27 + count) as int);
    proof {
        lemma_body_len(lace, 0);
    }
    let mut total: usize = 0;
    let mut i: usize = 0;
    while i < count
        invariant
            i <= count,
            count <= 255,
            count == lace.len(),
            lacing@ == lace,
            total == body_len(lace.subrange(0, i as int)),
            total <= 255 * i,
        decreases count - i,
    {
        proof {
            assert(lace.subrange(0, i + 1).drop_last() =~= lace.subrange(0, i as int));
        }
        total = total + lacing[i] as usize;
        i = i + 1;
    }
    proof {
        assert(lace.subrange(0, count as int) =~= lace);
    }
    if n < 27 + count + total {
        return OggPage::Need(27 + count + total - n);
    }
    let used: usize = 27 + count + total;
    let body = slice_subrange(buf, 27 + count, used);
    let ghost whole = buf@.subrange((27 + count) as int, used as int);
    let mut segments: Vec<Vec<u8>> = Vec::new();
    let mut at: usize = 0;
    let mut k: usize = 0;
    proof {
        assert(lists(segments@) =~= segments_of(lace.subrange(0, 0), whole));
    }
    while k < count
        invariant
            k <= count,
            count <= 255,
            count == lace.len(),
            lacing@ == lace,
            body@ == whole,
            whole.len() == body_len(lace),
            at == body_len(lace.subrange(0, k as int)),
            lists(segments@) == segments_of(lace.subrange(0, k as int), whole),
        decreases count - k,
    {
        proof {
            assert(lace.subrange(0, k + 1).drop_last() =~= lace.subrange(0, k as int));
            lemma_body_len(lace, k + 1);
            lemma_body_len(lace, 0);
        }
        let len: usize = lacing[k] as usize;
        let part = slice_to_vec(slice_subrange(body, at, at + len));
        let ghost before = segments@;
        segments.push(part);
        proof {
            assert(lists(segments@) =~= lists(before).push(
                whole.subrange(at as int, (at + len) as int),
            ));
        }
        at = at + len;
        k = k + 1;
    }
    proof {
        assert(lace.subrange(0, count as int) =~= lace);
    }
    OggPage::Page { continued: buf[5] & 0x01 != 0, segments, used }
}

/// Reads the packets of a live Ogg/Opus stream.
#[derive(Debug)]
pub struct LiveOggOpusReader {
    buffer: Vec<u8>,
    packet: Vec<u8>,
    /// The next segment stands last.
    segments: Vec<Vec<u8>>,
    skipping_continued: bool,
    saw_head: bool,
    saw_tags: bool,
}

impl View for LiveOggOpusReader {
    type V = OggView;

    closed spec fn view(&self) -> OggView {
        OggView {
            buffer: self.buffer@,
            packet: self.packet@,
            segments: lists(self.segments@).reverse(),
            skipping: self.skipping_continued,
            head: self.saw_head,
            tags: self.saw_tags,
        }
    }
}

impl LiveOggOpusReader {
    /// A reader at the beginning of a stream.
    pub fn new() -> (r: LiveOggOpusReader)
        ensures
            r@ == (OggView {
                buffer: Seq::empty(),
                packet: Seq::empty(),
                segments: Seq::empty(),
                skipping: false,
                head: false,
                tags: false,
            }),
    {
        let r = LiveOggOpusReader {
            buffer: Vec::new(),
            packet: Vec::new(),
            segments: Vec::new(),
            skipping_continued: false,
            saw_head: false,
            saw_tags: false,
        };
        proof {
            assert(r@.segments =~= Seq::empty());
        }
        r
    }

    /// Takes in bytes that were read.
    pub fn give(&mut self, bytes: &[u8])
        ensures
            final(self)@ == (OggView { buffer: old(self)@.buffer + bytes@, ..old(self)@ }),
    {
        self.buffer.extend_from_slice(bytes);
    }

    /// Whether the stream may end here: no page has begun.
    pub fn may_end(&self) -> (r: bool)
        ensures
            r == (self@.buffer.len() == 0),
    {
        self.buffer.len() == 0
    }

    /// The next packet, or how many bytes have to be given first.
    pub fn read_packet(&mut self) -> (r: OggStep)
        ensures
            (final(self)@, r@) == next_of(old(self)@),
    {
        let ghost start = next_of(self@);
        loop
            invariant
                start == next_of(old(self)@),
                start == next_of(self@),
            decreases self@.buffer.len(), self@.segments.len(),
        {
            let ghost before = self@;
            match self.segments.pop() {
                None => match parse_page(self.buffer.as_slice()) {
                    OggPage::Need(n) => {
                        proof {
                            assert(self@ =~= before);
                        }
                        return OggStep::Need(n);
                    },
                    OggPage::Invalid => {
                        self.buffer = self.buffer.split_off(27);
                        proof {
                            assert(self.buffer@ =~= before.buffer.skip(27));
                            assert(self@.segments =~= before.segments);
                        }
                        return OggStep::Failed("invalid ogg page".to_string());
                    },
                    OggPage::Page { continued, segments, used } => {
                        self.buffer = self.buffer.split_off(used);
                        let ghost list = lists(segments@);
                        self.segments = turned(segments);
                        if continued && self.packet.len() == 0 {
                            self.skipping_continued = true;
                        }
                        proof {
                            assert(self.buffer@ =~= before.buffer.skip(used as int));
                            assert(self@.segments =~= list);
                        }
                    },
                },
                Some(segment) => {
                    proof {
                        assert(before.segments[0] =~= segment@);
                        assert(self@.segments =~= before.segments.skip(1));
                    }
                    let len: usize = segment.len();
                    if self.skipping_continued {
                        if len < 255 {
                            self.skipping_continued = false;
                        }
                    } else {
                        let mut joined: Vec<u8> = self.packet.clone();
                        joined.extend_from_slice(segment.as_slice());
                        proof {
                            assert(joined@ =~= before.packet + before.segments[0]);
                        }
                        if len >= 255 {
                            self.packet = joined;
                        } else {
                            self.packet = Vec::new();
                            if !self.saw_head {
                                let mark: [u8; 8] = [0x4f, 0x70, 0x75, 0x73, 0x48, 0x65, 0x61, 0x64];
                                proof {
                                    assert(mark@ =~= head_mark());
                                }
                                if !begins(joined.as_slice(), mark.as_slice()) {
                                    return OggStep::Failed(
                                        "ogg/opus stream missing OpusHead".to_string(),
                                    );
                                }
                                self.saw_head = true;
                            } else if !self.saw_tags {
                                let mark: [u8; 8] = [0x4f, 0x70, 0x75, 0x73, 0x54, 0x61, 0x67, 0x73];
                                proof {
                                    assert(mark@ =~= tags_mark());
                                }
                                if !begins(joined.as_slice(), mark.as_slice()) {
                                    return OggStep::Failed(
                                        "ogg/opus stream missing OpusTags".to_string(),
                                    );
                                }
                                self.saw_tags = true;
                            } else {
                                return OggStep::Packet(joined);
                            }
                        }
                    }
                },
            }
        }
    }
}

/// A list turned round.
fn turned(list: Vec<Vec<u8>>) -> (r: Vec<Vec<u8>>)
    ensures
        lists(r@) == lists(list@).reverse(),
{
    let mut list = list;
    let ghost all = list@;
    let mut out: Vec<Vec<u8>> = Vec::new();
    while list.len() > 0
        invariant
            list@.len() + out@.len() == all.len(),
            list@ == all.subrange(0, list@.len() as int),
            forall|i: int| 0 <= i < out@.len() ==> out@[i] == all[all.len() - 1 - i],
        decreases list@.len(),
    {
        match list.pop() {
            Some(item) => out.push(item),
            None => {},
        }
    }
    proof {
        assert(lists(out@) =~= lists(all).reverse());
    }
    out
}

/// A packet cut into segments: full ones, and a last one that is not full.
pub open spec fn laced(packet: Seq<u8>) -> Seq<Seq<u8>>
    decreases packet.len(),
{
    if packet.len() < 255 {
        seq![packet]
    } else {
        seq![packet.take(255)] + laced(packet.skip(255))
    }
}

proof fn lemma_laced(v: OggView, part: Seq<u8>, rest: Seq<Seq<u8>>)
    requires
        v.head,
        v.tags,
        !v.skipping,
        v.segments == laced(part) + rest,
    ensures
        next_of(v) == (
            OggView { packet: Seq::empty(), segments: rest, ..v },
            StepView::Packet(v.packet + part),
        ),
    decreases part.len(),
{
    assert(v.segments[0] == laced(part)[0]);
    if part.len() < 255 {
        assert(v.segments.skip(1) =~= rest);
    } else {
        let tail = part.skip(255);
        let w = OggView {
            packet: v.packet + part.take(255),
            segments: v.segments.skip(1),
            ..v
        };
        assert(laced(part).skip(1) =~= laced(tail));
        assert(v.segments.skip(1) =~= laced(tail) + rest);
        lemma_laced(w, tail, rest);
        assert(v.packet + part.take(255) + tail =~= v.packet + part);
    }
}

/// A packet comes out as it went in, however long it is: a reader that is past the
/// headers gives back what was cut into segments, and keeps the segments behind it.
pub proof fn a_packet_comes_out_as_it_went_in(v: OggView, packet: Seq<u8>, rest: Seq<Seq<u8>>)
    requires
        v.head,
        v.tags,
        !v.skipping,
        v.packet.len() == 0,
        v.segments == laced(packet) + rest,
    ensures
        next_of(v) == (
            OggView { packet: Seq::empty(), segments: rest, ..v },
            StepView::Packet(packet),
        ),
{
    lemma_laced(v, packet, rest);
    assert(v.packet + packet =~= packet);
}

/// The bytes of segments, one behind the other.
pub open spec fn joined_segments(segments: Seq<Seq<u8>>) -> Seq<u8>
    decreases segments.len(),
{
    if segments.len() == 0 {
        Seq::empty()
    } else {
        joined_segments(segments.drop_last()) + segments.last()
    }
}

/// The lengths of segments.
pub open spec fn lengths(segments: Seq<Seq<u8>>) -> Seq<u8> {
    segments.map_values(|s: Seq<u8>| s.len() as u8)
}

proof fn lemma_segments(segments: Seq<Seq<u8>>, tail: Seq<u8>)
    requires
        forall|i: int| 0 <= i < segments.len() ==> (#[trigger] segments[i]).len() <= 255,
    ensures
        body_len(lengths(segments)) == joined_segments(segments).len(),
        segments_of(lengths(segments), joined_segments(segments) + tail) == segments,
    decreases segments.len(),
{
    if segments.len() > 0 {
        let front = segments.drop_last();
        let last = segments.last();
        assert forall|i: int| 0 <= i < front.len() implies (#[trigger] front[i]).len() <= 255 by {
            assert(front[i] == segments[i]);
        }
        assert(segments[segments.len() - 1].len() <= 255);
        lemma_segments(front, last + tail);
        assert(lengths(segments).drop_last() =~= lengths(front));
        let all = joined_segments(segments) + tail;
        assert(all =~= joined_segments(front) + (last + tail));
        let start = joined_segments(front).len() as int;
        assert(all.subrange(start, start + last.len()) =~= last);
        assert(segments_of(lengths(segments), all) =~= segments);
    } else {
        assert(segments_of(lengths(segments), joined_segments(segments) + tail) =~= segments);
    }
}

/// A page reads as it was written: behind a header that counts them come the
/// lengths of the segments and the segments.
pub proof fn a_page_reads_as_it_was_written(
    header: Seq<u8>,
    segments: Seq<Seq<u8>>,
    rest: Seq<u8>,
)
    requires
        header.len() == 27,
        header.subrange(0, 4) == page_mark(),
        header[26] == segments.len(),
        forall|i: int| 0 <= i < segments.len() ==> (#[trigger] segments[i]).len() <= 255,
    ensures
        page_in(header + lengths(segments) + joined_segments(segments) + rest) == PageView::Page(
            header[5] & 0x01 != 0,
            segments,
            27 + segments.len() + joined_segments(segments).len(),
        ),
{
    let buf = header + lengths(segments) + joined_segments(segments) + rest;
    let count = segments.len() as int;
    lemma_segments(segments, Seq::empty());
    assert(buf.subrange(0, 4) =~= header.subrange(0, 4));
    assert(buf[26] == header[26]);
    assert(buf[5] == header[5]);
    assert(buf.subrange(27, 27 + count) =~= lengths(segments));
    let used = 27 + count + joined_segments(segments).len();
    assert(buf.subrange(27 + count, used) =~= joined_segments(segments) + Seq::<u8>::empty());
}

/// The marks of pages and headers are what they spell.
pub proof fn the_marks_spell_their_names()
    ensures
        page_mark() == crate::net::ascii_bytes("OggS"@),
        head_mark() == crate::net::ascii_bytes("OpusHead"@),
        tags_mark() == crate::net::ascii_bytes("OpusTags"@),
{
    reveal_strlit("OggS");
    reveal_strlit("OpusHead");
    reveal_strlit("OpusTags");
    assert(page_mark() =~= crate::net::ascii_bytes("OggS"@));
    assert(head_mark() =~= crate::net::ascii_bytes("OpusHead"@));
    assert(tags_mark() =~= crate::net::ascii_bytes("OpusTags"@));
}

/// A page goes on with a packet where the lowest bit of its sixth byte is set.
pub proof fn a_page_says_whether_it_goes_on(
    header: Seq<u8>,
    segments: Seq<Seq<u8>>,
    rest: Seq<u8>,
)
    requires
        header.len() == 27,
        header.subrange(0, 4) == crate::net::ascii_bytes("OggS"@),
        header[26] == segments.len(),
        forall|i: int| 0 <= i < segments.len() ==> (#[trigger] segments[i]).len() <= 255,
    ensures
        page_in(header + lengths(segments) + joined_segments(segments) + rest) == PageView::Page(
            header[5] % 2 == 1,
            segments,
            27 + segments.len() + joined_segments(segments).len(),
        ),
{
    the_marks_spell_their_names();
    a_page_reads_as_it_was_written(header, segments, rest);
    let b = header[5];
    assert(b & 0x01 != 0 <==> b % 2 == 1) by (bit_vector);
}

/// What begins with other bytes is no page; what is shorter than a header is not known yet.
pub proof fn a_page_begins_with_its_mark(buf: Seq<u8>)
    ensures
        buf.len() < 27 ==> page_in(buf) == PageView::Need((27 - buf.len()) as nat),
        buf.len() >= 27 && buf.subrange(0, 4) != crate::net::ascii_bytes("OggS"@) ==> page_in(buf)
            is Invalid,
        page_in(buf) is Invalid ==> buf.len() >= 27,
{
    the_marks_spell_their_names();
}

/// A reader without segments asks for the bytes that it lacks, and says so where the bytes
/// are no page; it does not look at those again.
pub proof fn a_reader_asks_for_what_it_lacks(v: OggView)
    requires
        v.segments.len() == 0,
    ensures
        page_in(v.buffer) matches PageView::Need(n) ==> next_of(v) == (v, StepView::Need(n)),
        page_in(v.buffer) is Invalid ==> next_of(v).1 == StepView::Failed("invalid ogg page"@)
            && next_of(v).0.buffer == v.buffer.skip(27),
{
}

proof fn lemma_header(v: OggView, part: Seq<u8>, rest: Seq<Seq<u8>>)
    requires
        !v.head || !v.tags,
        !v.skipping,
        v.segments == laced(part) + rest,
    ensures
        ({
            let packet = v.packet + part;
            let done = OggView { packet: Seq::empty(), segments: rest, ..v };
            &&& !v.head && starts(packet, head_mark()) ==> next_of(v) == next_of(
                OggView { head: true, ..done },
            )
            &&& !v.head && !starts(packet, head_mark()) ==> next_of(v) == (
                done,
                StepView::Failed("ogg/opus stream missing OpusHead"@),
            )
            &&& v.head && starts(packet, tags_mark()) ==> next_of(v) == next_of(
                OggView { tags: true, ..done },
            )
            &&& v.head && !starts(packet, tags_mark()) ==> next_of(v) == (
                done,
                StepView::Failed("ogg/opus stream missing OpusTags"@),
            )
        }),
    decreases part.len(),
{
    assert(v.segments[0] == laced(part)[0]);
    if part.len() < 255 {
        assert(v.segments.skip(1) =~= rest);
    } else {
        let tail = part.skip(255);
        let w = OggView {
            packet: v.packet + part.take(255),
            segments: v.segments.skip(1),
            ..v
        };
        assert(laced(part).skip(1) =~= laced(tail));
        assert(v.segments.skip(1) =~= laced(tail) + rest);
        lemma_header(w, tail, rest);
        assert(v.packet + part.take(255) + tail =~= v.packet + part);
    }
}

/// The first two packets of a stream are its headers: each is passed over where it begins
/// with its mark, and a stream without one is no Opus stream.
pub proof fn the_headers_come_first(v: OggView, packet: Seq<u8>, rest: Seq<Seq<u8>>)
    requires
        !v.head || !v.tags,
        !v.skipping,
        v.packet.len() == 0,
        v.segments == laced(packet) + rest,
    ensures
        ({
            let head = packet.len() >= 8 && packet.take(8) == crate::net::ascii_bytes("OpusHead"@);
            let tags = packet.len() >= 8 && packet.take(8) == crate::net::ascii_bytes("OpusTags"@);
            let done = OggView { segments: rest, ..v };
            &&& !v.head && head ==> next_of(v) == next_of(OggView { head: true, ..done })
            &&& !v.head && !head ==> next_of(v).1 == StepView::Failed(
                "ogg/opus stream missing OpusHead"@,
            )
            &&& v.head && tags ==> next_of(v) == next_of(OggView { tags: true, ..done })
            &&& v.head && !tags ==> next_of(v).1 == StepView::Failed(
                "ogg/opus stream missing OpusTags"@,
            )
        }),
{
    the_marks_spell_their_names();
    lemma_header(v, packet, rest);
    assert(v.packet + packet =~= packet);
    assert(Seq::<u8>::empty() =~= v.packet);
    if packet.len() >= 8 {
        assert(packet.take(8) =~= packet.subrange(0, 8));
    }
}

/// The rest of a packet whose beginning was missed is passed over, up to its end.
pub proof fn the_rest_of_a_missed_packet_is_passed_over(
    v: OggView,
    part: Seq<u8>,
    rest: Seq<Seq<u8>>,
)
    requires
        v.skipping,
        v.segments == laced(part) + rest,
    ensures
        next_of(v) == next_of(OggView { skipping: false, segments: rest, ..v }),
    decreases part.len(),
{
    assert(v.segments[0] == laced(part)[0]);
    if part.len() < 255 {
        assert(v.segments.skip(1) =~= rest);
    } else {
        let tail = part.skip(255);
        let w = OggView { segments: v.segments.skip(1), ..v };
        assert(laced(part).skip(1) =~= laced(tail));
        assert(v.segments.skip(1) =~= laced(tail) + rest);
        the_rest_of_a_missed_packet_is_passed_over(w, tail, rest);
    }
}

/// A page that goes on with a packet of which nothing was kept has that packet passed over.
pub proof fn a_page_that_goes_on_with_nothing_is_passed_over(
    v: OggView,
    continued: bool,
    segments: Seq<Seq<u8>>,
    used: nat,
)
    requires
        v.segments.len() == 0,
        page_in(v.buffer) == PageView::Page(continued, segments, used),
    ensures
        next_of(v) == next_of(
            OggView {
                buffer: v.buffer.skip(used as int),
                segments,
                skipping: v.skipping || (continued && v.packet.len() == 0),
                ..v
            },
        ),
{
}

} // verus!
