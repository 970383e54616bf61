//! ICY streams: audio with a metadata block after every so many bytes.

use crate::text;
use vstd::prelude::*;

verus! {

/// What is to be read next of an ICY stream.
#[derive(Debug, Clone, Copy, PartialEq, Eq, Structural)]
pub enum IcyRead {
    /// Audio, so many bytes at most.
    Audio(usize),
    /// The byte that gives the length of a metadata block.
    Length,
    /// A metadata block of exactly so many bytes.
    Meta(usize),
}

/// Takes an ICY stream apart.
#[derive(Debug)]
pub struct IcyStreamReader {
    /// How many bytes of audio stand between two metadata blocks, 0 where there are
    /// none.
    pub meta_int: usize,
    /// How many bytes of audio are left before the next block.
    pub until_meta: usize,
    /// The length of the block that is to be read.
    pub block: Option<usize>,
    /// Whether titles are asked for.
    pub titles: bool,
    /// The title that was given out last.
    pub last_title: String,
}

/// The audio that is left in a stream of which `until` bytes of audio come before
/// the next block, or of which `block` bytes of metadata come next.
pub open spec fn audio_of(meta_int: nat, until: nat, block: Option<nat>, s: Seq<u8>) -> Seq<u8>
    decreases s.len(), if block is Some { 1int } else { 0int },
{
    if meta_int == 0 {
        s
    } else {
        match block {
            Some(n) => if s.len() < n {
                Seq::empty()
            } else if n == 0 {
                audio_of(meta_int, meta_int, None, s)
            } else {
                audio_of(meta_int, meta_int, None, s.skip(n as int))
            },
            None => if until == 0 {
                if s.len() == 0 {
                    Seq::empty()
                } else {
                    audio_of(meta_int, 0, Some(s[0] as nat * 16), s.skip(1))
                }
            } else if s.len() <= until {
                s
            } else {
                s.take(until as int) + audio_of(meta_int, 0, None, s.skip(until as int))
            },
        }
    }
}

impl IcyStreamReader {
    /// The audio that is left, where `rest` is what is left of the stream.
    pub open spec fn audio_left(&self, rest: Seq<u8>) -> Seq<u8> {
        audio_of(
            self.meta_int as nat,
            self.until_meta as nat,
            match self.block {
                Some(n) => Some(n as nat),
                None => None,
            },
            rest,
        )
    }

    /// No more audio is left before the next block than stands between two.
    pub open spec fn wf(&self) -> bool {
        &&& self.until_meta <= self.meta_int
        &&& self.block matches Some(n) ==> 0 < n <= 4080 && self.meta_int > 0 && self.until_meta
            == 0
    }

    /// What is to be read next, where so many bytes are wanted.
    pub open spec fn wants(&self, max: usize) -> IcyRead {
        if self.meta_int == 0 {
            IcyRead::Audio(max)
        } else {
            match self.block {
                Some(n) => IcyRead::Meta(n),
                None => if self.until_meta == 0 {
                    IcyRead::Length
                } else if max < self.until_meta {
                    IcyRead::Audio(max)
                } else {
                    IcyRead::Audio(self.until_meta)
                },
            }
        }
    }

    /// A stream from its beginning.
    pub fn new(meta_int: usize, titles: bool) -> (r: IcyStreamReader)
        ensures
            r.wf(),
            r.meta_int == meta_int,
            r.until_meta == meta_int,
            r.block is None,
            r.titles == titles,
            r.last_title@.len() == 0,
    {
        IcyStreamReader {
            meta_int,
            until_meta: meta_int,
            block: None,
            titles,
            last_title: String::new(),
        }
    }

    /// What is to be read next, where so many bytes are wanted.
    pub fn next_read(&self, max: usize) -> (r: IcyRead)
        ensures
            r == self.wants(max),
            self.meta_int == 0 ==> r == IcyRead::Audio(max),
            self.meta_int != 0 ==> (self.block matches Some(n) ==> r == IcyRead::Meta(n)),
            self.meta_int != 0 && self.block is None && self.until_meta == 0 ==> r is Length,
            self.meta_int != 0 && self.block is None && self.until_meta > 0 ==> (
            r matches IcyRead::Audio(n) && n <= max && n <= self.until_meta && (n == max || n
                == self.until_meta)),
    {
        if self.meta_int == 0 {
            return IcyRead::Audio(max);
        }
        match self.block {
            Some(n) => IcyRead::Meta(n),
            None => if self.until_meta == 0 {
                IcyRead::Length
            } else if max < self.until_meta {
                IcyRead::Audio(max)
            } else {
                IcyRead::Audio(self.until_meta)
            },
        }
    }

    /// So many bytes of audio were read.
    pub fn read_audio(&mut self, n: usize)
        requires
            old(self).wf(),
            old(self).wants(n) == IcyRead::Audio(n),
        ensures
            final(self).wf(),
            *final(self) == (IcyStreamReader {
                until_meta: if old(self).meta_int == 0 {
                    0
                } else {
                    (old(self).until_meta - n) as usize
                },
                ..*old(self)
            }),
            forall|audio: Seq<u8>, rest: Seq<u8>|
                #![trigger old(self).audio_left(audio + rest)]
                audio.len() == n ==> old(self).audio_left(audio + rest) == audio + final(self).audio_left(rest),
    {
        if self.meta_int == 0 {
            proof {
                assert(self.until_meta == 0);
            }
            return;
        }
        self.until_meta = self.until_meta - n;
        proof {
            let before = old(self);
            assert forall|audio: Seq<u8>, rest: Seq<u8>|
                #![trigger before.audio_left(audio + rest)]
                audio.len() == n implies before.audio_left(audio + rest) == audio + self.audio_left(
                rest,
            ) by {
                let all = audio + rest;
                let until = before.until_meta as nat;
                let m = self.meta_int as nat;
                if all.len() <= until {
                    if until == n {
                        assert(rest =~= Seq::empty());
                        assert(audio_of(m, 0, None, rest) =~= Seq::empty());
                    } else {
                        assert(self.audio_left(rest) == rest);
                    }
                } else if until == n {
                    assert(all.take(until as int) =~= audio);
                    assert(all.skip(until as int) =~= rest);
                } else {
                    let left = (until - n) as nat;
                    assert(all.take(until as int) =~= audio + rest.take(left as int));
                    assert(all.skip(until as int) =~= rest.skip(left as int));
                    assert(audio + self.audio_left(rest) =~= audio + rest.take(left as int)
                        + audio_of(m, 0, None, rest.skip(left as int)));
                }
            }
        }
    }

    /// The length of the next block was read: sixteen times the byte.
    pub fn read_length(&mut self, byte: u8)
        requires
            old(self).wf(),
            old(self).wants(0) == IcyRead::Length,
        ensures
            final(self).wf(),
            *final(self) == if byte == 0 {
                IcyStreamReader { until_meta: old(self).meta_int, ..*old(self) }
            } else {
                IcyStreamReader { block: Some((byte as nat * 16) as usize), ..*old(self) }
            },
            forall|rest: Seq<u8>|
                #![trigger old(self).audio_left(seq![byte] + rest)]
                old(self).audio_left(seq![byte] + rest) == final(self).audio_left(rest),
    {
        if byte == 0 {
            self.until_meta = self.meta_int;
        } else {
            self.block = Some(byte as usize * 16);
        }
        proof {
            let before = old(self);
            assert forall|rest: Seq<u8>|
                #![trigger before.audio_left(seq![byte] + rest)]
                before.audio_left(seq![byte] + rest) == self.audio_left(rest) by {
                let all = seq![byte] + rest;
                assert(all.skip(1) =~= rest);
                assert(all[0] == byte);
                if byte == 0 {
                    assert(audio_of(self.meta_int as nat, 0, Some(0nat), rest) == audio_of(
                        self.meta_int as nat,
                        self.meta_int as nat,
                        None,
                        rest,
                    ));
                }
            }
        }
    }

    /// A metadata block was read. Gives the title, where titles are asked for and it
    /// is new.
    pub fn read_meta(&mut self, meta: &[u8]) -> (title: Option<String>)
        requires
            old(self).wf(),
            old(self).block matches Some(n) && n == meta@.len(),
        ensures
            final(self).wf(),
            exists|found: Option<Seq<char>>|
                {
                    &&& #[trigger] is_title(text::lossy_utf8(meta@), found)
                    &&& text::maybe(title) == fresh_title(
                        if old(self).titles {
                            found
                        } else {
                            None
                        },
                        old(self).last_title@,
                    )
                    &&& final(self).last_title@ == match text::maybe(title) {
                        Some(t) => t,
                        None => old(self).last_title@,
                    }
                },
            final(self).block is None,
            final(self).until_meta == final(self).meta_int,
            final(self).meta_int == old(self).meta_int,
            final(self).titles == old(self).titles,
            forall|rest: Seq<u8>|
                #![trigger old(self).audio_left(meta@ + rest)]
                old(self).audio_left(meta@ + rest) == final(self).audio_left(rest),
    {
        self.block = None;
        self.until_meta = self.meta_int;
        proof {
            let before = old(self);
            assert forall|rest: Seq<u8>|
                #![trigger before.audio_left(meta@ + rest)]
                before.audio_left(meta@ + rest) == self.audio_left(rest) by {
                assert((meta@ + rest).skip(meta@.len() as int) =~= rest);
            }
        }
        let parsed = crate::audio::format::parse_stream_title(meta);
        proof {
            assert(is_title(text::lossy_utf8(meta@), text::maybe(parsed)));
        }
        let found = if self.titles {
            parsed
        } else {
            None
        };
        self.note_title(found)
    }

    /// Takes note of the title of a block. Gives it, with its spaces tidied, where it
    /// is not empty and not the one that was given out last.
    pub fn note_title(&mut self, found: Option<String>) -> (title: Option<String>)
        ensures
            text::maybe(title) == fresh_title(text::maybe(found), old(self).last_title@),
            found is None ==> title is None,
            found matches Some(t) ==> match title {
                Some(x) => x@ == text::words_joined(t@) && x@.len() > 0 && x@ != old(
                    self,
                ).last_title@,
                None => text::words_joined(t@).len() == 0 || text::words_joined(t@) == old(
                    self,
                ).last_title@,
            },
            final(self).last_title@ == match text::maybe(title) {
                Some(t) => t,
                None => old(self).last_title@,
            },
            final(self).meta_int == old(self).meta_int,
            final(self).until_meta == old(self).until_meta,
            final(self).block == old(self).block,
            final(self).titles == old(self).titles,
    {
        let raw = match found {
            Some(t) => t,
            None => return None,
        };
        let tidy = text::join_words(raw.as_str());
        if text::same(tidy.as_str(), "") || text::same(tidy.as_str(), self.last_title.as_str()) {
            proof {
                reveal_strlit("");
            }
            return None;
        }
        proof {
            reveal_strlit("");
            if tidy@.len() == 0 {
                assert(tidy@ =~= ""@);
            }
        }
        self.last_title = tidy.clone();
        Some(tidy)
    }
}

/// Whether `found` is the title in the text of a block, or none where there is none.
pub open spec fn is_title(s: Seq<char>, found: Option<Seq<char>>) -> bool {
    match found {
        Some(t) => crate::audio::format::is_title_of(s, t),
        None => !crate::audio::format::has_title(s),
    }
}

/// What is given out of a title: its words, unless there are none or they are what
/// was given out last.
pub open spec fn fresh_title(found: Option<Seq<char>>, last: Seq<char>) -> Option<Seq<char>> {
    match found {
        Some(t) => {
            let tidy = text::words_joined(t);
            if tidy.len() == 0 || tidy == last {
                None
            } else {
                Some(tidy)
            }
        },
        None => None,
    }
}

/// A title that was given out is not given out again while it stays.
pub proof fn a_title_is_given_out_once(found: Option<Seq<char>>, last: Seq<char>)
    ensures
        fresh_title(found, last) matches Some(t) ==> fresh_title(found, t) is None,
{
}

/// Without metadata, all of a stream is audio.
pub proof fn without_blocks_all_is_audio(s: Seq<u8>)
    ensures
        audio_of(0, 0, None, s) == s,
{
}

/// The audio of a stream is what was woven into it: a stretch of audio as long as
/// the interval, a length byte, a block of that length, and so on.
pub proof fn audio_comes_out_as_it_went_in(
    meta_int: nat,
    audio: Seq<u8>,
    len: u8,
    block: Seq<u8>,
    rest: Seq<u8>,
)
    requires
        meta_int > 0,
        audio.len() == meta_int,
        block.len() == len as nat * 16,
    ensures
        audio_of(meta_int, meta_int, None, audio + seq![len] + block + rest) == audio + audio_of(
            meta_int,
            meta_int,
            None,
            rest,
        ),
{
    let all = audio + seq![len] + block + rest;
    let tail = all.skip(meta_int as int);
    assert(all.take(meta_int as int) =~= audio);
    assert(tail[0] == len);
    assert(tail.skip(1) =~= block + rest);
    assert((block + rest).skip(block.len() as int) =~= rest);
    assert(audio_of(meta_int, 0, None, tail) == audio_of(
        meta_int,
        0,
        Some(block.len()),
        block + rest,
    ));
    if block.len() == 0 {
        assert(block + rest =~= rest);
    }
}

/// A block gives the title that stands in it between the mark and the next quote, and none
/// where there is no such.
pub proof fn a_block_gives_the_title_in_it(s: Seq<char>, title: Seq<char>, found: Option<Seq<char>>)
    requires
        is_title(s, found),
    ensures
        crate::audio::format::is_title_of(s, title) ==> found == Some(title),
        found matches Some(t) ==> crate::audio::format::is_title_of(s, t),
{
    if crate::audio::format::is_title_of(s, title) {
        if let Some(t) = found {
            crate::audio::format::a_text_has_one_title(s, title, t);
        }
    }
}

/// A title is given out tidied, unless nothing is left of it or it is the last one.
pub proof fn titles_are_given_out_tidied(t: Seq<char>, last: Seq<char>)
    ensures
        text::words_joined(t).len() > 0 && text::words_joined(t) != last ==> fresh_title(
            Some(t),
            last,
        ) == Some(text::words_joined(t)),
        text::words_joined(t).len() == 0 || text::words_joined(t) == last ==> fresh_title(
            Some(t),
            last,
        ) is None,
        fresh_title(None, last) is None,
{
}

} // verus!
