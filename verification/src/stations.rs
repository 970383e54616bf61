//! Stations of the catalog.

use crate::text;
use vstd::prelude::*;

verus! {

/// A radio station.
#[derive(Debug)]
pub struct Station {
    /// The identity that stays when the stream moves.
    pub id: String,
    pub name: String,
    pub url: String,
    pub tags: String,
    pub country: String,
    /// Kilobits per second, 0 where it is not known.
    pub bitrate: u32,
    pub codec: String,
    /// Identities under which the station was known before.
    pub legacy_ids: Vec<String>,
}

/// The contents of a [`Station`].
#[verifier::ext_equal]
pub struct StationView {
    pub id: Seq<char>,
    pub name: Seq<char>,
    pub url: Seq<char>,
    pub tags: Seq<char>,
    pub country: Seq<char>,
    pub bitrate: u32,
    pub codec: Seq<char>,
    pub legacy_ids: Seq<Seq<char>>,
}

impl View for Station {
    type V = StationView;

    open spec fn view(&self) -> StationView {
        StationView {
            id: self.id@,
            name: self.name@,
            url: self.url@,
            tags: self.tags@,
            country: self.country@,
            bitrate: self.bitrate,
            codec: self.codec@,
            legacy_ids: text::texts(self.legacy_ids@),
        }
    }
}

impl Clone for Station {
    fn clone(&self) -> (r: Station)
        ensures
            r@ == self@,
    {
        Station {
            id: self.id.clone(),
            name: self.name.clone(),
            url: self.url.clone(),
            tags: self.tags.clone(),
            country: self.country.clone(),
            bitrate: self.bitrate,
            codec: self.codec.clone(),
            legacy_ids: text::copy_texts(&self.legacy_ids),
        }
    }
}

impl Station {
    /// A station that was never known under another identity.
    pub fn from_primary(
        id: String,
        name: String,
        url: String,
        tags: String,
        country: String,
        bitrate: u32,
        codec: String,
    ) -> (s: Station)
        ensures
            s.id@ == id@,
            s.name@ == name@,
            s.url@ == url@,
            s.tags@ == tags@,
            s.country@ == country@,
            s.bitrate == bitrate,
            s.codec@ == codec@,
            s.legacy_ids@.len() == 0,
    {
        Station { id, name, url, tags, country, bitrate, codec, legacy_ids: Vec::new() }
    }
}

} // verus!
