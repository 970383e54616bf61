//! Receivers on the network: what each report of one adds to what is known.

use crate::order;
use crate::order::Ranked;
use crate::text;
use vstd::prelude::*;
use vstd::utf8::encode_utf8;

pub mod eureka;
pub mod lan;
pub mod mdns;
pub mod subnet;

verus! {

/// The port on which receivers speak CASTV2.
pub const CAST_PORT: u16 = 8009;

/// A receiver on the network.
#[derive(Debug)]
pub struct DiscoveredDevice {
    pub name: String,
    pub model: String,
    pub host: String,
    pub port: u16,
    pub id: String,
}

/// The contents of a [`DiscoveredDevice`].
#[verifier::ext_equal]
pub struct DeviceView {
    pub name: Seq<char>,
    pub model: Seq<char>,
    pub host: Seq<char>,
    pub port: u16,
    pub id: Seq<char>,
}

impl View for DiscoveredDevice {
    type V = DeviceView;

    open spec fn view(&self) -> DeviceView {
        DeviceView {
            name: self.name@,
            model: self.model@,
            host: self.host@,
            port: self.port,
            id: self.id@,
        }
    }
}

impl Clone for DiscoveredDevice {
    fn clone(&self) -> (r: DiscoveredDevice)
        ensures
            r@ == self@,
    {
        DiscoveredDevice {
            name: self.name.clone(),
            model: self.model.clone(),
            host: self.host.clone(),
            port: self.port,
            id: self.id.clone(),
        }
    }
}

/// The receiver as it is listed: its name, and in brackets its model.
pub open spec fn label_of(d: DeviceView) -> Seq<char> {
    d.name + "  ["@ + (if d.model.len() == 0 {
        "Chromecast"@
    } else {
        d.model
    }) + "]"@
}

impl DiscoveredDevice {
    /// The receiver as it is listed.
    pub fn label(&self) -> (s: String)
        ensures
            s@ == label_of(self@),
            self.model@.len() > 0 ==> s@ == self.name@ + "  ["@ + self.model@ + "]"@,
            self.model@.len() == 0 ==> s@ == self.name@ + "  ["@ + "Chromecast"@ + "]"@,
    {
        let model = if text::is_empty(self.model.as_str()) {
            "Chromecast"
        } else {
            self.model.as_str()
        };
        let s = text::joined_two(self.name.as_str(), "  [");
        let s = text::joined_two(s.as_str(), model);
        text::joined_two(s.as_str(), "]")
    }
}

/// Why nothing is found.
#[derive(Debug)]
pub enum DiscoveryError {
    /// The search by multicast, in words.
    Mdns(String),
}

/// The error in words.
pub open spec fn error_text(e: DiscoveryError) -> Seq<char> {
    match e {
        DiscoveryError::Mdns(e) => "mDNS: "@ + e@,
    }
}

impl DiscoveryError {
    /// The error in words.
    pub fn message(&self) -> (s: String)
        ensures
            s@ == error_text(*self),
            self matches DiscoveryError::Mdns(e) ==> s@ == "mDNS: "@ + e@,
    {
        match self {
            DiscoveryError::Mdns(e) => text::joined_two("mDNS: ", e.as_str()),
        }
    }
}

/// Whether a text in lower case names a sound bar or a speaker.
pub open spec fn names_a_speaker(lower: Seq<char>) -> bool {
    text::has_text(lower, "jbl"@) || text::has_text(lower, "bar"@) || text::has_text(
        lower,
        "harman"@,
    )
}

/// Whether a text in lower case names a sound bar or a speaker.
pub fn is_speaker_text(lower: &str) -> (r: bool)
    ensures
        r == names_a_speaker(lower@),
        r <==> text::has_text(lower@, "jbl"@) || text::has_text(lower@, "bar"@) || text::has_text(
            lower@,
            "harman"@,
        ),
{
    text::contains(lower, "jbl") || text::contains(lower, "bar") || text::contains(lower, "harman")
}

/// Whether a receiver is a sound bar or a speaker, by its name and model.
pub open spec fn is_speaker(d: DeviceView) -> bool {
    names_a_speaker(text::unicode_lower(d.name + " "@ + d.model))
}

/// Whether a receiver is a sound bar or a speaker, by its name and model.
pub fn is_jbl_like(d: &DiscoveredDevice) -> (r: bool)
    ensures
        r == is_speaker(d@),
        ({
            let lower = text::unicode_lower(d.name@ + " "@ + d.model@);
            r <==> text::has_text(lower, "jbl"@) || text::has_text(lower, "bar"@)
                || text::has_text(lower, "harman"@)
        }),
{
    let s = text::joined_two(d.name.as_str(), " ");
    let blob = text::joined_two(s.as_str(), d.model.as_str());
    let lower = text::lowercase(blob.as_str());
    is_speaker_text(lower.as_str())
}

impl Ranked for DiscoveredDevice {
    open spec fn ranks_before(a: DeviceView, b: DeviceView) -> bool {
        order::marked_first(
            is_speaker(a),
            is_speaker(b),
            text::unicode_lower(a.name),
            text::unicode_lower(b.name),
        )
    }

    fn is_before(&self, other: &DiscoveredDevice) -> (b: bool) {
        let a = text::lowercase(self.name.as_str());
        let b = text::lowercase(other.name.as_str());
        order::is_marked_first(is_jbl_like(self), is_jbl_like(other), a.as_str(), b.as_str())
    }
}

/// Whether the name of a new report is better than the one that is known.
pub open spec fn is_better_name(old: Seq<char>, new: Seq<char>) -> bool {
    &&& new.len() > 0
    &&& {
        ||| old.len() == 0
        ||| old[0] == '_'
        ||| new.len() > old.len() && !text::has_text(new, "._googlecast"@)
    }
}

/// What is known of a receiver after another report of it: the better name, the first
/// model, the longer identity, and the usual port.
pub open spec fn enriched(old: DeviceView, new: DeviceView) -> DeviceView {
    DeviceView {
        name: if is_better_name(old.name, new.name) {
            new.name
        } else {
            old.name
        },
        model: if old.model.len() == 0 {
            new.model
        } else {
            old.model
        },
        host: old.host,
        port: CAST_PORT,
        id: if encode_utf8(old.id).len() < encode_utf8(new.id).len() {
            new.id
        } else {
            old.id
        },
    }
}

/// Where a list names a host.
pub open spec fn place_of(found: Seq<DeviceView>, host: Seq<char>) -> Option<int>
    decreases found.len(),
{
    if found.len() == 0 {
        None
    } else {
        match place_of(found.drop_last(), host) {
            Some(i) => Some(i),
            None => if found.last().host == host {
                Some(found.len() - 1)
            } else {
                None
            },
        }
    }
}

/// What is known after a report: each host stands once.
pub open spec fn reported(found: Seq<DeviceView>, d: DeviceView) -> Seq<DeviceView> {
    match place_of(found, d.host) {
        Some(i) => found.update(i, enriched(found[i], d)),
        None => found.push(d),
    }
}

/// What is known after several reports.
pub open spec fn all_reported(reports: Seq<DeviceView>) -> Seq<DeviceView>
    decreases reports.len(),
{
    if reports.len() == 0 {
        Seq::empty()
    } else {
        reported(all_reported(reports.drop_last()), reports.last())
    }
}

proof fn lemma_place_stays(s: Seq<DeviceView>, n: int, host: Seq<char>)
    requires
        0 <= n <= s.len(),
        place_of(s.subrange(0, n), host) is Some,
    ensures
        place_of(s, host) == place_of(s.subrange(0, n), host),
    decreases s.len() - n,
{
    if n == s.len() {
        assert(s.subrange(0, n) =~= s);
    } else {
        assert(s.subrange(0, n + 1).drop_last() =~= s.subrange(0, n));
        lemma_place_stays(s, n + 1, host);
    }
}

fn find_host(found: &Vec<DiscoveredDevice>, host: &str) -> (r: Option<usize>)
    ensures
        match r {
            Some(i) => i < found@.len() && place_of(order::views(found@), host@) == Some(i as int),
            None => place_of(order::views(found@), host@) is None,
        },
{
    let ghost all = order::views(found@);
    let mut i: usize = 0;
    while i < found.len()
        invariant
            i <= found@.len(),
            all == order::views(found@),
            place_of(all.subrange(0, i as int), host@) is None,
        decreases found@.len() - i,
    {
        proof {
            assert(all.subrange(0, i + 1).drop_last() =~= all.subrange(0, i as int));
        }
        if text::same(found[i].host.as_str(), host) {
            proof {
                lemma_place_stays(all, i + 1, host@);
            }
            return Some(i);
        }
        i = i + 1;
    }
    proof {
        assert(all.subrange(0, i as int) =~= all);
    }
    None
}

/// What is known of a receiver after another report of it.
pub fn enrich(old: &DiscoveredDevice, new: DiscoveredDevice) -> (r: DiscoveredDevice)
    ensures
        r@ == enriched(old@, new@),
        r.host@ == old.host@,
        r.port == 8009,
        r.name@ == old.name@ || r.name@ == new.name@,
        new.name@.len() == 0 ==> r.name@ == old.name@,
        new.name@.len() > 0 && (old.name@.len() == 0 || old.name@[0] == '_') ==> r.name@
            == new.name@,
        old.name@.len() > 0 && old.name@[0] != '_' ==> {
            &&& new.name@.len() <= old.name@.len() ==> r.name@ == old.name@
            &&& text::has_text(new.name@, "._googlecast"@) ==> r.name@ == old.name@
            &&& new.name@.len() > old.name@.len() && !text::has_text(new.name@, "._googlecast"@)
                ==> r.name@ == new.name@
        },
        old.model@.len() > 0 ==> r.model@ == old.model@,
        old.model@.len() == 0 ==> r.model@ == new.model@,
        encode_utf8(old.id@).len() < encode_utf8(new.id@).len() ==> r.id@ == new.id@,
        encode_utf8(old.id@).len() >= encode_utf8(new.id@).len() ==> r.id@ == old.id@,
{
    let better = !text::is_empty(new.name.as_str()) && (text::is_empty(old.name.as_str())
        || text::first_is(old.name.as_str(), '_') || (text::char_count(new.name.as_str())
        > text::char_count(old.name.as_str()) && !text::contains(
        new.name.as_str(),
        "._googlecast",
    )));
    let longer = old.id.as_str().as_bytes().len() < new.id.as_str().as_bytes().len();
    DiscoveredDevice {
        name: if better {
            new.name
        } else {
            old.name.clone()
        },
        model: if text::is_empty(old.model.as_str()) {
            new.model
        } else {
            old.model.clone()
        },
        host: old.host.clone(),
        port: CAST_PORT,
        id: if longer {
            new.id
        } else {
            old.id.clone()
        },
    }
}

/// Takes in a report of a receiver. Gives what is known of it now.
pub fn merge_device(found: &mut Vec<DiscoveredDevice>, d: DiscoveredDevice) -> (now:
    DiscoveredDevice)
    ensures
        order::views(final(found)@) == reported(order::views(old(found)@), d@),
        now@ == match place_of(order::views(old(found)@), d@.host) {
            Some(i) => enriched(order::views(old(found)@)[i], d@),
            None => d@,
        },
{
    let ghost before = found@;
    match find_host(found, d.host.as_str()) {
        Some(i) => {
            let ghost new = d@;
            let merged = enrich(&found[i], d);
            let now = merged.clone();
            found.set(i, merged);
            proof {
                assert(order::views(found@) =~= order::views(before).update(i as int, now@));
            }
            now
        },
        None => {
            let now = d.clone();
            let ghost new = d@;
            found.push(d);
            proof {
                assert(order::views(found@) =~= order::views(before).push(new));
            }
            now
        },
    }
}

/// All receivers that were reported, each once, speakers first.
pub open spec fn listed(reports: Seq<DeviceView>) -> Seq<DeviceView> {
    order::arranged::<DiscoveredDevice>(all_reported(reports))
}

/// All receivers that were reported, each once, speakers first.
pub fn discover(reports: Vec<DiscoveredDevice>) -> (devices: Vec<DiscoveredDevice>)
    ensures
        order::views(devices@) == listed(order::views(reports@)),
{
    let mut found: Vec<DiscoveredDevice> = Vec::new();
    let ghost all = order::views(reports@);
    let mut i: usize = 0;
    proof {
        assert(order::views(found@) =~= all_reported(all.subrange(0, 0)));
    }
    while i < reports.len()
        invariant
            i <= reports@.len(),
            all == order::views(reports@),
            order::views(found@) == all_reported(all.subrange(0, i as int)),
        decreases reports@.len() - i,
    {
        proof {
            assert(all.subrange(0, i + 1).drop_last() =~= all.subrange(0, i as int));
            assert(all.subrange(0, i + 1).last() == reports@[i as int]@);
        }
        let _now = merge_device(&mut found, reports[i].clone());
        i = i + 1;
    }
    proof {
        assert(all.subrange(0, i as int) =~= all);
    }
    order::arrange(found)
}

/// Whether a search goes on, so many milliseconds after it began: until half a second
/// beyond its time, or until both ways of searching have ended and nothing more
/// comes.
pub fn search_goes_on(elapsed_ms: u64, timeout_ms: u64, quiet: bool, both_ended: bool) -> (r: bool)
    ensures
        r == (elapsed_ms < timeout_ms + 500 && !(quiet && both_ended)),
{
    (elapsed_ms < timeout_ms || elapsed_ms - timeout_ms < 500) && !(quiet && both_ended)
}

/// No host stands twice.
pub open spec fn hosts_differ(found: Seq<DeviceView>) -> bool {
    forall|i: int, j: int|
        0 <= i < j < found.len() ==> (#[trigger] found[i]).host != (#[trigger] found[j]).host
}

proof fn lemma_place(found: Seq<DeviceView>, host: Seq<char>)
    ensures
        match place_of(found, host) {
            Some(i) => 0 <= i < found.len() && found[i].host == host,
            None => forall|i: int| 0 <= i < found.len() ==> (#[trigger] found[i]).host != host,
        },
    decreases found.len(),
{
    if found.len() > 0 {
        lemma_place(found.drop_last(), host);
        if place_of(found, host) is None {
            assert forall|i: int| 0 <= i < found.len() implies (#[trigger] found[i]).host
                != host by {
                if i < found.len() - 1 {
                    assert(found.drop_last()[i].host != host);
                }
            }
        }
    }
}

/// However often a receiver is reported, it is listed once, and one that was listed
/// stays.
pub proof fn each_receiver_is_listed_once(found: Seq<DeviceView>, d: DeviceView)
    requires
        hosts_differ(found),
    ensures
        hosts_differ(reported(found, d)),
        forall|i: int|
            0 <= i < found.len() ==> (#[trigger] reported(found, d)[i]).host == found[i].host,
        exists|i: int|
            0 <= i < reported(found, d).len() && (#[trigger] reported(found, d)[i]).host == d.host,
{
    lemma_place(found, d.host);
    match place_of(found, d.host) {
        Some(i) => {
            assert(reported(found, d)[i].host == d.host);
        },
        None => {
            assert(reported(found, d)[found.len() as int].host == d.host);
        },
    }
}

/// What is known of a receiver only grows: a name, a model or an identity that is
/// known never becomes empty.
pub proof fn reports_only_add(old: DeviceView, new: DeviceView)
    ensures
        old.name.len() > 0 ==> enriched(old, new).name.len() > 0,
        old.model.len() > 0 ==> enriched(old, new).model == old.model,
        encode_utf8(enriched(old, new).id).len() >= encode_utf8(old.id).len(),
        enriched(old, new).host == old.host,
{
}

/// The order of receivers is one.
pub proof fn receivers_have_an_order()
    ensures
        order::rank_is_an_order::<DiscoveredDevice>(),
{
    assert forall|a: DeviceView, b: DeviceView| #[trigger]
        DiscoveredDevice::ranks_before(a, b) implies !DiscoveredDevice::ranks_before(b, a) by {
        order::marked_first_is_an_order(
            is_speaker(a),
            is_speaker(b),
            true,
            text::unicode_lower(a.name),
            text::unicode_lower(b.name),
            Seq::empty(),
        );
    }
    assert forall|a: DeviceView, b: DeviceView, c: DeviceView|
        !(#[trigger] DiscoveredDevice::ranks_before(a, b)) && !(
        #[trigger] DiscoveredDevice::ranks_before(b, c)) implies !DiscoveredDevice::ranks_before(
        a,
        c,
    ) by {
        order::marked_first_is_an_order(
            is_speaker(a),
            is_speaker(b),
            is_speaker(c),
            text::unicode_lower(a.name),
            text::unicode_lower(b.name),
            text::unicode_lower(c.name),
        );
    }
}

proof fn lemma_reported_hosts(reports: Seq<DeviceView>, host: Seq<char>)
    ensures
        hosts_differ(all_reported(reports)),
        is_host(all_reported(reports), host) == is_host(reports, host),
    decreases reports.len(),
{
    if reports.len() > 0 {
        let front = reports.drop_last();
        let d = reports.last();
        let before = all_reported(front);
        let after = reported(before, d);
        lemma_reported_hosts(front, host);
        each_receiver_is_listed_once(before, d);
        lemma_place(before, d.host);
        assert(after == all_reported(reports));
        if is_host(reports, host) {
            let i = choose|i: int| 0 <= i < reports.len() && (#[trigger] reports[i]).host == host;
            if i < front.len() {
                assert(front[i].host == host);
                let k = choose|k: int| 0 <= k < before.len() && (#[trigger] before[k]).host == host;
                assert(after[k].host == host);
            }
        }
        if is_host(after, host) {
            let i = choose|i: int| 0 <= i < after.len() && (#[trigger] after[i]).host == host;
            if i < before.len() {
                assert(before[i].host == host);
                let k = choose|k: int| 0 <= k < front.len() && (#[trigger] front[k]).host == host;
                assert(reports[k].host == host);
            } else {
                assert(reports[reports.len() - 1].host == host);
            }
        }
    }
}

/// A receiver with this address is in a list.
pub open spec fn is_host(list: Seq<DeviceView>, host: Seq<char>) -> bool {
    exists|i: int| 0 <= i < list.len() && (#[trigger] list[i]).host == host
}

proof fn lemma_arranged_hosts(found: Seq<DeviceView>)
    requires
        hosts_differ(found),
    ensures
        hosts_differ(order::arranged::<DiscoveredDevice>(found)),
{
    let a = order::arranged::<DiscoveredDevice>(found);
    order::sorting_keeps::<DiscoveredDevice>(found);
    assert(found.no_duplicates());
    found.lemma_multiset_has_no_duplicates();
    assert forall|x: DeviceView| a.to_multiset().contains(x) implies a.to_multiset().count(x)
        == 1 by {}
    a.lemma_multiset_has_no_duplicates_conv();
    assert forall|i: int, j: int| 0 <= i < j < a.len() implies (#[trigger] a[i]).host != (
    #[trigger] a[j]).host by {
        assert(a.contains(a[i]) && a.contains(a[j]));
        assert(found.contains(a[i]) && found.contains(a[j]));
        let p = found.index_of(a[i]);
        let q = found.index_of(a[j]);
        assert(found[p] == a[i] && found[q] == a[j]);
    }
}

/// A search lists each receiver that was reported, once, no other, and in their order.
pub proof fn a_search_lists_what_was_reported(reports: Seq<DeviceView>, host: Seq<char>)
    ensures
        hosts_differ(listed(reports)),
        is_host(listed(reports), host) == is_host(reports, host),
        order::in_order::<DiscoveredDevice>(listed(reports)),
{
    let found = all_reported(reports);
    lemma_reported_hosts(reports, host);
    lemma_arranged_hosts(found);
    order::sorting_keeps::<DiscoveredDevice>(found);
    receivers_have_an_order();
    order::sorting_orders::<DiscoveredDevice>(found);
    let a = listed(reports);
    if is_host(found, host) {
        let i = choose|i: int| 0 <= i < found.len() && (#[trigger] found[i]).host == host;
        assert(found.contains(found[i]));
        let k = a.index_of(found[i]);
        assert(a[k].host == host);
    }
    if is_host(a, host) {
        let i = choose|i: int| 0 <= i < a.len() && (#[trigger] a[i]).host == host;
        assert(a.contains(a[i]));
        assert(found.contains(a[i]));
        let k = found.index_of(a[i]);
        assert(found[k].host == host);
    }
}

/// A report of a host that is known adds to what is known of it and touches no other; one
/// of a new host stands behind all others, as it was reported.
pub proof fn a_report_touches_one_host(found: Seq<DeviceView>, d: DeviceView, i: int)
    requires
        hosts_differ(found),
        0 <= i < found.len(),
    ensures
        found[i].host != d.host ==> reported(found, d)[i] == found[i],
        found[i].host == d.host ==> {
            &&& reported(found, d).len() == found.len()
            &&& reported(found, d)[i] == enriched(found[i], d)
        },
        (forall|k: int| 0 <= k < found.len() ==> (#[trigger] found[k]).host != d.host) ==> reported(
            found,
            d,
        ) == found.push(d),
{
    lemma_place(found, d.host);
}

/// A receiver that was reported once is listed as it was reported.
pub proof fn a_single_report_is_listed_as_it_is(d: DeviceView)
    ensures
        listed(seq![d]) == seq![d],
{
    let one = seq![d];
    assert(one.drop_last() =~= Seq::empty());
    assert(all_reported(one.drop_last()) =~= Seq::<DeviceView>::empty());
    assert(all_reported(one) =~= one);
    order::sorting_leaves_what_is_in_order::<DiscoveredDevice>(one);
}

/// Speakers are listed before all others, and each of the two by name, whatever the case
/// of its letters.
pub proof fn speakers_are_listed_first(reports: Seq<DeviceView>, i: int, j: int)
    requires
        0 <= i < j < listed(reports).len(),
    ensures
        is_speaker(listed(reports)[j]) ==> is_speaker(listed(reports)[i]),
        is_speaker(listed(reports)[i]) == is_speaker(listed(reports)[j]) ==> !text::precedes(
            text::unicode_lower(listed(reports)[j].name),
            text::unicode_lower(listed(reports)[i].name),
        ),
{
    a_search_lists_what_was_reported(reports, Seq::empty());
    let a = listed(reports);
    assert(!DiscoveredDevice::ranks_before(a[j], a[i]));
}

/// Receivers speak on port 8009 and describe themselves on port 8008.
pub proof fn the_ports_of_receivers()
    ensures
        CAST_PORT == 8009,
        eureka::EUREKA_PORT == 8008,
{
}

} // verus!
