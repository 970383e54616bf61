//! Receivers that answer a search by multicast.

use super::lan::Ipv4;
use super::{DeviceView, DiscoveredDevice, CAST_PORT};
use crate::cast::discovery::lan;
use crate::text;
use vstd::prelude::*;

verus! {

/// How long a search goes on after the last receiver it found, in milliseconds.
pub const SETTLE_MS: u64 = 1800;

/// How long a search waits for one answer, in milliseconds.
pub const MDNS_WAIT_MS: u64 = 400;

/// An answer to a search.
#[derive(Debug)]
pub struct Resolved {
    /// Its property `fn`, a name in words.
    pub friendly_name: Option<String>,
    /// Its property `md`, the model.
    pub model: Option<String>,
    /// Its property `id`.
    pub id: Option<String>,
    /// The full name of the service.
    pub fullname: String,
    pub port: u16,
    /// Its addresses of IPv4.
    pub v4: Vec<Ipv4>,
    /// All its addresses in words, and whether each leads back to the machine itself.
    pub addresses: Vec<(String, bool)>,
}

/// `s` without `suffix` at its end, however often it stands there.
pub open spec fn without_end(s: Seq<char>, suffix: Seq<char>) -> Seq<char>
    decreases s.len(),
{
    if suffix.len() > 0 && text::finishes_with(s, suffix) {
        without_end(s.take(s.len() - suffix.len()), suffix)
    } else {
        s
    }
}

/// `s` without `c` at its start, however often it stands there.
pub open spec fn without_start_char(s: Seq<char>, c: char) -> Seq<char>
    decreases s.len(),
{
    if s.len() > 0 && s[0] == c {
        without_start_char(s.skip(1), c)
    } else {
        s
    }
}

/// The name of a service without its kind and its domain.
pub open spec fn service_name(fullname: Seq<char>) -> Seq<char> {
    let a = without_end(fullname, ".local."@);
    let b = without_end(a, "._googlecast._tcp"@);
    let c = without_end(b, "_googlecast._tcp"@);
    without_end(without_start_char(c, '.'), "."@)
}

/// `s` without `suffix` at its end.
fn cut_end(s: String, suffix: &str) -> (r: String)
    ensures
        r@ == without_end(s@, suffix@),
{
    let all: Vec<char> = text::chars_of(s.as_str());
    let size: usize = text::char_count(suffix);
    let mut n: usize = all.len();
    let mut cut: String = s;
    proof {
        assert(all@.take(n as int) =~= all@);
    }
    while size > 0 && text::ends_with(cut.as_str(), suffix)
        invariant
            n <= all@.len(),
            size == suffix@.len(),
            cut@ == all@.take(n as int),
            without_end(cut@, suffix@) == without_end(all@, suffix@),
        decreases n,
    {
        proof {
            assert(cut@.take(n - size) =~= all@.take(n - size));
        }
        n = n - size;
        cut = text::text_of(all.as_slice(), 0, n);
        proof {
            assert(cut@ =~= all@.take(n as int));
        }
    }
    cut
}

/// `s` without `c` at its start.
fn cut_start(s: &str, c: char) -> (r: String)
    ensures
        r@ == without_start_char(s@, c),
{
    let all: Vec<char> = text::chars_of(s);
    let mut i: usize = 0;
    proof {
        assert(all@.skip(0) =~= all@);
    }
    while i < all.len() && all[i] == c
        invariant
            i <= all@.len(),
            without_start_char(all@.skip(i as int), c) == without_start_char(all@, c),
        decreases all@.len() - i,
    {
        proof {
            assert(all@.skip(i as int).skip(1) =~= all@.skip(i + 1));
        }
        i = i + 1;
    }
    let total: usize = all.len();
    proof {
        assert(all@.subrange(i as int, total as int) =~= all@.skip(i as int));
    }
    text::text_of(all.as_slice(), i, total)
}

/// The name of a service without its kind and its domain.
pub fn plain_service_name(fullname: &str) -> (r: String)
    ensures
        r@ == service_name(fullname@),
{
    let a = cut_end(fullname.to_string(), ".local.");
    let b = cut_end(a, "._googlecast._tcp");
    let c = cut_end(b, "_googlecast._tcp");
    let d = cut_start(c.as_str(), '.');
    cut_end(d, ".")
}

/// The first address that is neither self-given nor the machine's own.
pub open spec fn first_proper(v4: Seq<Ipv4>) -> Option<Ipv4>
    decreases v4.len(),
{
    if v4.len() == 0 {
        None
    } else if !lan::is_self_given(v4[0]) && !lan::is_loopback(v4[0]) {
        Some(v4[0])
    } else {
        first_proper(v4.skip(1))
    }
}

/// The first address that is self-given.
pub open spec fn first_self_given(v4: Seq<Ipv4>) -> Option<Ipv4>
    decreases v4.len(),
{
    if v4.len() == 0 {
        None
    } else if lan::is_self_given(v4[0]) {
        Some(v4[0])
    } else {
        first_self_given(v4.skip(1))
    }
}

/// The first address that does not lead back to the machine itself.
pub open spec fn first_foreign(addresses: Seq<(String, bool)>) -> Option<Seq<char>>
    decreases addresses.len(),
{
    if addresses.len() == 0 {
        None
    } else if !addresses[0].1 {
        Some(addresses[0].0@)
    } else {
        first_foreign(addresses.skip(1))
    }
}

/// The address at which a service is reached.
pub open spec fn host_of(v4: Seq<Ipv4>, addresses: Seq<(String, bool)>) -> Option<Seq<char>> {
    match (first_proper(v4), first_self_given(v4)) {
        (Some(ip), _) => Some(lan::address_text(ip)),
        (None, Some(ip)) => Some(lan::address_text(ip)),
        (None, None) => first_foreign(addresses),
    }
}

/// The address at which a service is reached: the first proper one of IPv4, else the
/// first self-given one, else the first of any kind that leads elsewhere.
pub fn pick_host(v4: &Vec<Ipv4>, addresses: &Vec<(String, bool)>) -> (r: Option<String>)
    ensures
        text::maybe(r) == host_of(v4@, addresses@),
{
    let mut link_local: Option<Ipv4> = None;
    let mut i: usize = 0;
    proof {
        assert(v4@.skip(0) =~= v4@);
    }
    while i < v4.len()
        invariant
            i <= v4@.len(),
            first_proper(v4@.skip(i as int)) == first_proper(v4@),
            match link_local {
                Some(ip) => first_self_given(v4@) == Some(ip),
                None => first_self_given(v4@.skip(i as int)) == first_self_given(v4@),
            },
        decreases v4@.len() - i,
    {
        let ip = v4[i];
        proof {
            assert(v4@.skip(i as int).skip(1) =~= v4@.skip(i + 1));
            assert(v4@.skip(i as int)[0] == ip);
        }
        if lan::is_apipa(ip) {
            if link_local.is_none() {
                link_local = Some(ip);
            }
        } else if ip.a != 127 {
            return Some(ip.text());
        }
        i = i + 1;
    }
    if let Some(ip) = link_local {
        return Some(ip.text());
    }
    let mut k: usize = 0;
    proof {
        assert(addresses@.skip(0) =~= addresses@);
    }
    while k < addresses.len()
        invariant
            k <= addresses@.len(),
            first_proper(v4@) is None,
            first_self_given(v4@) is None,
            first_foreign(addresses@.skip(k as int)) == first_foreign(addresses@),
        decreases addresses@.len() - k,
    {
        proof {
            assert(addresses@.skip(k as int).skip(1) =~= addresses@.skip(k + 1));
        }
        let a = &addresses[k];
        if !a.1 {
            return Some(a.0.clone());
        }
        k = k + 1;
    }
    None
}

/// The receiver that an answer speaks of.
pub open spec fn resolved(r: Resolved) -> Option<DeviceView> {
    let name = match r.friendly_name {
        Some(n) => if n@.len() > 0 {
            n@
        } else {
            service_name(r.fullname@)
        },
        None => service_name(r.fullname@),
    };
    match host_of(r.v4@, r.addresses@) {
        Some(host) => Some(
            DeviceView {
                name,
                model: match r.model {
                    Some(m) => m@,
                    None => Seq::empty(),
                },
                host,
                port: if r.port == 0 {
                    CAST_PORT
                } else {
                    r.port
                },
                id: match r.id {
                    Some(i) => i@,
                    None => name + ":"@ + text::decimal(r.port as nat),
                },
            },
        ),
        None => None,
    }
}

/// The receiver that an answer speaks of, unless it has no address.
pub fn from_resolved(r: &Resolved) -> (d: Option<DiscoveredDevice>)
    ensures
        match d {
            Some(d) => resolved(*r) == Some(d@),
            None => resolved(*r) is None,
        },
        d is Some <==> host_of(r.v4@, r.addresses@) is Some,
        d matches Some(d) ==> {
            &&& Some(d.host@) == host_of(r.v4@, r.addresses@)
            &&& r.friendly_name matches Some(n) ==> n@.len() > 0 ==> d.name@ == n@
            &&& (r.friendly_name matches Some(n) ==> n@.len() == 0) ==> d.name@ == service_name(
                r.fullname@,
            )
            &&& r.model matches Some(m) ==> d.model@ == m@
            &&& r.model is None ==> d.model@.len() == 0
            &&& r.id matches Some(i) ==> d.id@ == i@
            &&& r.id is None ==> d.id@ == d.name@ + ":"@ + text::decimal(r.port as nat)
            &&& r.port != 0 ==> d.port == r.port
            &&& r.port == 0 ==> d.port == 8009
        },
{
    let friendly = match &r.friendly_name {
        Some(n) => n.clone(),
        None => String::new(),
    };
    let name = if !text::is_empty(friendly.as_str()) {
        friendly
    } else {
        plain_service_name(r.fullname.as_str())
    };
    let model = match &r.model {
        Some(m) => m.clone(),
        None => {
            let none = String::new();
            proof {
                assert(none@ =~= Seq::empty());
            }
            none
        },
    };
    let id = match &r.id {
        Some(i) => i.clone(),
        None => {
            let head = text::joined_two(name.as_str(), ":");
            text::joined_two(head.as_str(), text::decimal_text(r.port as u64).as_str())
        },
    };
    match pick_host(&r.v4, &r.addresses) {
        Some(host) => Some(
            DiscoveredDevice {
                name,
                model,
                host,
                port: if r.port == 0 {
                    CAST_PORT
                } else {
                    r.port
                },
                id,
            },
        ),
        None => None,
    }
}

/// How long a search waits for its next answer, in milliseconds, once it has run for
/// `elapsed_ms` and, where it found a receiver, for `since_new_ms` since the last
/// one. Nothing where it is over.
pub fn mdns_wait(elapsed_ms: u64, timeout_ms: u64, since_new_ms: Option<u64>) -> (r: Option<u64>)
    ensures
        r == if elapsed_ms >= timeout_ms || (since_new_ms matches Some(s) && s >= SETTLE_MS) {
            None
        } else if timeout_ms - elapsed_ms < MDNS_WAIT_MS {
            Some((timeout_ms - elapsed_ms) as u64)
        } else {
            Some(MDNS_WAIT_MS)
        },
        r is None <==> elapsed_ms >= timeout_ms || (since_new_ms matches Some(s) && s >= 1_800),
        r matches Some(ms) ==> 0 < ms <= 400 && elapsed_ms + ms <= timeout_ms && (ms == 400
            || elapsed_ms + ms == timeout_ms),
{
    if let Some(s) = since_new_ms {
        if s >= SETTLE_MS {
            return None;
        }
    }
    if elapsed_ms >= timeout_ms {
        None
    } else if timeout_ms - elapsed_ms < MDNS_WAIT_MS {
        Some(timeout_ms - elapsed_ms)
    } else {
        Some(MDNS_WAIT_MS)
    }
}

proof fn lemma_proper(v4: Seq<Ipv4>, i: int)
    requires
        0 <= i < v4.len(),
        !lan::is_self_given(v4[i]) && !lan::is_loopback(v4[i]),
    ensures
        first_proper(v4) matches Some(ip) && !lan::is_self_given(ip) && !lan::is_loopback(ip),
    decreases v4.len(),
{
    if lan::is_self_given(v4[0]) || lan::is_loopback(v4[0]) {
        assert(v4.skip(1)[i - 1] == v4[i]);
        lemma_proper(v4.skip(1), i - 1);
    }
}

/// A receiver with a proper address is reached at a proper one, whatever other
/// addresses it has.
pub proof fn proper_addresses_come_first(v4: Seq<Ipv4>, addresses: Seq<(String, bool)>, i: int)
    requires
        0 <= i < v4.len(),
        !lan::is_self_given(v4[i]) && !lan::is_loopback(v4[i]),
    ensures
        exists|ip: Ipv4|
            !lan::is_self_given(ip) && !lan::is_loopback(ip) && host_of(v4, addresses) == Some(
                #[trigger] lan::address_text(ip),
            ),
{
    lemma_proper(v4, i);
    let ip = first_proper(v4)->0;
    assert(host_of(v4, addresses) == Some(lan::address_text(ip)));
}

proof fn lemma_first_proper(v4: Seq<Ipv4>, i: int)
    requires
        0 <= i < v4.len(),
        !lan::is_self_given(v4[i]) && !lan::is_loopback(v4[i]),
        forall|j: int|
            0 <= j < i ==> lan::is_self_given(#[trigger] v4[j]) || lan::is_loopback(v4[j]),
    ensures
        first_proper(v4) == Some(v4[i]),
    decreases v4.len(),
{
    if i > 0 {
        assert(lan::is_self_given(v4[0]) || lan::is_loopback(v4[0]));
        assert forall|j: int| 0 <= j < i - 1 implies lan::is_self_given(#[trigger] v4.skip(1)[j])
            || lan::is_loopback(v4.skip(1)[j]) by {
            assert(v4.skip(1)[j] == v4[j + 1]);
        }
        lemma_first_proper(v4.skip(1), i - 1);
    }
}

proof fn lemma_no_proper(v4: Seq<Ipv4>)
    requires
        forall|j: int|
            0 <= j < v4.len() ==> lan::is_self_given(#[trigger] v4[j]) || lan::is_loopback(v4[j]),
    ensures
        first_proper(v4) is None,
    decreases v4.len(),
{
    if v4.len() > 0 {
        assert(lan::is_self_given(v4[0]) || lan::is_loopback(v4[0]));
        assert forall|j: int| 0 <= j < v4.skip(1).len() implies lan::is_self_given(
            #[trigger] v4.skip(1)[j],
        ) || lan::is_loopback(v4.skip(1)[j]) by {
            assert(v4.skip(1)[j] == v4[j + 1]);
        }
        lemma_no_proper(v4.skip(1));
    }
}

proof fn lemma_first_self_given(v4: Seq<Ipv4>, i: int)
    requires
        0 <= i < v4.len(),
        lan::is_self_given(v4[i]),
        forall|j: int| 0 <= j < i ==> !lan::is_self_given(#[trigger] v4[j]),
    ensures
        first_self_given(v4) == Some(v4[i]),
    decreases v4.len(),
{
    if i > 0 {
        assert(!lan::is_self_given(v4[0]));
        assert forall|j: int| 0 <= j < i - 1 implies !lan::is_self_given(
            #[trigger] v4.skip(1)[j],
        ) by {
            assert(v4.skip(1)[j] == v4[j + 1]);
        }
        lemma_first_self_given(v4.skip(1), i - 1);
    }
}

proof fn lemma_no_self_given(v4: Seq<Ipv4>)
    requires
        forall|j: int| 0 <= j < v4.len() ==> !lan::is_self_given(#[trigger] v4[j]),
    ensures
        first_self_given(v4) is None,
    decreases v4.len(),
{
    if v4.len() > 0 {
        assert(!lan::is_self_given(v4[0]));
        assert forall|j: int| 0 <= j < v4.skip(1).len() implies !lan::is_self_given(
            #[trigger] v4.skip(1)[j],
        ) by {
            assert(v4.skip(1)[j] == v4[j + 1]);
        }
        lemma_no_self_given(v4.skip(1));
    }
}

proof fn lemma_first_foreign(addresses: Seq<(String, bool)>, i: int)
    requires
        0 <= i < addresses.len(),
        !addresses[i].1,
        forall|j: int| 0 <= j < i ==> (#[trigger] addresses[j]).1,
    ensures
        first_foreign(addresses) == Some(addresses[i].0@),
    decreases addresses.len(),
{
    if i > 0 {
        assert(addresses[0].1);
        assert forall|j: int| 0 <= j < i - 1 implies (#[trigger] addresses.skip(1)[j]).1 by {
            assert(addresses.skip(1)[j] == addresses[j + 1]);
        }
        lemma_first_foreign(addresses.skip(1), i - 1);
    }
}

/// A receiver is reached at its first address of IPv4 that is neither self-given nor the
/// machine's own.
pub proof fn the_first_proper_address_is_used(
    v4: Seq<Ipv4>,
    addresses: Seq<(String, bool)>,
    i: int,
)
    requires
        0 <= i < v4.len(),
        !(v4[i].a == 169 && v4[i].b == 254) && v4[i].a != 127,
        forall|j: int|
            0 <= j < i ==> ((#[trigger] v4[j]).a == 169 && v4[j].b == 254) || v4[j].a == 127,
    ensures
        host_of(v4, addresses) == Some(lan::address_text(v4[i])),
{
    lemma_first_proper(v4, i);
}

/// Where it has none it is reached at its first self-given address.
pub proof fn else_the_first_self_given_address_is_used(
    v4: Seq<Ipv4>,
    addresses: Seq<(String, bool)>,
    i: int,
)
    requires
        0 <= i < v4.len(),
        v4[i].a == 169 && v4[i].b == 254,
        forall|j: int| 0 <= j < i ==> (#[trigger] v4[j]).a == 127,
        forall|j: int|
            0 <= j < v4.len() ==> ((#[trigger] v4[j]).a == 169 && v4[j].b == 254) || v4[j].a == 127,
    ensures
        host_of(v4, addresses) == Some(lan::address_text(v4[i])),
{
    lemma_no_proper(v4);
    lemma_first_self_given(v4, i);
}

/// Where it has none of these either it is reached at the first address of any kind that
/// leads to another machine.
pub proof fn else_the_first_foreign_address_is_used(
    v4: Seq<Ipv4>,
    addresses: Seq<(String, bool)>,
    i: int,
)
    requires
        forall|j: int| 0 <= j < v4.len() ==> (#[trigger] v4[j]).a == 127,
        0 <= i < addresses.len(),
        !addresses[i].1,
        forall|j: int| 0 <= j < i ==> (#[trigger] addresses[j]).1,
    ensures
        host_of(v4, addresses) == Some(addresses[i].0@),
{
    lemma_no_proper(v4);
    lemma_no_self_given(v4);
    lemma_first_foreign(addresses, i);
}

/// A receiver all of whose addresses lead back to the machine itself is not reached.
pub proof fn the_machine_itself_is_no_receiver(v4: Seq<Ipv4>, addresses: Seq<(String, bool)>)
    requires
        forall|j: int| 0 <= j < v4.len() ==> (#[trigger] v4[j]).a == 127,
        forall|j: int| 0 <= j < addresses.len() ==> (#[trigger] addresses[j]).1,
    ensures
        host_of(v4, addresses) is None,
    decreases addresses.len(),
{
    lemma_no_proper(v4);
    lemma_no_self_given(v4);
    if addresses.len() > 0 {
        assert(addresses[0].1);
        assert forall|j: int| 0 <= j < addresses.skip(1).len() implies (
        #[trigger] addresses.skip(1)[j]).1 by {
            assert(addresses.skip(1)[j] == addresses[j + 1]);
        }
        the_machine_itself_is_no_receiver(v4, addresses.skip(1));
    }
}

proof fn lemma_no_end(s: Seq<char>, suffix: Seq<char>)
    requires
        suffix.len() > 0,
        s.len() == 0 || s.last() != suffix.last(),
    ensures
        without_end(s, suffix) == s,
{
    if text::finishes_with(s, suffix) {
        let n = s.len() - suffix.len();
        assert(s.subrange(n, n + suffix.len())[suffix.len() - 1] == s.last());
    }
}

/// The name of a service is what stands before its kind and its domain.
pub proof fn a_service_is_named_before_its_kind(name: Seq<char>)
    requires
        name.len() > 0,
        name[0] != '.',
        name.last() != 'p' && name.last() != '.',
    ensures
        service_name(name + "._googlecast._tcp"@ + ".local."@) == name,
{
    reveal_strlit(".local.");
    reveal_strlit("._googlecast._tcp");
    reveal_strlit("_googlecast._tcp");
    reveal_strlit(".");
    let kind = "._googlecast._tcp"@;
    let all = name + kind + ".local."@;
    let n = all.len() - ".local."@.len();
    assert(all.subrange(n as int, n + ".local."@.len()) =~= ".local."@);
    assert(all.take(n as int) =~= name + kind);
    assert((name + kind).last() == kind.last());
    assert(kind.last() == 'p');
    lemma_no_end(name + kind, ".local."@);
    let m = name.len() as int;
    assert((name + kind).subrange(m, m + kind.len()) =~= kind);
    assert((name + kind).take(m) =~= name);
    lemma_no_end(name, kind);
    lemma_no_end(name, "_googlecast._tcp"@);
    lemma_no_end(name, "."@);
    assert(without_end(name + kind, kind) == name);
    assert(without_start_char(name, '.') == name);
}

/// A receiver has what its answer says of it: the name in words, the model, the identity
/// and the port. Where the answer lacks the name it is that of the service, where it lacks
/// the identity it is the name and the port, and where it lacks the port it is the usual
/// one. It is found exactly where it has an address.
pub proof fn a_receiver_has_what_its_answer_says(r: Resolved)
    ensures
        resolved(r) is Some <==> host_of(r.v4@, r.addresses@) is Some,
        resolved(r) matches Some(d) ==> {
            &&& Some(d.host) == host_of(r.v4@, r.addresses@)
            &&& r.friendly_name matches Some(n) ==> n@.len() > 0 ==> d.name == n@
            &&& r.friendly_name is None ==> d.name == service_name(r.fullname@)
            &&& r.model matches Some(m) ==> d.model == m@
            &&& r.model is None ==> d.model.len() == 0
            &&& r.id matches Some(i) ==> d.id == i@
            &&& r.id is None ==> d.id == d.name + ":"@ + text::decimal(r.port as nat)
            &&& r.port != 0 ==> d.port == r.port
            &&& r.port == 0 ==> d.port == 8009
        },
{
}

} // verus!
