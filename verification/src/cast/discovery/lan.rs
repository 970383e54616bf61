//! Which network interfaces lead to the receivers.

use crate::order;
use crate::order::Ranked;
use crate::text;
use vstd::prelude::*;

verus! {

/// An IPv4 address.
#[derive(Debug, Clone, Copy, PartialEq, Eq, Structural)]
pub struct Ipv4 {
    pub a: u8,
    pub b: u8,
    pub c: u8,
    pub d: u8,
}

/// An address in words: four numbers with dots between them.
pub open spec fn address_text(ip: Ipv4) -> Seq<char> {
    text::decimal(ip.a as nat) + "."@ + text::decimal(ip.b as nat) + "."@ + text::decimal(
        ip.c as nat,
    ) + "."@ + text::decimal(ip.d as nat)
}

impl Ipv4 {
    /// The address in words.
    pub fn text(self) -> (s: String)
        ensures
            s@ == address_text(self),
            s@ == text::decimal(self.a as nat) + "."@ + text::decimal(self.b as nat) + "."@
                + text::decimal(self.c as nat) + "."@ + text::decimal(self.d as nat),
    {
        let s = text::joined_two(text::decimal_text(self.a as u64).as_str(), ".");
        let s = text::joined_two(s.as_str(), text::decimal_text(self.b as u64).as_str());
        let s = text::joined_two(s.as_str(), ".");
        let s = text::joined_two(s.as_str(), text::decimal_text(self.c as u64).as_str());
        let s = text::joined_two(s.as_str(), ".");
        text::joined_two(s.as_str(), text::decimal_text(self.d as u64).as_str())
    }
}

/// An address that a machine gave itself: 169.254.0.0/16.
pub open spec fn is_self_given(ip: Ipv4) -> bool {
    ip.a == 169 && ip.b == 254
}

/// An address of this machine itself: 127.0.0.0/8.
pub open spec fn is_loopback(ip: Ipv4) -> bool {
    ip.a == 127
}

/// The address 0.0.0.0.
pub open spec fn is_unspecified(ip: Ipv4) -> bool {
    ip.a == 0 && ip.b == 0 && ip.c == 0 && ip.d == 0
}

/// An address of a group of machines: 224.0.0.0/4.
pub open spec fn is_multicast(ip: Ipv4) -> bool {
    224 <= ip.a <= 239
}

/// An address of a private network: 10.0.0.0/8, 172.16.0.0/12 or 192.168.0.0/16.
pub open spec fn is_private(ip: Ipv4) -> bool {
    ip.a == 10 || (ip.a == 172 && 16 <= ip.b <= 31) || (ip.a == 192 && ip.b == 168)
}

/// Whether a machine gave itself this address.
pub fn is_apipa(ip: Ipv4) -> (r: bool)
    ensures
        r == is_self_given(ip),
        r <==> ip.a == 169 && ip.b == 254,
{
    ip.a == 169 && ip.b == 254
}

/// Whether an address can be one of a home network.
pub open spec fn is_lan_address(ip: Ipv4) -> bool {
    !is_loopback(ip) && !is_unspecified(ip) && !is_multicast(ip) && (is_private(ip)
        || is_self_given(ip))
}

fn lan_address(ip: Ipv4) -> (r: bool)
    ensures
        r == is_lan_address(ip),
{
    let loopback = ip.a == 127;
    let unspecified = ip.a == 0 && ip.b == 0 && ip.c == 0 && ip.d == 0;
    let multicast = 224 <= ip.a && ip.a <= 239;
    let private = ip.a == 10 || (ip.a == 172 && 16 <= ip.b && ip.b <= 31) || (ip.a == 192 && ip.b
        == 168);
    !loopback && !unspecified && !multicast && (private || is_apipa(ip))
}

/// Words in the names of interfaces that lead into tunnels or virtual machines.
pub open spec fn virtual_words() -> Seq<Seq<char>> {
    seq![
        "amnezia"@,
        "wintun"@,
        "wireguard"@,
        "outline"@,
        "nordlynx"@,
        "nordvpn"@,
        "openvpn"@,
        "tap-windows"@,
        "tap-win"@,
        "tunnel"@,
        "vpn"@,
        "utun"@,
        "warp"@,
        "cloudflare"@,
        "zerotier"@,
        "tailscale"@,
        "hamachi"@,
        "radmin"@,
        "softether"@,
        "vethernet"@,
        "hyper-v"@,
        "virtualbox"@,
        "vmware"@,
        "vmnet"@,
        "wsl"@,
        "docker"@,
        "bravetunnel"@,
        "npcap"@,
        "loopback"@,
        "bluetooth"@,
        "isatap"@,
        "teredo"@,
        "microsoft wi-fi direct"@,
    ]
}

/// Whether a name in lower case is that of a tunnel or a virtual interface.
pub open spec fn is_virtual_name(lower: Seq<char>) -> bool {
    (exists|i: int|
        0 <= i < virtual_words().len() && text::has_text(lower, #[trigger] virtual_words()[i]))
        || text::begins_with(lower, "tap"@) || text::begins_with(lower, "tun"@)
        || text::begins_with(lower, "wg"@) || text::begins_with(lower, "awg"@)
}

/// Whether a name in lower case is that of a tunnel or a virtual interface.
pub fn is_virtual_text(lower: &str) -> (r: bool)
    ensures
        r == is_virtual_name(lower@),
{
    let words: [&str; 33] = [
        "amnezia",
        "wintun",
        "wireguard",
        "outline",
        "nordlynx",
        "nordvpn",
        "openvpn",
        "tap-windows",
        "tap-win",
        "tunnel",
        "vpn",
        "utun",
        "warp",
        "cloudflare",
        "zerotier",
        "tailscale",
        "hamachi",
        "radmin",
        "softether",
        "vethernet",
        "hyper-v",
        "virtualbox",
        "vmware",
        "vmnet",
        "wsl",
        "docker",
        "bravetunnel",
        "npcap",
        "loopback",
        "bluetooth",
        "isatap",
        "teredo",
        "microsoft wi-fi direct",
    ];
    proof {
        assert(virtual_words() =~= words@.map_values(|s: &str| s@));
    }
    let mut i: usize = 0;
    while i < 33
        invariant
            i <= 33,
            words@.len() == 33,
            virtual_words() == words@.map_values(|s: &str| s@),
            forall|k: int|
                0 <= k < i ==> !text::has_text(lower@, #[trigger] virtual_words()[k]),
        decreases 33 - i,
    {
        proof {
            assert(virtual_words()[i as int] == words@[i as int]@);
        }
        if text::contains(lower, words[i]) {
            return true;
        }
        i = i + 1;
    }
    text::starts_with(lower, "tap") || text::starts_with(lower, "tun") || text::starts_with(
        lower,
        "wg",
    ) || text::starts_with(lower, "awg")
}

/// Whether an interface leads into a tunnel or a virtual machine, by its name.
pub fn is_vpn_or_virtual(name: &str) -> (r: bool)
    ensures
        r == is_virtual_name(text::unicode_lower(name@)),
{
    let lower = text::lowercase(name);
    is_virtual_text(lower.as_str())
}

/// How likely receivers are behind an interface, by its name in lower case, its
/// address, and whether it is in use.
pub open spec fn score_of(lower: Seq<char>, ip: Ipv4, apipa: bool, oper_up: bool) -> int {
    let wireless = if text::has_text(lower, "wi-fi"@) || text::has_text(lower, "wifi"@)
        || text::has_text(lower, "wlan"@) || text::has_text(lower, "wireless"@) || text::has_text(
        lower,
        "беспровод"@,
    ) {
        100int
    } else {
        0
    };
    let wired = if text::has_text(lower, "ethernet"@) || text::has_text(lower, "локальн"@) {
        80int
    } else if text::has_text(lower, "eth"@) || text::finishes_with(lower, " lan"@)
        || text::has_text(lower, " lan "@) {
        60
    } else {
        0
    };
    let net = if ip.a == 192 && ip.b == 168 {
        50int
    } else if ip.a == 10 {
        30
    } else if ip.a == 172 && 16 <= ip.b <= 31 {
        10
    } else {
        0
    };
    wireless + wired + net - (if apipa {
        40int
    } else {
        0
    }) + (if oper_up {
        20int
    } else {
        0
    })
}

/// How likely receivers are behind an interface, by its name in lower case.
pub fn score_text(lower: &str, ip: Ipv4, apipa: bool, oper_up: bool) -> (score: i32)
    ensures
        score == score_of(lower@, ip, apipa, oper_up),
{
    let mut score: i32 = 0;
    if text::contains(lower, "wi-fi") || text::contains(lower, "wifi") || text::contains(
        lower,
        "wlan",
    ) || text::contains(lower, "wireless") || text::contains(lower, "беспровод") {
        score = score + 100;
    }
    if text::contains(lower, "ethernet") || text::contains(lower, "локальн") {
        score = score + 80;
    } else if text::contains(lower, "eth") || text::ends_with(lower, " lan") || text::contains(
        lower,
        " lan ",
    ) {
        score = score + 60;
    }
    if ip.a == 192 && ip.b == 168 {
        score = score + 50;
    } else if ip.a == 10 {
        score = score + 30;
    } else if ip.a == 172 && 16 <= ip.b && ip.b <= 31 {
        score = score + 10;
    }
    if apipa {
        score = score - 40;
    }
    if oper_up {
        score = score + 20;
    }
    score
}

/// How likely receivers are behind an interface.
pub fn score_lan_iface(name: &str, ip: Ipv4, apipa: bool, oper_up: bool) -> (score: i32)
    ensures
        score == score_of(text::unicode_lower(name@), ip, apipa, oper_up),
{
    let lower = text::lowercase(name);
    score_text(lower.as_str(), ip, apipa, oper_up)
}

/// What the system says of an interface.
#[derive(Debug, Clone)]
pub struct IfaceInfo {
    pub name: String,
    pub loopback: bool,
    /// Its address, where that is one of IPv4.
    pub v4: Option<Ipv4>,
    pub oper_up: bool,
}

/// An interface that may lead to receivers.
#[derive(Debug)]
pub struct LanIface {
    pub name: String,
    pub ip: Ipv4,
    pub score: i32,
}

/// The contents of a [`LanIface`].
#[verifier::ext_equal]
pub struct LanView {
    pub name: Seq<char>,
    pub ip: Ipv4,
    pub score: i32,
}

impl View for LanIface {
    type V = LanView;

    open spec fn view(&self) -> LanView {
        LanView { name: self.name@, ip: self.ip, score: self.score }
    }
}

impl Clone for LanIface {
    fn clone(&self) -> (r: LanIface)
        ensures
            r@ == self@,
    {
        LanIface { name: self.name.clone(), ip: self.ip, score: self.score }
    }
}

/// The interface with the higher score comes first, then the one whose name does.
pub open spec fn lan_before(a: LanView, b: LanView) -> bool {
    a.score > b.score || (a.score == b.score && text::precedes(a.name, b.name))
}

impl Ranked for LanIface {
    open spec fn ranks_before(a: LanView, b: LanView) -> bool {
        lan_before(a, b)
    }

    fn is_before(&self, other: &LanIface) -> (b: bool) {
        self.score > other.score || (self.score == other.score && text::before(
            self.name.as_str(),
            other.name.as_str(),
        ))
    }
}

/// Whether an interface may lead to receivers, and how likely.
pub open spec fn candidate(i: IfaceInfo) -> Option<LanView> {
    match i.v4 {
        Some(ip) => if i.loopback || is_virtual_name(text::unicode_lower(i.name@))
            || !is_lan_address(ip) {
            None
        } else {
            Some(
                LanView {
                    name: i.name@,
                    ip,
                    score: score_of(
                        text::unicode_lower(i.name@),
                        ip,
                        is_self_given(ip),
                        i.oper_up,
                    ) as i32,
                },
            )
        },
        None => None,
    }
}

/// The interfaces that may lead to receivers.
pub open spec fn lan_candidates(list: Seq<IfaceInfo>) -> Seq<LanView>
    decreases list.len(),
{
    if list.len() == 0 {
        Seq::empty()
    } else {
        let before = lan_candidates(list.drop_last());
        match candidate(list.last()) {
            Some(c) => before.push(c),
            None => before,
        }
    }
}

/// The interfaces whose address was not self-given, or all where there is no such.
pub open spec fn settled(list: Seq<LanView>) -> Seq<LanView> {
    if exists|i: int| 0 <= i < list.len() && !is_self_given((#[trigger] list[i]).ip) {
        list.filter(|c: LanView| !is_self_given(c.ip))
    } else {
        list
    }
}

/// A list without those that have the name of the one before them.
pub open spec fn without_repeats(list: Seq<LanView>) -> Seq<LanView>
    decreases list.len(),
{
    if list.len() == 0 {
        list
    } else {
        let before = without_repeats(list.drop_last());
        if before.len() > 0 && before.last().name == list.last().name {
            before
        } else {
            before.push(list.last())
        }
    }
}

/// The interfaces that may lead to receivers, the likeliest first.
pub open spec fn lan_list(list: Seq<IfaceInfo>) -> Seq<LanView> {
    without_repeats(order::arranged::<LanIface>(settled(lan_candidates(list))))
}

fn collect(list: &Vec<IfaceInfo>) -> (out: Vec<LanIface>)
    ensures
        order::views(out@) == lan_candidates(list@),
{
    let mut out: Vec<LanIface> = Vec::new();
    let mut i: usize = 0;
    proof {
        assert(order::views(out@) =~= lan_candidates(list@.subrange(0, 0)));
    }
    while i < list.len()
        invariant
            i <= list@.len(),
            order::views(out@) == lan_candidates(list@.subrange(0, i as int)),
        decreases list@.len() - i,
    {
        let info = &list[i];
        let ghost before = out@;
        proof {
            assert(list@.subrange(0, i + 1).drop_last() =~= list@.subrange(0, i as int));
        }
        match info.v4 {
            Some(ip) => {
                if !info.loopback && !is_vpn_or_virtual(info.name.as_str()) && lan_address(ip) {
                    let apipa = is_apipa(ip);
                    let score: i32 = score_lan_iface(info.name.as_str(), ip, apipa, info.oper_up);
                    let iface = LanIface { name: info.name.clone(), ip, score };
                    let ghost held = iface@;
                    out.push(iface);
                    proof {
                        assert(order::views(out@) =~= order::views(before).push(held));
                    }
                }
            },
            None => {},
        }
        i = i + 1;
    }
    proof {
        assert(list@.subrange(0, i as int) =~= list@);
    }
    out
}

fn settle(list: Vec<LanIface>) -> (out: Vec<LanIface>)
    ensures
        order::views(out@) == settled(order::views(list@)),
{
    let ghost all = order::views(list@);
    let ghost stays = |c: LanView| !is_self_given(c.ip);
    let mut out: Vec<LanIface> = Vec::new();
    let mut i: usize = 0;
    proof {
        reveal(Seq::filter);
        assert(order::views(out@) =~= all.subrange(0, 0).filter(stays));
    }
    while i < list.len()
        invariant
            i <= list@.len(),
            all == order::views(list@),
            stays == |c: LanView| !is_self_given(c.ip),
            order::views(out@) == all.subrange(0, i as int).filter(stays),
            out@.len() == 0 ==> forall|k: int|
                0 <= k < i ==> is_self_given((#[trigger] all[k]).ip),
            out@.len() > 0 ==> exists|k: int|
                0 <= k < i && !is_self_given((#[trigger] all[k]).ip),
        decreases list@.len() - i,
    {
        let ghost before = out@;
        proof {
            reveal(Seq::filter);
            assert(all.subrange(0, i + 1).drop_last() =~= all.subrange(0, i as int));
            assert(all[i as int] == list@[i as int]@);
        }
        if !is_apipa(list[i].ip) {
            out.push(list[i].clone());
            proof {
                assert(order::views(out@) =~= order::views(before).push(all[i as int]));
            }
        }
        i = i + 1;
    }
    proof {
        assert(all.subrange(0, i as int) =~= all);
    }
    if out.len() > 0 {
        out
    } else {
        list
    }
}

fn drop_repeats(list: &Vec<LanIface>) -> (out: Vec<LanIface>)
    ensures
        order::views(out@) == without_repeats(order::views(list@)),
{
    let ghost all = order::views(list@);
    let mut out: Vec<LanIface> = Vec::new();
    let mut i: usize = 0;
    proof {
        assert(order::views(out@) =~= without_repeats(all.subrange(0, 0)));
    }
    while i < list.len()
        invariant
            i <= list@.len(),
            all == order::views(list@),
            order::views(out@) == without_repeats(all.subrange(0, i as int)),
        decreases list@.len() - i,
    {
        let ghost before = out@;
        proof {
            assert(all.subrange(0, i + 1).drop_last() =~= all.subrange(0, i as int));
            assert(all.subrange(0, i + 1).last() == list@[i as int]@);
            assert(order::views(before).len() == before.len());
        }
        let repeat = out.len() > 0 && text::same(
            out[out.len() - 1].name.as_str(),
            list[i].name.as_str(),
        );
        if !repeat {
            out.push(list[i].clone());
            proof {
                assert(order::views(out@) =~= order::views(before).push(all[i as int]));
            }
        }
        i = i + 1;
    }
    proof {
        assert(all.subrange(0, i as int) =~= all);
    }
    out
}

/// The interfaces that may lead to receivers, the likeliest first; none where the
/// system cannot list its interfaces.
pub fn collect_lan_ipv4(list: Option<Vec<IfaceInfo>>) -> (out: Vec<LanIface>)
    ensures
        order::views(out@) == match list {
            Some(v) => lan_list(v@),
            None => Seq::empty(),
        },
{
    match list {
        Some(v) => {
            let found = settle(collect(&v));
            let sorted = order::arrange(found);
            drop_repeats(&sorted)
        },
        None => {
            let out: Vec<LanIface> = Vec::new();
            proof {
                assert(order::views(out@) =~= Seq::empty());
            }
            out
        },
    }
}

/// How many interfaces are searched by multicast.
pub const MDNS_INTERFACES: usize = 3;

/// The interfaces that are to be disabled where none is known to lead to receivers:
/// tunnels and virtual ones, each once.
pub open spec fn virtual_ones(names: Seq<Seq<char>>) -> Seq<Seq<char>>
    decreases names.len(),
{
    if names.len() == 0 {
        names
    } else {
        let before = virtual_ones(names.drop_last());
        let name = names.last();
        if !names.drop_last().contains(name) && is_virtual_name(text::unicode_lower(name)) {
            before.push(name)
        } else {
            before
        }
    }
}

/// The interfaces that are to be disabled where none is known to lead to receivers.
pub fn virtual_interfaces(names: &Vec<String>) -> (out: Vec<String>)
    ensures
        text::texts(out@) == virtual_ones(text::texts(names@)),
{
    let ghost all = text::texts(names@);
    let mut out: Vec<String> = Vec::new();
    let mut seen: Vec<String> = Vec::new();
    let mut i: usize = 0;
    proof {
        assert(text::texts(out@) =~= virtual_ones(all.subrange(0, 0)));
        assert(text::texts(seen@) =~= all.subrange(0, 0));
    }
    while i < names.len()
        invariant
            i <= names@.len(),
            all == text::texts(names@),
            text::texts(seen@) == all.subrange(0, i as int),
            text::texts(out@) == virtual_ones(all.subrange(0, i as int)),
        decreases names@.len() - i,
    {
        let ghost (o, s) = (out@, seen@);
        let name = &names[i];
        proof {
            assert(all.subrange(0, i + 1).drop_last() =~= all.subrange(0, i as int));
            assert(all.subrange(0, i + 1).last() == name@);
        }
        if !text::listed(&seen, name.as_str()) && is_vpn_or_virtual(name.as_str()) {
            out.push(name.clone());
            proof {
                assert(text::texts(out@) =~= text::texts(o).push(name@));
            }
        }
        seen.push(name.clone());
        proof {
            assert(text::texts(seen@) =~= all.subrange(0, i + 1));
        }
        i = i + 1;
    }
    proof {
        assert(all.subrange(0, i as int) =~= all);
    }
    out
}

proof fn lemma_candidates(list: Seq<IfaceInfo>)
    ensures
        forall|k: int|
            0 <= k < lan_candidates(list).len() ==> {
                let c = #[trigger] lan_candidates(list)[k];
                is_lan_address(c.ip) && !is_virtual_name(text::unicode_lower(c.name))
            },
    decreases list.len(),
{
    if list.len() > 0 {
        let before = lan_candidates(list.drop_last());
        lemma_candidates(list.drop_last());
        assert forall|k: int| 0 <= k < lan_candidates(list).len() implies {
            let c = #[trigger] lan_candidates(list)[k];
            is_lan_address(c.ip) && !is_virtual_name(text::unicode_lower(c.name))
        } by {
            if k < before.len() {
                assert(lan_candidates(list)[k] == before[k]);
            }
        }
    }
}

proof fn lemma_repeats(list: Seq<LanView>)
    ensures
        forall|k: int|
            0 <= k < without_repeats(list).len() ==> list.contains(
                #[trigger] without_repeats(list)[k],
            ),
    decreases list.len(),
{
    if list.len() > 0 {
        let front = list.drop_last();
        lemma_repeats(front);
        assert forall|k: int| 0 <= k < without_repeats(list).len() implies list.contains(
            #[trigger] without_repeats(list)[k],
        ) by {
            let before = without_repeats(front);
            if k < before.len() {
                let j = front.index_of(before[k]);
                assert(list[j] == before[k]);
            } else {
                assert(list[list.len() - 1] == list.last());
            }
        }
    }
}

proof fn lemma_filter(list: Seq<LanView>, stays: spec_fn(LanView) -> bool, x: LanView)
    requires
        list.filter(stays).contains(x),
    ensures
        list.contains(x),
    decreases list.len(),
{
    reveal(Seq::filter);
    if list.len() > 0 {
        let front = list.drop_last();
        let j = list.filter(stays).index_of(x);
        if j < front.filter(stays).len() {
            assert(front.filter(stays)[j] == x);
            lemma_filter(front, stays, x);
            let i = front.index_of(x);
            assert(list[i] == x);
        } else {
            assert(list[list.len() - 1] == x);
        }
    }
}

/// No search goes out over a tunnel, a virtual interface, or an address that is not
/// one of a home network.
pub proof fn searches_stay_in_the_lan(list: Seq<IfaceInfo>, k: int)
    requires
        0 <= k < lan_list(list).len(),
    ensures
        is_lan_address(lan_list(list)[k].ip),
        !is_virtual_name(text::unicode_lower(lan_list(list)[k].name)),
{
    let c = lan_candidates(list);
    let s = settled(c);
    let a = order::arranged::<LanIface>(s);
    lemma_candidates(list);
    lemma_repeats(a);
    order::sorting_keeps::<LanIface>(s);
    let x = lan_list(list)[k];
    assert(a.contains(x));
    assert(s.contains(x));
    assert(c.contains(x)) by {
        if exists|i: int| 0 <= i < c.len() && !is_self_given((#[trigger] c[i]).ip) {
            lemma_filter(c, |c: LanView| !is_self_given(c.ip), x);
        }
    }
    let j = c.index_of(x);
    assert(c[j] == x);
}

/// The addresses of a local network: those that are given out privately and those that
/// machines give themselves, and no other.
pub proof fn addresses_of_a_local_network(ip: Ipv4)
    ensures
        is_lan_address(ip) <==> ip.a == 10 || (ip.a == 172 && 16 <= ip.b <= 31) || (ip.a == 192
            && ip.b == 168) || (ip.a == 169 && ip.b == 254),
{
}

/// An interface in use is 20 likelier than one that is not, and a self-given address 40
/// less likely. A network 192.168 is likelier than 10, that than 172.16, and that than any
/// other.
pub proof fn what_makes_an_interface_likelier(lower: Seq<char>, ip: Ipv4, other: Ipv4)
    ensures
        forall|apipa: bool|
            score_of(lower, ip, apipa, true) == #[trigger] score_of(lower, ip, apipa, false) + 20,
        forall|up: bool|
            score_of(lower, ip, true, up) == #[trigger] score_of(lower, ip, false, up) - 40,
        forall|apipa: bool, up: bool|
            {
                &&& ip.a == 192 && ip.b == 168 && other.a == 10 ==> #[trigger] score_of(
                    lower,
                    ip,
                    apipa,
                    up,
                ) == score_of(lower, other, apipa, up) + 20
                &&& ip.a == 10 && other.a == 172 && 16 <= other.b <= 31 ==> score_of(
                    lower,
                    ip,
                    apipa,
                    up,
                ) == score_of(lower, other, apipa, up) + 20
                &&& ip.a == 172 && 16 <= ip.b <= 31 && other.a == 169 ==> score_of(
                    lower,
                    ip,
                    apipa,
                    up,
                ) == score_of(lower, other, apipa, up) + 10
            },
{
}

/// A wireless interface is likelier by 100 than one whose name says nothing, a wired one
/// by 80, and one whose name only hints at a wire by 60.
pub proof fn names_make_an_interface_likelier(
    lower: Seq<char>,
    plain: Seq<char>,
    ip: Ipv4,
    apipa: bool,
    up: bool,
)
    requires
        !text::has_text(plain, "wi-fi"@) && !text::has_text(plain, "wifi"@) && !text::has_text(
            plain,
            "wlan"@,
        ) && !text::has_text(plain, "wireless"@) && !text::has_text(plain, "беспровод"@),
        !text::has_text(plain, "ethernet"@) && !text::has_text(plain, "локальн"@)
            && !text::has_text(plain, "eth"@) && !text::has_text(plain, " lan "@)
            && !text::finishes_with(plain, " lan"@),
    ensures
        ({
            let more = score_of(lower, ip, apipa, up) - score_of(plain, ip, apipa, up);
            let wireless = text::has_text(lower, "wi-fi"@) || text::has_text(lower, "wifi"@)
                || text::has_text(lower, "wlan"@) || text::has_text(lower, "wireless"@)
                || text::has_text(lower, "беспровод"@);
            let wired = text::has_text(lower, "ethernet"@) || text::has_text(lower, "локальн"@);
            let hint = text::has_text(lower, "eth"@) || text::has_text(lower, " lan "@)
                || text::finishes_with(lower, " lan"@);
            &&& wireless && wired ==> more == 180
            &&& wireless && !wired && hint ==> more == 160
            &&& wireless && !wired && !hint ==> more == 100
            &&& !wireless && wired ==> more == 80
            &&& !wireless && !wired && hint ==> more == 60
            &&& !wireless && !wired && !hint ==> more == 0
        }),
{
}

/// An interface that leads into a tunnel or a virtual machine is known by a word in its
/// name, or by how its name begins.
pub proof fn virtual_interfaces_are_known_by_name(lower: Seq<char>)
    ensures
        text::has_text(lower, "vpn"@) || text::has_text(lower, "tunnel"@) || text::has_text(
            lower,
            "wireguard"@,
        ) || text::has_text(lower, "wintun"@) || text::has_text(lower, "amnezia"@)
            || text::has_text(lower, "outline"@) || text::has_text(lower, "nordlynx"@)
            || text::has_text(lower, "utun"@) || text::has_text(lower, "warp"@) || text::has_text(
            lower,
            "cloudflare"@,
        ) || text::has_text(lower, "zerotier"@) || text::has_text(lower, "tailscale"@)
            || text::has_text(lower, "hamachi"@) || text::has_text(lower, "radmin"@)
            || text::has_text(lower, "softether"@) ==> is_virtual_name(lower),
        text::has_text(lower, "nordvpn"@) || text::has_text(lower, "openvpn"@) || text::has_text(
            lower,
            "tap-windows"@,
        ) || text::has_text(lower, "tap-win"@) || text::has_text(lower, "bravetunnel"@)
            ==> is_virtual_name(lower),
        text::has_text(lower, "vethernet"@) || text::has_text(lower, "hyper-v"@) || text::has_text(
            lower,
            "virtualbox"@,
        ) || text::has_text(lower, "vmware"@) || text::has_text(lower, "vmnet"@)
            || text::has_text(lower, "wsl"@) || text::has_text(lower, "docker"@)
            ==> is_virtual_name(lower),
        text::has_text(lower, "npcap"@) || text::has_text(lower, "loopback"@) || text::has_text(
            lower,
            "bluetooth"@,
        ) || text::has_text(lower, "isatap"@) || text::has_text(lower, "teredo"@)
            || text::has_text(lower, "microsoft wi-fi direct"@) ==> is_virtual_name(lower),
        text::begins_with(lower, "tap"@) || text::begins_with(lower, "tun"@) || text::begins_with(
            lower,
            "wg"@,
        ) || text::begins_with(lower, "awg"@) ==> is_virtual_name(lower),
        virtual_words().len() == 33,
{
    let w = virtual_words();
    assert forall|i: int| 0 <= i < w.len() && text::has_text(lower, #[trigger] w[i]) implies is_virtual_name(
    lower) by {}
    assert(w[0] == "amnezia"@ && w[1] == "wintun"@ && w[2] == "wireguard"@ && w[3] == "outline"@);
    assert(w[4] == "nordlynx"@ && w[5] == "nordvpn"@ && w[6] == "openvpn"@ && w[7]
        == "tap-windows"@);
    assert(w[8] == "tap-win"@ && w[9] == "tunnel"@ && w[10] == "vpn"@ && w[11] == "utun"@);
    assert(w[12] == "warp"@ && w[13] == "cloudflare"@ && w[14] == "zerotier"@ && w[15]
        == "tailscale"@);
    assert(w[16] == "hamachi"@ && w[17] == "radmin"@ && w[18] == "softether"@ && w[19]
        == "vethernet"@);
    assert(w[20] == "hyper-v"@ && w[21] == "virtualbox"@ && w[22] == "vmware"@ && w[23]
        == "vmnet"@);
    assert(w[24] == "wsl"@ && w[25] == "docker"@ && w[26] == "bravetunnel"@ && w[27] == "npcap"@);
    assert(w[28] == "loopback"@ && w[29] == "bluetooth"@ && w[30] == "isatap"@ && w[31]
        == "teredo"@);
    assert(w[32] == "microsoft wi-fi direct"@);
}

/// Which interface may lead to receivers: one of the local network that is neither the
/// machine's own nor virtual, under its name and address.
pub proof fn which_interface_may_lead_to_receivers(i: IfaceInfo)
    ensures
        candidate(i) is Some <==> !i.loopback && !is_virtual_name(text::unicode_lower(i.name@)) && (
        i.v4 matches Some(ip) && is_lan_address(ip)),
        candidate(i) matches Some(c) ==> {
            &&& c.name == i.name@
            &&& i.v4 == Some(c.ip)
            &&& c.score == score_of(
                text::unicode_lower(i.name@),
                c.ip,
                c.ip.a == 169 && c.ip.b == 254,
                i.oper_up,
            )
        },
{
}

/// The order of interfaces is one.
proof fn lemma_lan_order()
    ensures
        order::rank_is_an_order::<LanIface>(),
{
    assert forall|a: LanView, b: LanView| #[trigger]
        LanIface::ranks_before(a, b) implies !LanIface::ranks_before(b, a) by {
        text::precedes_is_total(a.name, b.name);
    }
    assert forall|a: LanView, b: LanView, c: LanView|
        !(#[trigger] LanIface::ranks_before(a, b)) && !(#[trigger] LanIface::ranks_before(
            b,
            c,
        )) implies !LanIface::ranks_before(a, c) by {
        text::precedes_is_total(a.name, b.name);
        text::precedes_is_total(b.name, c.name);
        text::precedes_is_total(a.name, c.name);
        if text::precedes(c.name, b.name) && text::precedes(b.name, a.name) {
            text::precedes_is_transitive(c.name, b.name, a.name);
        }
    }
}

proof fn lemma_repeats_keep_order(list: Seq<LanView>)
    requires
        order::in_order::<LanIface>(list),
    ensures
        order::in_order::<LanIface>(without_repeats(list)),
        forall|k: int|
            0 < k < without_repeats(list).len() ==> (#[trigger] without_repeats(list)[k]).name
                != without_repeats(list)[k - 1].name,
    decreases list.len(),
{
    if list.len() > 0 {
        let front = list.drop_last();
        assert forall|i: int, j: int| 0 <= i < j < front.len() implies !LanIface::ranks_before(
            #[trigger] front[j],
            #[trigger] front[i],
        ) by {
            assert(front[i] == list[i] && front[j] == list[j]);
        }
        lemma_repeats_keep_order(front);
        lemma_repeats(front);
        let before = without_repeats(front);
        let r = without_repeats(list);
        assert forall|i: int, j: int| 0 <= i < j < r.len() implies !LanIface::ranks_before(
            #[trigger] r[j],
            #[trigger] r[i],
        ) by {
            if j < before.len() {
                assert(r[i] == before[i] && r[j] == before[j]);
            } else {
                assert(front.contains(before[i]));
                let k = front.index_of(before[i]);
                assert(list[k] == r[i]);
                assert(list[list.len() - 1] == r[j]);
            }
        }
        assert forall|k: int| 0 < k < r.len() implies (#[trigger] r[k]).name != r[k - 1].name by {
            if k < before.len() {
                assert(r[k] == before[k] && r[k - 1] == before[k - 1]);
            }
        }
    }
}

proof fn lemma_repeats_keep_names(list: Seq<LanView>, i: int)
    requires
        0 <= i < list.len(),
    ensures
        exists|k: int|
            0 <= k < without_repeats(list).len() && (#[trigger] without_repeats(list)[k]).name
                == list[i].name,
    decreases list.len(),
{
    let front = list.drop_last();
    let before = without_repeats(front);
    let r = without_repeats(list);
    if i < front.len() {
        lemma_repeats_keep_names(front, i);
        let k = choose|k: int|
            0 <= k < before.len() && (#[trigger] before[k]).name == front[i].name;
        assert(r[k] == before[k]);
    } else {
        assert(r[r.len() - 1].name == list[i].name);
    }
}

proof fn lemma_candidate_stands(list: Seq<IfaceInfo>, i: int)
    requires
        0 <= i < list.len(),
        candidate(list[i]) is Some,
    ensures
        lan_candidates(list).contains(candidate(list[i])->0),
    decreases list.len(),
{
    let front = list.drop_last();
    let before = lan_candidates(front);
    let r = lan_candidates(list);
    if i < front.len() {
        lemma_candidate_stands(front, i);
        let k = before.index_of(candidate(list[i])->0);
        assert(r[k] == before[k]);
    } else {
        assert(r[r.len() - 1] == candidate(list[i])->0);
    }
}

/// The likeliest interface comes first, those that are as likely by name, and none twice
/// in a row.
pub proof fn the_likeliest_interface_comes_first(list: Seq<IfaceInfo>, i: int, j: int)
    requires
        0 <= i < j < lan_list(list).len(),
    ensures
        lan_list(list)[i].score >= lan_list(list)[j].score,
        lan_list(list)[i].score == lan_list(list)[j].score ==> !text::precedes(
            lan_list(list)[j].name,
            lan_list(list)[i].name,
        ),
        j == i + 1 ==> lan_list(list)[i].name != lan_list(list)[j].name,
{
    let s = settled(lan_candidates(list));
    lemma_lan_order();
    order::sorting_orders::<LanIface>(s);
    lemma_repeats_keep_order(order::arranged::<LanIface>(s));
    let r = lan_list(list);
    assert(!LanIface::ranks_before(r[j], r[i]));
}

/// An interface of the local network whose address was not self-given is listed, and where
/// there is one no other with a self-given address is.
pub proof fn proper_interfaces_are_listed(list: Seq<IfaceInfo>, i: int)
    requires
        0 <= i < list.len(),
        candidate(list[i]) is Some,
        list[i].v4 matches Some(ip) && !(ip.a == 169 && ip.b == 254),
    ensures
        exists|k: int|
            0 <= k < lan_list(list).len() && (#[trigger] lan_list(list)[k]).name == list[i].name@,
        forall|k: int|
            0 <= k < lan_list(list).len() ==> !((#[trigger] lan_list(list)[k]).ip.a == 169
                && lan_list(list)[k].ip.b == 254),
{
    let c = lan_candidates(list);
    let x = candidate(list[i])->0;
    lemma_candidate_stands(list, i);
    let n = c.index_of(x);
    assert(!is_self_given(c[n].ip));
    let stays = |c: LanView| !is_self_given(c.ip);
    let s = settled(c);
    assert(s == c.filter(stays));
    crate::personal_data::moves::lemma_filtered(c, stays);
    assert(s.contains(x));
    let a = order::arranged::<LanIface>(s);
    order::sorting_keeps::<LanIface>(s);
    assert(a.contains(x));
    let m = a.index_of(x);
    lemma_repeats_keep_names(a, m);
    let at = choose|k: int|
        0 <= k < without_repeats(a).len() && (#[trigger] without_repeats(a)[k]).name == a[m].name;
    assert(lan_list(list)[at].name == list[i].name@);
    lemma_repeats(a);
    assert forall|k: int| 0 <= k < lan_list(list).len() implies !((
    #[trigger] lan_list(list)[k]).ip.a == 169 && lan_list(list)[k].ip.b == 254) by {
        let y = lan_list(list)[k];
        assert(a.contains(y));
        assert(s.contains(y));
        assert(stays(y));
    }
}

/// The interfaces to be disabled are the virtual ones among the given, each once.
pub proof fn virtual_interfaces_are_named_once(names: Seq<Seq<char>>, name: Seq<char>)
    ensures
        virtual_ones(names).contains(name) <==> names.contains(name) && is_virtual_name(
            text::unicode_lower(name),
        ),
        virtual_ones(names).no_duplicates(),
    decreases names.len(),
{
    if names.len() > 0 {
        let front = names.drop_last();
        let before = virtual_ones(front);
        let r = virtual_ones(names);
        let x = names.last();
        virtual_interfaces_are_named_once(front, name);
        virtual_interfaces_are_named_once(front, x);
        assert(names.contains(name) <==> front.contains(name) || name == x) by {
            if front.contains(name) {
                assert(names[front.index_of(name)] == name);
            }
            if name == x {
                assert(names[names.len() - 1] == name);
            }
            if names.contains(name) && name != x {
                assert(front[names.index_of(name)] == name);
            }
        }
        if r.len() > before.len() {
            assert(r == before.push(x));
            assert(r.contains(name) <==> before.contains(name) || name == x) by {
                if before.contains(name) {
                    assert(r[before.index_of(name)] == name);
                }
                if name == x {
                    assert(r[before.len() as int] == name);
                }
                if r.contains(name) && name != x {
                    assert(before[r.index_of(name)] == name);
                }
            }
            assert forall|i: int, j: int|
                0 <= i < r.len() && 0 <= j < r.len() && i != j implies r[i] != r[j] by {
                if i < before.len() && j < before.len() {
                    assert(before[i] != before[j]);
                } else if i < before.len() {
                    assert(before.contains(before[i]));
                } else {
                    assert(before.contains(before[j]));
                }
            }
        }
    }
}

} // verus!
