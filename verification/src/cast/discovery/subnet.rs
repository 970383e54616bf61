//! Receivers that answer when each address of the network is tried.

use super::eureka;
use super::lan::{Ipv4, LanIface, LanView};
use super::DiscoveredDevice;
use crate::order;
use crate::text;
use vstd::arithmetic::div_mod::{lemma_fundamental_div_mod, lemma_fundamental_div_mod_converse};
use vstd::prelude::*;

verus! {

/// How many addresses are tried at a time.
pub const SCAN_WORKERS: usize = 64;

/// How long an address is waited for, in milliseconds.
pub const TCP_PROBE_TIMEOUT_MS: u64 = 180;

/// Two addresses of one network of 256.
pub open spec fn same_net(a: Ipv4, b: Ipv4) -> bool {
    a.a == b.a && a.b == b.b && a.c == b.c
}

/// An address of the network of `ip`.
pub open spec fn neighbour(ip: Ipv4, host: int) -> Ipv4 {
    Ipv4 { a: ip.a, b: ip.b, c: ip.c, d: host as u8 }
}

/// The addresses from 1 up to `last` of the network of `ip`, but for `ip` itself.
pub open spec fn neighbours(ip: Ipv4, last: nat) -> Seq<Ipv4>
    decreases last,
{
    if last == 0 {
        Seq::empty()
    } else {
        let before = neighbours(ip, (last - 1) as nat);
        if ip.d == last {
            before
        } else {
            before.push(neighbour(ip, last as int))
        }
    }
}

/// An interface among the first `n` is in the network of `ip`.
pub open spec fn net_is_known(lan: Seq<LanView>, ip: Ipv4) -> bool {
    exists|i: int| 0 <= i < lan.len() && same_net((#[trigger] lan[i]).ip, ip)
}

/// The addresses to try: of each network all but the machine's own.
pub open spec fn targets_of(lan: Seq<LanView>) -> Seq<Ipv4>
    decreases lan.len(),
{
    if lan.len() == 0 {
        Seq::empty()
    } else {
        let before = targets_of(lan.drop_last());
        if net_is_known(lan.drop_last(), lan.last().ip) {
            before
        } else {
            before + neighbours(lan.last().ip, 254)
        }
    }
}

fn net_known(lan: &Vec<LanIface>, n: usize, ip: Ipv4) -> (r: bool)
    requires
        n <= lan@.len(),
    ensures
        r == net_is_known(order::views(lan@).subrange(0, n as int), ip),
{
    let ghost front = order::views(lan@).subrange(0, n as int);
    let mut i: usize = 0;
    while i < n
        invariant
            i <= n <= lan@.len(),
            front == order::views(lan@).subrange(0, n as int),
            forall|k: int| 0 <= k < i ==> !same_net((#[trigger] front[k]).ip, ip),
        decreases n - i,
    {
        proof {
            assert(front[i as int] == lan@[i as int]@);
        }
        let other = lan[i].ip;
        if other.a == ip.a && other.b == ip.b && other.c == ip.c {
            return true;
        }
        i = i + 1;
    }
    false
}

/// The addresses to try: of each network all but the machine's own.
pub fn scan_targets(lan: &Vec<LanIface>) -> (targets: Vec<Ipv4>)
    ensures
        targets@ == targets_of(order::views(lan@)),
{
    let ghost all = order::views(lan@);
    let mut targets: Vec<Ipv4> = Vec::new();
    let mut i: usize = 0;
    proof {
        assert(targets@ =~= targets_of(all.subrange(0, 0)));
    }
    while i < lan.len()
        invariant
            i <= lan@.len(),
            all == order::views(lan@),
            targets@ == targets_of(all.subrange(0, i as int)),
        decreases lan@.len() - i,
    {
        let ip = lan[i].ip;
        let ghost before = targets@;
        proof {
            assert(all.subrange(0, i + 1).drop_last() =~= all.subrange(0, i as int));
            assert(all.subrange(0, i + 1).last() == lan@[i as int]@);
        }
        if !net_known(lan, i, ip) {
            let mut host: u8 = 1;
            proof {
                assert(targets@ =~= before + neighbours(ip, 0));
            }
            while host < 255
                invariant
                    1 <= host <= 255,
                    targets@ == before + neighbours(ip, (host - 1) as nat),
                decreases 255 - host,
            {
                if ip.d != host {
                    targets.push(Ipv4 { a: ip.a, b: ip.b, c: ip.c, d: host });
                    proof {
                        assert(targets@ =~= before + neighbours(ip, host as nat));
                    }
                }
                host = host + 1;
            }
        }
        i = i + 1;
    }
    proof {
        assert(all.subrange(0, i as int) =~= all);
    }
    targets
}

/// How many addresses each worker tries: the fewest that leave no more shares than
/// there are workers.
pub open spec fn share_size(n: int) -> int {
    let workers = if n < SCAN_WORKERS {
        n
    } else {
        SCAN_WORKERS as int
    };
    (n + workers - 1) / workers
}

/// How many shares there are.
pub open spec fn share_count(n: int) -> int {
    if n == 0 {
        0
    } else {
        (n + share_size(n) - 1) / share_size(n)
    }
}

/// The `k`th share begins here.
pub open spec fn share_start(n: int, k: int) -> int {
    if k >= share_count(n) {
        n
    } else {
        k * share_size(n)
    }
}

/// The `k`th share of the addresses.
pub open spec fn share(targets: Seq<Ipv4>, k: int) -> Seq<Ipv4> {
    targets.subrange(share_start(targets.len() as int, k), share_start(targets.len() as int, k + 1))
}

/// The shares hold these addresses in this order.
pub open spec fn are_shares(shares: Seq<Vec<Ipv4>>, targets: Seq<Ipv4>) -> bool {
    &&& shares.len() == share_count(targets.len() as int)
    &&& forall|k: int| 0 <= k < shares.len() ==> (#[trigger] shares[k])@ == share(targets, k)
}

proof fn lemma_shares(n: int)
    requires
        n > 0,
    ensures
        1 <= share_size(n) <= n,
        1 <= share_count(n) <= SCAN_WORKERS,
        (share_count(n) - 1) * share_size(n) < n <= share_count(n) * share_size(n),
{
    let w = if n < SCAN_WORKERS {
        n
    } else {
        SCAN_WORKERS as int
    };
    let s = share_size(n);
    let c = share_count(n);
    lemma_fundamental_div_mod(n + w - 1, w);
    lemma_fundamental_div_mod(n + s - 1, s);
    assert(s >= 1 && s <= n) by (nonlinear_arith)
        requires
            w >= 1,
            w <= n,
            n + w - 1 == w * s + (n + w - 1) % w,
            0 <= (n + w - 1) % w < w,
    ;
    let r = (n + s - 1) % s;
    assert(n + s - 1 == s * c + r);
    assert((c - 1) * s < n <= c * s) by (nonlinear_arith)
        requires
            n + s - 1 == s * c + r,
            0 <= r < s,
    ;
    assert(w * s >= n) by (nonlinear_arith)
        requires
            n + w - 1 == w * s + (n + w - 1) % w,
            0 <= (n + w - 1) % w < w,
    ;
    assert(c <= w) by (nonlinear_arith)
        requires
            (c - 1) * s < n,
            w * s >= n,
            s >= 1,
    ;
    assert(c >= 1) by (nonlinear_arith)
        requires
            n <= c * s,
            n >= 1,
            s >= 1,
    ;
}

proof fn lemma_share_size(n: int, w: int)
    requires
        1 <= w <= n,
    ensures
        (n + w - 1) / w == n / w + (if n % w == 0 {
            0int
        } else {
            1
        }),
{
    let q = n / w;
    let r = n % w;
    lemma_fundamental_div_mod(n, w);
    if r == 0 {
        assert(n + w - 1 == q * w + (w - 1)) by (nonlinear_arith)
            requires
                n == w * q + r,
                r == 0,
        ;
        lemma_fundamental_div_mod_converse(n + w - 1, w, q, w - 1);
    } else {
        assert(n + w - 1 == (q + 1) * w + (r - 1)) by (nonlinear_arith)
            requires
                n == w * q + r,
        ;
        lemma_fundamental_div_mod_converse(n + w - 1, w, q + 1, r - 1);
    }
}

/// The addresses in as many shares as there are workers, or fewer.
pub fn scan_shares(targets: &Vec<Ipv4>) -> (shares: Vec<Vec<Ipv4>>)
    ensures
        are_shares(shares@, targets@),
{
    let n: usize = targets.len();
    let mut shares: Vec<Vec<Ipv4>> = Vec::new();
    if n == 0 {
        return shares;
    }
    let workers: usize = if n < SCAN_WORKERS {
        n
    } else {
        SCAN_WORKERS
    };
    let whole: usize = n / workers;
    let rest: usize = n % workers;
    proof {
        lemma_shares(n as int);
        lemma_share_size(n as int, workers as int);
    }
    let size: usize = if rest == 0 {
        whole
    } else {
        whole + 1
    };
    let mut from: usize = 0;
    while from < n
        invariant
            n == targets@.len() > 0,
            size == share_size(n as int),
            1 <= size <= n,
            from <= n,
            (share_count(n as int) - 1) * size < n <= share_count(n as int) * size,
            shares@.len() <= share_count(n as int),
            from == share_start(n as int, shares@.len() as int),
            forall|k: int|
                0 <= k < shares@.len() ==> (#[trigger] shares@[k])@ == share(targets@, k),
        decreases n - from,
    {
        let ghost k = shares@.len() as int;
        let ghost c = share_count(n as int);
        let step: usize = if n - from < size {
            n - from
        } else {
            size
        };
        let to: usize = from + step;
        proof {
            assert(k < c);
            assert((k + 1) * size == k * size + size) by (nonlinear_arith);
            if k + 1 < c {
                assert((k + 1) * size <= (c - 1) * size) by (nonlinear_arith)
                    requires
                        k + 1 <= c - 1,
                        size >= 1,
                ;
            } else {
                assert((k + 1) * size == c * size);
            }
            assert(to == share_start(n as int, k + 1));
        }
        let mut part: Vec<Ipv4> = Vec::new();
        let mut i: usize = from;
        while i < to
            invariant
                from <= i <= to <= targets@.len(),
                part@ == targets@.subrange(from as int, i as int),
            decreases to - i,
        {
            part.push(targets[i]);
            i = i + 1;
            proof {
                assert(part@ =~= targets@.subrange(from as int, i as int));
            }
        }
        shares.push(part);
        from = to;
    }
    proof {
        let k = shares@.len() as int;
        let c = share_count(n as int);
        if k < c {
            assert(k * size <= (c - 1) * size) by (nonlinear_arith)
                requires
                    k <= c - 1,
                    size >= 1,
            ;
        }
    }
    shares
}

/// The receiver at an address: none where its port is closed, else what it said of
/// itself, as far as a reply came.
pub fn probe_cast_host(open: bool, reply: Option<Vec<u8>>, ip: Ipv4) -> (d: Option<
    DiscoveredDevice,
>)
    ensures
        d is Some == open,
        match (d, reply) {
            (Some(d), Some(bytes)) => d@ == eureka::answered(
                match eureka::reply_body(text::lossy_utf8(bytes@)) {
                    Some(body) => eureka::body_info(body, ip),
                    None => None,
                },
                ip,
            ),
            (Some(d), None) => d@ == eureka::answered(None, ip),
            (None, _) => true,
        },
        d matches Some(d) ==> d.host@ == super::lan::address_text(ip) && d.port == 8009,
{
    if !open {
        return None;
    }
    let info = match reply {
        Some(bytes) => eureka::fetch_eureka(&bytes, ip),
        None => None,
    };
    Some(eureka::eureka_fallback(info, ip))
}

proof fn lemma_neighbours(ip: Ipv4, last: nat)
    requires
        last < 256,
    ensures
        neighbours(ip, last).no_duplicates(),
        forall|t: Ipv4| #[trigger]
            neighbours(ip, last).contains(t) <==> same_net(t, ip) && 1 <= t.d <= last && t.d
                != ip.d,
    decreases last,
{
    let s = neighbours(ip, last);
    if last > 0 {
        let before = neighbours(ip, (last - 1) as nat);
        lemma_neighbours(ip, (last - 1) as nat);
        let x = neighbour(ip, last as int);
        if ip.d != last {
            assert(s == before.push(x));
            assert forall|t: Ipv4| #[trigger] s.contains(t) <==> same_net(t, ip) && 1 <= t.d
                <= last && t.d != ip.d by {
                if s.contains(t) {
                    let i = s.index_of(t);
                    if i < before.len() {
                        assert(before[i] == t);
                        assert(before.contains(t));
                    }
                }
                if same_net(t, ip) && 1 <= t.d <= last && t.d != ip.d {
                    if t.d == last {
                        assert(s[s.len() - 1] == t);
                    } else {
                        assert(before.contains(t));
                        let i = before.index_of(t);
                        assert(s[i] == t);
                    }
                }
            }
            assert forall|i: int, j: int| 0 <= i < j < s.len() implies s[i] != s[j] by {
                if j == s.len() - 1 {
                    assert(before.contains(before[i]));
                } else {
                    assert(before[i] != before[j]);
                }
            }
        } else {
            assert forall|t: Ipv4| #[trigger] s.contains(t) <==> same_net(t, ip) && 1 <= t.d
                <= last && t.d != ip.d by {
                assert(before.contains(t) <==> same_net(t, ip) && 1 <= t.d <= last - 1 && t.d
                    != ip.d);
            }
        }
    }
}

/// An address is tried only in the network of an interface.
proof fn lemma_targets(lan: Seq<LanView>, t: Ipv4)
    requires
        targets_of(lan).contains(t),
    ensures
        net_is_known(lan, t),
        1 <= t.d <= 254,
    decreases lan.len(),
{
    if lan.len() > 0 {
        let front = lan.drop_last();
        let before = targets_of(front);
        let ip = lan.last().ip;
        let i = targets_of(lan).index_of(t);
        if i < before.len() {
            assert(before[i] == t);
            lemma_targets(front, t);
            let k = choose|k: int| 0 <= k < front.len() && same_net((#[trigger] front[k]).ip, t);
            assert(lan[k] == front[k]);
        } else {
            lemma_neighbours(ip, 254);
            assert(neighbours(ip, 254)[i - before.len()] == t);
            assert(neighbours(ip, 254).contains(t));
            assert(lan[lan.len() - 1].ip == ip);
        }
    }
}

/// No address is tried twice.
pub proof fn each_address_is_tried_once(lan: Seq<LanView>)
    ensures
        targets_of(lan).no_duplicates(),
    decreases lan.len(),
{
    if lan.len() > 0 {
        let front = lan.drop_last();
        let before = targets_of(front);
        let ip = lan.last().ip;
        each_address_is_tried_once(front);
        lemma_neighbours(ip, 254);
        let s = targets_of(lan);
        if !net_is_known(front, ip) {
            let more = neighbours(ip, 254);
            assert forall|i: int, j: int| 0 <= i < j < s.len() implies s[i] != s[j] by {
                if j < before.len() {
                    assert(before[i] != before[j]);
                } else if i >= before.len() {
                    assert(more[i - before.len()] != more[j - before.len()]);
                } else {
                    assert(before.contains(s[i]));
                    assert(more[j - before.len()] == s[j]);
                    assert(more.contains(s[j]));
                    lemma_targets(front, s[i]);
                    if s[i] == s[j] {
                        let k = choose|k: int|
                            0 <= k < front.len() && same_net((#[trigger] front[k]).ip, s[i]);
                        assert(same_net(front[k].ip, ip));
                    }
                }
            }
        }
    }
}

/// The first interface in the network of an address.
pub open spec fn first_in_net(lan: Seq<LanView>, t: Ipv4) -> Option<LanView>
    decreases lan.len(),
{
    if lan.len() == 0 {
        None
    } else {
        match first_in_net(lan.drop_last(), t) {
            Some(i) => Some(i),
            None => if same_net(lan.last().ip, t) {
                Some(lan.last())
            } else {
                None
            },
        }
    }
}

proof fn lemma_first_in_net(lan: Seq<LanView>, t: Ipv4)
    ensures
        first_in_net(lan, t) is Some == net_is_known(lan, t),
        first_in_net(lan, t) matches Some(i) ==> same_net(i.ip, t),
    decreases lan.len(),
{
    if lan.len() > 0 {
        let front = lan.drop_last();
        lemma_first_in_net(front, t);
        assert(lan[lan.len() - 1] == lan.last());
        if net_is_known(front, t) {
            let k = choose|k: int| 0 <= k < front.len() && same_net((#[trigger] front[k]).ip, t);
            assert(same_net(lan[k].ip, t));
        }
        if net_is_known(lan, t) {
            let k = choose|k: int| 0 <= k < lan.len() && same_net((#[trigger] lan[k]).ip, t);
            if k < front.len() {
                assert(same_net(front[k].ip, t));
            }
        }
    }
}

/// Receivers are found though multicast does not reach them: of every network that an
/// interface is in, all addresses are tried but the first, the last, and that of the
/// first interface there; and no others.
pub proof fn exactly_the_neighbours_are_tried(lan: Seq<LanView>, t: Ipv4)
    ensures
        targets_of(lan).contains(t) == (first_in_net(lan, t) matches Some(i) && i.ip != t && 1
            <= t.d <= 254),
    decreases lan.len(),
{
    if lan.len() > 0 {
        let front = lan.drop_last();
        let before = targets_of(front);
        let ip = lan.last().ip;
        let more = neighbours(ip, 254);
        exactly_the_neighbours_are_tried(front, t);
        lemma_first_in_net(front, t);
        lemma_first_in_net(front, ip);
        lemma_neighbours(ip, 254);
        if same_net(ip, t) {
            if net_is_known(front, ip) {
                let k = choose|k: int|
                    0 <= k < front.len() && same_net((#[trigger] front[k]).ip, ip);
                assert(same_net(front[k].ip, t));
            }
            if net_is_known(front, t) {
                let k = choose|k: int|
                    0 <= k < front.len() && same_net((#[trigger] front[k]).ip, t);
                assert(same_net(front[k].ip, ip));
            }
        }
        if !net_is_known(front, ip) {
            let all = before + more;
            assert(targets_of(lan) == all);
            assert(all.contains(t) == (before.contains(t) || more.contains(t))) by {
                if all.contains(t) {
                    let i = all.index_of(t);
                    if i < before.len() {
                        assert(before[i] == t);
                    } else {
                        assert(more[i - before.len()] == t);
                    }
                }
                if before.contains(t) {
                    let i = before.index_of(t);
                    assert(all[i] == t);
                }
                if more.contains(t) {
                    let i = more.index_of(t);
                    assert(all[before.len() + i] == t);
                }
            }
        }
    }
}

/// Every address is in one share, and there are no more shares than workers.
pub proof fn every_target_has_a_worker(targets: Seq<Ipv4>, i: int)
    requires
        0 <= i < targets.len(),
    ensures
        share_count(targets.len() as int) <= SCAN_WORKERS,
        ({
            let n = targets.len() as int;
            let k = i / share_size(n);
            0 <= k < share_count(n) && share_start(n, k) <= i < share_start(n, k + 1)
                && share(targets, k)[i - share_start(n, k)] == targets[i]
        }),
{
    let n = targets.len() as int;
    let s = share_size(n);
    let c = share_count(n);
    let k = i / s;
    lemma_shares(n);
    lemma_fundamental_div_mod(i, s);
    assert(0 <= k < c) by (nonlinear_arith)
        requires
            i == s * k + i % s,
            0 <= i % s < s,
            0 <= i < n,
            n <= c * s,
            s >= 1,
    ;
    assert(k * s <= i < (k + 1) * s) by (nonlinear_arith)
        requires
            i == s * k + i % s,
            0 <= i % s < s,
    ;
    if k + 1 < c {
        assert((k + 1) * s <= (c - 1) * s) by (nonlinear_arith)
            requires
                k + 1 <= c - 1,
                s >= 1,
        ;
    }
}

/// An address that is tried is in the network of an interface, that is, it differs from
/// its address in the last number alone, and is neither the first nor the last of it.
pub proof fn only_neighbours_are_tried(lan: Seq<LanView>, t: Ipv4)
    requires
        targets_of(lan).contains(t),
    ensures
        1 <= t.d <= 254,
        exists|i: int|
            {
                &&& 0 <= i < lan.len()
                &&& (#[trigger] lan[i]).ip.a == t.a
                &&& lan[i].ip.b == t.b
                &&& lan[i].ip.c == t.c
            },
{
    lemma_targets(lan, t);
    let i = choose|i: int| 0 <= i < lan.len() && same_net((#[trigger] lan[i]).ip, t);
    assert(lan[i].ip.a == t.a);
}

/// The 253 neighbours of a single interface are tried.
pub proof fn all_neighbours_of_an_interface_are_tried(i: LanView, t: Ipv4)
    requires
        t.a == i.ip.a && t.b == i.ip.b && t.c == i.ip.c,
        1 <= t.d <= 254,
        t.d != i.ip.d,
    ensures
        targets_of(seq![i]).contains(t),
        !targets_of(seq![i]).contains(i.ip),
{
    let lan = seq![i];
    assert(lan.drop_last() =~= Seq::empty());
    exactly_the_neighbours_are_tried(lan, t);
    exactly_the_neighbours_are_tried(lan, i.ip);
    assert(first_in_net(lan.drop_last(), t) is None);
    assert(first_in_net(lan.drop_last(), i.ip) is None);
}

/// Up to sixty-four addresses are tried by a worker each, and with more of them there are
/// never more than sixty-four workers, none of which has more than its part.
pub proof fn at_most_sixty_four_work_at_a_time(targets: Seq<Ipv4>, k: int)
    requires
        targets.len() > 0,
        0 <= k < share_count(targets.len() as int),
    ensures
        share_count(targets.len() as int) <= 64,
        targets.len() <= 64 ==> share(targets, k) == seq![targets[k]],
        targets.len() > 64 ==> share(targets, k).len() <= (targets.len() + 63) / 64,
        share(targets, k).len() > 0,
{
    let n = targets.len() as int;
    let s = share_size(n);
    let c = share_count(n);
    lemma_shares(n);
    if n <= 64 {
        assert(s == 1) by {
            lemma_fundamental_div_mod_converse(n + n - 1, n, 1, n - 1);
        }
        assert((n + s - 1) / s == n) by (nonlinear_arith)
            requires
                s == 1,
        ;
        assert(c == n);
        assert(k * s == k && (k + 1) * s == k + 1) by (nonlinear_arith)
            requires
                s == 1,
        ;
        assert(share_start(n, k) == k);
        assert(share_start(n, k + 1) == k + 1);
        assert(targets.subrange(k, k + 1) =~= seq![targets[k]]);
        assert(share(targets, k) =~= seq![targets[k]]);
    } else {
        assert(share_start(n, k) == k * s);
        assert((k + 1) * s == k * s + s) by (nonlinear_arith);
        assert(k < c - 1 ==> share_start(n, k + 1) == k * s + s);
        assert(k == c - 1 ==> share_start(n, k + 1) == n);
        assert(k * s < n && k * s >= 0) by (nonlinear_arith)
            requires
                0 <= k <= c - 1,
                s >= 1,
                (c - 1) * s < n,
        ;
        assert(k < c - 1 ==> k * s + s <= n) by (nonlinear_arith)
            requires
                s >= 1,
                (c - 1) * s < n,
                (k + 1) * s == k * s + s,
        ;
        assert(k == c - 1 ==> n <= k * s + s) by (nonlinear_arith)
            requires
                n <= c * s,
                (k + 1) * s == k * s + s,
        ;
    }
}

} // verus!
