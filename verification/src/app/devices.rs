//! The outputs: how they are searched for, listed and selected.

use super::play;
use super::state;
use super::state::{ActionView, AppAction, AppView, Flags, Lists, ListsView, RockCastApp};
use super::words::{Phrase, PhraseView};
use crate::order;
use crate::output::{OutputDevice, OutputView};
use crate::text;
use vstd::prelude::*;

verus! {

/// Two reports of one output.
pub open spec fn is_same(a: OutputView, b: OutputView) -> bool {
    match (a, b) {
        (OutputView::Local(x), OutputView::Local(y)) => x.id == y.id,
        (OutputView::Cast(x), OutputView::Cast(y)) => x.host == y.host,
        _ => false,
    }
}

/// Whether two reports are of one output: of one identity on this computer, or of one
/// host in the network.
pub fn same_output_device(left: &OutputDevice, right: &OutputDevice) -> (r: bool)
    ensures
        r == is_same(left@, right@),
        r ==> (left is Local <==> right is Local),
        left matches OutputDevice::Local(x) ==> (right matches OutputDevice::Local(y) ==> (r
            <==> x.id@ == y.id@)),
        left matches OutputDevice::Cast(x) ==> (right matches OutputDevice::Cast(y) ==> (r
            <==> x.discovered.host@ == y.discovered.host@)),
{
    match (left, right) {
        (OutputDevice::Local(a), OutputDevice::Local(b)) => text::same(
            a.id.as_str(),
            b.id.as_str(),
        ),
        (OutputDevice::Cast(a), OutputDevice::Cast(b)) => text::same(
            a.discovered.host.as_str(),
            b.discovered.host.as_str(),
        ),
        _ => false,
    }
}

/// The first element of which something holds.
pub open spec fn first_where<A>(s: Seq<A>, p: spec_fn(A) -> bool) -> Option<usize>
    decreases s.len(),
{
    if s.len() == 0 {
        None
    } else {
        match first_where(s.drop_last(), p) {
            Some(i) => Some(i),
            None => if p(s.last()) {
                Some((s.len() - 1) as usize)
            } else {
                None
            },
        }
    }
}

/// The first element is where it is said to be.
pub proof fn the_first_is_found<A>(s: Seq<A>, p: spec_fn(A) -> bool)
    requires
        s.len() <= usize::MAX,
    ensures
        match first_where(s, p) {
            Some(i) => i < s.len() && p(s[i as int]) && forall|k: int|
                0 <= k < i ==> !p(#[trigger] s[k]),
            None => forall|k: int| 0 <= k < s.len() ==> !p(#[trigger] s[k]),
        },
    decreases s.len(),
{
    if s.len() > 0 {
        the_first_is_found(s.drop_last(), p);
        assert forall|k: int| 0 <= k < s.len() - 1 implies s.drop_last()[k] == s[k] by {}
    }
}

/// The local outputs, then the others, each in the order they had.
pub open spec fn local_first(devices: Seq<OutputView>) -> Seq<OutputView> {
    devices.filter(|d: OutputView| d is Local) + devices.filter(|d: OutputView| d is Cast)
}

/// A list of outputs with one more report: in the place of an earlier one of the same
/// output, else at the end.
pub open spec fn reported(devices: Seq<OutputView>, d: OutputView) -> Seq<OutputView> {
    match first_where(devices, |e: OutputView| is_same(e, d)) {
        Some(i) => devices.update(i as int, d),
        None => devices.push(d),
    }
}

/// The output that is selected where none was chosen: the one that was chosen last
/// time, else the first of this computer, else the first.
pub open spec fn restored(devices: Seq<OutputView>, saved: Option<Seq<char>>) -> Option<usize> {
    let by_id = match saved {
        Some(id) => first_where(devices, |d: OutputView| d.id() == id),
        None => None,
    };
    if devices.len() == 0 {
        None
    } else if by_id is Some {
        by_id
    } else {
        match first_where(devices, |d: OutputView| d is Local) {
            Some(i) => Some(i),
            None => Some(0),
        }
    }
}

/// The lists, once an output was reported. The selected output stays selected.
pub open spec fn with_report(l: ListsView, d: OutputView, saved: Option<Seq<char>>) -> ListsView {
    let devices = local_first(reported(l.devices, d));
    let kept = match l.device() {
        Some(s) => first_where(devices, |e: OutputView| e.id() == s.id()),
        None => None,
    };
    ListsView {
        devices,
        selected_device: if kept is Some {
            kept
        } else {
            restored(devices, saved)
        },
        ..l
    }
}

/// How many local outputs there are.
pub open spec fn local_count(devices: Seq<OutputView>) -> nat {
    devices.filter(|d: OutputView| d is Local).len()
}

impl Lists {
    /// The first output with this identity.
    fn place_of_id(&self, id: &str) -> (r: Option<usize>)
        ensures
            r == first_where(self@.devices, |d: OutputView| d.id() == id@),
    {
        let ghost p = |d: OutputView| d.id() == id@;
        let ghost all = self@.devices;
        let mut i: usize = 0;
        while i < self.devices.len()
            invariant
                i <= self.devices@.len(),
                all == self@.devices,
                p == |d: OutputView| d.id() == id@,
                first_where(all.subrange(0, i as int), p) is None,
            decreases self.devices@.len() - i,
        {
            proof {
                assert(all.subrange(0, i + 1).drop_last() =~= all.subrange(0, i as int));
                assert(all.subrange(0, i + 1).last() == self.devices@[i as int]@);
            }
            if text::same(self.devices[i].id(), id) {
                proof {
                    lemma_found(all, p, i as int);
                }
                return Some(i);
            }
            i = i + 1;
        }
        proof {
            assert(all.subrange(0, i as int) =~= all);
        }
        None
    }

    /// The first output of this computer.
    fn place_of_local(&self) -> (r: Option<usize>)
        ensures
            r == first_where(self@.devices, |d: OutputView| d is Local),
    {
        let ghost p = |d: OutputView| d is Local;
        let ghost all = self@.devices;
        let mut i: usize = 0;
        while i < self.devices.len()
            invariant
                i <= self.devices@.len(),
                all == self@.devices,
                p == |d: OutputView| d is Local,
                first_where(all.subrange(0, i as int), p) is None,
            decreases self.devices@.len() - i,
        {
            proof {
                assert(all.subrange(0, i + 1).drop_last() =~= all.subrange(0, i as int));
                assert(all.subrange(0, i + 1).last() == self.devices@[i as int]@);
            }
            if self.devices[i].is_local() {
                proof {
                    lemma_found(all, p, i as int);
                }
                return Some(i);
            }
            i = i + 1;
        }
        proof {
            assert(all.subrange(0, i as int) =~= all);
        }
        None
    }

    /// The output that this is another report of.
    fn place_of_same(&self, device: &OutputDevice) -> (r: Option<usize>)
        ensures
            r == first_where(self@.devices, |e: OutputView| is_same(e, device@)),
            r matches Some(i) ==> i < self.devices@.len(),
    {
        let ghost p = |e: OutputView| is_same(e, device@);
        let ghost all = self@.devices;
        let mut i: usize = 0;
        while i < self.devices.len()
            invariant
                i <= self.devices@.len(),
                all == self@.devices,
                p == |e: OutputView| is_same(e, device@),
                first_where(all.subrange(0, i as int), p) is None,
            decreases self.devices@.len() - i,
        {
            proof {
                assert(all.subrange(0, i + 1).drop_last() =~= all.subrange(0, i as int));
                assert(all.subrange(0, i + 1).last() == self.devices@[i as int]@);
            }
            if same_output_device(&self.devices[i], device) {
                proof {
                    lemma_found(all, p, i as int);
                }
                return Some(i);
            }
            i = i + 1;
        }
        proof {
            assert(all.subrange(0, i as int) =~= all);
        }
        None
    }

    /// How many local outputs there are.
    pub fn local_outputs(&self) -> (n: usize)
        ensures
            n == local_count(self@.devices),
            n <= self.devices@.len(),
    {
        let ghost p = |d: OutputView| d is Local;
        let ghost all = self@.devices;
        let mut n: usize = 0;
        let mut i: usize = 0;
        proof {
            reveal(Seq::filter);
        }
        while i < self.devices.len()
            invariant
                n <= i <= self.devices@.len(),
                all == self@.devices,
                p == |d: OutputView| d is Local,
                n == all.subrange(0, i as int).filter(p).len(),
            decreases self.devices@.len() - i,
        {
            proof {
                reveal(Seq::filter);
                assert(all.subrange(0, i + 1).drop_last() =~= all.subrange(0, i as int));
                assert(all.subrange(0, i + 1).last() == self.devices@[i as int]@);
            }
            if self.devices[i].is_local() {
                n = n + 1;
            }
            i = i + 1;
        }
        proof {
            assert(all.subrange(0, i as int) =~= all);
        }
        n
    }

    /// Puts the local outputs first.
    fn order_devices(&mut self)
        ensures
            final(self)@ == (ListsView {
                devices: local_first(old(self)@.devices),
                ..old(self)@
            }),
    {
        let ghost p = |d: OutputView| d is Local;
        let ghost q = |d: OutputView| d is Cast;
        let ghost all = self@.devices;
        let mut local: Vec<OutputDevice> = Vec::new();
        let mut cast: Vec<OutputDevice> = Vec::new();
        let mut i: usize = 0;
        proof {
            reveal(Seq::filter);
            assert(order::views(local@) =~= all.subrange(0, 0).filter(p));
            assert(order::views(cast@) =~= all.subrange(0, 0).filter(q));
        }
        while i < self.devices.len()
            invariant
                i <= self.devices@.len(),
                all == self@.devices,
                p == |d: OutputView| d is Local,
                q == |d: OutputView| d is Cast,
                order::views(local@) == all.subrange(0, i as int).filter(p),
                order::views(cast@) == all.subrange(0, i as int).filter(q),
                *self == *old(self),
            decreases self.devices@.len() - i,
        {
            let ghost (l, c) = (local@, cast@);
            proof {
                reveal(Seq::filter);
                assert(all.subrange(0, i + 1).drop_last() =~= all.subrange(0, i as int));
                assert(all.subrange(0, i + 1).last() == self.devices@[i as int]@);
            }
            let d = self.devices[i].clone();
            if d.is_local() {
                local.push(d);
                proof {
                    assert(order::views(local@) =~= order::views(l).push(all[i as int]));
                }
            } else {
                cast.push(d);
                proof {
                    assert(order::views(cast@) =~= order::views(c).push(all[i as int]));
                }
            }
            i = i + 1;
        }
        proof {
            assert(all.subrange(0, i as int) =~= all);
        }
        let ghost (l, c) = (local@, cast@);
        local.append(&mut cast);
        proof {
            assert(order::views(local@) =~= order::views(l) + order::views(c));
        }
        self.devices = local;
    }

    /// Selects the output of last time, else one of this computer: a receiver in the
    /// network never begins to play by itself.
    pub fn restore_device(&mut self, saved: &Option<String>)
        ensures
            final(self)@ == (ListsView {
                selected_device: restored(old(self)@.devices, text::maybe(*saved)),
                ..old(self)@
            }),
    {
        if self.devices.len() == 0 {
            self.selected_device = None;
            return;
        }
        if let Some(id) = saved {
            let place = self.place_of_id(id.as_str());
            if place.is_some() {
                self.selected_device = place;
                return;
            }
        }
        self.selected_device = match self.place_of_local() {
            Some(i) => Some(i),
            None => Some(0),
        };
    }

    /// Takes in an output that was reported.
    pub fn report_device(&mut self, device: OutputDevice, saved: &Option<String>)
        ensures
            final(self)@ == with_report(old(self)@, device@, text::maybe(*saved)),
    {
        let ghost l0 = self@;
        let ghost d = device@;
        let selected = self.device();
        match self.place_of_same(&device) {
            Some(i) => {
                self.devices.set(i, device);
            },
            None => {
                self.devices.push(device);
            },
        }
        proof {
            assert(self@.devices =~= reported(l0.devices, d));
        }
        self.order_devices();
        let kept = match selected {
            Some(s) => self.place_of_id(s.id()),
            None => None,
        };
        if kept.is_some() {
            self.selected_device = kept;
        } else {
            self.restore_device(saved);
        }
    }
}

pub(crate) proof fn lemma_found<A>(s: Seq<A>, p: spec_fn(A) -> bool, i: int)
    requires
        0 <= i < s.len(),
        i <= usize::MAX,
        first_where(s.subrange(0, i), p) is None,
        p(s[i]),
    ensures
        first_where(s, p) == Some(i as usize),
    decreases s.len(),
{
    if i == s.len() - 1 {
        assert(s.drop_last() =~= s.subrange(0, i));
    } else {
        assert(s.drop_last().subrange(0, i) =~= s.subrange(0, i));
        lemma_found(s.drop_last(), p, i);
    }
}

/// The player, while it searches for outputs.
pub open spec fn searching(a: AppView) -> AppView {
    if a.flags.loading_devices {
        a
    } else {
        AppView {
            flags: Flags { loading_devices: true, ..a.flags },
            ..a.with_status(a.choices.say(PhraseView::SearchingDevices))
        }
    }
}

/// What a search takes.
pub open spec fn search_actions(a: AppView) -> Seq<ActionView> {
    if a.flags.loading_devices {
        Seq::empty()
    } else {
        seq![ActionView::ScanDevices(a.choices.lang)]
    }
}

/// The player, once an output was reported, before anything plays there.
pub open spec fn found(a: AppView, d: OutputView) -> AppView {
    let lists = with_report(a.lists, d, a.saving.settings.device_id);
    AppView { lists, ..a }.with_status(
        a.choices.say(PhraseView::DevicesSoFar(lists.devices.len())),
    )
}

/// Something was asked for by voice, and can play now.
pub open spec fn voice_resumes(a: AppView) -> bool {
    a.voice.pending_play && a.can_start()
}

/// The player, once what was asked for by voice is no longer put off.
pub open spec fn resumed(a: AppView) -> AppView {
    AppView { voice: state::VoiceView { pending_play: false, ..a.voice }, ..a }
}

/// Whether the report of a search is one of its failure.
pub open spec fn is_failure(report: Seq<char>) -> bool {
    text::has_text(report, "panic"@) || text::has_text(report, "Ошибка"@)
}

/// The player, once a search has ended.
pub open spec fn search_ended(a: AppView, report: Seq<char>) -> AppView {
    let lists = ListsView {
        selected_device: restored(a.lists.devices, a.saving.settings.device_id),
        ..a.lists
    };
    let local = local_count(lists.devices);
    let cast = (lists.devices.len() - local) as nat;
    AppView { lists, flags: Flags { loading_devices: false, ..a.flags }, ..a }.with_status(
        if is_failure(report) {
            a.choices.plain(report)
        } else if cast == 0 {
            a.choices.say(PhraseView::NoCast(local))
        } else {
            a.choices.say(PhraseView::Found(local, cast, lists.device()))
        },
    )
}

impl RockCastApp {
    /// Searches for outputs, unless a search is under way.
    pub fn refresh_devices(&mut self) -> (out: Vec<AppAction>)
        ensures
            final(self)@ == searching(old(self)@),
            order::views(out@) == search_actions(old(self)@),
    {
        if self.flags.loading_devices {
            return play::nothing();
        }
        self.flags.loading_devices = true;
        self.shown.status = self.choices.say(Phrase::SearchingDevices);
        play::one(AppAction::ScanDevices(self.choices.lang))
    }

    /// Selects the output of last time, else one of this computer.
    pub fn restore_device_selection(&mut self)
        ensures
            final(self)@ == (AppView {
                lists: ListsView {
                    selected_device: restored(
                        old(self)@.lists.devices,
                        old(self)@.saving.settings.device_id,
                    ),
                    ..old(self)@.lists
                },
                ..old(self)@
            }),
    {
        self.lists.restore_device(&self.saving.settings.device_id);
    }

    /// An output was found. What was asked for by voice plays, where it can.
    pub fn device_found(&mut self, device: OutputDevice, now: u64) -> (out: Vec<AppAction>)
        ensures
            ({
                let a = found(old(self)@, device@);
                if voice_resumes(a) {
                    &&& final(self)@ == play::played(resumed(a), now)
                    &&& order::views(out@) == play::play_actions(resumed(a))
                } else {
                    &&& final(self)@ == a
                    &&& order::views(out@) == Seq::<ActionView>::empty()
                }
            }),
    {
        self.lists.report_device(device, &self.saving.settings.device_id);
        let n: usize = self.lists.devices.len();
        self.shown.status = self.choices.say(Phrase::DevicesSoFar(n));
        proof {
            assert(self@.lists.devices.len() == n);
        }
        if self.voice.pending_play && self.can_start_play() {
            self.voice.pending_play = false;
            return self.play(now);
        }
        play::nothing()
    }

    /// A search for outputs has ended with a report in words. A failure is shown as it
    /// was reported.
    pub fn devices_finished(&mut self, report: String)
        ensures
            final(self)@ == search_ended(old(self)@, report@),
    {
        self.restore_device_selection();
        self.flags.loading_devices = false;
        let local: usize = self.lists.local_outputs();
        let cast: usize = self.lists.devices.len() - local;
        if text::contains(report.as_str(), "panic") || text::contains(report.as_str(), "Ошибка") {
            self.shown.status = self.choices.plain(report.as_str());
        } else if cast == 0 {
            self.shown.status = self.choices.say(Phrase::NoCast(local));
        } else {
            let selected = self.lists.device();
            self.shown.status = self.choices.say(Phrase::Found(local, cast, selected));
        }
    }

    /// The user selects an output.
    pub fn choose_device(&mut self, i: usize)
        ensures
            final(self)@ == state::marked(
                AppView {
                    lists: ListsView { selected_device: Some(i), ..old(self)@.lists },
                    ..old(self)@
                },
            ),
    {
        self.lists.selected_device = Some(i);
        self.mark_settings_dirty();
    }
}

proof fn lemma_filtered(s: Seq<OutputView>, p: spec_fn(OutputView) -> bool, x: OutputView)
    ensures
        s.filter(p).contains(x) == (s.contains(x) && p(x)),
    decreases s.len(),
{
    reveal(Seq::filter);
    if s.len() > 0 {
        let front = s.drop_last();
        lemma_filtered(front, p, x);
        if s.contains(x) {
            let i = s.index_of(x);
            if i < front.len() {
                assert(front[i] == x);
            }
        }
        if front.contains(x) {
            let i = front.index_of(x);
            assert(s[i] == x);
        }
        assert(s[s.len() - 1] == s.last());
        if p(s.last()) {
            let out = s.filter(p);
            assert(out == front.filter(p).push(s.last()));
            if out.contains(x) {
                let k = out.index_of(x);
                if k < front.filter(p).len() {
                    assert(front.filter(p)[k] == x);
                }
            }
            if front.filter(p).contains(x) {
                let k = front.filter(p).index_of(x);
                assert(out[k] == x);
            }
            assert(out[out.len() - 1] == s.last());
        }
    }
}

/// Outputs are put in order without any being lost or made up, and those of this
/// computer stand before the receivers.
pub proof fn ordering_keeps_every_output(devices: Seq<OutputView>, x: OutputView, i: int, j: int)
    ensures
        local_first(devices).contains(x) == devices.contains(x),
        0 <= i < local_first(devices).len() && 0 <= j < local_first(devices).len() && local_first(
            devices,
        )[i] is Local && local_first(devices)[j] is Cast ==> i < j,
{
    let p = |d: OutputView| d is Local;
    let q = |d: OutputView| d is Cast;
    let a = devices.filter(p);
    let b = devices.filter(q);
    let s = local_first(devices);
    lemma_filtered(devices, p, x);
    lemma_filtered(devices, q, x);
    if a.contains(x) {
        let k = a.index_of(x);
        assert(s[k] == x);
    }
    if b.contains(x) {
        let k = b.index_of(x);
        assert(s[a.len() + k] == x);
    }
    if s.contains(x) {
        let k = s.index_of(x);
        if k < a.len() {
            assert(a[k] == x);
        } else {
            assert(b[k - a.len()] == x);
        }
    }
    if 0 <= i < s.len() && 0 <= j < s.len() && s[i] is Local && s[j] is Cast {
        if i >= a.len() {
            assert(b[i - a.len()] == s[i]);
            lemma_filtered(devices, q, s[i]);
            assert(b.contains(s[i]));
        }
        if j < a.len() {
            assert(a[j] == s[j]);
            lemma_filtered(devices, p, s[j]);
            assert(a.contains(s[j]));
        }
    }
}

/// Where there is an output one is selected, and where nothing was chosen before, and
/// there is one of this computer, it is one of this computer: a receiver in the
/// network never begins to play by itself.
pub proof fn receivers_are_not_chosen_by_themselves(
    devices: Seq<OutputView>,
    saved: Option<Seq<char>>,
    k: int,
)
    requires
        0 <= k < devices.len() <= usize::MAX,
        devices[k] is Local,
        saved matches Some(id) ==> forall|i: int|
            0 <= i < devices.len() ==> (#[trigger] devices[i]).id() != id,
    ensures
        restored(devices, saved) matches Some(i) && i < devices.len() && devices[i as int] is Local,
{
    the_first_is_found(devices, |d: OutputView| d is Local);
    if let Some(id) = saved {
        the_first_is_found(devices, |d: OutputView| d.id() == id);
    }
}

proof fn lemma_is_found<A>(s: Seq<A>, p: spec_fn(A) -> bool, k: int)
    requires
        0 <= k < s.len() <= usize::MAX,
        p(s[k]),
    ensures
        first_where(s, p) matches Some(i) && i < s.len() && p(s[i as int]),
{
    the_first_is_found(s, p);
}

/// The selected output stays selected while others are reported, and when it is
/// reported again under its identity.
pub proof fn reports_leave_the_selection(
    l: ListsView,
    d: OutputView,
    saved: Option<Seq<char>>,
    s: OutputView,
)
    requires
        l.device() == Some(s),
        !is_same(s, d) || d.id() == s.id(),
        local_first(reported(l.devices, d)).len() <= usize::MAX,
        l.devices.len() <= usize::MAX,
    ensures
        with_report(l, d, saved).device() matches Some(x) && x.id() == s.id(),
{
    let i = l.selected_device->0 as int;
    let all = reported(l.devices, d);
    let same = |e: OutputView| is_same(e, d);
    the_first_is_found(l.devices, same);
    let x = if first_where(l.devices, same) == Some(i as usize) {
        d
    } else {
        s
    };
    assert(all[i] == x);
    assert(all.contains(x));
    ordering_keeps_every_output(all, x, 0, 0);
    let devices = local_first(all);
    let k = devices.index_of(x);
    lemma_is_found(devices, |e: OutputView| e.id() == s.id(), k);
}

/// An output that was chosen before is selected again as soon as it is found.
pub proof fn the_chosen_output_returns(devices: Seq<OutputView>, id: Seq<char>, k: int)
    requires
        0 <= k < devices.len() <= usize::MAX,
        devices[k].id() == id,
    ensures
        restored(devices, Some(id)) matches Some(i) && i < devices.len() && devices[i as int].id()
            == id,
{
    the_first_is_found(devices, |d: OutputView| d.id() == id);
}

} // verus!
