//! Outputs: receivers in the network, and the speakers of this computer.

use crate::cast::client::service;
use crate::cast::client::service::{CastDeviceInfo, CastError};
use crate::cast::discovery;
use crate::cast::discovery::DeviceView;
use crate::local;
use crate::local::{LocalDeviceInfo, LocalView};
use crate::order;
use crate::text;
use vstd::prelude::*;

verus! {

/// An output.
#[derive(Debug)]
pub enum OutputDevice {
    Cast(CastDeviceInfo),
    Local(LocalDeviceInfo),
}

/// The contents of an [`OutputDevice`].
#[verifier::ext_equal]
pub enum OutputView {
    Cast(DeviceView),
    Local(LocalView),
}

impl View for OutputDevice {
    type V = OutputView;

    open spec fn view(&self) -> OutputView {
        match self {
            OutputDevice::Cast(d) => OutputView::Cast(d@),
            OutputDevice::Local(d) => OutputView::Local(d@),
        }
    }
}

impl Clone for OutputDevice {
    fn clone(&self) -> (r: OutputDevice)
        ensures
            r@ == self@,
    {
        match self {
            OutputDevice::Cast(d) => OutputDevice::Cast(d.clone()),
            OutputDevice::Local(d) => OutputDevice::Local(d.clone()),
        }
    }
}

impl OutputView {
    /// The identity of an output.
    pub open spec fn id(self) -> Seq<char> {
        match self {
            OutputView::Cast(d) => d.id,
            OutputView::Local(d) => d.id,
        }
    }

    /// The name of an output.
    pub open spec fn name(self) -> Seq<char> {
        match self {
            OutputView::Cast(d) => d.name,
            OutputView::Local(d) => d.name,
        }
    }

    /// The output as it is listed.
    pub open spec fn label(self, this_pc: Seq<char>) -> Seq<char> {
        match self {
            OutputView::Cast(d) => discovery::label_of(d),
            OutputView::Local(d) => local::label_of(d, this_pc),
        }
    }
}

impl OutputDevice {
    /// The identity of the output.
    pub fn id(&self) -> (s: &str)
        ensures
            s@ == self@.id(),
    {
        match self {
            OutputDevice::Cast(d) => d.discovered.id.as_str(),
            OutputDevice::Local(d) => d.id.as_str(),
        }
    }

    /// The name of the output.
    pub fn name(&self) -> (s: &str)
        ensures
            s@ == self@.name(),
    {
        match self {
            OutputDevice::Cast(d) => d.discovered.name.as_str(),
            OutputDevice::Local(d) => d.name.as_str(),
        }
    }

    /// The output as it is listed, where `this_pc` are the words for this computer.
    pub fn label(&self, this_pc: &str) -> (s: String)
        ensures
            s@ == self@.label(this_pc@),
    {
        match self {
            OutputDevice::Cast(d) => d.label(),
            OutputDevice::Local(d) => d.label(this_pc),
        }
    }

    /// Whether the output is one of this computer.
    pub fn is_local(&self) -> (r: bool)
        ensures
            r == (self@ is Local),
    {
        matches!(self, OutputDevice::Local(_))
    }

    /// The receiver, where the output is one.
    pub fn as_cast(&self) -> (r: Option<&CastDeviceInfo>)
        ensures
            match r {
                Some(d) => *self == OutputDevice::Cast(*d),
                None => self@ is Local,
            },
    {
        match self {
            OutputDevice::Cast(d) => Some(d),
            OutputDevice::Local(_) => None,
        }
    }
}

/// What a search ended with.
#[derive(Debug)]
pub enum ScanStatus {
    /// No receiver, and so many local outputs.
    NoCast { local: usize },
    /// So many local outputs and receivers, and the label of the one to try.
    Found { local: usize, cast: usize, label: String },
    /// So many local outputs, and why receivers could not be searched for.
    Error { local: usize, reason: String },
}

/// The local outputs, then the receivers.
pub open spec fn all_outputs(local: Seq<LocalView>, cast: Seq<DeviceView>) -> Seq<OutputView> {
    local.map_values(|d: LocalView| OutputView::Local(d)) + cast.map_values(
        |d: DeviceView| OutputView::Cast(d),
    )
}

/// Whether a receiver, by its name and model in lower case, is a soundbar or the
/// like.
pub open spec fn names_a_bar(lower: Seq<char>) -> bool {
    text::has_text(lower, "jbl"@) || text::has_text(lower, "bar"@)
}

/// Whether an output is a soundbar or the like.
pub open spec fn is_bar(d: OutputView) -> bool {
    match d {
        OutputView::Cast(c) => names_a_bar(text::unicode_lower(c.name + " "@ + c.model)),
        OutputView::Local(_) => false,
    }
}

/// Whether a receiver, by its name and model in lower case, is a soundbar or the
/// like.
pub fn is_bar_text(lower: &str) -> (r: bool)
    ensures
        r == names_a_bar(lower@),
        r <==> text::has_text(lower@, "jbl"@) || text::has_text(lower@, "bar"@),
{
    text::contains(lower, "jbl") || text::contains(lower, "bar")
}

fn bar(d: &OutputDevice) -> (r: bool)
    ensures
        r == is_bar(d@),
{
    match d {
        OutputDevice::Cast(c) => {
            let both = text::joined_two(c.discovered.name.as_str(), " ");
            let both = text::joined_two(both.as_str(), c.discovered.model.as_str());
            is_bar_text(text::lowercase(both.as_str()).as_str())
        },
        OutputDevice::Local(_) => false,
    }
}

/// The output to try: the first soundbar, else the first local one, else the first.
pub open spec fn is_pick(devices: Seq<OutputView>, k: int) -> bool {
    if exists|i: int| 0 <= i < devices.len() && is_bar(#[trigger] devices[i]) {
        0 <= k < devices.len() && is_bar(devices[k]) && forall|i: int|
            0 <= i < k ==> !is_bar(#[trigger] devices[i])
    } else if exists|i: int| 0 <= i < devices.len() && #[trigger] devices[i] is Local {
        0 <= k < devices.len() && devices[k] is Local && forall|i: int|
            0 <= i < k ==> !(#[trigger] devices[i] is Local)
    } else {
        k == 0
    }
}

/// The label of the output to try.
pub open spec fn is_label_of_pick(
    devices: Seq<OutputView>,
    label: Seq<char>,
    this_pc: Seq<char>,
) -> bool {
    exists|k: int| is_pick(devices, k) && label == (#[trigger] devices[k]).label(this_pc)
}

fn pick(devices: &Vec<OutputDevice>) -> (k: usize)
    ensures
        is_pick(order::views(devices@), k as int),
{
    let ghost all = order::views(devices@);
    let mut i: usize = 0;
    while i < devices.len()
        invariant
            i <= devices@.len(),
            all == order::views(devices@),
            forall|k: int| 0 <= k < i ==> !is_bar(#[trigger] all[k]),
        decreases devices@.len() - i,
    {
        proof {
            assert(all[i as int] == devices@[i as int]@);
        }
        if bar(&devices[i]) {
            return i;
        }
        i = i + 1;
    }
    let mut j: usize = 0;
    while j < devices.len()
        invariant
            j <= devices@.len(),
            all == order::views(devices@),
            forall|k: int| 0 <= k < all.len() ==> !is_bar(#[trigger] all[k]),
            forall|k: int| 0 <= k < j ==> !(#[trigger] all[k] is Local),
        decreases devices@.len() - j,
    {
        proof {
            assert(all[j as int] == devices@[j as int]@);
        }
        if devices[j].is_local() {
            return j;
        }
        j = j + 1;
    }
    0
}

/// The local outputs, then the receivers.
fn gather(local: &Vec<LocalDeviceInfo>, cast: &Vec<CastDeviceInfo>) -> (out: Vec<OutputDevice>)
    ensures
        order::views(out@) == all_outputs(order::views(local@), order::views(cast@)),
{
    let ghost all = all_outputs(order::views(local@), order::views(cast@));
    let mut out: Vec<OutputDevice> = Vec::new();
    let mut i: usize = 0;
    while i < local.len()
        invariant
            i <= local@.len(),
            all == all_outputs(order::views(local@), order::views(cast@)),
            order::views(out@) == all.subrange(0, i as int),
        decreases local@.len() - i,
    {
        let ghost before = out@;
        let d = OutputDevice::Local(local[i].clone());
        let ghost held = d@;
        out.push(d);
        proof {
            assert(order::views(out@) =~= order::views(before).push(held));
            assert(held == all[i as int]);
            assert(order::views(out@) =~= all.subrange(0, i + 1));
        }
        i = i + 1;
    }
    let mut k: usize = 0;
    while k < cast.len()
        invariant
            k <= cast@.len(),
            all == all_outputs(order::views(local@), order::views(cast@)),
            order::views(out@) == all.subrange(0, local@.len() + k),
        decreases cast@.len() - k,
    {
        let ghost before = out@;
        let d = OutputDevice::Cast(cast[k].clone());
        let ghost held = d@;
        out.push(d);
        proof {
            assert(order::views(out@) =~= order::views(before).push(held));
            assert(held == all[local@.len() + k]);
            assert(order::views(out@) =~= all.subrange(0, local@.len() + k + 1));
        }
        k = k + 1;
    }
    proof {
        assert(all.subrange(0, local@.len() + k) =~= all);
    }
    out
}

/// The local outputs, then the receivers that a search found, and what it ended with.
/// `this_pc` are the words for this computer.
pub fn scan_all(
    local: Vec<LocalDeviceInfo>,
    scan: Result<Vec<CastDeviceInfo>, CastError>,
    this_pc: &str,
) -> (r: (Vec<OutputDevice>, ScanStatus))
    ensures
        order::views(r.0@) == all_outputs(
            order::views(local@),
            match scan {
                Ok(cast) => order::views(cast@),
                Err(_) => Seq::empty(),
            },
        ),
        match (scan, r.1) {
            (Ok(cast), ScanStatus::NoCast { local: n }) => cast@.len() == 0 && n == local@.len(),
            (Ok(cast), ScanStatus::Found { local: n, cast: m, label }) => {
                &&& cast@.len() > 0
                &&& n == local@.len()
                &&& m == cast@.len()
                &&& is_label_of_pick(order::views(r.0@), label@, this_pc@)
            },
            (Err(e), ScanStatus::Error { local: n, reason }) => n == local@.len() && reason@
                == service::error_text(e),
            _ => false,
        },
{
    let n: usize = local.len();
    match scan {
        Ok(cast) => {
            let m: usize = cast.len();
            let devices = gather(&local, &cast);
            if m == 0 {
                (devices, ScanStatus::NoCast { local: n })
            } else {
                let ghost all = order::views(devices@);
                let k: usize = pick(&devices);
                proof {
                    assert(all.len() >= 1);
                    assert(0 <= k < all.len());
                    assert(all[k as int] == devices@[k as int]@);
                }
                let label = devices[k].label(this_pc);
                proof {
                    assert(label@ == all[k as int].label(this_pc@));
                }
                (devices, ScanStatus::Found { local: n, cast: m, label })
            }
        },
        Err(e) => {
            let none: Vec<CastDeviceInfo> = Vec::new();
            let devices = gather(&local, &none);
            proof {
                assert(order::views(none@) =~= Seq::empty());
            }
            (devices, ScanStatus::Error { local: n, reason: e.message() })
        },
    }
}

/// The outputs in the order in which they are handed out while a search goes on: the
/// local ones, then each receiver as it is reported. And what the search ended with.
pub fn scan_streaming(
    local: Vec<LocalDeviceInfo>,
    reported: Vec<CastDeviceInfo>,
    scan: Result<Vec<CastDeviceInfo>, CastError>,
) -> (r: (Vec<OutputDevice>, ScanStatus))
    ensures
        order::views(r.0@) == all_outputs(order::views(local@), order::views(reported@)),
        match (scan, r.1) {
            (Ok(cast), ScanStatus::NoCast { local: n }) => cast@.len() == 0 && n == local@.len(),
            (Ok(cast), ScanStatus::Found { local: n, cast: m, label }) => {
                &&& cast@.len() > 0
                &&& n == local@.len()
                &&& m == cast@.len()
                &&& label@.len() == 0
            },
            (Err(e), ScanStatus::Error { local: n, reason }) => n == local@.len() && reason@
                == service::error_text(e),
            _ => false,
        },
{
    let n: usize = local.len();
    let devices = gather(&local, &reported);
    let status = match scan {
        Ok(cast) => {
            let m: usize = cast.len();
            if m == 0 {
                ScanStatus::NoCast { local: n }
            } else {
                ScanStatus::Found { local: n, cast: m, label: String::new() }
            }
        },
        Err(e) => ScanStatus::Error { local: n, reason: e.message() },
    };
    (devices, status)
}

/// Local outputs come first.
pub proof fn local_outputs_come_first(
    local: Seq<LocalView>,
    cast: Seq<DeviceView>,
    i: int,
    j: int,
)
    requires
        0 <= i < all_outputs(local, cast).len(),
        0 <= j < all_outputs(local, cast).len(),
        all_outputs(local, cast)[i] is Local,
        all_outputs(local, cast)[j] is Cast,
    ensures
        i < j,
{
}

/// There is one output to try.
pub proof fn one_output_is_picked(devices: Seq<OutputView>, a: int, b: int)
    requires
        is_pick(devices, a),
        is_pick(devices, b),
    ensures
        a == b,
{
    if a < b {
        assert(!is_bar(devices[a]) || !(devices[a] is Local));
    } else if b < a {
        assert(!is_bar(devices[b]) || !(devices[b] is Local));
    }
}

/// The outputs are all local ones and behind them all receivers, each as it was found.
pub proof fn all_outputs_are_listed(local: Seq<LocalView>, cast: Seq<DeviceView>, i: int)
    ensures
        all_outputs(local, cast).len() == local.len() + cast.len(),
        0 <= i < local.len() ==> all_outputs(local, cast)[i] == OutputView::Local(local[i]),
        0 <= i < cast.len() ==> all_outputs(local, cast)[local.len() + i] == OutputView::Cast(
            cast[i],
        ),
{
}

/// An output is called, listed and found as what it is.
pub proof fn an_output_is_what_it_is(d: DeviceView, l: LocalView, this_pc: Seq<char>)
    ensures
        OutputView::Cast(d).id() == d.id,
        OutputView::Cast(d).name() == d.name,
        OutputView::Cast(d).label(this_pc) == discovery::label_of(d),
        OutputView::Local(l).id() == l.id,
        OutputView::Local(l).name() == l.name,
        OutputView::Local(l).label(this_pc) == l.name + "  ["@ + this_pc + "]"@,
{
}

/// The first sound bar is picked, by its name or model, else the first local output, else
/// the first of all.
pub proof fn which_output_is_picked(devices: Seq<OutputView>, k: int, i: int)
    requires
        is_pick(devices, k),
        0 <= i < devices.len(),
    ensures
        ({
            let bar = |d: OutputView|
                d matches OutputView::Cast(c) && (text::has_text(
                    text::unicode_lower(c.name + " "@ + c.model),
                    "jbl"@,
                ) || text::has_text(text::unicode_lower(c.name + " "@ + c.model), "bar"@));
            &&& bar(devices[i]) ==> 0 <= k <= i && bar(devices[k])
            &&& devices[i] is Local ==> 0 <= k < devices.len() && (bar(devices[k])
                || devices[k] is Local && k <= i)
            &&& 0 <= k < devices.len()
            &&& !bar(devices[k]) && !(devices[k] is Local) ==> k == 0
        }),
{
    if is_bar(devices[i]) {
        assert(exists|n: int| 0 <= n < devices.len() && is_bar(#[trigger] devices[n]));
    }
    if devices[i] is Local {
        assert(exists|n: int| 0 <= n < devices.len() && #[trigger] devices[n] is Local);
    }
}

} // verus!
