//! What a listing of real devices is made of, once the host has answered.
//!
//! The host hands out no identifier of its own, so a [`DeviceId`] is a name
//! and the place of the device among those sharing it, counted in the host's
//! own enumeration order. A device is listed with the channel counts it offers
//! at the rate asked for, ascending and without repeats, and only where it
//! offers any.

use vstd::prelude::*;

use super::{AudioDevice, ChannelSelection};

verus! {

/// Audio devices reached through the host's audio APIs.
///
/// The input and output streams are separate, because the host has no duplex
/// API: they are opened from the same request and started together, but the
/// host drives each with its own callback.
#[derive(Debug, Clone, Copy, PartialEq, Eq, Structural)]
pub struct CpalBackend;

impl CpalBackend {
    /// A backend over the host's audio APIs.
    pub fn new() -> (backend: Self)
        ensures
            backend == CpalBackend,
    {
        CpalBackend
    }
}

impl Default for CpalBackend {
    fn default() -> (backend: Self)
        ensures
            backend == CpalBackend,
    {
        Self::new()
    }
}

/// A device as a host enumerates it: its name, and how many devices of that
/// name came before it.
#[derive(Debug, Clone, PartialEq, Eq)]
pub struct DeviceId {
    /// What the host calls the device.
    pub name: String,
    /// How many devices of the same name the host enumerated before this one.
    pub nth: usize,
}

/// A device identity as a listing reads it: the name, and the place among
/// those sharing it.
pub open spec fn id_view(id: DeviceId) -> (Seq<char>, usize) {
    (id.name@, id.nth)
}

impl DeviceId {
    /// Whether `self` and `other` name the same device.
    pub fn same(&self, other: &DeviceId) -> (same: bool)
        ensures
            same == (id_view(*self) == id_view(*other)),
    {
        self.nth == other.nth && self.name == other.name
    }

    /// A copy of this identity.
    pub fn duplicate(&self) -> (copy: DeviceId)
        ensures
            id_view(copy) == id_view(*self),
    {
        DeviceId { name: self.name.clone(), nth: self.nth }
    }
}

/// How many of the first `before` of `names` are `name`.
pub open spec fn occurrences(names: Seq<Seq<char>>, name: Seq<char>, before: int) -> nat
    decreases before,
{
    if before <= 0 {
        0
    } else {
        occurrences(names, name, before - 1) + if names[before - 1] == name { 1nat } else { 0nat }
    }
}

/// The names of an enumeration, as they read.
pub open spec fn names_view(names: Seq<String>) -> Seq<Seq<char>> {
    names.map_values(|name: String| name@)
}

/// Identify each of `names`, an enumeration in the host's order, by its name
/// and how many devices of that name came before it.
pub fn identified(names: &Vec<String>) -> (ids: Vec<DeviceId>)
    ensures
        ids@.len() == names@.len(),
        forall|index: int|
            0 <= index < names@.len() ==> {
                &&& #[trigger] ids@[index].name@ == names@[index]@
                &&& ids@[index].nth == occurrences(names_view(names@), names@[index]@, index)
            },
{
    let ghost viewed = names_view(names@);
    let mut ids: Vec<DeviceId> = Vec::new();
    let mut index: usize = 0;
    while index < names.len()
        invariant
            index <= names@.len(),
            viewed == names_view(names@),
            ids@.len() == index,
            forall|done: int|
                0 <= done < index ==> {
                    &&& #[trigger] ids@[done].name@ == names@[done]@
                    &&& ids@[done].nth == occurrences(viewed, names@[done]@, done)
                },
        decreases names@.len() - index,
    {
        let name = &names[index];
        let mut nth: usize = 0;
        let mut earlier: usize = 0;
        while earlier < index
            invariant
                earlier <= index < names@.len(),
                viewed == names_view(names@),
                *name == names@[index as int],
                nth == occurrences(viewed, name@, earlier as int),
                nth <= earlier,
            decreases index - earlier,
        {
            assert(viewed[earlier as int] == names@[earlier as int]@);
            if names[earlier] == *name {
                nth = nth + 1;
            }
            earlier = earlier + 1;
        }
        ids.push(DeviceId { name: name.clone(), nth });
        index = index + 1;
    }
    ids
}

/// Whether `counts` ascends with no count repeated.
pub open spec fn strictly_ascending(counts: Seq<u16>) -> bool {
    forall|earlier: int, later: int| 0 <= earlier < later < counts.len() ==> counts[earlier] < counts[later]
}

/// The channel counts the usable configurations `usable` offer, ascending and
/// each once.
pub fn channel_counts(usable: &[u16]) -> (counts: Vec<u16>)
    ensures
        strictly_ascending(counts@),
        forall|count: u16| counts@.contains(count) <==> usable@.contains(count),
{
    let mut counts: Vec<u16> = Vec::new();
    let mut index: usize = 0;
    while index < usable.len()
        invariant
            index <= usable@.len(),
            strictly_ascending(counts@),
            forall|count: u16| counts@.contains(count) <==> usable@.take(index as int).contains(count),
        decreases usable@.len() - index,
    {
        let count = usable[index];
        let mut at: usize = 0;
        while at < counts.len() && counts[at] < count
            invariant
                at <= counts@.len(),
                forall|earlier: int| 0 <= earlier < at ==> #[trigger] counts@[earlier] < count,
            decreases counts@.len() - at,
        {
            at = at + 1;
        }
        let ghost before = counts@;
        let ghost prefix = usable@.take(index as int);
        let ghost next = usable@.take(index + 1);
        assert(next =~= prefix.push(count));
        assert(forall|held: u16| #[trigger] next.contains(held) <==> (prefix.contains(held) || held == count)) by {
            assert forall|held: u16| #[trigger] next.contains(held) implies prefix.contains(held) || held == count by {
                let found = choose|found: int| 0 <= found < next.len() && #[trigger] next[found] == held;
                if found < index {
                    assert(prefix[found] == held);
                }
            }
            assert forall|held: u16| prefix.contains(held) || held == count implies #[trigger] next.contains(held) by {
                if held == count {
                    assert(next[index as int] == count);
                } else {
                    let found = choose|found: int| 0 <= found < prefix.len() && #[trigger] prefix[found] == held;
                    assert(next[found] == held);
                }
            }
        }
        if at < counts.len() && counts[at] == count {
            assert(counts@[at as int] == count);
            assert(counts@.contains(count));
        } else {
            counts.insert(at, count);
            assert forall|earlier: int, later: int|
                0 <= earlier < later < counts@.len() implies counts@[earlier] < counts@[later] by {
                if earlier < at && later > at {
                    assert(before[earlier] < count);
                    assert(counts@[later] == before[later - 1]);
                    if at < before.len() {
                        assert(before[at as int] > count);
                        assert(before[at as int] <= before[later - 1]);
                    }
                }
                if earlier == at {
                    assert(before[at as int] > count);
                    if later - 1 > at {
                        assert(before[at as int] < before[later - 1]);
                    }
                }
            }
            assert forall|held: u16| #[trigger] counts@.contains(held) <==> before.contains(held) || held == count by {
                if counts@.contains(held) {
                    let found = choose|found: int| 0 <= found < counts@.len() && #[trigger] counts@[found] == held;
                    if found < at {
                        assert(before[found] == held);
                    } else if found > at {
                        assert(before[found - 1] == held);
                    }
                }
                if held == count {
                    assert(counts@[at as int] == count);
                } else if before.contains(held) {
                    let place = choose|place: int| 0 <= place < before.len() && #[trigger] before[place] == held;
                    if place < at {
                        assert(counts@[place] == held);
                    } else {
                        assert(counts@[place + 1] == held);
                    }
                }
            }
        }
        index = index + 1;
    }
    assert(usable@.take(usable@.len() as int) =~= usable@);
    counts
}

/// The device `id` offering `channels`, or nothing where it offers no
/// channel count at all.
pub fn offering_device(id: DeviceId, channels: Vec<u16>) -> (device: Option<AudioDevice>)
    ensures
        match device {
            Some(device) => {
                &&& channels@.len() > 0
                &&& device.id == id
                &&& device.channels@ == channels@
            },
            None => channels@.len() == 0,
        },
{
    if channels.len() == 0 {
        return None;
    }
    Some(AudioDevice { id, channels })
}

/// Every channel from the first up to `preferred`, held to the widest count
/// `offered` lists and to at least one, or nothing where it lists none.
pub fn offered_selection(offered: &[u16], preferred: u16) -> (selection: Option<ChannelSelection>)
    ensures
        match selection {
            Some(selection) => {
                let widest = offered@.last();
                &&& offered@.len() > 0
                &&& selection.first == 0
                &&& selection.count == if preferred <= widest {
                    if preferred >= 1 { preferred } else { 1 }
                } else {
                    if widest >= 1 { widest } else { 1 }
                }
            },
            None => offered@.len() == 0,
        },
{
    if offered.len() == 0 {
        return None;
    }
    let widest = offered[offered.len() - 1];
    let narrower = if preferred <= widest { preferred } else { widest };
    Some(ChannelSelection::all(if narrower >= 1 { narrower } else { 1 }))
}

/// The first of `listed` named `name`, or -1 where none is.
pub open spec fn named_at(listed: Seq<AudioDevice>, name: Seq<char>) -> int {
    if exists|at: int| first_named(listed, name, at) {
        choose|at: int| first_named(listed, name, at)
    } else {
        -1
    }
}

/// Whether `at` is where the first of `listed` named `name` stands.
pub open spec fn first_named(listed: Seq<AudioDevice>, name: Seq<char>, at: int) -> bool {
    &&& 0 <= at < listed.len()
    &&& listed[at].id.name@ == name
    &&& forall|before: int| 0 <= before < at ==> #[trigger] listed[before].id.name@ != name
}

proof fn lemma_first_named(listed: Seq<AudioDevice>, name: Seq<char>, at: int)
    requires
        first_named(listed, name, at),
    ensures
        named_at(listed, name) == at,
{
    let chosen = choose|chosen: int| first_named(listed, name, chosen);
    assert(first_named(listed, name, chosen));
    if chosen < at {
        assert(listed[chosen].id.name@ != name);
    } else if chosen > at {
        assert(listed[at].id.name@ != name);
    }
}

fn position_named(listed: &Vec<AudioDevice>, name: &String) -> (at: Option<usize>)
    ensures
        match at {
            Some(at) => at == named_at(listed@, name@),
            None => named_at(listed@, name@) == -1,
        },
{
    let mut at: usize = 0;
    while at < listed.len()
        invariant
            at <= listed@.len(),
            forall|before: int| 0 <= before < at ==> #[trigger] listed@[before].id.name@ != name@,
        decreases listed@.len() - at,
    {
        if listed[at].id.name == *name {
            proof {
                lemma_first_named(listed@, name@, at as int);
            }
            return Some(at);
        }
        at = at + 1;
    }
    proof {
        if exists|chosen: int| first_named(listed@, name@, chosen) {
            let chosen = choose|chosen: int| first_named(listed@, name@, chosen);
            assert(listed@[chosen].id.name@ == name@);
        }
    }
    None
}

/// A name that may be absent, as it reads.
pub open spec fn name_read(named: Option<String>) -> Option<Seq<char>> {
    match named {
        Some(name) => Some(name@),
        None => None,
    }
}

/// Which of `listed` stands for a direction's default: the first named as the
/// host's default device is, where it names one that is listed, and otherwise
/// the first listed.
pub open spec fn default_at(listed: Seq<AudioDevice>, named: Option<Seq<char>>) -> int {
    match named {
        Some(name) => if named_at(listed, name) >= 0 {
            named_at(listed, name)
        } else if listed.len() > 0 {
            0
        } else {
            -1
        },
        None => if listed.len() > 0 {
            0
        } else {
            -1
        },
    }
}

/// The device a direction defaults to and the channels it is opened on: the
/// listed device [`default_at`] picks, across `preferred` channels or its
/// widest where nothing is preferred, or nothing where no device is listed or
/// the one picked offers no channel count.
///
/// `named` is what the host calls its default device, where it has one.
pub fn listed_default(
    listed: &Vec<AudioDevice>,
    named: Option<String>,
    preferred: Option<u16>,
) -> (chosen: Option<(DeviceId, ChannelSelection)>)
    ensures
        match chosen {
            Some((id, selection)) => {
                let at = default_at(listed@, name_read(named));
                let device = listed@[at];
                &&& 0 <= at < listed@.len()
                &&& device.channels@.len() > 0
                &&& id_view(id) == id_view(device.id)
                &&& selection.first == 0
                &&& {
                    let width = match preferred {
                        Some(width) => width,
                        None => device.channels@.last(),
                    };
                    let widest = device.channels@.last();
                    selection.count == if width <= widest {
                        if width >= 1 { width } else { 1 }
                    } else {
                        if widest >= 1 { widest } else { 1 }
                    }
                }
            },
            None => {
                let at = default_at(listed@, name_read(named));
                at < 0 || listed@[at].channels@.len() == 0
            },
        },
{
    let picked = match &named {
        Some(name) => position_named(listed, name),
        None => None,
    };
    let at = match picked {
        Some(at) => at,
        None => {
            if listed.len() == 0 {
                return None;
            }
            0
        },
    };
    let device = &listed[at];
    let channels = device.channels.len();
    if channels == 0 {
        return None;
    }
    let width = match preferred {
        Some(width) => width,
        None => device.channels[channels - 1],
    };
    match offered_selection(device.channels.as_slice(), width) {
        Some(selection) => Some((device.id.duplicate(), selection)),
        None => None,
    }
}

/// The first of `offered` from place `from` on that is at least `reach`.
pub open spec fn first_at_least(offered: Seq<u16>, reach: int, from: int) -> Option<u16>
    decreases offered.len() - from,
{
    if from < 0 || from >= offered.len() {
        None
    } else if offered[from] >= reach {
        Some(offered[from])
    } else {
        first_at_least(offered, reach, from + 1)
    }
}

/// How many channels a device offering `offered` is opened with to carry
/// `selection`: its natural width `natural`, where it offers that and the
/// selection fits in it, and otherwise the first count it offers that the
/// selection fits in; nothing where none does.
pub open spec fn opened_width_of(offered: Seq<u16>, selection: ChannelSelection, natural: u16) -> Option<u16> {
    if offered.contains(natural) && natural >= selection.spec_reach() {
        Some(natural)
    } else {
        first_at_least(offered, selection.spec_reach(), 0)
    }
}

/// How many channels a device offering `offered` is opened with to carry
/// `selection`, where `natural` is the width it opens at by default.
pub fn opened_width(offered: &[u16], selection: ChannelSelection, natural: u16) -> (width: Option<u16>)
    ensures
        width == opened_width_of(offered@, selection, natural),
{
    let reach = selection.reach();
    let mut index: usize = 0;
    let mut offers_natural = false;
    while index < offered.len()
        invariant
            index <= offered@.len(),
            reach == selection.spec_reach(),
            offers_natural == exists|at: int| 0 <= at < index && offered@[at] == natural,
        decreases offered@.len() - index,
    {
        if offered[index] == natural {
            offers_natural = true;
        }
        index = index + 1;
    }
    assert(offers_natural == offered@.contains(natural)) by {
        if offered@.contains(natural) {
            let at = choose|at: int| 0 <= at < offered@.len() && offered@[at] == natural;
            assert(offered@[at] == natural);
        }
    }
    if offers_natural && natural as u32 >= reach {
        return Some(natural);
    }
    let mut at: usize = 0;
    while at < offered.len()
        invariant
            at <= offered@.len(),
            reach == selection.spec_reach(),
            first_at_least(offered@, reach as int, 0) == first_at_least(offered@, reach as int, at as int),
            !(offered@.contains(natural) && natural >= selection.spec_reach()),
        decreases offered@.len() - at,
    {
        if offered[at] as u32 >= reach {
            assert(first_at_least(offered@, reach as int, at as int) == Some(offered@[at as int]));
            assert(!(offered@.contains(natural) && natural >= selection.spec_reach()));
            return Some(offered[at]);
        }
        at = at + 1;
    }
    None
}

} // verus!
