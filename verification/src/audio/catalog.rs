//! The last listing a backend gave, held so that drawing it again costs
//! nothing.
//!
//! Enumerating a host opens every device on it, which is neither free nor
//! harmless while a stream runs: a device a stream holds can drop out of a
//! listing taken under it. [`DeviceCatalog`] keeps the last listing and, on a
//! refresh, carries back the devices a held selection is open on.

use vstd::prelude::*;

use super::{
    device_view, devices_view, host_view, hosts_view, id_view, AudioDevice, AudioHost, ChannelSelection,
    DeviceId,
};

verus! {

/// A device as a listing reads it.
pub type DeviceView = ((Seq<char>, usize), Seq<u16>);

/// A host as a listing reads it.
pub type HostView = (Seq<char>, Seq<DeviceView>, Seq<DeviceView>);

/// A device identity as a listing reads it.
pub type IdView = (Seq<char>, usize);

/// The host and the two devices a stream is open on, and the channels of
/// each it carries.
#[derive(Debug, Clone, PartialEq, Eq)]
pub struct DeviceSelection {
    /// The host both devices are reached through, by name.
    pub host: String,
    /// The device delivering input.
    pub input: DeviceId,
    /// The input channels the stream takes.
    pub input_channels: ChannelSelection,
    /// The device consuming output.
    pub output: DeviceId,
    /// The output channels the stream plays into.
    pub output_channels: ChannelSelection,
}

/// A selection as a listing reads it: the host's name and the two devices'
/// identities.
pub open spec fn selection_view(held: DeviceSelection) -> (Seq<char>, IdView, IdView) {
    (held.host@, id_view(held.input), id_view(held.output))
}

/// Whether `i` is where `name` first occurs in `names`.
pub open spec fn is_first<T>(names: Seq<T>, name: T, i: int) -> bool {
    &&& 0 <= i < names.len()
    &&& names[i] == name
    &&& forall|j: int| 0 <= j < i ==> names[j] != name
}

/// Where `name` first occurs in `names`, or -1 where it does not.
pub open spec fn first_index<T>(names: Seq<T>, name: T) -> int {
    if exists|i: int| is_first(names, name, i) {
        choose|i: int| is_first(names, name, i)
    } else {
        -1
    }
}

/// The names of a listing's hosts, in order.
pub open spec fn host_names(hosts: Seq<HostView>) -> Seq<Seq<char>> {
    hosts.map_values(|host: HostView| host.0)
}

/// The names of a direction's devices, in order.
pub open spec fn device_names(devices: Seq<DeviceView>) -> Seq<IdView> {
    devices.map_values(|device: DeviceView| device.0)
}

/// The first occurrence found is the one `first_index` names.
pub proof fn lemma_first_index<T>(names: Seq<T>, name: T, i: int)
    requires
        is_first(names, name, i),
    ensures
        first_index(names, name) == i,
{
    let k = choose|k: int| is_first(names, name, k);
    assert(is_first(names, name, k));
    if k < i {
        assert(names[k] != name);
    } else if k > i {
        assert(names[i] != name);
    }
}

/// A name that occurs nowhere has no first occurrence.
pub proof fn lemma_absent<T>(names: Seq<T>, name: T)
    requires
        forall|j: int| 0 <= j < names.len() ==> names[j] != name,
    ensures
        first_index(names, name) == -1,
{
    if exists|i: int| is_first(names, name, i) {
        let k = choose|k: int| is_first(names, name, k);
        assert(names[k] == name);
    }
}

/// The devices `host` lists in one direction, `inputs` choosing which, or
/// none where the listing has no such host.
pub open spec fn listed_devices(hosts: Seq<HostView>, host: Seq<char>, inputs: bool) -> Seq<
    DeviceView,
> {
    let at = first_index(host_names(hosts), host);
    if at < 0 {
        Seq::empty()
    } else if inputs {
        hosts[at].1
    } else {
        hosts[at].2
    }
}

/// The device named `id` that `before` listed and `now` no longer does.
pub open spec fn lost_device(before: Seq<DeviceView>, id: IdView, now: Seq<DeviceView>) -> Option<
    DeviceView,
> {
    if first_index(device_names(now), id) >= 0 {
        None
    } else {
        let at = first_index(device_names(before), id);
        if at < 0 {
            None
        } else {
            Some(before[at])
        }
    }
}

/// No device, or the one.
pub open spec fn carried_rows(device: Option<DeviceView>) -> Seq<DeviceView> {
    match device {
        Some(row) => seq![row],
        None => Seq::empty(),
    }
}

/// `listed`, with back whichever of the devices `held` names it lost from
/// what `previous` listed under the held host.
///
/// A carried device is appended to the first host of its name, which is
/// appended first, empty, where the new listing lost the host as well.
pub open spec fn carried(
    previous: Seq<HostView>,
    listed: Seq<HostView>,
    held: (Seq<char>, IdView, IdView),
) -> Seq<HostView> {
    let before = first_index(host_names(previous), held.0);
    if before < 0 {
        listed
    } else {
        let input = lost_device(previous[before].1, held.1, listed_devices(listed, held.0, true));
        let output = lost_device(previous[before].2, held.2, listed_devices(listed, held.0, false));
        if input is None && output is None {
            listed
        } else {
            let grown = if first_index(host_names(listed), held.0) >= 0 {
                listed
            } else {
                listed.push((held.0, Seq::empty(), Seq::empty()))
            };
            let at = first_index(host_names(grown), held.0);
            grown.update(
                at,
                (grown[at].0, grown[at].1 + carried_rows(input), grown[at].2 + carried_rows(output)),
            )
        }
    }
}

/// A refresh takes away nothing a held stream needs and adds nothing else:
/// where the new listing still lists both held devices under the held host,
/// it is kept exactly as the backend gave it.
pub proof fn lemma_nothing_lost_nothing_carried(
    previous: Seq<HostView>,
    listed: Seq<HostView>,
    held: (Seq<char>, IdView, IdView),
)
    requires
        first_index(device_names(listed_devices(listed, held.0, true)), held.1) >= 0,
        first_index(device_names(listed_devices(listed, held.0, false)), held.2) >= 0,
    ensures
        carried(previous, listed, held) == listed,
{
}

/// Whether `devices` lists the device `id`.
pub open spec fn lists(devices: Seq<DeviceView>, id: IdView) -> bool {
    exists|at: int| 0 <= at < devices.len() && #[trigger] devices[at].0 == id
}

/// A name that occurs somewhere has a first occurrence, no later than any.
proof fn lemma_first_found<T>(names: Seq<T>, name: T, at: int)
    requires
        0 <= at < names.len(),
        names[at] == name,
    ensures
        0 <= first_index(names, name) <= at,
        names[first_index(names, name)] == name,
    decreases at,
{
    if exists|j: int| 0 <= j < at && names[j] == name {
        let j = choose|j: int| 0 <= j < at && names[j] == name;
        lemma_first_found(names, name, j);
    } else {
        assert(is_first(names, name, at));
        lemma_first_index(names, name, at);
    }
}

/// A direction lists a device exactly where its names hold the device's.
proof fn lemma_lists_by_name(devices: Seq<DeviceView>, id: IdView)
    ensures
        lists(devices, id) <==> first_index(device_names(devices), id) >= 0,
{
    let names = device_names(devices);
    if lists(devices, id) {
        let at = choose|at: int| 0 <= at < devices.len() && #[trigger] devices[at].0 == id;
        assert(names[at] == devices[at].0);
        lemma_first_found(names, id, at);
    } else {
        assert forall|j: int| 0 <= j < names.len() implies names[j] != id by {
            assert(names[j] == devices[j].0);
        }
        lemma_absent(names, id);
    }
}

/// Where `hosts` has a host named `host`, the devices it lists under it are
/// those of its first host of that name.
proof fn lemma_listed_under_first(hosts: Seq<HostView>, host: Seq<char>, at: int)
    requires
        at == first_index(host_names(hosts), host),
        at >= 0,
    ensures
        at < hosts.len(),
        hosts[at].0 == host,
        listed_devices(hosts, host, true) == hosts[at].1,
        listed_devices(hosts, host, false) == hosts[at].2,
{
    let k = choose|k: int| is_first(host_names(hosts), host, k);
    assert(is_first(host_names(hosts), host, k));
    assert(host_names(hosts)[at] == hosts[at].0);
}

/// A refresh never takes away a device a held stream is open on: each of the
/// held input and output that the earlier listing had under the held host is
/// listed under that host afterwards, whether the backend still listed it or
/// it had to be carried back.
pub proof fn lemma_held_devices_stay_listed(
    previous: Seq<HostView>,
    listed: Seq<HostView>,
    held: (Seq<char>, IdView, IdView),
)
    ensures
        lists(listed_devices(previous, held.0, true), held.1) ==> lists(
            listed_devices(carried(previous, listed, held), held.0, true),
            held.1,
        ),
        lists(listed_devices(previous, held.0, false), held.2) ==> lists(
            listed_devices(carried(previous, listed, held), held.0, false),
            held.2,
        ),
{
    lemma_held_device_stays_listed(previous, listed, held, true);
    lemma_held_device_stays_listed(previous, listed, held, false);
}

proof fn lemma_held_device_stays_listed(
    previous: Seq<HostView>,
    listed: Seq<HostView>,
    held: (Seq<char>, IdView, IdView),
    inputs: bool,
)
    ensures
        lists(listed_devices(previous, held.0, inputs), if inputs { held.1 } else { held.2 }) ==> lists(
            listed_devices(carried(previous, listed, held), held.0, inputs),
            if inputs { held.1 } else { held.2 },
        ),
{
    let id = if inputs { held.1 } else { held.2 };
    let before = first_index(host_names(previous), held.0);
    if before >= 0 && lists(listed_devices(previous, held.0, inputs), id) {
        lemma_listed_under_first(previous, held.0, before);
        let input = lost_device(previous[before].1, held.1, listed_devices(listed, held.0, true));
        let output = lost_device(previous[before].2, held.2, listed_devices(listed, held.0, false));
        let mine = if inputs { input } else { output };
        let was = if inputs { previous[before].1 } else { previous[before].2 };
        let now = listed_devices(listed, held.0, inputs);
        lemma_lists_by_name(was, id);
        lemma_lists_by_name(now, id);
        lemma_carried_as_listed(was, id, now);
        let result = carried(previous, listed, held);
        if lists(now, id) {
            assert(mine is None);
            if input is None && output is None {
                assert(result == listed);
            } else {
                let listed_at = first_index(host_names(listed), held.0);
                if listed_at < 0 {
                    assert(now == Seq::<DeviceView>::empty());
                    assert(false);
                }
                lemma_listed_under_first(listed, held.0, listed_at);
                let row = (
                    listed[listed_at].0,
                    listed[listed_at].1 + carried_rows(input),
                    listed[listed_at].2 + carried_rows(output),
                );
                assert(result == listed.update(listed_at, row));
                assert(host_names(result) =~= host_names(listed));
                lemma_listed_under_first(result, held.0, listed_at);
                assert(carried_rows(mine) =~= Seq::<DeviceView>::empty());
                if inputs {
                    assert(result[listed_at].1 =~= listed[listed_at].1);
                } else {
                    assert(result[listed_at].2 =~= listed[listed_at].2);
                }
            }
        } else {
            assert(mine is Some);
            let row = mine->0;
            assert(row.0 == id);
            let grown = if first_index(host_names(listed), held.0) >= 0 {
                listed
            } else {
                listed.push((held.0, Seq::empty(), Seq::empty()))
            };
            if first_index(host_names(listed), held.0) < 0 {
                assert(host_names(grown)[listed.len() as int] == held.0);
                lemma_first_found(host_names(grown), held.0, listed.len() as int);
            }
            let at = first_index(host_names(grown), held.0);
            lemma_listed_under_first(grown, held.0, at);
            let updated = (grown[at].0, grown[at].1 + carried_rows(input), grown[at].2 + carried_rows(output));
            assert(result == grown.update(at, updated));
            assert(host_names(result) =~= host_names(grown));
            lemma_listed_under_first(result, held.0, at);
            if inputs {
                let devices = result[at].1;
                assert(devices[devices.len() - 1] == row);
                assert(devices[devices.len() - 1].0 == id);
            } else {
                let devices = result[at].2;
                assert(devices[devices.len() - 1] == row);
                assert(devices[devices.len() - 1].0 == id);
            }
        }
    }
}

/// A device carried back is the one the earlier listing held, with the
/// channel counts it was listed with then.
pub proof fn lemma_carried_as_listed(before: Seq<DeviceView>, id: IdView, now: Seq<DeviceView>)
    ensures
        match lost_device(before, id, now) {
            Some(row) => {
                &&& row.0 == id
                &&& exists|at: int| 0 <= at < before.len() && before[at] == row
            },
            None => true,
        },
{
    if lost_device(before, id, now) is Some {
        let at = first_index(device_names(before), id);
        let k = choose|k: int| is_first(device_names(before), id, k);
        assert(is_first(device_names(before), id, k));
        assert(device_names(before)[at] == before[at].0);
    }
}

fn find_host(hosts: &Vec<AudioHost>, name: &String) -> (found: Option<usize>)
    ensures
        match found {
            Some(at) => at == first_index(host_names(hosts_view(hosts@)), name@),
            None => {
                &&& first_index(host_names(hosts_view(hosts@)), name@) == -1
                &&& forall|j: int|
                    0 <= j < hosts.len() ==> host_names(hosts_view(hosts@))[j] != name@
            },
        },
{
    let ghost names = host_names(hosts_view(hosts@));
    let mut at: usize = 0;
    while at < hosts.len()
        invariant
            at <= hosts.len(),
            names == host_names(hosts_view(hosts@)),
            names.len() == hosts.len(),
            forall|j: int| 0 <= j < at ==> names[j] != name@,
        decreases hosts.len() - at,
    {
        assert(names[at as int] == hosts@[at as int].name@);
        if hosts[at].name == *name {
            proof {
                lemma_first_index(names, name@, at as int);
            }
            return Some(at);
        }
        at = at + 1;
    }
    proof {
        lemma_absent(names, name@);
    }
    None
}

fn find_device(devices: &Vec<AudioDevice>, id: &DeviceId) -> (found: Option<usize>)
    ensures
        match found {
            Some(at) => at == first_index(device_names(devices_view(devices@)), id_view(*id)),
            None => first_index(device_names(devices_view(devices@)), id_view(*id)) == -1,
        },
{
    let ghost names = device_names(devices_view(devices@));
    let mut at: usize = 0;
    while at < devices.len()
        invariant
            at <= devices.len(),
            names == device_names(devices_view(devices@)),
            names.len() == devices.len(),
            forall|j: int| 0 <= j < at ==> names[j] != id_view(*id),
        decreases devices.len() - at,
    {
        assert(names[at as int] == id_view(devices@[at as int].id));
        if devices[at].id.same(id) {
            proof {
                lemma_first_index(names, id_view(*id), at as int);
            }
            return Some(at);
        }
        at = at + 1;
    }
    proof {
        lemma_absent(names, id_view(*id));
    }
    None
}

fn copy_device(device: &AudioDevice) -> (copy: AudioDevice)
    ensures
        device_view(copy) == device_view(*device),
{
    let channels = device.channels.clone();
    assert(channels@ =~= device.channels@);
    AudioDevice { id: device.id.duplicate(), channels }
}

fn lost(before: &Vec<AudioDevice>, id: &DeviceId, now: &Vec<AudioDevice>) -> (gone: Option<
    AudioDevice,
>)
    ensures
        match gone {
            Some(device) => lost_device(devices_view(before@), id_view(*id), devices_view(now@)) == Some(
                device_view(device),
            ),
            None => lost_device(devices_view(before@), id_view(*id), devices_view(now@)) is None,
        },
{
    if find_device(now, id).is_some() {
        return None;
    }
    match find_device(before, id) {
        Some(at) => Some(copy_device(&before[at])),
        None => None,
    }
}

/// A listing, and the choice of when to pay for another one.
///
/// Reading costs nothing however often a page is drawn; only
/// [`refresh`](Self::refresh) replaces what is held.
#[derive(Debug, Clone, PartialEq, Eq)]
pub struct DeviceCatalog {
    sample_rate: u32,
    hosts: Vec<AudioHost>,
    listed: bool,
}

impl DeviceCatalog {
    /// The rate listings are asked for at.
    pub closed spec fn spec_sample_rate(&self) -> u32 {
        self.sample_rate
    }

    /// The listing held, as it reads.
    pub closed spec fn spec_hosts(&self) -> Seq<HostView> {
        hosts_view(self.hosts@)
    }

    /// Whether any refresh has finished.
    pub closed spec fn spec_listed(&self) -> bool {
        self.listed
    }

    /// A catalog that will list what a backend offers at `sample_rate`, having
    /// asked nothing yet.
    pub fn new(sample_rate: u32) -> (catalog: Self)
        ensures
            catalog.spec_sample_rate() == sample_rate,
            catalog.spec_hosts() == Seq::<HostView>::empty(),
            !catalog.spec_listed(),
    {
        let catalog = Self { sample_rate, hosts: Vec::new(), listed: false };
        assert(catalog.spec_hosts() =~= Seq::<HostView>::empty());
        catalog
    }

    /// The rate a refresh asks its backend to list at.
    pub fn sample_rate(&self) -> (rate: u32)
        ensures
            rate == self.spec_sample_rate(),
    {
        self.sample_rate
    }

    /// The listing as of the last refresh, which nothing promises is still
    /// true. Empty before the first.
    pub fn hosts(&self) -> (hosts: &[AudioHost])
        ensures
            hosts_view(hosts@) == self.spec_hosts(),
    {
        self.hosts.as_slice()
    }

    /// Whether any refresh has finished, so an empty listing can be drawn as
    /// not yet asked rather than as a machine with nothing on it. Never goes
    /// back to false.
    pub fn has_listed(&self) -> (listed: bool)
        ensures
            listed == self.spec_listed(),
    {
        self.listed
    }

    /// Take `listed`, what the backend offers now at the catalog's rate,
    /// keeping whatever `held` identifies that the new listing lost.
    ///
    /// `held` is the selection a stream is open on. Only a device an earlier
    /// refresh saw can be carried, so refresh once before opening anything;
    /// pass `None` where nothing is open, so a device that has gone can go.
    pub fn refresh(&mut self, listed: Vec<AudioHost>, held: Option<&DeviceSelection>)
        ensures
            final(self).spec_sample_rate() == old(self).spec_sample_rate(),
            final(self).spec_listed(),
            final(self).spec_hosts() == match held {
                Some(held) => carried(old(self).spec_hosts(), hosts_view(listed@), selection_view(*held)),
                None => hosts_view(listed@),
            },
    {
        let mut previous = listed;
        std::mem::swap(&mut previous, &mut self.hosts);
        self.listed = true;
        if let Some(held) = held {
            self.carry(&previous, held);
        }
    }

    fn carry(&mut self, previous: &Vec<AudioHost>, held: &DeviceSelection)
        ensures
            final(self).spec_sample_rate() == old(self).spec_sample_rate(),
            final(self).spec_listed() == old(self).spec_listed(),
            final(self).spec_hosts() == carried(
                hosts_view(previous@),
                old(self).spec_hosts(),
                selection_view(*held),
            ),
    {
        let ghost listed = hosts_view(self.hosts@);
        let before = match find_host(previous, &held.host) {
            Some(at) => at,
            None => {
                return;
            },
        };
        let now = find_host(&self.hosts, &held.host);
        let empty: Vec<AudioDevice> = Vec::new();
        assert(devices_view(empty@) =~= Seq::<DeviceView>::empty());
        let (listed_inputs, listed_outputs) = match now {
            Some(at) => (&self.hosts[at].inputs, &self.hosts[at].outputs),
            None => (&empty, &empty),
        };
        let input = lost(&previous[before].inputs, &held.input, listed_inputs);
        let output = lost(&previous[before].outputs, &held.output, listed_outputs);
        if input.is_none() && output.is_none() {
            return;
        }
        let ghost grown = if now.is_some() {
            listed
        } else {
            listed.push((held.host@, Seq::<DeviceView>::empty(), Seq::<DeviceView>::empty()))
        };
        let at = match now {
            Some(at) => at,
            None => {
                let host = AudioHost { name: held.host.clone(), inputs: Vec::new(), outputs: Vec::new() };
                let ghost viewed = host_view(host);
                assert(viewed =~= (held.host@, Seq::<DeviceView>::empty(), Seq::<DeviceView>::empty()));
                self.hosts.push(host);
                assert(hosts_view(self.hosts@) =~= grown);
                let at = self.hosts.len() - 1;
                proof {
                    let names = host_names(grown);
                    assert(names[at as int] == held.host@);
                    assert forall|j: int| 0 <= j < at implies names[j] != held.host@ by {
                        assert(names[j] == host_names(listed)[j]);
                    }
                    lemma_first_index(names, held.host@, at as int);
                }
                at
            },
        };
        assert(hosts_view(self.hosts@) == grown);
        assert(at == first_index(host_names(grown), held.host@));
        let mut host = self.hosts.remove(at);
        let ghost was = host_view(host);
        match input {
            Some(device) => {
                host.inputs.push(device);
            },
            None => {},
        }
        match output {
            Some(device) => {
                host.outputs.push(device);
            },
            None => {},
        }
        assert(devices_view(host.inputs@) =~= was.1 + carried_rows(
            lost_device(hosts_view(previous@)[before as int].1, id_view(held.input), listed_devices(listed, held.host@, true)),
        ));
        assert(devices_view(host.outputs@) =~= was.2 + carried_rows(
            lost_device(hosts_view(previous@)[before as int].2, id_view(held.output), listed_devices(listed, held.host@, false)),
        ));
        self.hosts.insert(at, host);
        assert(hosts_view(self.hosts@) =~= carried(hosts_view(previous@), listed, selection_view(*held)));
    }
}

} // verus!
