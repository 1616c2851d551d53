//! Device rows: what a connected TV is, and which rows are the same TV.

use vstd::prelude::*;

use crate::address::{ip_port, is_ip_port};
use crate::text::{ascii_lowered, concat3, same, to_ascii_lower, trim, trimmed};

verus! {

/// The product line of a device.
#[derive(Debug, Clone, Copy, PartialEq, Eq, Structural)]
pub enum DeviceType {
    Shield,
    GoogleTv,
    Unknown,
}

impl DeviceType {
    /// The name of the product line as a user reads it.
    pub open spec fn label_text(self) -> Seq<char> {
        match self {
            DeviceType::Shield => "Nvidia Shield"@,
            DeviceType::GoogleTv => "Google TV"@,
            DeviceType::Unknown => "Unknown"@,
        }
    }

    /// The name of the product line as a user reads it.
    pub fn label(self) -> (r: &'static str)
        ensures
            r@ == self.label_text(),
    {
        match self {
            DeviceType::Shield => "Nvidia Shield",
            DeviceType::GoogleTv => "Google TV",
            DeviceType::Unknown => "Unknown",
        }
    }
}

/// What `adb devices` says of a device.
#[derive(Debug, Clone, Copy, PartialEq, Eq, Structural)]
pub enum DeviceStatus {
    Device,
    Unauthorized,
    Offline,
    Unknown,
}

/// How a device is reached.
#[derive(Debug, Clone, Copy, PartialEq, Eq, Structural)]
pub enum ConnectionType {
    Network,
    Usb,
}

/// What a device says of itself.
#[derive(Debug, Clone, PartialEq, Eq, Default)]
pub struct DeviceProperties {
    pub friendly_name: Option<String>,
    pub brand: String,
    pub model: String,
    pub device_codename: String,
    pub manufacturer: String,
    pub android_release: String,
    pub sdk_level: String,
    pub build_id: String,
    pub board_platform: String,
    pub characteristics: String,
    pub serial_number: String,
}

/// One row of the device list.
#[derive(Debug, Clone, PartialEq, Eq)]
pub struct Device {
    /// The position in the list, counted from 1.
    pub id: u32,
    pub serial: String,
    pub name: String,
    pub model: String,
    pub device_type: DeviceType,
    pub status: DeviceStatus,
    pub connection: ConnectionType,
    pub properties: Option<DeviceProperties>,
}

// ---------------------------------------------------------------------------
// Identity.
// ---------------------------------------------------------------------------

/// The serial number burnt into a device, where it gave one. Empty and `unknown` are both
/// no evidence.
pub open spec fn hardware(device: Device) -> Option<Seq<char>> {
    match device.properties {
        Some(properties) => {
            let id = trimmed(properties.serial_number@);
            if id.len() == 0 || ascii_lowered(id) == "unknown"@ {
                None
            } else {
                Some(id)
            }
        },
        None => None,
    }
}

/// The two rows are one physical device in one state. Nothing but the hardware id counts:
/// rows are never taken for one because their addresses look related.
pub open spec fn same_unit(a: Device, b: Device) -> bool {
    &&& hardware(a) is Some
    &&& hardware(a) == hardware(b)
    &&& a.status == b.status
}

/// The first row from `i` on that is the same unit as `device`, or -1.
pub open spec fn twin_from(rows: Seq<Device>, device: Device, i: int) -> int
    decreases rows.len() - i,
{
    if i < 0 || i >= rows.len() {
        -1
    } else if same_unit(rows[i], device) {
        i
    } else {
        twin_from(rows, device, i + 1)
    }
}

/// `kept` with the better address of the two: the one that a person can act on.
pub open spec fn with_better_address(kept: Device, device: Device) -> Device {
    if !ip_port(kept.serial@) && ip_port(device.serial@) {
        Device { serial: device.serial, connection: device.connection, ..kept }
    } else {
        kept
    }
}

/// The rows after one more device was seen.
pub open spec fn absorb(rows: Seq<Device>, device: Device) -> Seq<Device> {
    let k = twin_from(rows, device, 0);
    if k < 0 {
        rows.push(device)
    } else {
        rows.update(k, with_better_address(rows[k], device))
    }
}

/// One row for each physical device, in the order in which they were first seen.
pub open spec fn collapsed(devices: Seq<Device>) -> Seq<Device>
    decreases devices.len(),
{
    if devices.len() == 0 {
        Seq::empty()
    } else {
        absorb(collapsed(devices.drop_last()), devices.last())
    }
}

/// The serial number of the device, or `None` where it gave nothing to identify it by.
///
/// Empty and the literal `unknown` are both no evidence: some builds report the latter
/// rather than leaving the property unset, and treating it as an identity would merge every
/// such device into one row.
pub fn hardware_id(device: &Device) -> (r: Option<&str>)
    ensures
        match r {
            Some(id) => hardware(*device) == Some(id@),
            None => hardware(*device) is None,
        },
{
    match &device.properties {
        Some(properties) => {
            let id = trim(properties.serial_number.as_str());
            let lower = to_ascii_lower(id);
            if id.is_empty() || same(lower.as_str(), "unknown") {
                None
            } else {
                Some(id)
            }
        },
        None => None,
    }
}

/// The first row that is the same unit as the device.
fn find_twin(rows: &Vec<Device>, device: &Device) -> (r: Option<usize>)
    ensures
        match r {
            Some(k) => k < rows@.len() && k == twin_from(rows@, *device, 0),
            None => twin_from(rows@, *device, 0) == -1,
        },
{
    let id = hardware_id(device);
    let mut i: usize = 0;
    while i < rows.len()
        invariant
            i <= rows@.len(),
            match id {
                Some(id) => hardware(*device) == Some(id@),
                None => hardware(*device) is None,
            },
            twin_from(rows@, *device, 0) == twin_from(rows@, *device, i as int),
        decreases rows@.len() - i,
    {
        let twin: bool = match (hardware_id(&rows[i]), id) {
            (Some(a), Some(b)) => same(a, b) && rows[i].status == device.status,
            _ => false,
        };
        if twin {
            return Some(i);
        }
        i = i + 1;
    }
    None
}

/// Collapses rows that are the same physical device reached two ways.
///
/// adb holds two transports for one device where it auto-connects a paired mDNS device
/// under its service name and something also dials the same device by `host:port`. The row
/// that was seen first survives; it takes over the `ip:port` serial where one of the pair
/// has it.
pub fn collapse_duplicate_transports(devices: Vec<Device>) -> (r: Vec<Device>)
    ensures
        r@ == collapsed(devices@),
{
    let mut out: Vec<Device> = Vec::new();
    let ghost all = devices@;
    proof {
        assert(all.take(0) =~= Seq::<Device>::empty());
    }
    for device in it: devices
        invariant
            it.seq() == all,
            out@ == collapsed(all.take(it.index() as int)),
    {
        proof {
            assert(all.take(it.index() + 1).drop_last() =~= all.take(it.index() as int));
            assert(all.take(it.index() + 1).last() == device);
        }
        match find_twin(&out, &device) {
            Some(k) => {
                if !is_ip_port(out[k].serial.as_str()) && is_ip_port(device.serial.as_str()) {
                    out[k].serial = device.serial;
                    out[k].connection = device.connection;
                }
            },
            None => {
                out.push(device);
            },
        }
    }
    proof {
        assert(all.take(all.len() as int) =~= all);
    }
    out
}

/// The rows with the numbers 1, 2, 3 and so on.
pub open spec fn renumbered(devices: Seq<Device>) -> Seq<Device> {
    Seq::new(devices.len(), |i: int| Device { id: (i + 1) as u32, ..devices[i] })
}

/// Numbers the rows. The number is a menu index, so it has to stay contiguous after rows
/// were merged.
pub fn renumber(devices: Vec<Device>) -> (r: Vec<Device>)
    ensures
        r@ == renumbered(devices@),
{
    let mut out = devices;
    let mut i: usize = 0;
    while i < out.len()
        invariant
            i <= out@.len(),
            out@.len() == devices@.len(),
            forall|j: int| 0 <= j < i ==> out@[j] == renumbered(devices@)[j],
            forall|j: int| i <= j < out@.len() ==> out@[j] == devices@[j],
        decreases out@.len() - i,
    {
        out[i].id = #[verifier::truncate] ((i + 1) as u32);
        i = i + 1;
    }
    proof {
        assert(out@ =~= renumbered(devices@));
    }
    out
}

/// The position of the first row from `i` on with the serial, or -1.
pub open spec fn profile_position(devices: Seq<Device>, serial: Seq<char>, i: int) -> int
    decreases devices.len() - i,
{
    if i < 0 || i >= devices.len() {
        -1
    } else if devices[i].serial@ == serial {
        i
    } else {
        profile_position(devices, serial, i + 1)
    }
}

/// Picks the device with the serial out of the list.
pub fn find_device(devices: Vec<Device>, serial: &str) -> (r: Result<Device, String>)
    ensures
        match r {
            Ok(device) => {
                let k = profile_position(devices@, serial@, 0);
                0 <= k < devices@.len() && device == devices@[k]
            },
            Err(message) => profile_position(devices@, serial@, 0) == -1 && message@ == "device "@
                + serial@ + " not found"@,
        },
{
    let mut rows = devices;
    let mut i: usize = 0;
    while i < rows.len()
        invariant
            rows@ == devices@,
            i <= rows@.len(),
            profile_position(devices@, serial@, 0) == profile_position(
                devices@,
                serial@,
                i as int,
            ),
        decreases rows@.len() - i,
    {
        if same(rows[i].serial.as_str(), serial) {
            return Ok(rows.swap_remove(i));
        }
        i = i + 1;
    }
    Err(concat3("device ", serial, " not found"))
}

// ---------------------------------------------------------------------------
// Laws.
// ---------------------------------------------------------------------------

proof fn lemma_twin_from(rows: Seq<Device>, device: Device, i: int)
    requires
        0 <= i,
    ensures
        ({
            let k = twin_from(rows, device, i);
            &&& -1 <= k < rows.len()
            &&& k >= 0 ==> i <= k && same_unit(rows[k], device) && forall|j: int|
                i <= j < k ==> !same_unit(rows[j], device)
            &&& k < 0 ==> forall|j: int| i <= j < rows.len() ==> !same_unit(rows[j], device)
        }),
    decreases rows.len() - i,
{
    if i < rows.len() && !same_unit(rows[i], device) {
        lemma_twin_from(rows, device, i + 1);
    }
}

/// What one more device does to the rows: each row keeps its identity and its state, at
/// most the row of the device takes over its address, and the device has a row of its own
/// only where no row was the same unit.
proof fn lemma_absorb(before: Seq<Device>, device: Device)
    ensures
        ({
            let t = twin_from(before, device, 0);
            let after = absorb(before, device);
            &&& -1 <= t < before.len()
            &&& t >= 0 ==> after.len() == before.len() && same_unit(before[t], device)
            &&& t < 0 ==> after.len() == before.len() + 1 && after[before.len() as int] == device
            &&& t < 0 ==> forall|j: int| 0 <= j < before.len() ==> !same_unit(before[j], device)
            &&& forall|j: int|
                0 <= j < before.len() ==> hardware(#[trigger] after[j]) == hardware(before[j])
                    && after[j].status == before[j].status
            &&& forall|j: int| 0 <= j < before.len() && j != t ==> after[j] == before[j]
            &&& t >= 0 ==> after[t] == with_better_address(before[t], device)
        }),
{
    lemma_twin_from(before, device, 0);
}

/// No two of the rows are the same unit.
pub open spec fn no_twins(rows: Seq<Device>) -> bool {
    forall|i: int, j: int| 0 <= i < j < rows.len() ==> !same_unit(rows[i], rows[j])
}

/// Once collapsed, no device has two rows.
pub proof fn collapsed_rows_are_distinct(devices: Seq<Device>)
    ensures
        no_twins(collapsed(devices)),
    decreases devices.len(),
{
    if devices.len() > 0 {
        let before = collapsed(devices.drop_last());
        let after = collapsed(devices);
        collapsed_rows_are_distinct(devices.drop_last());
        lemma_absorb(before, devices.last());
        assert forall|i: int, j: int| 0 <= i < j < after.len() implies !same_unit(
            after[i],
            after[j],
        ) by {
            if j < before.len() {
                assert(!same_unit(before[i], before[j]));
            } else {
                assert(!same_unit(before[i], devices.last()));
            }
        }
    }
}

/// Collapsing a collapsed list changes nothing.
pub proof fn collapsing_twice_is_collapsing_once(devices: Seq<Device>)
    ensures
        collapsed(collapsed(devices)) == collapsed(devices),
{
    collapsed_rows_are_distinct(devices);
    lemma_distinct_rows_stay(collapsed(devices));
}

proof fn lemma_distinct_rows_stay(rows: Seq<Device>)
    requires
        no_twins(rows),
    ensures
        collapsed(rows) == rows,
    decreases rows.len(),
{
    if rows.len() > 0 {
        assert(no_twins(rows.drop_last()));
        lemma_distinct_rows_stay(rows.drop_last());
        lemma_twin_from(rows.drop_last(), rows.last(), 0);
        assert(rows.drop_last().push(rows.last()) =~= rows);
    } else {
        assert(collapsed(rows) =~= rows);
    }
}

/// The row stands in the list for the device: it is the same unit, or it is the device
/// itself where the device gave no evidence of its identity.
pub open spec fn stands_for(row: Device, device: Device) -> bool {
    if hardware(device) is Some {
        same_unit(row, device)
    } else {
        row == device
    }
}

/// No device is lost: each has a row that stands for it.
pub proof fn every_device_keeps_a_row(devices: Seq<Device>, i: int) -> (k: int)
    requires
        0 <= i < devices.len(),
    ensures
        0 <= k < collapsed(devices).len(),
        stands_for(collapsed(devices)[k], devices[i]),
    decreases devices.len(),
{
    let front = devices.drop_last();
    let before = collapsed(front);
    let device = devices.last();
    lemma_absorb(before, device);
    let t = twin_from(before, device, 0);
    if i < devices.len() - 1 {
        let k = every_device_keeps_a_row(front, i);
        assert(front[i] == devices[i]);
        k
    } else if t >= 0 {
        t
    } else {
        before.len() as int
    }
}

/// Nothing is made up: each row has the identity of a device that was there, and its
/// address is that of a device of the same identity.
pub proof fn every_row_comes_from_a_device(devices: Seq<Device>, k: int) -> (i: int)
    requires
        0 <= k < collapsed(devices).len(),
    ensures
        0 <= i < devices.len(),
        stands_for(collapsed(devices)[k], devices[i]),
        collapsed(devices)[k].serial == devices[i].serial,
        collapsed(devices)[k].connection == devices[i].connection,
    decreases devices.len(),
{
    let front = devices.drop_last();
    let before = collapsed(front);
    let device = devices.last();
    let last = devices.len() - 1;
    lemma_absorb(before, device);
    let t = twin_from(before, device, 0);
    if k == before.len() {
        last
    } else if k == t && !ip_port(before[t].serial@) && ip_port(device.serial@) {
        last
    } else {
        let i = every_row_comes_from_a_device(front, k);
        assert(front[i] == devices[i]);
        assert(collapsed(devices)[k] == before[k]);
        i
    }
}

/// A device that gave no evidence of its identity keeps its own row, untouched.
pub proof fn unidentified_devices_stand_alone(devices: Seq<Device>, i: int)
    requires
        0 <= i < devices.len(),
        hardware(devices[i]) is None,
    ensures
        collapsed(devices).contains(devices[i]),
{
    let k = every_device_keeps_a_row(devices, i);
    assert(collapsed(devices)[k] == devices[i]);
}

/// Devices of two identities, or in two states, never share a row, however alike their
/// addresses look.
pub proof fn different_units_keep_different_rows(devices: Seq<Device>, i: int, j: int, k: int)
    requires
        0 <= i < devices.len(),
        0 <= j < devices.len(),
        0 <= k < collapsed(devices).len(),
        hardware(devices[i]) != hardware(devices[j]) || devices[i].status != devices[j].status,
    ensures
        !(stands_for(collapsed(devices)[k], devices[i]) && stands_for(
            collapsed(devices)[k],
            devices[j],
        )),
{
}

/// The row of a device has an address that a person can act on as soon as one of its
/// transports has.
pub proof fn the_usable_address_survives(devices: Seq<Device>, i: int, k: int)
    requires
        0 <= i < devices.len(),
        0 <= k < collapsed(devices).len(),
        same_unit(collapsed(devices)[k], devices[i]),
        ip_port(devices[i].serial@),
    ensures
        ip_port(collapsed(devices)[k].serial@),
    decreases devices.len(),
{
    let front = devices.drop_last();
    let before = collapsed(front);
    let device = devices.last();
    let t = twin_from(before, device, 0);
    lemma_absorb(before, device);
    collapsed_rows_are_distinct(front);
    if i < devices.len() - 1 {
        assert(front[i] == devices[i]);
        if k < before.len() {
            assert(same_unit(before[k], front[i]));
            the_usable_address_survives(front, i, k);
        } else {
            let j = every_device_keeps_a_row(front, i);
            assert(same_unit(before[j], device));
        }
    } else if t >= 0 {
        if k < t {
            assert(!same_unit(before[k], before[t]));
        } else if k > t {
            assert(!same_unit(before[t], before[k]));
        }
        assert(k == t);
    } else if k < before.len() {
        assert(!same_unit(before[k], device));
    }
}

/// After a merge the menu numbers are contiguous from 1.
pub proof fn menu_numbers_are_contiguous(devices: Seq<Device>)
    requires
        devices.len() <= u32::MAX,
    ensures
        forall|i: int| 0 <= i < devices.len() ==> (#[trigger] renumbered(devices)[i]).id == i + 1,
        forall|i: int|
            0 <= i < devices.len() ==> (#[trigger] renumbered(devices)[i]).serial
                == devices[i].serial,
{
}

/// A device is known by the serial number that it gives, without the white space round it: none
/// where it was not asked, where it gave nothing, and where it gave `unknown` in any case of
/// letters. Two rows are one unit where they give the same number in the same state, whatever
/// their addresses, names and models.
pub proof fn a_unit_is_known_by_its_number_and_state(a: Device, b: Device)
    ensures
        hardware(a) is Some <==> (a.properties matches Some(p) && trimmed(p.serial_number@).len() > 0
            && ascii_lowered(trimmed(p.serial_number@)) != "unknown"@),
        hardware(a) matches Some(id) ==> (a.properties matches Some(p) && id == trimmed(
            p.serial_number@,
        )),
        same_unit(a, b) <==> {
            &&& a.properties is Some
            &&& b.properties is Some
            &&& trimmed(a.properties->Some_0.serial_number@) == trimmed(
                b.properties->Some_0.serial_number@,
            )
            &&& trimmed(a.properties->Some_0.serial_number@).len() > 0
            &&& ascii_lowered(trimmed(a.properties->Some_0.serial_number@)) != "unknown"@
            &&& a.status == b.status
        },
{
}

/// The address of a row whose unit was first seen as device `i` is that of device `m`: that
/// of the first sight, unless this is no `ip:port`; then that of the first later sight of the
/// unit that is one, where there is such a sight.
pub open spec fn address_comes_from(row: Device, devices: Seq<Device>, i: int, m: int) -> bool {
    &&& i <= m < devices.len()
    &&& row.serial == devices[m].serial
    &&& row.connection == devices[m].connection
    &&& m > i ==> {
        &&& same_unit(devices[m], devices[i])
        &&& ip_port(devices[m].serial@)
        &&& !ip_port(devices[i].serial@)
        &&& forall|j: int|
            i < j < m && same_unit(#[trigger] devices[j], devices[i]) ==> !ip_port(
                devices[j].serial@,
            )
    }
    &&& m == i && !ip_port(devices[i].serial@) ==> forall|j: int|
        i < j < devices.len() && same_unit(#[trigger] devices[j], devices[i]) ==> !ip_port(
            devices[j].serial@,
        )
}

/// The row is that of the unit that was first seen as device `i`: all but the address is what
/// was seen then.
pub open spec fn first_seen_as(row: Device, devices: Seq<Device>, i: int) -> bool {
    &&& 0 <= i < devices.len()
    &&& row.id == devices[i].id
    &&& row.name == devices[i].name
    &&& row.model == devices[i].model
    &&& row.device_type == devices[i].device_type
    &&& row.status == devices[i].status
    &&& row.properties == devices[i].properties
    &&& forall|j: int| 0 <= j < i ==> !same_unit(#[trigger] devices[j], devices[i])
    &&& exists|m: int| #[trigger] address_comes_from(row, devices, i, m)
}

/// Each row is what was seen of its unit first, but for the address, and the rows stand in the
/// order in which their units were first seen. The result names the first sight of each row.
pub proof fn a_row_keeps_what_was_seen_first(devices: Seq<Device>) -> (origins: Seq<int>)
    ensures
        origins.len() == collapsed(devices).len(),
        forall|k: int, l: int| 0 <= k < l < origins.len() ==> origins[k] < origins[l],
        forall|k: int|
            0 <= k < origins.len() ==> first_seen_as(
                collapsed(devices)[k],
                devices,
                #[trigger] origins[k],
            ),
    decreases devices.len(),
{
    if devices.len() == 0 {
        Seq::empty()
    } else {
        let front = devices.drop_last();
        let before = collapsed(front);
        let after = collapsed(devices);
        let device = devices.last();
        let last = devices.len() - 1;
        let earlier = a_row_keeps_what_was_seen_first(front);
        let t = twin_from(before, device, 0);
        lemma_absorb(before, device);
        collapsed_rows_are_distinct(front);
        assert forall|k: int| 0 <= k < earlier.len() implies first_seen_as(
            after[k],
            devices,
            #[trigger] earlier[k],
        ) by {
            lemma_first_sight_stays(devices, earlier[k], k);
        }
        if t < 0 {
            let origins = earlier.push(last);
            assert(address_comes_from(device, devices, last, last));
            assert forall|j: int| 0 <= j < last implies !same_unit(#[trigger] devices[j], device) by {
                if same_unit(devices[j], device) {
                    let r = every_device_keeps_a_row(front, j);
                    assert(front[j] == devices[j]);
                    assert(same_unit(before[r], device));
                }
            }
            assert(first_seen_as(after[before.len() as int], devices, last));
            assert forall|k: int| 0 <= k < origins.len() implies first_seen_as(
                after[k],
                devices,
                #[trigger] origins[k],
            ) by {
                if k < earlier.len() {
                    assert(origins[k] == earlier[k]);
                }
            }
            origins
        } else {
            earlier
        }
    }
}

proof fn lemma_first_sight_stays(devices: Seq<Device>, i: int, k: int)
    requires
        devices.len() > 0,
        0 <= k < collapsed(devices.drop_last()).len(),
        first_seen_as(collapsed(devices.drop_last())[k], devices.drop_last(), i),
    ensures
        first_seen_as(collapsed(devices)[k], devices, i),
{
    let front = devices.drop_last();
    let before = collapsed(front);
    let after = collapsed(devices);
    let device = devices.last();
    let last = devices.len() - 1;
    let t = twin_from(before, device, 0);
    lemma_absorb(before, device);
    collapsed_rows_are_distinct(front);
    let m = choose|m: int| #[trigger] address_comes_from(before[k], front, i, m);
    assert(front[i] == devices[i]);
    assert(front[m] == devices[m]);
    assert(hardware(before[k]) == hardware(devices[i]));
    if k != t && same_unit(devices[i], device) {
        assert(same_unit(before[k], device));
        if t >= 0 {
            if k < t {
                assert(!same_unit(before[k], before[t]));
            } else {
                assert(!same_unit(before[t], before[k]));
            }
        }
    }
    assert forall|j: int| 0 <= j < i implies !same_unit(#[trigger] devices[j], devices[i]) by {
        assert(front[j] == devices[j]);
        assert(!same_unit(front[j], front[i]));
    }
    let n = if k == t && !ip_port(before[t].serial@) && ip_port(device.serial@) {
        last
    } else {
        m
    };
    assert(address_comes_from(after[k], devices, i, n)) by {
        assert forall|j: int|
            i < j < last && same_unit(#[trigger] devices[j], devices[i]) implies same_unit(
            front[j],
            front[i],
        ) && front[j] == devices[j] by {
            assert(front[j] == devices[j]);
        }
    }
}

/// Numbering the rows gives each its place, counted from 1, and changes nothing else.
pub proof fn numbering_changes_the_number_alone(devices: Seq<Device>, i: int)
    requires
        0 <= i < devices.len() <= u32::MAX,
    ensures
        renumbered(devices).len() == devices.len(),
        ({
            let row = renumbered(devices)[i];
            let device = devices[i];
            &&& row.id == i + 1
            &&& row.serial == device.serial
            &&& row.name == device.name
            &&& row.model == device.model
            &&& row.device_type == device.device_type
            &&& row.status == device.status
            &&& row.connection == device.connection
            &&& row.properties == device.properties
        }),
{
}

/// A profile is looked up by the serial as it is: the first row that has it, and none only
/// where no row has it.
pub proof fn a_lookup_goes_by_the_serial(devices: Seq<Device>, serial: Seq<char>)
    ensures
        ({
            let k = profile_position(devices, serial, 0);
            &&& k == -1 <==> forall|j: int|
                0 <= j < devices.len() ==> (#[trigger] devices[j]).serial@ != serial
            &&& k != -1 ==> 0 <= k < devices.len() && devices[k].serial@ == serial && forall|j: int|
                0 <= j < k ==> (#[trigger] devices[j]).serial@ != serial
        }),
{
    lemma_position_from(devices, serial, 0);
}

proof fn lemma_position_from(devices: Seq<Device>, serial: Seq<char>, i: int)
    requires
        0 <= i,
    ensures
        ({
            let k = profile_position(devices, serial, i);
            &&& k == -1 <==> forall|j: int|
                i <= j < devices.len() ==> (#[trigger] devices[j]).serial@ != serial
            &&& k != -1 ==> i <= k < devices.len() && devices[k].serial@ == serial && forall|j: int|
                i <= j < k ==> (#[trigger] devices[j]).serial@ != serial
        }),
    decreases devices.len() - i,
{
    if i < devices.len() && devices[i].serial@ != serial {
        lemma_position_from(devices, serial, i + 1);
    }
}

/// A product line is shown under its own name, and no two under the same.
pub proof fn product_lines_are_told_apart(a: DeviceType, b: DeviceType)
    ensures
        DeviceType::Shield.label_text() == "Nvidia Shield"@,
        DeviceType::GoogleTv.label_text() == "Google TV"@,
        DeviceType::Unknown.label_text() == "Unknown"@,
        a.label_text() == b.label_text() <==> a == b,
{
    reveal_strlit("Nvidia Shield");
    reveal_strlit("Google TV");
    reveal_strlit("Unknown");
    assert("Nvidia Shield"@.len() == 13);
    assert("Google TV"@.len() == 9);
    assert("Unknown"@.len() == 7);
}

} // verus!
