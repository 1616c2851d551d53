//! The device list: one row for each device that `adb devices` names.

use vstd::prelude::*;

use crate::device::{
    collapse_duplicate_transports, collapsed, renumber, renumbered, ConnectionType, Device,
    DeviceProperties, DeviceStatus, DeviceType,
};
use crate::profile::{display_name, display_name_text, friendly_model_for, friendly_model_text};
use crate::text::{opt_text, texts};

verus! {

/// One line of `adb devices`.
#[derive(Debug, Clone, PartialEq, Eq)]
pub struct DeviceEntry {
    pub serial: String,
    pub status: DeviceStatus,
    pub connection: ConnectionType,
}

/// What profiling an authorized device gave.
#[derive(Debug, Clone, PartialEq, Eq)]
pub struct DeviceProfile {
    pub properties: DeviceProperties,
    /// The product line that the properties were classified as.
    pub device_type: DeviceType,
    /// What the Shield catalogue makes of the codename.
    pub shield_model: String,
}

/// Only an authorized device answers a property read.
pub open spec fn authorized(entry: DeviceEntry) -> bool {
    entry.status == DeviceStatus::Device
}

/// The serials of the entries that have to be profiled, in order.
pub open spec fn serials_awaiting(entries: Seq<DeviceEntry>) -> Seq<Seq<char>>
    decreases entries.len(),
{
    if entries.len() == 0 {
        Seq::empty()
    } else if authorized(entries.last()) {
        serials_awaiting(entries.drop_last()).push(entries.last().serial@)
    } else {
        serials_awaiting(entries.drop_last())
    }
}

/// The row is that of entry number `i`, whose profile, where it has one, is number `p`.
pub open spec fn row_shows(
    row: Device,
    i: int,
    entry: DeviceEntry,
    profiles: Seq<DeviceProfile>,
    p: int,
) -> bool {
    &&& row.id == (i + 1) as u32
    &&& row.serial@ == entry.serial@
    &&& row.status == entry.status
    &&& row.connection == entry.connection
    &&& if authorized(entry) {
        let profile = profiles[p];
        let properties = profile.properties;
        &&& row.properties == Some(properties)
        &&& row.device_type == profile.device_type
        &&& row.name@ == display_name_text(opt_text(properties.friendly_name), properties.brand@)
        &&& row.model@ == friendly_model_text(
            profile.device_type,
            properties.model@,
            profile.shield_model@,
        )
    } else {
        &&& row.properties is None
        &&& row.device_type == DeviceType::Unknown
        &&& row.name@ == entry.serial@
        &&& row.model@.len() == 0
    }
}

/// The rows are those of the entries, with the profiles in the order of the authorized
/// entries.
pub open spec fn rows_show(
    rows: Seq<Device>,
    entries: Seq<DeviceEntry>,
    profiles: Seq<DeviceProfile>,
) -> bool {
    &&& rows.len() == entries.len()
    &&& forall|i: int|
        0 <= i < rows.len() ==> row_shows(
            #[trigger] rows[i],
            i,
            entries[i],
            profiles,
            serials_awaiting(entries.take(i)).len() as int,
        )
}

/// The serials of the devices that have to be profiled before the list can be made.
pub fn serials_to_profile(entries: &[DeviceEntry]) -> (r: Vec<String>)
    ensures
        texts(r@) == serials_awaiting(entries@),
{
    let mut r: Vec<String> = Vec::new();
    let mut i: usize = 0;
    proof {
        assert(entries@.take(0) =~= Seq::<DeviceEntry>::empty());
        assert(texts(r@) =~= Seq::<Seq<char>>::empty());
    }
    while i < entries.len()
        invariant
            i <= entries@.len(),
            texts(r@) == serials_awaiting(entries@.take(i as int)),
        decreases entries@.len() - i,
    {
        let ghost before = r@;
        proof {
            assert(entries@.take(i + 1).drop_last() =~= entries@.take(i as int));
        }
        if entries[i].status == DeviceStatus::Device {
            r.push(entries[i].serial.clone());
            proof {
                assert(texts(r@) =~= texts(before).push(entries@[i as int].serial@));
            }
        }
        i = i + 1;
    }
    proof {
        assert(entries@.take(entries@.len() as int) =~= entries@);
    }
    r
}

/// One row for each entry. A device that is not authorized cannot be profiled; it is still
/// shown, under its serial.
pub fn device_rows(entries: &[DeviceEntry], profiles: Vec<DeviceProfile>) -> (r: Vec<Device>)
    requires
        profiles@.len() == serials_awaiting(entries@).len(),
    ensures
        rows_show(r@, entries@, profiles@),
{
    let ghost all = profiles@;
    let mut profiles = profiles;
    let mut out: Vec<Device> = Vec::new();
    let mut i: usize = entries.len();
    proof {
        assert(entries@.take(entries@.len() as int) =~= entries@);
        assert(all.take(all.len() as int) =~= all);
    }
    while i > 0
        invariant
            i <= entries@.len(),
            all.len() == serials_awaiting(entries@).len(),
            serials_awaiting(entries@.take(i as int)).len() <= all.len(),
            profiles@ == all.take(serials_awaiting(entries@.take(i as int)).len() as int),
            out@.len() == entries@.len() - i,
            forall|j: int|
                0 <= j < out@.len() ==> row_shows(
                    #[trigger] out@[j],
                    i + j,
                    entries@[i + j],
                    all,
                    serials_awaiting(entries@.take(i + j)).len() as int,
                ),
        decreases i,
    {
        let ghost later = out@;
        let ghost end = i as int;
        i = i - 1;
        proof {
            assert(entries@.take(end).drop_last() =~= entries@.take(i as int));
            assert(entries@.take(end).last() == entries@[i as int]);
        }
        let entry = &entries[i];
        let id: u32 = #[verifier::truncate] ((i + 1) as u32);
        let row = if entry.status == DeviceStatus::Device {
            let ghost count = profiles@.len() as int;
            let profile = profiles.pop().unwrap();
            proof {
                assert(profile == all[count - 1]);
                assert(profiles@ =~= all.take(count - 1));
            }
            Device {
                id,
                serial: entry.serial.clone(),
                name: display_name(&profile.properties),
                model: friendly_model_for(
                    profile.device_type,
                    &profile.properties,
                    profile.shield_model.as_str(),
                ),
                device_type: profile.device_type,
                status: entry.status,
                connection: entry.connection,
                properties: Some(profile.properties),
            }
        } else {
            Device {
                id,
                serial: entry.serial.clone(),
                name: entry.serial.clone(),
                model: String::new(),
                device_type: DeviceType::Unknown,
                status: entry.status,
                connection: entry.connection,
                properties: None,
            }
        };
        out.insert(0, row);
        proof {
            assert forall|j: int| 0 <= j < out@.len() implies row_shows(
                #[trigger] out@[j],
                i + j,
                entries@[i + j],
                all,
                serials_awaiting(entries@.take(i + j)).len() as int,
            ) by {
                if j > 0 {
                    assert(out@[j] == later[j - 1]);
                    assert(end + (j - 1) == i + j);
                }
            }
        }
    }
    out
}

/// The device list: a row for each entry, one row for each physical device, numbered from 1.
pub fn list_devices(entries: &[DeviceEntry], profiles: Vec<DeviceProfile>) -> (r: Vec<Device>)
    requires
        profiles@.len() == serials_awaiting(entries@).len(),
    ensures
        exists|rows: Seq<Device>|
            rows_show(rows, entries@, profiles@) && r@ == renumbered(#[trigger] collapsed(rows)),
{
    let rows = device_rows(entries, profiles);
    let ghost shown = rows@;
    let r = renumber(collapse_duplicate_transports(rows));
    proof {
        assert(rows_show(shown, entries@, profiles@) && r@ == renumbered(collapsed(shown)));
    }
    r
}

// ---------------------------------------------------------------------------
// Laws.
// ---------------------------------------------------------------------------

/// How many of the entries are of authorized devices.
pub open spec fn authorized_count(entries: Seq<DeviceEntry>) -> int
    decreases entries.len(),
{
    if entries.len() == 0 {
        0
    } else {
        authorized_count(entries.drop_last()) + (if entries.last().status == DeviceStatus::Device {
            1int
        } else {
            0
        })
    }
}

/// The devices that are profiled are the authorized ones, in order, and no others.
pub proof fn authorized_devices_are_profiled(entries: Seq<DeviceEntry>, i: int)
    requires
        0 <= i < entries.len(),
        entries[i].status == DeviceStatus::Device,
    ensures
        serials_awaiting(entries).len() == authorized_count(entries),
        0 <= authorized_count(entries.take(i)) < authorized_count(entries),
        serials_awaiting(entries)[authorized_count(entries.take(i))] == entries[i].serial@,
    decreases entries.len(),
{
    lemma_awaiting_count(entries);
    lemma_awaiting_count(entries.take(i));
    let front = entries.drop_last();
    if i < front.len() {
        assert(front[i] == entries[i]);
        assert(front.take(i) =~= entries.take(i));
        authorized_devices_are_profiled(front, i);
    } else {
        assert(entries.take(i) =~= front);
        lemma_awaiting_count(front);
    }
}

proof fn lemma_awaiting_count(entries: Seq<DeviceEntry>)
    ensures
        serials_awaiting(entries).len() == authorized_count(entries),
        authorized_count(entries) >= 0,
    decreases entries.len(),
{
    if entries.len() > 0 {
        lemma_awaiting_count(entries.drop_last());
    }
}

/// The row of an authorized device shows the profile that was made of it, under its own
/// address; the row of any other device shows its address and nothing that was not read.
pub proof fn a_row_shows_its_own_device(
    rows: Seq<Device>,
    entries: Seq<DeviceEntry>,
    profiles: Seq<DeviceProfile>,
    i: int,
)
    requires
        rows_show(rows, entries, profiles),
        0 <= i < entries.len() <= u32::MAX,
    ensures
        rows.len() == entries.len(),
        ({
            let row = rows[i];
            let entry = entries[i];
            let profile = profiles[authorized_count(entries.take(i))];
            &&& row.id == i + 1
            &&& row.serial@ == entry.serial@
            &&& row.status == entry.status
            &&& row.connection == entry.connection
            &&& entry.status == DeviceStatus::Device ==> {
                &&& row.properties == Some(profile.properties)
                &&& row.device_type == profile.device_type
                &&& row.name@ == display_name_text(
                    opt_text(profile.properties.friendly_name),
                    profile.properties.brand@,
                )
                &&& row.model@ == friendly_model_text(
                    profile.device_type,
                    profile.properties.model@,
                    profile.shield_model@,
                )
            }
            &&& entry.status != DeviceStatus::Device ==> {
                &&& row.properties is None
                &&& row.device_type == DeviceType::Unknown
                &&& row.name@ == entry.serial@
                &&& row.model@ == Seq::<char>::empty()
            }
        }),
{
    lemma_awaiting_count(entries.take(i));
    assert(row_shows(
        rows[i],
        i,
        entries[i],
        profiles,
        serials_awaiting(entries.take(i)).len() as int,
    ));
}

} // verus!
