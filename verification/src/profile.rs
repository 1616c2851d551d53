//! The properties that are read from a device, and what is made of them.

use vstd::prelude::*;

use crate::device::{DeviceProperties, DeviceType};
use crate::text::{concat2, contains_text, holds_text, opt_text, same, slice_texts, trim, trimmed};

verus! {

/// The property reads, in the order in which `properties_from_sections` takes them.
pub open spec fn property_read_texts() -> Seq<Seq<char>> {
    seq![
        "settings get global device_name"@,
        "getprop ro.product.brand"@,
        "getprop ro.product.model"@,
        "getprop ro.product.device"@,
        "getprop ro.product.manufacturer"@,
        "getprop ro.build.version.release"@,
        "getprop ro.build.version.sdk"@,
        "getprop ro.build.id"@,
        "getprop ro.board.platform"@,
        "getprop ro.build.characteristics"@,
        "getprop ro.serialno"@,
    ]
}

/// The property reads, in the order in which `properties_from_sections` takes them.
pub fn property_reads() -> (r: [&'static str; 11])
    ensures
        slice_texts(r@) == property_read_texts(),
{
    let r = [
        "settings get global device_name",
        "getprop ro.product.brand",
        "getprop ro.product.model",
        "getprop ro.product.device",
        "getprop ro.product.manufacturer",
        "getprop ro.build.version.release",
        "getprop ro.build.version.sdk",
        "getprop ro.build.id",
        "getprop ro.board.platform",
        "getprop ro.build.characteristics",
        "getprop ro.serialno",
    ];
    proof {
        assert(slice_texts(r@) =~= property_read_texts());
    }
    r
}

/// What the device answered to read number `i`: nothing where it gave no such section.
pub open spec fn section(sections: Seq<String>, i: int) -> Seq<char> {
    if 0 <= i < sections.len() {
        trimmed(sections[i]@)
    } else {
        Seq::empty()
    }
}

/// The name that a user gave the device, where the read of it gave one: the answer can
/// also be empty, the literal `null`, or an exception.
pub open spec fn friendly_name_of(raw: Seq<char>) -> Option<Seq<char>> {
    if raw.len() == 0 || raw == "null"@ || holds_text(raw, "Exception"@) {
        None
    } else {
        Some(raw)
    }
}

/// The property that read number `i` is for.
pub open spec fn property(props: DeviceProperties, i: int) -> Option<Seq<char>> {
    if i == 0 {
        opt_text(props.friendly_name)
    } else if i == 1 {
        Some(props.brand@)
    } else if i == 2 {
        Some(props.model@)
    } else if i == 3 {
        Some(props.device_codename@)
    } else if i == 4 {
        Some(props.manufacturer@)
    } else if i == 5 {
        Some(props.android_release@)
    } else if i == 6 {
        Some(props.sdk_level@)
    } else if i == 7 {
        Some(props.build_id@)
    } else if i == 8 {
        Some(props.board_platform@)
    } else if i == 9 {
        Some(props.characteristics@)
    } else {
        Some(props.serial_number@)
    }
}

/// What read number `i` says of the property that it is for.
pub open spec fn property_from(sections: Seq<String>, i: int) -> Option<Seq<char>> {
    if i == 0 {
        friendly_name_of(section(sections, 0))
    } else {
        Some(section(sections, i))
    }
}

fn section_text(sections: &[String], i: usize) -> (r: String)
    ensures
        r@ == section(sections@, i as int),
{
    if i < sections.len() {
        trim(sections[i].as_str()).to_owned()
    } else {
        String::new()
    }
}

/// Maps the sections of a batched read onto the properties. Each read has a section of its
/// own, so one that printed nothing, or many lines, cannot shift its neighbours.
pub fn properties_from_sections(sections: &[String]) -> (r: DeviceProperties)
    ensures
        forall|i: int| 0 <= i < 11 ==> #[trigger] property(r, i) == property_from(sections@, i),
{
    let raw_friendly = section_text(sections, 0);
    let friendly_name = if raw_friendly.as_str().is_empty() || same(raw_friendly.as_str(), "null")
        || contains_text(raw_friendly.as_str(), "Exception") {
        None
    } else {
        Some(raw_friendly)
    };
    DeviceProperties {
        friendly_name,
        brand: section_text(sections, 1),
        model: section_text(sections, 2),
        device_codename: section_text(sections, 3),
        manufacturer: section_text(sections, 4),
        android_release: section_text(sections, 5),
        sdk_level: section_text(sections, 6),
        build_id: section_text(sections, 7),
        board_platform: section_text(sections, 8),
        characteristics: section_text(sections, 9),
        serial_number: section_text(sections, 10),
    }
}

/// Whatever a device answers to one read, the property that another read is for stays the same:
/// neither silence nor many lines shift what follows.
pub proof fn a_reply_reaches_its_own_property_alone(
    props: DeviceProperties,
    sections: Seq<String>,
    others: DeviceProperties,
    other_sections: Seq<String>,
    i: int,
    j: int,
)
    requires
        forall|k: int| 0 <= k < 11 ==> #[trigger] property(props, k) == property_from(sections, k),
        forall|k: int|
            0 <= k < 11 ==> #[trigger] property(others, k) == property_from(other_sections, k),
        0 <= i < 11,
        0 <= j < 11,
        i != j,
        forall|k: int|
            0 <= k < 11 && k != i ==> #[trigger] section(sections, k) == section(other_sections, k),
    ensures
        property(props, j) == property(others, j),
{
    assert(section(sections, j) == section(other_sections, j));
}

/// What is wrong with the reply to the batched read, if anything: a reply that is blank, or
/// that comes with a failing exit code, is no profile.
pub open spec fn profile_failure_text(
    stdout: Seq<char>,
    exit_code: Option<i32>,
    combined: Seq<char>,
) -> Option<Seq<char>> {
    if trimmed(stdout).len() == 0 || (exit_code matches Some(code) && code != 0) {
        Some("device profile unavailable: "@ + trimmed(combined))
    } else {
        None
    }
}

/// What is wrong with the reply to the batched read, if anything.
pub fn profile_failure(stdout: &str, exit_code: Option<i32>, combined: &str) -> (r: Option<String>)
    ensures
        opt_text(r) == profile_failure_text(stdout@, exit_code, combined@),
{
    let failing: bool = match exit_code {
        Some(code) => code != 0,
        None => false,
    };
    if trim(stdout).is_empty() || failing {
        Some(concat2("device profile unavailable: ", trim(combined)))
    } else {
        None
    }
}

/// The model name that the device list shows. `shield_model` is what the Shield catalogue
/// makes of the codename.
pub open spec fn friendly_model_text(
    device_type: DeviceType,
    model: Seq<char>,
    shield_model: Seq<char>,
) -> Seq<char> {
    match device_type {
        DeviceType::Shield => shield_model,
        DeviceType::GoogleTv => if model.len() > 0 {
            model
        } else {
            "Google TV Device"@
        },
        DeviceType::Unknown => if model.len() > 0 {
            model
        } else {
            "Unknown Device"@
        },
    }
}

/// The model name that the device list shows. `shield_model` is what the Shield catalogue
/// makes of the codename.
pub fn friendly_model_for(
    device_type: DeviceType,
    props: &DeviceProperties,
    shield_model: &str,
) -> (r: String)
    ensures
        r@ == friendly_model_text(device_type, props.model@, shield_model@),
{
    match device_type {
        DeviceType::Shield => shield_model.to_owned(),
        DeviceType::GoogleTv => {
            if !props.model.as_str().is_empty() {
                props.model.clone()
            } else {
                "Google TV Device".to_owned()
            }
        },
        DeviceType::Unknown => {
            if !props.model.as_str().is_empty() {
                props.model.clone()
            } else {
                "Unknown Device".to_owned()
            }
        },
    }
}

/// The name that the device list shows: the one the user gave, else one after the brand.
pub open spec fn display_name_text(
    friendly_name: Option<Seq<char>>,
    brand: Seq<char>,
) -> Seq<char> {
    if friendly_name matches Some(name) && trimmed(name).len() > 0 {
        friendly_name->0
    } else if brand.len() > 0 {
        brand + " Device"@
    } else {
        "Android TV"@
    }
}

/// The name that the device list shows.
pub fn display_name(props: &DeviceProperties) -> (r: String)
    ensures
        r@ == display_name_text(opt_text(props.friendly_name), props.brand@),
{
    match &props.friendly_name {
        Some(name) => {
            if !trim(name.as_str()).is_empty() {
                return name.clone();
            }
        },
        None => {},
    }
    if !props.brand.as_str().is_empty() {
        concat2(props.brand.as_str(), " Device")
    } else {
        "Android TV".to_owned()
    }
}

// ---------------------------------------------------------------------------
// Laws.
// ---------------------------------------------------------------------------

/// The property of each field is what the device printed for the command that reads it, without
/// the white space round it. The name that the user gave is the answer to the first read,
/// unless that is blank, `null` or tells of an exception.
pub proof fn each_property_is_read_by_its_own_command(
    props: DeviceProperties,
    sections: Seq<String>,
)
    requires
        sections.len() == 11,
        forall|i: int| 0 <= i < 11 ==> #[trigger] property(props, i) == property_from(sections, i),
    ensures
        property_read_texts().len() == 11,
        property_read_texts()[0] == "settings get global device_name"@,
        property_read_texts()[1] == "getprop ro.product.brand"@,
        property_read_texts()[2] == "getprop ro.product.model"@,
        property_read_texts()[3] == "getprop ro.product.device"@,
        property_read_texts()[4] == "getprop ro.product.manufacturer"@,
        property_read_texts()[5] == "getprop ro.build.version.release"@,
        property_read_texts()[6] == "getprop ro.build.version.sdk"@,
        property_read_texts()[7] == "getprop ro.build.id"@,
        property_read_texts()[8] == "getprop ro.board.platform"@,
        property_read_texts()[9] == "getprop ro.build.characteristics"@,
        property_read_texts()[10] == "getprop ro.serialno"@,
        props.friendly_name is None <==> (trimmed(sections[0]@).len() == 0 || trimmed(sections[0]@)
            == "null"@ || holds_text(trimmed(sections[0]@), "Exception"@)),
        props.friendly_name matches Some(name) ==> name@ == trimmed(sections[0]@),
        props.brand@ == trimmed(sections[1]@),
        props.model@ == trimmed(sections[2]@),
        props.device_codename@ == trimmed(sections[3]@),
        props.manufacturer@ == trimmed(sections[4]@),
        props.android_release@ == trimmed(sections[5]@),
        props.sdk_level@ == trimmed(sections[6]@),
        props.build_id@ == trimmed(sections[7]@),
        props.board_platform@ == trimmed(sections[8]@),
        props.characteristics@ == trimmed(sections[9]@),
        props.serial_number@ == trimmed(sections[10]@),
{
    assert(property(props, 0) == property_from(sections, 0));
    assert(property(props, 1) == property_from(sections, 1));
    assert(property(props, 2) == property_from(sections, 2));
    assert(property(props, 3) == property_from(sections, 3));
    assert(property(props, 4) == property_from(sections, 4));
    assert(property(props, 5) == property_from(sections, 5));
    assert(property(props, 6) == property_from(sections, 6));
    assert(property(props, 7) == property_from(sections, 7));
    assert(property(props, 8) == property_from(sections, 8));
    assert(property(props, 9) == property_from(sections, 9));
    assert(property(props, 10) == property_from(sections, 10));
}

/// A read that the device gave no section for leaves its property empty.
pub proof fn an_unanswered_read_gives_nothing(
    props: DeviceProperties,
    sections: Seq<String>,
    i: int,
)
    requires
        forall|k: int| 0 <= k < 11 ==> #[trigger] property(props, k) == property_from(sections, k),
        sections.len() <= i < 11,
    ensures
        i == 0 ==> props.friendly_name is None,
        i > 0 ==> (property(props, i) matches Some(text) && text.len() == 0),
{
    assert(property(props, i) == property_from(sections, i));
}

/// A reply is a profile unless it is blank or the exit code tells of a failure; what is said
/// then ends in what the device printed.
pub proof fn a_profile_needs_an_answer(
    stdout: Seq<char>,
    exit_code: Option<i32>,
    combined: Seq<char>,
)
    ensures
        ({
            let failure = profile_failure_text(stdout, exit_code, combined);
            let blank = trimmed(stdout).len() == 0;
            &&& !blank && exit_code is None ==> failure is None
            &&& !blank && exit_code == Some(0i32) ==> failure is None
            &&& blank ==> failure is Some
            &&& exit_code is Some && exit_code != Some(0i32) ==> failure is Some
            &&& failure matches Some(text) ==> text == "device profile unavailable: "@ + trimmed(
                combined,
            )
        }),
{
}

/// A device is shown under the name that the user gave it; failing that, after its brand;
/// failing that, as an Android TV.
pub proof fn a_given_name_is_shown_as_it_is(
    friendly_name: Option<Seq<char>>,
    brand: Seq<char>,
)
    ensures
        ({
            let shown = display_name_text(friendly_name, brand);
            let given = friendly_name is Some && trimmed(friendly_name->Some_0).len() > 0;
            &&& given ==> shown == friendly_name->Some_0
            &&& !given && brand.len() > 0 ==> shown == brand + " Device"@
            &&& !given && brand.len() == 0 ==> shown == "Android TV"@
        }),
{
}

/// The model is that of the Shield catalogue for a Shield, and what the device says of itself
/// for any other; only a device that says nothing gets a stand-in.
pub proof fn a_stated_model_is_shown_as_it_is(
    device_type: DeviceType,
    model: Seq<char>,
    shield_model: Seq<char>,
)
    ensures
        ({
            let shown = friendly_model_text(device_type, model, shield_model);
            &&& device_type == DeviceType::Shield ==> shown == shield_model
            &&& device_type != DeviceType::Shield && model.len() > 0 ==> shown == model
            &&& device_type == DeviceType::GoogleTv && model.len() == 0 ==> shown
                == "Google TV Device"@
            &&& device_type == DeviceType::Unknown && model.len() == 0 ==> shown
                == "Unknown Device"@
        }),
{
}

} // verus!
