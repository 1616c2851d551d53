//! Snapshots as JSON text: what is written, and what is accepted back.

use serde_json::Value;
use vstd::prelude::*;
use vstd::string::StringExecFns;

use crate::device::DeviceType;
use crate::json::{
    array_value, distinct_keys, field, get_member, get_members, is_record, is_shallow, is_text_list,
    is_text_table, json_of, json_pretty, json_read, member_of, null_value, number_text, number_value,
    object_value, read_document, read_text, read_text_list, read_text_table, text_list_refusal,
    text_refusal, text_table_refusal, text_value, write_document, Json,
};
use crate::settings::{
    ascending, lemma_precedes_irreflexive, pairs_map, precedes, Pairs, SettingsMap,
};
use crate::snapshot::{consistent, Settings, Snapshot, SCHEMA_VERSION};
use crate::text::{
    concat2, concat3, debug_text, decimal, decimal_text, opt_text, same, text_debug, texts,
};

verus! {

/// Why a snapshot was not read or not written.
#[derive(Debug)]
pub enum SnapshotError {
    /// The file is of a version that this library does not read.
    UnsupportedSchema { found: u32, supported: u32 },
    /// The file lacks a field without which nothing else of it can be read.
    MissingField(&'static str),
    /// The file is no snapshot.
    Malformed(String),
}

/// What a `SnapshotError` says.
pub enum SnapshotErrorView {
    UnsupportedSchema { found: u32, supported: u32 },
    MissingField(Seq<char>),
    Malformed(Seq<char>),
}

impl View for SnapshotError {
    type V = SnapshotErrorView;

    open spec fn view(&self) -> SnapshotErrorView {
        match self {
            SnapshotError::UnsupportedSchema { found, supported } => {
                SnapshotErrorView::UnsupportedSchema { found: *found, supported: *supported }
            },
            SnapshotError::MissingField(name) => SnapshotErrorView::MissingField(name@),
            SnapshotError::Malformed(message) => SnapshotErrorView::Malformed(message@),
        }
    }
}

impl SnapshotErrorView {
    /// The error as a user reads it.
    pub open spec fn text(self) -> Seq<char> {
        match self {
            SnapshotErrorView::UnsupportedSchema { found, supported } => {
                "snapshot schema version "@ + decimal(found as nat)
                    + " is newer than this build supports (max "@ + decimal(supported as nat) + ")"@
            },
            SnapshotErrorView::MissingField(name) => "snapshot is missing required field: "@ + name,
            SnapshotErrorView::Malformed(message) => "snapshot JSON is malformed: "@ + message,
        }
    }
}

impl SnapshotError {
    /// The error as a user reads it.
    pub fn message(&self) -> (r: String)
        ensures
            r@ == self@.text(),
    {
        match self {
            SnapshotError::UnsupportedSchema { found, supported } => {
                let mut text = concat3(
                    "snapshot schema version ",
                    decimal_text(*found as u64).as_str(),
                    " is newer than this build supports (max ",
                );
                text.append(decimal_text(*supported as u64).as_str());
                text.append(")");
                text
            },
            SnapshotError::MissingField(name) => concat2(
                "snapshot is missing required field: ",
                name,
            ),
            SnapshotError::Malformed(message) => concat2(
                "snapshot JSON is malformed: ",
                message.as_str(),
            ),
        }
    }
}

/// What a `Snapshot` holds.
#[verifier::ext_equal]
pub struct SnapshotView {
    pub schema_version: u32,
    pub saved_at: Seq<char>,
    pub label: Option<Seq<char>>,
    pub device_name: Seq<char>,
    pub device_serial: Seq<char>,
    pub device_type: DeviceType,
    pub android_version: Seq<char>,
    pub disabled_packages: Seq<Seq<char>>,
    pub current_launcher: Option<Seq<char>>,
    pub settings: Settings,
    pub absent_settings: Seq<Seq<char>>,
}

impl View for Snapshot {
    type V = SnapshotView;

    open spec fn view(&self) -> SnapshotView {
        SnapshotView {
            schema_version: self.schema_version,
            saved_at: self.saved_at@,
            label: opt_text(self.label),
            device_name: self.device_name@,
            device_serial: self.device_serial@,
            device_type: self.device_type,
            android_version: self.android_version@,
            disabled_packages: texts(self.disabled_packages@),
            current_launcher: opt_text(self.current_launcher),
            settings: self.settings@,
            absent_settings: texts(self.absent_settings@),
        }
    }
}

// ---------------------------------------------------------------------------
// The version, and what older versions mean.
// ---------------------------------------------------------------------------

/// The version of a file, given what stands in its `schema_version`.
pub open spec fn accepted_version(stated: Option<u64>) -> Result<u32, SnapshotErrorView> {
    match stated {
        None => Err(SnapshotErrorView::MissingField("schema_version"@)),
        Some(version) => if 1 <= version <= SCHEMA_VERSION {
            Ok(version as u32)
        } else {
            Err(
                SnapshotErrorView::UnsupportedSchema {
                    found: if version > u32::MAX {
                        u32::MAX
                    } else {
                        version as u32
                    },
                    supported: SCHEMA_VERSION,
                },
            )
        },
    }
}

/// A version of this library's format or of an older one. Nothing else is read.
pub fn check_version(stated: Option<u64>) -> (r: Result<u32, SnapshotError>)
    ensures
        match r {
            Ok(version) => accepted_version(stated) == Ok::<u32, SnapshotErrorView>(version),
            Err(e) => accepted_version(stated) == Err::<u32, SnapshotErrorView>(e@),
        },
{
    match stated {
        None => Err(SnapshotError::MissingField("schema_version")),
        Some(version) => if version == 0 || version > SCHEMA_VERSION as u64 {
            let found: u32 = if version > u32::MAX as u64 {
                u32::MAX
            } else {
                version as u32
            };
            Err(SnapshotError::UnsupportedSchema { found, supported: SCHEMA_VERSION })
        } else {
            Ok(version as u32)
        },
    }
}

/// The snapshot in the current format. A file of an older version left out what was absent
/// and what could not be read alike, so nothing in it counts as absent.
pub open spec fn migrated(snap: SnapshotView) -> SnapshotView {
    if snap.schema_version < 3 {
        SnapshotView {
            schema_version: SCHEMA_VERSION,
            absent_settings: Seq::empty(),
            ..snap
        }
    } else {
        snap
    }
}

/// The snapshot in the current format, unless it contradicts itself.
pub open spec fn settled(snap: SnapshotView) -> Result<SnapshotView, SnapshotErrorView> {
    let snap = migrated(snap);
    if consistent(snap.settings, snap.absent_settings) {
        Ok(snap)
    } else {
        Err(SnapshotErrorView::Malformed("setting cannot be both present and absent"@))
    }
}

/// What a function that reads a snapshot gives back.
pub open spec fn outcome(r: Result<Snapshot, SnapshotError>) -> Result<
    SnapshotView,
    SnapshotErrorView,
> {
    match r {
        Ok(snap) => Ok(snap@),
        Err(e) => Err(e@),
    }
}

impl Snapshot {
    /// Brings a snapshot that was read from a file to the current format, and refuses one that
    /// contradicts itself.
    pub fn settle(self) -> (r: Result<Snapshot, SnapshotError>)
        ensures
            outcome(r) == settled(self@),
    {
        let mut snap = self;
        let ghost before = snap@;
        if snap.schema_version < 3 {
            snap.absent_settings = Vec::new();
            snap.schema_version = SCHEMA_VERSION;
            proof {
                assert(texts(snap.absent_settings@) =~= Seq::<Seq<char>>::empty());
            }
        }
        assert(snap@ == migrated(before));
        let ghost absent = texts(snap.absent_settings@);
        let mut i: usize = 0;
        while i < snap.absent_settings.len()
            invariant
                absent == texts(snap.absent_settings@),
                i <= absent.len(),
                before == self@,
                snap@ == migrated(before),
                forall|j: int| 0 <= j < i ==> !snap.settings@.contains_key(#[trigger] absent[j]),
            decreases absent.len() - i,
        {
            assert(absent[i as int] == snap.absent_settings@[i as int]@);
            if snap.settings.contains_key(snap.absent_settings[i].as_str()) {
                return Err(
                    SnapshotError::Malformed(
                        "setting cannot be both present and absent".to_owned(),
                    ),
                );
            }
            i = i + 1;
        }
        Ok(snap)
    }
}

// ---------------------------------------------------------------------------
// Reading the fields.
// ---------------------------------------------------------------------------

/// The name of a product line in a file.
pub open spec fn line_name(device_type: DeviceType) -> Seq<char> {
    match device_type {
        DeviceType::Shield => "shield"@,
        DeviceType::GoogleTv => "google_tv"@,
        DeviceType::Unknown => "unknown"@,
    }
}

/// The product line of a name in a file.
pub open spec fn line_named(name: Seq<char>) -> Option<DeviceType> {
    if name == "shield"@ {
        Some(DeviceType::Shield)
    } else if name == "google_tv"@ {
        Some(DeviceType::GoogleTv)
    } else if name == "unknown"@ {
        Some(DeviceType::Unknown)
    } else {
        None
    }
}

/// The product line that a value states: its name, or an object of it alone and null.
pub open spec fn type_in(json: Json) -> Option<DeviceType> {
    match json {
        Json::Text(name) => line_named(name),
        Json::Object(members) => if members.len() == 1 && members[0].1 is Null {
            line_named(members[0].0)
        } else {
            None
        },
        _ => None,
    }
}

/// What a value is, as an error names it.
pub open spec fn value_kind(json: Json) -> Seq<char> {
    match json {
        Json::Null => "null"@,
        Json::Bool(b) => if b {
            "boolean `true`"@
        } else {
            "boolean `false`"@
        },
        Json::Number { float, text, .. } => (if float {
            "floating point `"@
        } else {
            "integer `"@
        }) + text + "`"@,
        Json::Text(text) => "string "@ + text_debug(text),
        Json::Array(_) => "sequence"@,
        Json::Object(_) => "map"@,
    }
}

/// What is said of a name that is no product line's.
pub open spec fn unknown_line(name: Seq<char>) -> Seq<char> {
    "unknown variant `"@ + name + "`, expected one of `shield`, `google_tv`, `unknown`"@
}

/// What is said of a value that states no product line: of an unknown name, of an object that
/// is not of one key, of a key whose value is not null, and of any other kind of value.
pub open spec fn type_refusal(json: Json) -> Seq<char> {
    match json {
        Json::Text(name) => unknown_line(name),
        Json::Object(members) => if members.len() != 1 {
            "invalid value: map, expected map with a single key"@
        } else if line_named(members[0].0) is None {
            unknown_line(members[0].0)
        } else {
            "invalid type: "@ + value_kind(members[0].1) + ", expected unit"@
        },
        other => "invalid type: "@ + value_kind(other) + ", expected string or map"@,
    }
}

/// What a field of a snapshot holds.
pub enum Kind {
    Text,
    /// A text or null; a missing one is null.
    MaybeText,
    Type,
    TextList,
    TextTable,
    /// Anything: the version, which is checked before, and fields that are not read.
    Any,
}

/// What the field holds.
pub open spec fn kind_of(key: Seq<char>) -> Kind {
    if key == "saved_at"@ || key == "device_name"@ || key == "device_serial"@ || key
        == "android_version"@ {
        Kind::Text
    } else if key == "label"@ || key == "current_launcher"@ {
        Kind::MaybeText
    } else if key == "device_type"@ {
        Kind::Type
    } else if key == "disabled_packages"@ || key == "absent_settings"@ {
        Kind::TextList
    } else if key == "settings"@ {
        Kind::TextTable
    } else {
        Kind::Any
    }
}

/// What is wrong with the value of a field, if anything.
pub open spec fn wrong(kind: Kind, json: Json) -> Option<Seq<char>> {
    match kind {
        Kind::Text => if json is Text {
            None
        } else {
            Some(text_refusal(json))
        },
        Kind::MaybeText => if json is Text || json is Null {
            None
        } else {
            Some(text_refusal(json))
        },
        Kind::Type => if type_in(json) is Some {
            None
        } else {
            Some(type_refusal(json))
        },
        Kind::TextList => if is_text_list(json) {
            None
        } else {
            Some(text_list_refusal(json))
        },
        Kind::TextTable => if is_text_table(json) {
            None
        } else {
            Some(text_table_refusal(json))
        },
        Kind::Any => None,
    }
}

/// What is wrong with the first member that holds what its field does not.
pub open spec fn first_wrong(members: Seq<(Seq<char>, Json)>) -> Option<Seq<char>>
    decreases members.len(),
{
    if members.len() == 0 {
        None
    } else {
        match first_wrong(members.drop_last()) {
            Some(message) => Some(message),
            None => wrong(kind_of(members.last().0), members.last().1),
        }
    }
}

/// The first field that a snapshot cannot do without and that is not there.
pub open spec fn first_missing(json: Json) -> Option<Seq<char>> {
    if field(json, "saved_at"@) is None {
        Some("saved_at"@)
    } else if field(json, "device_name"@) is None {
        Some("device_name"@)
    } else if field(json, "device_serial"@) is None {
        Some("device_serial"@)
    } else if field(json, "device_type"@) is None {
        Some("device_type"@)
    } else if field(json, "android_version"@) is None {
        Some("android_version"@)
    } else if field(json, "disabled_packages"@) is None {
        Some("disabled_packages"@)
    } else if field(json, "settings"@) is None {
        Some("settings"@)
    } else {
        None
    }
}

/// The text of a field.
pub open spec fn text_in(json: Json, key: Seq<char>) -> Option<Seq<char>> {
    match field(json, key) {
        Some(Json::Text(text)) => Some(text),
        _ => None,
    }
}

/// The texts of a list; none, where it is missing.
pub open spec fn texts_in(json: Json, key: Seq<char>) -> Seq<Seq<char>> {
    match field(json, key) {
        Some(Json::Array(items)) => items.map_values(|item: Json| item->Text_0),
        _ => Seq::empty(),
    }
}

/// The keys of an object of texts, each with its text.
pub open spec fn table_in(json: Json, key: Seq<char>) -> Settings {
    match field(json, key) {
        Some(table) => Map::new(
            |name: Seq<char>| field(table, name) is Some,
            |name: Seq<char>| field(table, name)->Some_0->Text_0,
        ),
        None => Map::empty(),
    }
}

/// The snapshot that an object states, or what is wrong with it.
pub open spec fn decoded(json: Json, version: u32) -> Result<SnapshotView, Seq<char>> {
    let members = match json {
        Json::Object(members) => members,
        _ => Seq::empty(),
    };
    match first_wrong(members) {
        Some(message) => Err(message),
        None => match first_missing(json) {
            Some(key) => Err("missing field `"@ + key + "`"@),
            None => Ok(
                SnapshotView {
                    schema_version: version,
                    saved_at: text_in(json, "saved_at"@)->Some_0,
                    label: text_in(json, "label"@),
                    device_name: text_in(json, "device_name"@)->Some_0,
                    device_serial: text_in(json, "device_serial"@)->Some_0,
                    device_type: type_in(field(json, "device_type"@)->Some_0)->Some_0,
                    android_version: text_in(json, "android_version"@)->Some_0,
                    disabled_packages: texts_in(json, "disabled_packages"@),
                    current_launcher: text_in(json, "current_launcher"@),
                    settings: table_in(json, "settings"@),
                    absent_settings: texts_in(json, "absent_settings"@),
                },
            ),
        },
    }
}

/// What stands in the `schema_version` of a document.
pub open spec fn stated_version(json: Json) -> Option<u64> {
    match field(json, "schema_version"@) {
        Some(Json::Number { whole, .. }) => whole,
        _ => None,
    }
}

/// The snapshot that a document states, in the current format, or why there is none.
pub open spec fn loaded(json: Json) -> Result<SnapshotView, SnapshotErrorView> {
    match accepted_version(stated_version(json)) {
        Err(e) => Err(e),
        Ok(version) => match decoded(json, version) {
            Err(message) => Err(SnapshotErrorView::Malformed(message)),
            Ok(snap) => settled(snap),
        },
    }
}

/// The product line of a name in a file.
fn parse_type(name: &str) -> (r: Option<DeviceType>)
    ensures
        r == line_named(name@),
{
    if same(name, "shield") {
        Some(DeviceType::Shield)
    } else if same(name, "google_tv") {
        Some(DeviceType::GoogleTv)
    } else if same(name, "unknown") {
        Some(DeviceType::Unknown)
    } else {
        None
    }
}

/// What a value is, as an error names it.
fn kind_name(value: &Value) -> (r: String)
    ensures
        r@ == value_kind(json_of(*value)),
{
    if value.is_null() {
        return "null".to_owned();
    }
    if let Some(b) = value.as_bool() {
        return if b {
            "boolean `true`".to_owned()
        } else {
            "boolean `false`".to_owned()
        };
    }
    if let Some(text) = number_text(value) {
        return concat3(
            if value.is_f64() {
                "floating point `"
            } else {
                "integer `"
            },
            text.as_str(),
            "`",
        );
    }
    if let Some(text) = value.as_str() {
        return concat2("string ", debug_text(text).as_str());
    }
    if get_members(value).is_some() {
        "map".to_owned()
    } else {
        "sequence".to_owned()
    }
}

/// What is said of a name that is no product line's.
fn unknown_line_text(name: &str) -> (r: String)
    ensures
        r@ == unknown_line(name@),
{
    concat3("unknown variant `", name, "`, expected one of `shield`, `google_tv`, `unknown`")
}

/// The product line that a value states, or what is wrong with it.
fn read_type(value: &Value) -> (r: Result<DeviceType, String>)
    ensures
        match r {
            Ok(device_type) => type_in(json_of(*value)) == Some(device_type),
            Err(message) => type_in(json_of(*value)) is None && message@ == type_refusal(
                json_of(*value),
            ),
        },
{
    if let Some(name) = value.as_str() {
        return match parse_type(name) {
            Some(device_type) => Ok(device_type),
            None => Err(unknown_line_text(name)),
        };
    }
    if let Some(members) = get_members(value) {
        let ghost held = members@.map_values(|m: (&String, &Value)| (m.0@, json_of(*m.1)));
        if members.len() != 1 {
            return Err("invalid value: map, expected map with a single key".to_owned());
        }
        assert(held[0] == (members@[0].0@, json_of(*members@[0].1)));
        return match parse_type(members[0].0.as_str()) {
            None => Err(unknown_line_text(members[0].0.as_str())),
            Some(device_type) => if members[0].1.is_null() {
                Ok(device_type)
            } else {
                Err(concat3("invalid type: ", kind_name(members[0].1).as_str(), ", expected unit"))
            },
        };
    }
    Err(concat3("invalid type: ", kind_name(value).as_str(), ", expected string or map"))
}

/// What is wrong with the value of a field, if anything.
fn find_wrong(key: &str, value: &Value) -> (r: Option<String>)
    ensures
        opt_text(r) == wrong(kind_of(key@), json_of(*value)),
{
    if same(key, "saved_at") || same(key, "device_name") || same(key, "device_serial") || same(
        key,
        "android_version",
    ) {
        read_text(value).err()
    } else if same(key, "label") || same(key, "current_launcher") {
        if value.is_null() {
            None
        } else {
            read_text(value).err()
        }
    } else if same(key, "device_type") {
        read_type(value).err()
    } else if same(key, "disabled_packages") || same(key, "absent_settings") {
        read_text_list(value).err()
    } else if same(key, "settings") {
        read_text_table(value).err()
    } else {
        None
    }
}

/// What is wrong with the first member of an object that holds what its field does not.
fn find_first_wrong(value: &Value) -> (r: Option<String>)
    ensures
        match json_of(*value) {
            Json::Object(members) => opt_text(r) == first_wrong(members),
            _ => r is None,
        },
{
    if let Some(list) = get_members(value) {
        let ghost held = list@.map_values(|m: (&String, &Value)| (m.0@, json_of(*m.1)));
        let mut i: usize = 0;
        assert(held.take(0) =~= Seq::<(Seq<char>, Json)>::empty());
        while i < list.len()
            invariant
                held == list@.map_values(|m: (&String, &Value)| (m.0@, json_of(*m.1))),
                json_of(*value) == Json::Object(held),
                i <= list@.len(),
                first_wrong(held.take(i as int)) is None,
            decreases list@.len() - i,
        {
            let found = find_wrong(list[i].0.as_str(), list[i].1);
            proof {
                assert(held.take(i + 1).drop_last() =~= held.take(i as int));
                assert(held.take(i + 1).last() == (list@[i as int].0@, json_of(*list@[i as int].1)));
                if found is Some {
                    lemma_wrong_stays(held, i + 1);
                }
            }
            if found.is_some() {
                return found;
            }
            i = i + 1;
        }
        assert(held.take(held.len() as int) =~= held);
    }
    None
}

/// What is wrong with the front of a list is what is wrong with the list.
proof fn lemma_wrong_stays(members: Seq<(Seq<char>, Json)>, n: int)
    requires
        0 <= n <= members.len(),
        first_wrong(members.take(n)) is Some,
    ensures
        first_wrong(members) == first_wrong(members.take(n)),
    decreases members.len(),
{
    if n < members.len() {
        let front = members.drop_last();
        assert(front.take(n) =~= members.take(n));
        lemma_wrong_stays(front, n);
    } else {
        assert(members.take(n) =~= members);
    }
}

/// Where nothing is wrong with a list, nothing is wrong with a member of it.
proof fn lemma_nothing_wrong(members: Seq<(Seq<char>, Json)>, key: Seq<char>)
    requires
        first_wrong(members) is None,
    ensures
        member_of(members, key) matches Some(json) ==> wrong(kind_of(key), json) is None,
    decreases members.len(),
{
    if members.len() > 0 {
        lemma_nothing_wrong(members.drop_last(), key);
    }
}

/// What is said of a field that is not there.
fn missing(key: &'static str) -> (r: String)
    ensures
        r@ == "missing field `"@ + key@ + "`"@,
{
    concat3("missing field `", key, "`")
}

/// The text of a field.
fn take_text(value: &Value, key: &'static str) -> (r: Result<String, String>)
    requires
        field(json_of(*value), key@) matches Some(json) ==> json is Text,
    ensures
        match r {
            Ok(text) => text_in(json_of(*value), key@) == Some(text@),
            Err(message) => field(json_of(*value), key@) is None && message@ == "missing field `"@
                + key@ + "`"@,
        },
{
    match get_member(value, key) {
        Some(member) => read_text(member),
        None => Err(missing(key)),
    }
}

/// The text of a field that may be null or missing.
fn take_maybe_text(value: &Value, key: &'static str) -> (r: Option<String>)
    ensures
        opt_text(r) == text_in(json_of(*value), key@),
{
    match get_member(value, key) {
        Some(member) => match member.as_str() {
            Some(text) => Some(text.to_owned()),
            None => None,
        },
        None => None,
    }
}

/// The texts of a list, where the field is there.
fn take_texts(value: &Value, key: &'static str) -> (r: Result<Vec<String>, String>)
    requires
        field(json_of(*value), key@) matches Some(json) ==> is_text_list(json),
    ensures
        match r {
            Ok(list) => field(json_of(*value), key@) is Some && texts(list@) == texts_in(
                json_of(*value),
                key@,
            ),
            Err(message) => field(json_of(*value), key@) is None && message@ == "missing field `"@
                + key@ + "`"@,
        },
{
    match get_member(value, key) {
        Some(member) => {
            let read = read_text_list(member);
            proof {
                if read is Ok {
                    assert(texts(read->Ok_0@) =~= texts_in(json_of(*value), key@));
                }
            }
            read
        },
        None => Err(missing(key)),
    }
}

/// The keys of an object of texts, each with its text.
fn take_table(value: &Value, key: &'static str) -> (r: Result<SettingsMap, String>)
    requires
        field(json_of(*value), key@) matches Some(json) ==> is_text_table(json),
    ensures
        match r {
            Ok(map) => field(json_of(*value), key@) is Some && map@ == table_in(
                json_of(*value),
                key@,
            ),
            Err(message) => field(json_of(*value), key@) is None && message@ == "missing field `"@
                + key@ + "`"@,
        },
{
    let member = match get_member(value, key) {
        Some(member) => member,
        None => {
            return Err(missing(key));
        },
    };
    let list = match read_text_table(member) {
        Ok(list) => list,
        Err(message) => {
            return Err(message);
        },
    };
    let ghost table = json_of(*member);
    let mut map = SettingsMap::new();
    let mut i: usize = 0;
    while i < list.len()
        invariant
            i <= list@.len(),
            forall|j: int|
                0 <= j < list@.len() ==> field(table, (#[trigger] list@[j]).0@) == Some(
                    Json::Text(list@[j].1@),
                ),
            forall|name: Seq<char>| #[trigger]
                map@.contains_key(name) ==> field(table, name) == Some(Json::Text(map@[name])),
            forall|j: int| 0 <= j < i ==> map@.contains_key((#[trigger] list@[j]).0@),
        decreases list@.len() - i,
    {
        map.insert(list[i].0.clone(), list[i].1.clone());
        i = i + 1;
    }
    proof {
        assert forall|name: Seq<char>| #[trigger] field(table, name) is Some implies map@.contains_key(
            name,
        ) by {
            let j = choose|j: int| 0 <= j < list@.len() && (#[trigger] list@[j]).0@ == name;
            assert(map@.contains_key(list@[j].0@));
        }
        assert(map@ =~= table_in(json_of(*value), key@));
    }
    Ok(map)
}

/// The snapshot that an object states, or what is wrong with it.
fn decode(value: &Value, version: u32) -> (r: Result<Snapshot, String>)
    requires
        json_of(*value) is Object,
    ensures
        match r {
            Ok(snap) => decoded(json_of(*value), version) == Ok::<SnapshotView, Seq<char>>(snap@),
            Err(message) => decoded(json_of(*value), version) == Err::<SnapshotView, Seq<char>>(
                message@,
            ),
        },
{
    if let Some(message) = find_first_wrong(value) {
        return Err(message);
    }
    proof {
        let members = json_of(*value)->Object_0;
        lemma_nothing_wrong(members, "saved_at"@);
        lemma_nothing_wrong(members, "device_name"@);
        lemma_nothing_wrong(members, "device_serial"@);
        lemma_nothing_wrong(members, "device_type"@);
        lemma_nothing_wrong(members, "android_version"@);
        lemma_nothing_wrong(members, "disabled_packages"@);
        lemma_nothing_wrong(members, "settings"@);
        lemma_nothing_wrong(members, "absent_settings"@);
        lemma_kinds();
    }
    let saved_at = match take_text(value, "saved_at") {
        Ok(text) => text,
        Err(message) => {
            return Err(message);
        },
    };
    let device_name = match take_text(value, "device_name") {
        Ok(text) => text,
        Err(message) => {
            return Err(message);
        },
    };
    let device_serial = match take_text(value, "device_serial") {
        Ok(text) => text,
        Err(message) => {
            return Err(message);
        },
    };
    let device_type = match get_member(value, "device_type") {
        Some(member) => match read_type(member) {
            Ok(device_type) => device_type,
            Err(message) => {
                return Err(message);
            },
        },
        None => {
            return Err(missing("device_type"));
        },
    };
    let android_version = match take_text(value, "android_version") {
        Ok(text) => text,
        Err(message) => {
            return Err(message);
        },
    };
    let disabled_packages = match take_texts(value, "disabled_packages") {
        Ok(list) => list,
        Err(message) => {
            return Err(message);
        },
    };
    let settings = match take_table(value, "settings") {
        Ok(map) => map,
        Err(message) => {
            return Err(message);
        },
    };
    let absent_settings = match take_texts(value, "absent_settings") {
        Ok(list) => list,
        Err(_) => Vec::new(),
    };
    proof {
        assert(texts(Seq::<String>::empty()) =~= Seq::<Seq<char>>::empty());
        assert(texts(absent_settings@) =~= texts_in(json_of(*value), "absent_settings"@));
    }
    Ok(
        Snapshot {
            schema_version: version,
            saved_at,
            label: take_maybe_text(value, "label"),
            device_name,
            device_serial,
            device_type,
            android_version,
            disabled_packages,
            current_launcher: take_maybe_text(value, "current_launcher"),
            settings,
            absent_settings,
        },
    )
}

/// The names of the fields, in the order in which they are written.
pub open spec fn field_names() -> Seq<Seq<char>> {
    seq![
        "schema_version"@,
        "saved_at"@,
        "label"@,
        "device_name"@,
        "device_serial"@,
        "device_type"@,
        "android_version"@,
        "disabled_packages"@,
        "current_launcher"@,
        "settings"@,
        "absent_settings"@,
    ]
}

/// No two fields have the same name.
proof fn lemma_names_differ()
    ensures
        forall|i: int, j: int|
            0 <= i < j < field_names().len() ==> #[trigger] field_names()[i]
                != #[trigger] field_names()[j],
{
    reveal_strlit("schema_version");
    reveal_strlit("saved_at");
    reveal_strlit("label");
    reveal_strlit("device_name");
    reveal_strlit("device_serial");
    reveal_strlit("device_type");
    reveal_strlit("android_version");
    reveal_strlit("disabled_packages");
    reveal_strlit("current_launcher");
    reveal_strlit("settings");
    reveal_strlit("absent_settings");
    assert("saved_at"@[1] != "settings"@[1]);
    assert("device_name"@[7] != "device_type"@[7]);
    assert("android_version"@[1] != "absent_settings"@[1]);
    let lengths = seq![14int, 8, 5, 11, 13, 11, 15, 17, 16, 8, 15];
    assert forall|i: int| 0 <= i < field_names().len() implies #[trigger] field_names()[i].len()
        == lengths[i] by {
        assert(i == 0 || i == 1 || i == 2 || i == 3 || i == 4 || i == 5 || i == 6 || i == 7 || i
            == 8 || i == 9 || i == 10);
    }
    assert forall|i: int, j: int| 0 <= i < j < field_names().len() implies #[trigger] field_names()[i]
        != #[trigger] field_names()[j] by {
        assert(field_names()[i].len() == lengths[i]);
        assert(field_names()[j].len() == lengths[j]);
        if lengths[i] == lengths[j] {
            assert((i == 1 && j == 9) || (i == 3 && j == 5) || (i == 6 && j == 10));
        }
    }
}

/// The fields' names differ from each other, so each field has its own kind.
proof fn lemma_kinds()
    ensures
        kind_of("saved_at"@) is Text,
        kind_of("label"@) is MaybeText,
        kind_of("device_name"@) is Text,
        kind_of("device_serial"@) is Text,
        kind_of("device_type"@) is Type,
        kind_of("android_version"@) is Text,
        kind_of("disabled_packages"@) is TextList,
        kind_of("current_launcher"@) is MaybeText,
        kind_of("settings"@) is TextTable,
        kind_of("absent_settings"@) is TextList,
        kind_of("schema_version"@) is Any,
{
    lemma_names_differ();
    let names = field_names();
    assert(names[0] == "schema_version"@ && names[1] == "saved_at"@ && names[2] == "label"@
        && names[3] == "device_name"@ && names[4] == "device_serial"@ && names[5]
        == "device_type"@ && names[6] == "android_version"@ && names[7] == "disabled_packages"@
        && names[8] == "current_launcher"@ && names[9] == "settings"@ && names[10]
        == "absent_settings"@);
}

// ---------------------------------------------------------------------------
// Reading and writing.
// ---------------------------------------------------------------------------

/// A text, or null.
pub open spec fn maybe_text(text: Option<Seq<char>>) -> Json {
    match text {
        Some(text) => Json::Text(text),
        None => Json::Null,
    }
}

/// A list of texts.
pub open spec fn text_list(list: Seq<Seq<char>>) -> Json {
    Json::Array(list.map_values(|text: Seq<char>| Json::Text(text)))
}

/// An object of texts.
pub open spec fn text_table(pairs: Pairs) -> Json {
    Json::Object(pairs.map_values(|pair: (Seq<char>, Seq<char>)| (pair.0, Json::Text(pair.1))))
}

/// The values of the fields, in the order in which they are written.
pub open spec fn field_values(snap: SnapshotView, pairs: Pairs) -> Seq<Json> {
    seq![
        Json::Number {
            whole: Some(snap.schema_version as u64),
            float: false,
            text: decimal(snap.schema_version as nat),
        },
        Json::Text(snap.saved_at),
        maybe_text(snap.label),
        Json::Text(snap.device_name),
        Json::Text(snap.device_serial),
        Json::Text(line_name(snap.device_type)),
        Json::Text(snap.android_version),
        text_list(snap.disabled_packages),
        maybe_text(snap.current_launcher),
        text_table(pairs),
        text_list(snap.absent_settings),
    ]
}

/// The document that states a snapshot whose settings are `pairs`.
pub open spec fn encoded(snap: SnapshotView, pairs: Pairs) -> Json {
    Json::Object(
        Seq::new(11, |i: int| (field_names()[i], field_values(snap, pairs)[i])),
    )
}

/// What comes of reading back the document that states a snapshot.
pub open spec fn restored(snap: SnapshotView) -> Result<SnapshotView, SnapshotErrorView> {
    match accepted_version(Some(snap.schema_version as u64)) {
        Err(e) => Err(e),
        Ok(_) => settled(snap),
    }
}

proof fn lemma_member_at(members: Seq<(Seq<char>, Json)>, i: int)
    requires
        distinct_keys(members),
        0 <= i < members.len(),
    ensures
        member_of(members, members[i].0) == Some(members[i].1),
    decreases members.len(),
{
    let front = members.drop_last();
    if i < front.len() {
        assert(members[i].0 != members[members.len() - 1].0);
        assert forall|a: int, b: int| 0 <= a < b < front.len() implies (#[trigger] front[a]).0 != (
        #[trigger] front[b]).0 by {
            assert(members[a].0 != members[b].0);
        }
        lemma_member_at(front, i);
    }
}

proof fn lemma_member_comes_from(members: Seq<(Seq<char>, Json)>, key: Seq<char>)
    ensures
        member_of(members, key) is Some ==> exists|i: int|
            0 <= i < members.len() && (#[trigger] members[i]).0 == key,
    decreases members.len(),
{
    if members.len() > 0 {
        lemma_member_comes_from(members.drop_last(), key);
        if member_of(members, key) is Some {
            let last = members.len() - 1;
            if members[last].0 != key {
                let front = members.drop_last();
                let i = choose|i: int| 0 <= i < front.len() && (#[trigger] front[i]).0 == key;
                assert(members[i].0 == key);
            }
        }
    }
}

/// In a document that states a snapshot each field holds its value.
proof fn lemma_encoded_fields(snap: SnapshotView, pairs: Pairs)
    ensures
        distinct_keys(encoded(snap, pairs)->Object_0),
        forall|i: int|
            0 <= i < 11 ==> field(encoded(snap, pairs), #[trigger] field_names()[i]) == Some(
                field_values(snap, pairs)[i],
            ),
{
    lemma_names_differ();
    let members = encoded(snap, pairs)->Object_0;
    assert forall|i: int, j: int| 0 <= i < j < members.len() implies (#[trigger] members[i]).0 != (
    #[trigger] members[j]).0 by {
        assert(field_names()[i] != field_names()[j]);
    }
    assert forall|i: int| 0 <= i < 11 implies field(
        encoded(snap, pairs),
        #[trigger] field_names()[i],
    ) == Some(field_values(snap, pairs)[i]) by {
        lemma_member_at(members, i);
        assert(members[i] == (field_names()[i], field_values(snap, pairs)[i]));
    }
}

/// A name that a product line is written under is read as that product line.
proof fn lemma_line_names(device_type: DeviceType)
    ensures
        line_named(line_name(device_type)) == Some(device_type),
{
    reveal_strlit("shield");
    reveal_strlit("google_tv");
    reveal_strlit("unknown");
    assert("shield"@.len() == 6);
    assert("google_tv"@.len() == 9);
    assert("unknown"@.len() == 7);
}

/// Nothing is wrong with a list none of whose members is wrong.
proof fn lemma_all_right(members: Seq<(Seq<char>, Json)>)
    requires
        forall|i: int|
            0 <= i < members.len() ==> wrong(
                kind_of((#[trigger] members[i]).0),
                members[i].1,
            ) is None,
    ensures
        first_wrong(members) is None,
    decreases members.len(),
{
    if members.len() > 0 {
        let front = members.drop_last();
        assert forall|i: int| 0 <= i < front.len() implies wrong(
            kind_of((#[trigger] front[i]).0),
            front[i].1,
        ) is None by {
            assert(members[i] == front[i]);
        }
        lemma_all_right(front);
        assert(wrong(kind_of(members[members.len() - 1].0), members[members.len() - 1].1) is None);
    }
}

/// An object of texts in ascending order states the map of its texts.
proof fn lemma_text_table(pairs: Pairs)
    requires
        ascending(pairs),
    ensures
        distinct_keys(text_table(pairs)->Object_0),
        forall|name: Seq<char>|
            (#[trigger] field(text_table(pairs), name) is Some) == pairs_map(pairs).contains_key(
                name,
            ),
        forall|name: Seq<char>| #[trigger]
            pairs_map(pairs).contains_key(name) ==> field(text_table(pairs), name) == Some(
                Json::Text(pairs_map(pairs)[name]),
            ),
{
    let members = text_table(pairs)->Object_0;
    assert forall|i: int, j: int| 0 <= i < j < members.len() implies (#[trigger] members[i]).0 != (
    #[trigger] members[j]).0 by {
        assert(precedes(pairs[i].0, pairs[j].0));
        lemma_precedes_irreflexive(pairs[i].0);
    }
    assert forall|name: Seq<char>|
        (#[trigger] field(text_table(pairs), name) is Some) == pairs_map(pairs).contains_key(
            name,
        ) && (pairs_map(pairs).contains_key(name) ==> field(text_table(pairs), name) == Some(
            Json::Text(pairs_map(pairs)[name]),
        )) by {
        lemma_member_comes_from(members, name);
        if field(text_table(pairs), name) is Some {
            let i = choose|i: int| 0 <= i < members.len() && (#[trigger] members[i]).0 == name;
            assert(pairs[i].0 == name);
        }
        if pairs_map(pairs).contains_key(name) {
            let i = choose|i: int| 0 <= i < pairs.len() && (#[trigger] pairs[i]).0 == name;
            assert(members[i] == (name, Json::Text(pairs[i].1)));
            lemma_member_at(members, i);
        }
    }
}

/// Reading the document that states a snapshot gives the snapshot back, brought to the current
/// format; a snapshot of a version that is not read, or one that contradicts itself, is
/// refused.
pub proof fn what_is_written_is_read_back(snap: SnapshotView, pairs: Pairs)
    requires
        ascending(pairs),
        pairs_map(pairs) == snap.settings,
    ensures
        loaded(encoded(snap, pairs)) == restored(snap),
{
    let json = encoded(snap, pairs);
    let names = field_names();
    let values = field_values(snap, pairs);
    lemma_encoded_fields(snap, pairs);
    lemma_text_table(pairs);
    lemma_line_names(snap.device_type);
    lemma_kinds();
    assert(names[0] == "schema_version"@ && names[1] == "saved_at"@ && names[2] == "label"@
        && names[3] == "device_name"@ && names[4] == "device_serial"@ && names[5]
        == "device_type"@ && names[6] == "android_version"@ && names[7] == "disabled_packages"@
        && names[8] == "current_launcher"@ && names[9] == "settings"@ && names[10]
        == "absent_settings"@);
    assert(stated_version(json) == Some(snap.schema_version as u64));
    if let Ok(version) = accepted_version(Some(snap.schema_version as u64)) {
        let members = json->Object_0;
        assert forall|i: int| 0 <= i < members.len() implies wrong(
            kind_of((#[trigger] members[i]).0),
            members[i].1,
        ) is None by {
            assert(members[i] == (names[i], values[i]));
            assert(is_text_list(text_list(snap.disabled_packages)));
            assert(is_text_list(text_list(snap.absent_settings)));
            assert(is_text_table(text_table(pairs)));
            assert(i == 0 || i == 1 || i == 2 || i == 3 || i == 4 || i == 5 || i == 6 || i == 7
                || i == 8 || i == 9 || i == 10);
        }
        lemma_all_right(members);
        assert(texts_in(json, names[7]) =~= snap.disabled_packages);
        assert(texts_in(json, names[10]) =~= snap.absent_settings);
        assert(table_in(json, names[9]) =~= snap.settings);
        assert(decoded(json, version) == Ok::<SnapshotView, Seq<char>>(snap));
    }
}

/// A snapshot of the current version that does not contradict itself is read back as it was.
pub proof fn a_current_snapshot_is_read_back_unchanged(snap: SnapshotView, pairs: Pairs)
    requires
        ascending(pairs),
        pairs_map(pairs) == snap.settings,
        snap.schema_version == SCHEMA_VERSION,
        consistent(snap.settings, snap.absent_settings),
    ensures
        loaded(encoded(snap, pairs)) == Ok::<SnapshotView, SnapshotErrorView>(snap),
{
    what_is_written_is_read_back(snap, pairs);
}

/// Whatever a document holds, a snapshot that is read from it is of the current version and
/// does not contradict itself; and one that comes from an older file names nothing as absent,
/// so that applying it deletes nothing.
pub proof fn what_is_read_is_sound(json: Json)
    ensures
        loaded(json) matches Ok(snap) ==> {
            &&& snap.schema_version == SCHEMA_VERSION
            &&& consistent(snap.settings, snap.absent_settings)
            &&& stated_version(json) is Some
            &&& stated_version(json)->Some_0 < SCHEMA_VERSION ==> snap.absent_settings.len() == 0
        },
{
}

/// A file of a version that this library does not know is refused for its version, whatever
/// else stands in it.
pub proof fn unknown_versions_are_refused(json: Json, version: u64)
    requires
        stated_version(json) == Some(version),
        version == 0 || version > SCHEMA_VERSION,
    ensures
        loaded(json) matches Err(SnapshotErrorView::UnsupportedSchema { found, supported })
            && supported == SCHEMA_VERSION && (version <= u32::MAX ==> found == version),
{
}

/// The list as a JSON value.
fn list_value(list: &Vec<String>) -> (r: Value)
    ensures
        json_of(r) == text_list(texts(list@)),
{
    let mut items: Vec<Value> = Vec::new();
    let mut i: usize = 0;
    while i < list.len()
        invariant
            i <= list@.len(),
            items@.len() == i,
            forall|j: int| 0 <= j < i ==> json_of(#[trigger] items@[j]) == Json::Text(list@[j]@),
        decreases list@.len() - i,
    {
        items.push(text_value(list[i].clone()));
        i = i + 1;
    }
    let r = array_value(items);
    proof {
        assert(json_of(r)->Array_0 =~= text_list(texts(list@))->Array_0);
    }
    r
}

/// The text, or null, as a JSON value.
fn maybe_value(text: &Option<String>) -> (r: Value)
    ensures
        json_of(r) == maybe_text(opt_text(*text)),
{
    match text {
        Some(text) => text_value(text.clone()),
        None => null_value(),
    }
}

/// The settings as a JSON value.
fn table_value(settings: &SettingsMap) -> (r: Value)
    ensures
        json_of(r) == text_table(settings.pairs()),
        ascending(settings.pairs()),
{
    let n: usize = settings.len();
    let ghost pairs = settings.pairs();
    let mut members: Vec<(String, Value)> = Vec::new();
    let mut i: usize = 0;
    while i < n
        invariant
            pairs == settings.pairs(),
            n == pairs.len(),
            i <= n,
            members@.len() == i,
            forall|j: int|
                0 <= j < i ==> (#[trigger] members@[j]).0@ == pairs[j].0 && json_of(members@[j].1)
                    == Json::Text(pairs[j].1),
        decreases n - i,
    {
        members.push((settings.name_at(i).to_owned(), text_value(settings.value_at(i).to_owned())));
        i = i + 1;
    }
    proof {
        lemma_text_table(pairs);
        assert(members@.map_values(|m: (String, Value)| (m.0@, json_of(m.1)))
            =~= text_table(pairs)->Object_0);
    }
    object_value(members)
}

/// The name of a product line in a file.
fn line_text(device_type: DeviceType) -> (r: &'static str)
    ensures
        r@ == line_name(device_type),
{
    match device_type {
        DeviceType::Shield => "shield",
        DeviceType::GoogleTv => "google_tv",
        DeviceType::Unknown => "unknown",
    }
}

impl Snapshot {
    /// Reads a snapshot from a JSON document.
    pub fn from_value(value: &Value) -> (r: Result<Snapshot, SnapshotError>)
        ensures
            outcome(r) == loaded(json_of(*value)),
    {
        let stated: Option<u64> = match get_member(value, "schema_version") {
            Some(member) => member.as_u64(),
            None => None,
        };
        match check_version(stated) {
            Ok(version) => match decode(value, version) {
                Ok(snap) => snap.settle(),
                Err(message) => Err(SnapshotError::Malformed(message)),
            },
            Err(e) => Err(e),
        }
    }

    /// Reads a snapshot from JSON text.
    pub fn from_json(json: &str) -> (r: Result<Snapshot, SnapshotError>)
        ensures
            match json_read(json@) {
                Ok(document) => outcome(r) == loaded(document),
                Err(message) => outcome(r) == Err::<SnapshotView, SnapshotErrorView>(
                    SnapshotErrorView::Malformed(message),
                ),
            },
    {
        match read_document(json) {
            Ok(value) => Snapshot::from_value(&value),
            Err(message) => Err(SnapshotError::Malformed(message)),
        }
    }

    /// The document that states the snapshot.
    pub fn to_value(&self) -> (r: Value)
        ensures
            json_of(r) == encoded(self@, self.settings.pairs()),
            ascending(self.settings.pairs()),
    {
        let mut members: Vec<(String, Value)> = Vec::new();
        members.push(("schema_version".to_owned(), number_value(self.schema_version as u64)));
        members.push(("saved_at".to_owned(), text_value(self.saved_at.clone())));
        members.push(("label".to_owned(), maybe_value(&self.label)));
        members.push(("device_name".to_owned(), text_value(self.device_name.clone())));
        members.push(("device_serial".to_owned(), text_value(self.device_serial.clone())));
        members.push(
            ("device_type".to_owned(), text_value(line_text(self.device_type).to_owned())),
        );
        members.push(("android_version".to_owned(), text_value(self.android_version.clone())));
        members.push(("disabled_packages".to_owned(), list_value(&self.disabled_packages)));
        members.push(("current_launcher".to_owned(), maybe_value(&self.current_launcher)));
        members.push(("settings".to_owned(), table_value(&self.settings)));
        members.push(("absent_settings".to_owned(), list_value(&self.absent_settings)));
        proof {
            let pairs = self.settings.pairs();
            lemma_encoded_fields(self@, pairs);
            assert(members@.map_values(|m: (String, Value)| (m.0@, json_of(m.1))) =~= encoded(
                self@,
                pairs,
            )->Object_0);
        }
        object_value(members)
    }

    /// Writes the snapshot as JSON text. Reading the text gives the snapshot back, brought to
    /// the current format.
    pub fn to_json(&self) -> (r: Result<String, SnapshotError>)
        ensures
            match r {
                Ok(text) => {
                    &&& text@ == json_pretty(encoded(self@, self.settings.pairs()))
                    &&& json_read(text@) matches Ok(document) && loaded(document) == restored(self@)
                },
                Err(_) => false,
            },
    {
        let value = self.to_value();
        proof {
            let pairs = self.settings.pairs();
            what_is_written_is_read_back(self@, pairs);
            lemma_encoded_is_record(self@, pairs);
        }
        match write_document(&value) {
            Ok(text) => Ok(text),
            Err(message) => Err(SnapshotError::Malformed(message)),
        }
    }
}

/// A document that states a snapshot is a record.
proof fn lemma_encoded_is_record(snap: SnapshotView, pairs: Pairs)
    ensures
        is_record(encoded(snap, pairs)),
{
    let members = encoded(snap, pairs)->Object_0;
    let values = field_values(snap, pairs);
    assert forall|i: int| 0 <= i < members.len() implies is_shallow((#[trigger] members[i]).1) by {
        assert(members[i].1 == values[i]);
        assert(is_shallow(text_list(snap.disabled_packages)));
        assert(is_shallow(text_list(snap.absent_settings)));
        assert(is_shallow(text_table(pairs)));
        assert(i == 0 || i == 1 || i == 2 || i == 3 || i == 4 || i == 5 || i == 6 || i == 7 || i
            == 8 || i == 9 || i == 10);
    }
}

// ---------------------------------------------------------------------------
// What a document says, and what is made of it.
// ---------------------------------------------------------------------------

/// The value states this list of texts, item by item.
pub open spec fn is_list_of(json: Json, list: Seq<Seq<char>>) -> bool {
    &&& json matches Json::Array(items)
    &&& items.len() == list.len()
    &&& forall|i: int| 0 <= i < items.len() ==> #[trigger] items[i] == Json::Text(list[i])
}

/// The value states these settings: each name with its text, and no other name.
pub open spec fn is_table_of(json: Json, settings: Settings) -> bool {
    &&& json is Object
    &&& forall|name: Seq<char>| #[trigger] settings.contains_key(name) <==> field(json, name) is Some
    &&& forall|name: Seq<char>| #[trigger]
        settings.contains_key(name) ==> field(json, name) == Some(Json::Text(settings[name]))
}

/// The value states the name: as a text, or as the one key of an object, with null.
pub open spec fn is_line_name(json: Json, name: Seq<char>) -> bool {
    ||| json == Json::Text(name)
    ||| json matches Json::Object(members) && members.len() == 1 && members[0].0 == name
        && members[0].1 is Null
}

/// The value states the product line by its name in a file.
pub open spec fn is_line_of(json: Json, device_type: DeviceType) -> bool {
    match device_type {
        DeviceType::Shield => is_line_name(json, "shield"@),
        DeviceType::GoogleTv => is_line_name(json, "google_tv"@),
        DeviceType::Unknown => is_line_name(json, "unknown"@),
    }
}

/// The field states the text, or is missing or null where there is none.
pub open spec fn is_maybe_text_of(stated: Option<Json>, text: Option<Seq<char>>) -> bool {
    match text {
        Some(text) => stated == Some(Json::Text(text)),
        None => stated is None || stated == Some(Json::Null),
    }
}

/// A snapshot that is read from a document of any version holds, field by field, what the
/// document states. Only the version is that of the current format; and what is absent is taken
/// from a document of the current version alone, where it may be left out.
pub proof fn a_snapshot_holds_what_its_document_states(json: Json)
    ensures
        loaded(json) matches Ok(snap) ==> {
            &&& field(json, "schema_version"@) matches Some(
                Json::Number { whole: Some(version), .. },
            )
            &&& version == 1 || version == 2 || version == 3
            &&& snap.schema_version == 3
            &&& field(json, "saved_at"@) == Some(Json::Text(snap.saved_at))
            &&& is_maybe_text_of(field(json, "label"@), snap.label)
            &&& field(json, "device_name"@) == Some(Json::Text(snap.device_name))
            &&& field(json, "device_serial"@) == Some(Json::Text(snap.device_serial))
            &&& field(json, "device_type"@) matches Some(line) && is_line_of(line, snap.device_type)
            &&& field(json, "android_version"@) == Some(Json::Text(snap.android_version))
            &&& field(json, "disabled_packages"@) matches Some(list) && is_list_of(
                list,
                snap.disabled_packages,
            )
            &&& is_maybe_text_of(field(json, "current_launcher"@), snap.current_launcher)
            &&& field(json, "settings"@) matches Some(table) && is_table_of(table, snap.settings)
            &&& version < 3 ==> snap.absent_settings.len() == 0
            &&& version == 3 ==> match field(json, "absent_settings"@) {
                Some(list) => is_list_of(list, snap.absent_settings),
                None => snap.absent_settings.len() == 0,
            }
            &&& forall|i: int|
                0 <= i < snap.absent_settings.len() ==> !snap.settings.contains_key(
                    #[trigger] snap.absent_settings[i],
                )
        },
{
    if loaded(json) is Ok {
        let members = match json {
            Json::Object(members) => members,
            _ => Seq::empty(),
        };
        lemma_kinds();
        lemma_nothing_wrong(members, "saved_at"@);
        lemma_nothing_wrong(members, "label"@);
        lemma_nothing_wrong(members, "device_name"@);
        lemma_nothing_wrong(members, "device_serial"@);
        lemma_nothing_wrong(members, "device_type"@);
        lemma_nothing_wrong(members, "android_version"@);
        lemma_nothing_wrong(members, "disabled_packages"@);
        lemma_nothing_wrong(members, "current_launcher"@);
        lemma_nothing_wrong(members, "settings"@);
        lemma_nothing_wrong(members, "absent_settings"@);
        let table = field(json, "settings"@)->Some_0;
        assert forall|name: Seq<char>| #[trigger] field(table, name) is Some implies field(
            table,
            name,
        )->Some_0 is Text by {
            lemma_texts_in_table(table->Object_0, name);
        }
        let line = field(json, "device_type"@)->Some_0;
        assert(is_line_of(line, loaded(json)->Ok_0.device_type));
    }
}

proof fn lemma_texts_in_table(members: Seq<(Seq<char>, Json)>, name: Seq<char>)
    requires
        forall|i: int| 0 <= i < members.len() ==> (#[trigger] members[i]).1 is Text,
    ensures
        member_of(members, name) matches Some(json) ==> json is Text,
    decreases members.len(),
{
    if members.len() > 0 {
        let front = members.drop_last();
        assert forall|i: int| 0 <= i < front.len() implies (#[trigger] front[i]).1 is Text by {
            assert(front[i] == members[i]);
        }
        assert(members[members.len() - 1].1 is Text);
        lemma_texts_in_table(front, name);
    }
}

/// The value is a list of texts.
pub open spec fn holds_texts(json: Json) -> bool {
    json matches Json::Array(items) && forall|i: int|
        0 <= i < items.len() ==> (#[trigger] items[i]) is Text
}

/// The value is an object of texts.
pub open spec fn maps_to_texts(json: Json) -> bool {
    json matches Json::Object(members) && forall|i: int|
        0 <= i < members.len() ==> (#[trigger] members[i]).1 is Text
}

/// The value is one that a field of this name may have. Other names may have any.
pub open spec fn fits(key: Seq<char>, json: Json) -> bool {
    &&& key == "saved_at"@ || key == "device_name"@ || key == "device_serial"@ || key
        == "android_version"@ ==> json is Text
    &&& key == "label"@ || key == "current_launcher"@ ==> json is Text || json is Null
    &&& key == "device_type"@ ==> is_line_name(json, "shield"@) || is_line_name(json, "google_tv"@)
        || is_line_name(json, "unknown"@)
    &&& key == "disabled_packages"@ || key == "absent_settings"@ ==> holds_texts(json)
    &&& key == "settings"@ ==> maps_to_texts(json)
}

/// Each member is one that a field of its name may be.
pub open spec fn all_fit(members: Seq<(Seq<char>, Json)>) -> bool {
    forall|i: int| 0 <= i < members.len() ==> fits((#[trigger] members[i]).0, members[i].1)
}

/// The fields that a snapshot cannot do without, but for the version.
pub open spec fn required() -> Seq<Seq<char>> {
    seq![
        "saved_at"@,
        "device_name"@,
        "device_serial"@,
        "device_type"@,
        "android_version"@,
        "disabled_packages"@,
        "settings"@,
    ]
}

/// The document is of a version that is read.
pub open spec fn is_of_version(json: Json, version: u64) -> bool {
    &&& field(json, "schema_version"@) matches Some(Json::Number { whole: Some(stated), .. })
    &&& stated == version
    &&& 1 <= version <= 3
}

/// Some setting of the document is named as absent in it too.
pub open spec fn contradicts_itself(json: Json) -> bool {
    &&& field(json, "absent_settings"@) matches Some(Json::Array(items))
    &&& exists|i: int|
        0 <= i < items.len() && field(field(json, "settings"@)->Some_0, (
        #[trigger] items[i])->Text_0) is Some
}

proof fn lemma_fits(key: Seq<char>, json: Json)
    ensures
        fits(key, json) <==> wrong(kind_of(key), json) is None,
{
    lemma_kinds();
    lemma_names_differ();
    let names = field_names();
    assert(names[1] == "saved_at"@ && names[2] == "label"@ && names[3] == "device_name"@ && names[4]
        == "device_serial"@ && names[5] == "device_type"@ && names[6] == "android_version"@
        && names[7] == "disabled_packages"@ && names[8] == "current_launcher"@ && names[9]
        == "settings"@ && names[10] == "absent_settings"@);
}

proof fn lemma_first_misfit(members: Seq<(Seq<char>, Json)>, i: int)
    requires
        0 <= i < members.len(),
        all_fit(members.take(i)),
        !fits(members[i].0, members[i].1),
    ensures
        first_wrong(members) == wrong(kind_of(members[i].0), members[i].1),
        first_wrong(members) is Some,
{
    let front = members.take(i);
    assert forall|j: int| 0 <= j < front.len() implies wrong(
        kind_of((#[trigger] front[j]).0),
        front[j].1,
    ) is None by {
        lemma_fits(front[j].0, front[j].1);
    }
    lemma_all_right(front);
    lemma_fits(members[i].0, members[i].1);
    assert(members.take(i + 1).drop_last() =~= front);
    lemma_wrong_stays(members, i + 1);
}

proof fn lemma_nothing_misfits(members: Seq<(Seq<char>, Json)>)
    requires
        all_fit(members),
    ensures
        first_wrong(members) is None,
{
    assert forall|j: int| 0 <= j < members.len() implies wrong(
        kind_of((#[trigger] members[j]).0),
        members[j].1,
    ) is None by {
        lemma_fits(members[j].0, members[j].1);
    }
    lemma_all_right(members);
}

/// A file is refused for its version where it states none that is a whole number, and where the
/// one that it states is not between 1 and 3; the number is told, as far as it fits. Nothing
/// else is said of such a file, and of any other file nothing of the kind.
pub proof fn a_version_is_refused_by_its_number(json: Json)
    ensures
        loaded(json) is Err && loaded(json)->Err_0 is MissingField <==> !(field(
            json,
            "schema_version"@,
        ) matches Some(Json::Number { whole: Some(_), .. })),
        loaded(json) matches Err(SnapshotErrorView::MissingField(name)) ==> name
            == "schema_version"@,
        field(json, "schema_version"@) matches Some(Json::Number { whole: Some(version), .. }) ==> {
            &&& loaded(json) is Err && loaded(json)->Err_0 is UnsupportedSchema <==> !(1 <= version
                <= 3)
            &&& loaded(json) matches Err(SnapshotErrorView::UnsupportedSchema { found, supported })
                ==> supported == 3 && (version <= 0xffff_ffff ==> found == version) && (version
                > 0xffff_ffff ==> found == 0xffff_ffff)
        },
        !(json is Object) ==> loaded(json) is Err,
{
}

/// A file of a known version is read if and only if each of its fields holds what it may, no
/// field is missing that has to be there, and, in the current version, no setting is both
/// present and absent.
pub proof fn which_files_are_read(members: Seq<(Seq<char>, Json)>, version: u64)
    requires
        distinct_keys(members),
        is_of_version(Json::Object(members), version),
    ensures
        loaded(Json::Object(members)) is Ok <==> {
            &&& all_fit(members)
            &&& forall|k: int|
                0 <= k < 7 ==> field(Json::Object(members), #[trigger] required()[k]) is Some
            &&& version == 3 ==> !contradicts_itself(Json::Object(members))
        },
{
    let json = Json::Object(members);
    assert(required()[0] == "saved_at"@ && required()[1] == "device_name"@ && required()[2]
        == "device_serial"@ && required()[3] == "device_type"@ && required()[4]
        == "android_version"@ && required()[5] == "disabled_packages"@ && required()[6]
        == "settings"@);
    if all_fit(members) {
        lemma_nothing_misfits(members);
        let absent = texts_in(json, "absent_settings"@);
        let settings = table_in(json, "settings"@);
        if contradicts_itself(json) {
            let items = field(json, "absent_settings"@)->Some_0->Array_0;
            let i = choose|i: int|
                0 <= i < items.len() && field(field(json, "settings"@)->Some_0, (
                #[trigger] items[i])->Text_0) is Some;
            assert(absent[i] == items[i]->Text_0);
            assert(field(json, "settings"@) is Some ==> settings.contains_key(absent[i]));
        } else {
            assert forall|i: int| 0 <= i < absent.len() implies !settings.contains_key(
                #[trigger] absent[i],
            ) by {
                let items = field(json, "absent_settings"@)->Some_0->Array_0;
                assert(absent[i] == items[i]->Text_0);
            }
        }
    } else {
        assert(members.take(members.len() as int) =~= members);
        let i = lemma_misfit(members, members.len() as int);
        lemma_first_misfit(members, i);
    }
}

proof fn lemma_misfit(members: Seq<(Seq<char>, Json)>, n: int) -> (i: int)
    requires
        0 <= n <= members.len(),
        !all_fit(members.take(n)),
    ensures
        0 <= i < n,
        all_fit(members.take(i)),
        !fits(members[i].0, members[i].1),
    decreases n,
{
    if all_fit(members.take(n - 1)) {
        if fits(members[n - 1].0, members[n - 1].1) {
            assert forall|j: int| 0 <= j < n implies fits(
                (#[trigger] members.take(n)[j]).0,
                members.take(n)[j].1,
            ) by {
                if j < n - 1 {
                    assert(members.take(n - 1)[j] == members.take(n)[j]);
                }
            }
        }
        n - 1
    } else {
        lemma_misfit(members, n - 1)
    }
}

/// The file is refused as malformed, with this message.
pub open spec fn is_malformed(json: Json, said: Seq<char>) -> bool {
    loaded(json) matches Err(SnapshotErrorView::Malformed(message)) && message == said
}

/// Of a file of a known version, the first field that holds what it may not is told: what a
/// reader of that kind of value says of it.
pub proof fn the_first_bad_value_is_told(
    members: Seq<(Seq<char>, Json)>,
    version: u64,
    i: int,
)
    requires
        is_of_version(Json::Object(members), version),
        0 <= i < members.len(),
        all_fit(members.take(i)),
        !fits(members[i].0, members[i].1),
    ensures
        ({
            let json = Json::Object(members);
            let key = members[i].0;
            let value = members[i].1;
            &&& key == "saved_at"@ || key == "device_name"@ || key == "device_serial"@ || key
                == "android_version"@ || key == "label"@ || key == "current_launcher"@
                ==> is_malformed(json, text_refusal(value))
            &&& key == "disabled_packages"@ || key == "absent_settings"@ ==> is_malformed(
                json,
                text_list_refusal(value),
            )
            &&& key == "settings"@ ==> is_malformed(json, text_table_refusal(value))
            &&& key == "device_type"@ ==> match value {
                Json::Text(name) => is_malformed(
                    json,
                    "unknown variant `"@ + name
                        + "`, expected one of `shield`, `google_tv`, `unknown`"@,
                ),
                Json::Object(inside) => if inside.len() != 1 {
                    is_malformed(json, "invalid value: map, expected map with a single key"@)
                } else if inside[0].0 == "shield"@ || inside[0].0 == "google_tv"@ || inside[0].0
                    == "unknown"@ {
                    is_malformed(
                        json,
                        "invalid type: "@ + value_kind(inside[0].1) + ", expected unit"@,
                    )
                } else {
                    is_malformed(
                        json,
                        "unknown variant `"@ + inside[0].0
                            + "`, expected one of `shield`, `google_tv`, `unknown`"@,
                    )
                },
                _ => is_malformed(
                    json,
                    "invalid type: "@ + value_kind(value) + ", expected string or map"@,
                ),
            }
        }),
{
    lemma_first_misfit(members, i);
    lemma_kinds();
}

/// An error names a value by what kind of value it is, and a scalar by its text too.
pub proof fn values_are_named_by_their_kind(json: Json)
    ensures
        json is Null ==> value_kind(json) == "null"@,
        json == Json::Bool(true) ==> value_kind(json) == "boolean `true`"@,
        json == Json::Bool(false) ==> value_kind(json) == "boolean `false`"@,
        json matches Json::Number { float, text, .. } ==> {
            &&& float ==> value_kind(json) == "floating point `"@ + text + "`"@
            &&& !float ==> value_kind(json) == "integer `"@ + text + "`"@
        },
        json matches Json::Text(text) ==> value_kind(json) == "string "@ + text_debug(text),
        json is Array ==> value_kind(json) == "sequence"@,
        json is Object ==> value_kind(json) == "map"@,
{
}

/// Of a file of a known version whose fields hold what they may, the first field that has to be
/// there and is not is named.
pub proof fn the_first_missing_field_is_named(
    members: Seq<(Seq<char>, Json)>,
    version: u64,
    k: int,
)
    requires
        is_of_version(Json::Object(members), version),
        all_fit(members),
        0 <= k < 7,
        field(Json::Object(members), required()[k]) is None,
        forall|j: int|
            0 <= j < k ==> field(Json::Object(members), #[trigger] required()[j]) is Some,
    ensures
        is_malformed(Json::Object(members), "missing field `"@ + required()[k] + "`"@),
{
    lemma_nothing_misfits(members);
    let all = required();
    assert(all[0] == "saved_at"@ && all[1] == "device_name"@ && all[2] == "device_serial"@ && all[3]
        == "device_type"@ && all[4] == "android_version"@ && all[5] == "disabled_packages"@
        && all[6] == "settings"@);
    assert(k == 0 || k == 1 || k == 2 || k == 3 || k == 4 || k == 5 || k == 6);
}

/// A file of the current version with nothing else wrong in it is refused where a setting is
/// both present and absent; in a file of an older version that is no fault.
pub proof fn a_contradiction_is_told(members: Seq<(Seq<char>, Json)>, version: u64)
    requires
        distinct_keys(members),
        is_of_version(Json::Object(members), version),
        all_fit(members),
        forall|k: int|
            0 <= k < 7 ==> field(Json::Object(members), #[trigger] required()[k]) is Some,
        contradicts_itself(Json::Object(members)),
    ensures
        version == 3 ==> is_malformed(
            Json::Object(members),
            "setting cannot be both present and absent"@,
        ),
        version < 3 ==> loaded(Json::Object(members)) is Ok,
{
    which_files_are_read(members, version);
    lemma_nothing_misfits(members);
    let all = required();
    assert(all[0] == "saved_at"@ && all[1] == "device_name"@ && all[2] == "device_serial"@ && all[3]
        == "device_type"@ && all[4] == "android_version"@ && all[5] == "disabled_packages"@
        && all[6] == "settings"@);
}

/// What a user reads of a refusal says which it is and holds all that is known of it.
pub proof fn a_refusal_tells_all(e: SnapshotErrorView)
    ensures
        match e {
            SnapshotErrorView::UnsupportedSchema { found, supported } => e.text()
                == "snapshot schema version "@ + decimal(found as nat)
                + " is newer than this build supports (max "@ + decimal(supported as nat) + ")"@,
            SnapshotErrorView::MissingField(name) => e.text()
                == "snapshot is missing required field: "@ + name,
            SnapshotErrorView::Malformed(message) => e.text() == "snapshot JSON is malformed: "@
                + message,
        },
{
}

/// What is written of a snapshot states each of its fields once, under its own name and in one
/// order: nothing is left out, and nothing else stands there.
pub proof fn what_is_written_states_each_field(snap: SnapshotView, pairs: Pairs)
    requires
        ascending(pairs),
        pairs_map(pairs) == snap.settings,
    ensures
        encoded(snap, pairs) matches Json::Object(members) && {
            &&& members.len() == 11
            &&& distinct_keys(members)
            &&& members[0].0 == "schema_version"@
            &&& members[0].1 matches Json::Number { whole, float, text } && whole == Some(
                snap.schema_version as u64,
            ) && !float && text == decimal(snap.schema_version as nat)
            &&& members[1] == ("saved_at"@, Json::Text(snap.saved_at))
            &&& members[2].0 == "label"@ && is_maybe_text_of(Some(members[2].1), snap.label)
            &&& members[3] == ("device_name"@, Json::Text(snap.device_name))
            &&& members[4] == ("device_serial"@, Json::Text(snap.device_serial))
            &&& members[5].0 == "device_type"@ && members[5].1 is Text && is_line_of(
                members[5].1,
                snap.device_type,
            )
            &&& members[6] == ("android_version"@, Json::Text(snap.android_version))
            &&& members[7].0 == "disabled_packages"@ && is_list_of(
                members[7].1,
                snap.disabled_packages,
            )
            &&& members[8].0 == "current_launcher"@ && is_maybe_text_of(
                Some(members[8].1),
                snap.current_launcher,
            )
            &&& members[9].0 == "settings"@ && is_table_of(members[9].1, snap.settings)
            &&& members[9].1 matches Json::Object(table) && table.len() == pairs.len()
                && forall|i: int|
                0 <= i < pairs.len() ==> #[trigger] table[i] == (pairs[i].0, Json::Text(pairs[i].1))
            &&& members[10].0 == "absent_settings"@ && is_list_of(
                members[10].1,
                snap.absent_settings,
            )
        },
{
    lemma_encoded_fields(snap, pairs);
    lemma_text_table(pairs);
}

/// The key of an object is looked up as it is: the member that has it, and none where none has.
pub proof fn a_member_is_found_by_its_key(members: Seq<(Seq<char>, Json)>, key: Seq<char>)
    requires
        distinct_keys(members),
    ensures
        field(Json::Object(members), key) is None <==> forall|i: int|
            0 <= i < members.len() ==> (#[trigger] members[i]).0 != key,
        forall|i: int|
            0 <= i < members.len() && (#[trigger] members[i]).0 == key ==> field(
                Json::Object(members),
                key,
            ) == Some(members[i].1),
{
    lemma_member_comes_from(members, key);
    assert forall|i: int| 0 <= i < members.len() && (#[trigger] members[i]).0 == key implies field(
        Json::Object(members),
        key,
    ) == Some(members[i].1) by {
        lemma_member_at(members, i);
    }
}

/// The two snapshots agree in all but the version and what is absent.
pub open spec fn alike(a: SnapshotView, b: SnapshotView) -> bool {
    &&& a.saved_at == b.saved_at
    &&& a.label == b.label
    &&& a.device_name == b.device_name
    &&& a.device_serial == b.device_serial
    &&& a.device_type == b.device_type
    &&& a.android_version == b.android_version
    &&& a.disabled_packages == b.disabled_packages
    &&& a.current_launcher == b.current_launcher
    &&& a.settings == b.settings
}

/// Bringing a snapshot to the current format touches its version and what is absent alone: an
/// older one becomes current and names nothing as absent, any other stays as it is. It is
/// refused if and only if it then names a setting as absent that it has.
pub proof fn settling_keeps_what_was_saved(snap: SnapshotView)
    ensures
        settled(snap) is Err <==> snap.schema_version >= 3 && exists|i: int|
            0 <= i < snap.absent_settings.len() && snap.settings.contains_key(
                #[trigger] snap.absent_settings[i],
            ),
        settled(snap) matches Err(e) ==> e matches SnapshotErrorView::Malformed(message) && message
            == "setting cannot be both present and absent"@,
        settled(snap) matches Ok(current) ==> {
            &&& alike(current, snap)
            &&& snap.schema_version < 3 ==> current.schema_version == 3
                && current.absent_settings.len() == 0
            &&& snap.schema_version >= 3 ==> current.schema_version == snap.schema_version
                && current.absent_settings == snap.absent_settings
        },
{
}

/// A snapshot that is written and read back is the snapshot as it was saved, but for the version
/// and what is absent; one of a version that is not read does not come back.
pub proof fn what_comes_back_is_what_was_saved(snap: SnapshotView, pairs: Pairs)
    requires
        ascending(pairs),
        pairs_map(pairs) == snap.settings,
    ensures
        loaded(encoded(snap, pairs)) == restored(snap),
        restored(snap) matches Ok(back) ==> {
            &&& alike(back, snap)
            &&& back.schema_version == 3
            &&& 1 <= snap.schema_version <= 3
            &&& snap.schema_version == 3 ==> back.absent_settings == snap.absent_settings
            &&& snap.schema_version < 3 ==> back.absent_settings.len() == 0
        },
        1 <= snap.schema_version < 3 ==> restored(snap) is Ok,
        snap.schema_version == 3 ==> (restored(snap) is Ok <==> forall|i: int|
            0 <= i < snap.absent_settings.len() ==> !snap.settings.contains_key(
                #[trigger] snap.absent_settings[i],
            )),
{
    what_is_written_is_read_back(snap, pairs);
}

} // verus!
