//! Snapshots of a device, and what applying one takes.

use vstd::prelude::*;
use vstd::string::StringExecFns;

use crate::device::DeviceType;
use crate::lists::lemma_contains_push;
use crate::settings::{a_walk_meets_each_name_once, ascending, has_name, Pairs, SettingsMap};
use crate::text::{copy_opt, list_contains, opt_text, same, texts};

verus! {

/// The version of the snapshot format that this library writes. Newer versions are refused.
pub const SCHEMA_VERSION: u32 = 3;

/// The settings that a snapshot tracks: their namespaces and names.
pub open spec fn tracked_settings() -> Seq<(Seq<char>, Seq<char>)> {
    seq![
        ("global"@, "window_animation_scale"@),
        ("global"@, "transition_animation_scale"@),
        ("global"@, "animator_duration_scale"@),
        ("global"@, "hdmi_control_enabled"@),
        ("global"@, "hdmi_control_auto_wakeup_enabled"@),
        ("global"@, "hdmi_control_auto_device_off_enabled"@),
        ("global"@, "hdmi_system_audio_control_enabled"@),
        ("secure"@, "match_content_frame_rate"@),
        ("secure"@, "long_press_timeout"@),
        ("global"@, "encoded_surround_output"@),
        ("global"@, "encoded_surround_output_enabled_formats"@),
    ]
}

/// The settings that a snapshot tracks: their namespaces and names.
pub fn tracked_setting_keys() -> (r: &'static [(&'static str, &'static str)])
    ensures
        r@.map_values(|key: (&'static str, &'static str)| (key.0@, key.1@)) == tracked_settings(),
{
    let r: &'static [(&'static str, &'static str)] = &[
        ("global", "window_animation_scale"),
        ("global", "transition_animation_scale"),
        ("global", "animator_duration_scale"),
        ("global", "hdmi_control_enabled"),
        ("global", "hdmi_control_auto_wakeup_enabled"),
        ("global", "hdmi_control_auto_device_off_enabled"),
        ("global", "hdmi_system_audio_control_enabled"),
        ("secure", "match_content_frame_rate"),
        ("secure", "long_press_timeout"),
        ("global", "encoded_surround_output"),
        ("global", "encoded_surround_output_enabled_formats"),
    ];
    proof {
        assert(r@.map_values(|key: (&'static str, &'static str)| (key.0@, key.1@))
            =~= tracked_settings());
    }
    r
}

/// The state of a device that was saved to a file.
#[derive(Debug, Clone)]
pub struct Snapshot {
    pub schema_version: u32,
    /// ISO-8601 UTC timestamp.
    pub saved_at: String,
    /// The name that the user gave the snapshot, such as "before debloat".
    pub label: Option<String>,
    pub device_name: String,
    pub device_serial: String,
    pub device_type: DeviceType,
    pub android_version: String,
    pub disabled_packages: Vec<String>,
    pub current_launcher: Option<String>,
    /// The values as the device gave them, under `<namespace>.<key>`.
    pub settings: SettingsMap,
    /// The tracked settings that the device had no value for.
    pub absent_settings: Vec<String>,
}

/// What applying a snapshot would do. It is worked out before anything is sent to the
/// device.
#[derive(Debug, Clone)]
pub struct SnapshotApplyPlan {
    /// Packages to disable: installed and enabled now.
    pub packages_to_disable: Vec<String>,
    /// Packages that are disabled already.
    pub packages_already_disabled: Vec<String>,
    /// Packages of the snapshot that the device does not have.
    pub packages_not_installed: Vec<String>,
    /// The launcher to set as the default, if any.
    pub launcher_to_set: Option<String>,
    /// Settings whose value differs from that of the snapshot.
    pub settings_to_write: SettingsMap,
    /// Settings that have a value where the snapshot has none.
    pub settings_to_delete: Vec<String>,
    /// Settings that are as the snapshot has them.
    pub settings_already_set: Vec<String>,
    /// Set where the snapshot was taken from another kind of device.
    pub cross_device_warning: Option<String>,
}

/// What is known of the device that a snapshot is to be applied to.
#[derive(Debug, Clone)]
pub struct ApplyPlanInputs<'a> {
    pub target_device_type: DeviceType,
    pub currently_disabled: &'a [String],
    pub currently_installed: &'a [String],
    /// The tracked settings that were read. A name that is missing has no value; a failed
    /// read is no empty map.
    pub current_settings: &'a SettingsMap,
}

// ---------------------------------------------------------------------------
// The plan.
// ---------------------------------------------------------------------------

/// What a setting is on a device.
pub type Settings = Map<Seq<char>, Seq<char>>;

/// The device has the setting at this value.
pub open spec fn is_set(current: Settings, name: Seq<char>, value: Seq<char>) -> bool {
    current.contains_key(name) && current[name] == value
}

/// The names of the pairs that the device has already, in order.
pub open spec fn names_already_set(pairs: Pairs, current: Settings) -> Seq<Seq<char>>
    decreases pairs.len(),
{
    if pairs.len() == 0 {
        Seq::empty()
    } else {
        let before = names_already_set(pairs.drop_last(), current);
        if is_set(current, pairs.last().0, pairs.last().1) {
            before.push(pairs.last().0)
        } else {
            before
        }
    }
}

/// The settings of `wanted` that the device does not have at that value.
pub open spec fn settings_missing(wanted: Settings, current: Settings) -> Settings {
    Map::new(
        |name: Seq<char>| wanted.contains_key(name) && !is_set(current, name, wanted[name]),
        |name: Seq<char>| wanted[name],
    )
}

/// The elements of `list` that are, or are not, in `other`, in order.
pub open spec fn picked(list: Seq<Seq<char>>, other: Set<Seq<char>>, inside: bool) -> Seq<Seq<char>>
    decreases list.len(),
{
    if list.len() == 0 {
        Seq::empty()
    } else {
        let before = picked(list.drop_last(), other, inside);
        if other.contains(list.last()) == inside {
            before.push(list.last())
        } else {
            before
        }
    }
}

/// The warning that a snapshot is of another kind of device.
pub open spec fn device_warning(from: DeviceType, to: DeviceType) -> Option<Seq<char>> {
    if from == to {
        None
    } else {
        Some(
            "Snapshot was taken from a "@ + from.label_text()
                + " device; current device is detected as "@ + to.label_text() + "."@,
        )
    }
}

/// The plan for applying `snap` to a device in the state `inputs`.
pub open spec fn is_plan(
    plan: SnapshotApplyPlan,
    snap: Snapshot,
    inputs: ApplyPlanInputs<'_>,
) -> bool {
    let listed = texts(snap.disabled_packages@);
    let installed = texts(inputs.currently_installed@).to_set();
    let disabled = texts(inputs.currently_disabled@).to_set();
    let absent = texts(snap.absent_settings@);
    let current = inputs.current_settings@;
    &&& texts(plan.packages_not_installed@) == picked(listed, installed, false)
    &&& texts(plan.packages_already_disabled@) == picked(
        picked(listed, installed, true),
        disabled,
        true,
    )
    &&& texts(plan.packages_to_disable@) == picked(picked(listed, installed, true), disabled, false)
    &&& opt_text(plan.launcher_to_set) == opt_text(snap.current_launcher)
    &&& plan.settings_to_write@ == settings_missing(snap.settings@, current)
    &&& texts(plan.settings_to_delete@) == picked(absent, current.dom(), true)
    &&& texts(plan.settings_already_set@) == names_already_set(snap.settings.pairs(), current)
        + picked(absent, current.dom(), false)
    &&& opt_text(plan.cross_device_warning) == device_warning(
        snap.device_type,
        inputs.target_device_type,
    )
}

/// Sorts the packages of a snapshot by what the device has of them: not installed, disabled
/// already, to be disabled.
fn sort_packages(listed: &Vec<String>, installed: &[String], disabled: &[String]) -> (r: (
    Vec<String>,
    Vec<String>,
    Vec<String>,
))
    ensures
        ({
            let all = texts(listed@);
            let present = picked(all, texts(installed@).to_set(), true);
            &&& texts(r.0@) == picked(all, texts(installed@).to_set(), false)
            &&& texts(r.1@) == picked(present, texts(disabled@).to_set(), true)
            &&& texts(r.2@) == picked(present, texts(disabled@).to_set(), false)
        }),
{
    broadcast use crate::text::lemma_texts_push;

    let ghost all = texts(listed@);
    let ghost on_device = texts(installed@).to_set();
    let ghost off = texts(disabled@).to_set();
    let mut not_installed: Vec<String> = Vec::new();
    let mut already_disabled: Vec<String> = Vec::new();
    let mut to_disable: Vec<String> = Vec::new();
    let mut i: usize = 0;
    proof {
        assert(all.take(0) =~= Seq::<Seq<char>>::empty());
        assert(texts(not_installed@) =~= Seq::<Seq<char>>::empty());
    }
    while i < listed.len()
        invariant
            all == texts(listed@),
            on_device == texts(installed@).to_set(),
            off == texts(disabled@).to_set(),
            i <= listed@.len(),
            texts(not_installed@) == picked(all.take(i as int), on_device, false),
            texts(already_disabled@) == picked(
                picked(all.take(i as int), on_device, true),
                off,
                true,
            ),
            texts(to_disable@) == picked(picked(all.take(i as int), on_device, true), off, false),
        decreases listed@.len() - i,
    {
        broadcast use crate::text::lemma_texts_push;

        let package = &listed[i];
        proof {
            assert(all.take(i + 1).drop_last() =~= all.take(i as int));
            assert(all.take(i + 1).last() == package@);
            let present = picked(all.take(i as int), on_device, true);
            assert(present.push(package@).drop_last() =~= present);
        }
        if !list_contains(installed, package.as_str()) {
            not_installed.push(package.clone());
        } else if list_contains(disabled, package.as_str()) {
            already_disabled.push(package.clone());
        } else {
            to_disable.push(package.clone());
        }
        i = i + 1;
    }
    proof {
        assert(all.take(all.len() as int) =~= all);
    }
    (not_installed, already_disabled, to_disable)
}

/// Sorts the settings of a snapshot by what the device has of them: to be written, and
/// already set.
fn sort_settings(wanted: &SettingsMap, current: &SettingsMap) -> (r: (SettingsMap, Vec<String>))
    ensures
        r.0@ == settings_missing(wanted@, current@),
        texts(r.1@) == names_already_set(wanted.pairs(), current@),
{
    broadcast use crate::text::lemma_texts_push;

    let mut to_write = SettingsMap::new();
    let mut already: Vec<String> = Vec::new();
    let n: usize = wanted.len();
    let ghost pairs = wanted.pairs();
    proof {
        a_walk_meets_each_name_once(*wanted);
        assert(pairs.take(0) =~= Seq::<(Seq<char>, Seq<char>)>::empty());
        assert(texts(already@) =~= Seq::<Seq<char>>::empty());
    }
    let mut i: usize = 0;
    while i < n
        invariant
            i <= n,
            n == pairs.len(),
            pairs == wanted.pairs(),
            ascending(pairs),
            texts(already@) == names_already_set(pairs.take(i as int), current@),
            forall|name: Seq<char>| #[trigger]
                to_write@.contains_key(name) <==> (has_name(pairs.take(i as int), name)
                    && !is_set(current@, name, wanted@[name])),
            forall|name: Seq<char>| #[trigger]
                to_write@.contains_key(name) ==> to_write@[name] == wanted@[name],
            forall|j: int|
                0 <= j < pairs.len() ==> wanted@.contains_key((#[trigger] pairs[j]).0)
                    && wanted@[pairs[j].0] == pairs[j].1,
        decreases n - i,
    {
        broadcast use crate::text::lemma_texts_push;

        let name = wanted.name_at(i);
        let value = wanted.value_at(i);
        let ghost before = to_write@;
        proof {
            assert(pairs.take(i + 1).drop_last() =~= pairs.take(i as int));
            assert(pairs.take(i + 1).last() == pairs[i as int]);
            assert forall|other: Seq<char>| #[trigger]
                has_name(pairs.take(i + 1), other) <==> (has_name(pairs.take(i as int), other)
                    || other == name@) by {
                lemma_has_name_step(pairs, i as int, other);
            }
        }
        let equal: bool = match current.get(name) {
            Some(now) => same(now.as_str(), value),
            None => false,
        };
        if equal {
            already.push(name.to_owned());
        } else {
            to_write.insert(name.to_owned(), value.to_owned());
        }
        i = i + 1;
    }
    proof {
        assert(pairs.take(pairs.len() as int) =~= pairs);
        assert(to_write@ =~= settings_missing(wanted@, current@));
    }
    (to_write, already)
}

proof fn lemma_has_name_step(pairs: Pairs, i: int, name: Seq<char>)
    requires
        0 <= i < pairs.len(),
    ensures
        has_name(pairs.take(i + 1), name) <==> (has_name(pairs.take(i), name) || name
            == pairs[i].0),
{
    let more = pairs.take(i + 1);
    let less = pairs.take(i);
    if has_name(more, name) {
        let k = choose|k: int| 0 <= k < more.len() && (#[trigger] more[k]).0 == name;
        if k < i {
            assert(less[k] == more[k]);
        }
    }
    if has_name(less, name) {
        let k = choose|k: int| 0 <= k < less.len() && (#[trigger] less[k]).0 == name;
        assert(more[k] == less[k]);
    }
    assert(more[i] == pairs[i]);
}

/// Works out what applying `snap` to a device in the state `inputs` would do. Nothing is
/// sent to the device.
pub fn compute_apply_plan(snap: &Snapshot, inputs: &ApplyPlanInputs<'_>) -> (plan:
    SnapshotApplyPlan)
    ensures
        is_plan(plan, *snap, *inputs),
{
    broadcast use crate::text::lemma_texts_push;

    let (not_installed, already_disabled, to_disable) = sort_packages(
        &snap.disabled_packages,
        inputs.currently_installed,
        inputs.currently_disabled,
    );
    let cross_device_warning = if snap.device_type != inputs.target_device_type {
        let mut warning = "Snapshot was taken from a ".to_owned();
        warning.append(snap.device_type.label());
        warning.append(" device; current device is detected as ");
        warning.append(inputs.target_device_type.label());
        warning.append(".");
        Some(warning)
    } else {
        None
    };
    let (settings_to_write, set) = sort_settings(&snap.settings, inputs.current_settings);
    let ghost set_before = texts(set@);
    let mut settings_already_set = set;
    let mut settings_to_delete: Vec<String> = Vec::new();
    let ghost absent = texts(snap.absent_settings@);
    let ghost dom = inputs.current_settings@.dom();
    let mut i: usize = 0;
    proof {
        assert(absent.take(0) =~= Seq::<Seq<char>>::empty());
        assert(texts(settings_to_delete@) =~= Seq::<Seq<char>>::empty());
        assert(set_before + picked(absent.take(0), dom, false) =~= set_before);
    }
    while i < snap.absent_settings.len()
        invariant
            absent == texts(snap.absent_settings@),
            dom == inputs.current_settings@.dom(),
            i <= snap.absent_settings@.len(),
            texts(settings_to_delete@) == picked(absent.take(i as int), dom, true),
            texts(settings_already_set@) == set_before + picked(
                absent.take(i as int),
                dom,
                false,
            ),
        decreases snap.absent_settings@.len() - i,
    {
        broadcast use crate::text::lemma_texts_push;

        let key = &snap.absent_settings[i];
        proof {
            assert(absent.take(i + 1).drop_last() =~= absent.take(i as int));
            assert(absent.take(i + 1).last() == key@);
            assert((set_before + picked(absent.take(i as int), dom, false)).push(key@)
                =~= set_before + picked(absent.take(i as int), dom, false).push(key@));
        }
        if inputs.current_settings.contains_key(key.as_str()) {
            settings_to_delete.push(key.clone());
        } else {
            settings_already_set.push(key.clone());
        }
        i = i + 1;
    }
    proof {
        assert(absent.take(absent.len() as int) =~= absent);
    }
    SnapshotApplyPlan {
        packages_to_disable: to_disable,
        packages_already_disabled: already_disabled,
        packages_not_installed: not_installed,
        launcher_to_set: copy_opt(&snap.current_launcher),
        settings_to_write,
        settings_to_delete,
        settings_already_set,
        cross_device_warning,
    }
}

// ---------------------------------------------------------------------------
// Laws of the plan.
// ---------------------------------------------------------------------------

proof fn lemma_picked(list: Seq<Seq<char>>, other: Set<Seq<char>>, inside: bool)
    ensures
        forall|x: Seq<char>| #[trigger]
            picked(list, other, inside).contains(x) <==> list.contains(x) && other.contains(x)
                == inside,
        picked(list, other, inside).len() + picked(list, other, !inside).len() == list.len(),
    decreases list.len(),
{
    if list.len() > 0 {
        let front = list.drop_last();
        let last = list.last();
        lemma_picked(front, other, inside);
        let some = picked(front, other, inside);
        assert forall|x: Seq<char>| #[trigger]
            picked(list, other, inside).contains(x) <==> list.contains(x) && other.contains(x)
                == inside by {
            assert(list.contains(x) <==> front.contains(x) || x == last) by {
                assert(list =~= front.push(last));
                lemma_contains_push(front, last, x);
            }
            lemma_contains_push(some, last, x);
        }
    }
}

/// Each package of the snapshot is in one and only one of the three lists, as often as the
/// snapshot lists it, and no other package is in any of them.
pub proof fn packages_are_sorted_into_three(
    plan: SnapshotApplyPlan,
    snap: Snapshot,
    inputs: ApplyPlanInputs<'_>,
    package: Seq<char>,
)
    requires
        is_plan(plan, snap, inputs),
    ensures
        ({
            let listed = texts(snap.disabled_packages@);
            let installed = texts(inputs.currently_installed@).contains(package);
            let disabled = texts(inputs.currently_disabled@).contains(package);
            let missing = texts(plan.packages_not_installed@);
            let already = texts(plan.packages_already_disabled@);
            let to_disable = texts(plan.packages_to_disable@);
            &&& missing.contains(package) <==> listed.contains(package) && !installed
            &&& already.contains(package) <==> listed.contains(package) && installed && disabled
            &&& to_disable.contains(package) <==> listed.contains(package) && installed
                && !disabled
            &&& missing.len() + already.len() + to_disable.len() == listed.len()
        }),
{
    let listed = texts(snap.disabled_packages@);
    let installed = texts(inputs.currently_installed@).to_set();
    let disabled = texts(inputs.currently_disabled@).to_set();
    lemma_picked(listed, installed, true);
    lemma_picked(listed, installed, false);
    lemma_picked(picked(listed, installed, true), disabled, true);
    lemma_picked(picked(listed, installed, true), disabled, false);
}

/// The settings of a device after a plan was carried out on it.
pub open spec fn settings_after(
    plan: SnapshotApplyPlan,
    current: Settings,
) -> Settings {
    current.union_prefer_right(plan.settings_to_write@).remove_keys(
        texts(plan.settings_to_delete@).to_set(),
    )
}

/// No setting is both present and absent in the snapshot.
pub open spec fn consistent(settings: Settings, absent: Seq<Seq<char>>) -> bool {
    forall|i: int| 0 <= i < absent.len() ==> !settings.contains_key(#[trigger] absent[i])
}

/// Carrying out the plan brings the device to the snapshot: each setting has its value, each
/// absent one has none, and every other setting of the device is as it was.
pub proof fn the_plan_restores_the_snapshot(
    plan: SnapshotApplyPlan,
    snap: Snapshot,
    inputs: ApplyPlanInputs<'_>,
)
    requires
        is_plan(plan, snap, inputs),
        consistent(snap.settings@, texts(snap.absent_settings@)),
    ensures
        ({
            let current = inputs.current_settings@;
            let after = settings_after(plan, current);
            let absent = texts(snap.absent_settings@);
            &&& forall|name: Seq<char>| #[trigger]
                snap.settings@.contains_key(name) ==> is_set(after, name, snap.settings@[name])
            &&& forall|i: int| 0 <= i < absent.len() ==> !after.contains_key(#[trigger] absent[i])
            &&& forall|name: Seq<char>|
                !snap.settings@.contains_key(name) && !absent.contains(name) ==> (
                #[trigger] after.contains_key(name) == current.contains_key(name)) && (
                current.contains_key(name) ==> after[name] == current[name])
        }),
{
    let current = inputs.current_settings@;
    let absent = texts(snap.absent_settings@);
    let after = settings_after(plan, current);
    lemma_picked(absent, current.dom(), true);
    assert forall|name: Seq<char>| #[trigger] snap.settings@.contains_key(name) implies is_set(
        after,
        name,
        snap.settings@[name],
    ) by {
        if absent.contains(name) {
            let k = choose|k: int| 0 <= k < absent.len() && absent[k] == name;
            assert(!snap.settings@.contains_key(absent[k]));
        }
        assert(!picked(absent, current.dom(), true).contains(name));
    }
    assert forall|i: int| 0 <= i < absent.len() implies !after.contains_key(
        #[trigger] absent[i],
    ) by {
        let name = absent[i];
        assert(absent.contains(name));
        if current.contains_key(name) {
            assert(picked(absent, current.dom(), true).contains(name));
        }
    }
    assert forall|name: Seq<char>|
        !snap.settings@.contains_key(name) && !absent.contains(name) implies (
    #[trigger] after.contains_key(name) == current.contains_key(name)) && (current.contains_key(
        name,
    ) ==> after[name] == current[name]) by {
        assert(!picked(absent, current.dom(), true).contains(name));
    }
}

/// A snapshot that was applied leaves nothing to do: planned again, no setting is written,
/// none is deleted, and no package is disabled.
pub proof fn applying_twice_does_nothing_more(
    plan: SnapshotApplyPlan,
    snap: Snapshot,
    inputs: ApplyPlanInputs<'_>,
    again: SnapshotApplyPlan,
    later: ApplyPlanInputs<'_>,
)
    requires
        is_plan(plan, snap, inputs),
        consistent(snap.settings@, texts(snap.absent_settings@)),
        later.current_settings@ == settings_after(plan, inputs.current_settings@),
        texts(later.currently_installed@).to_set() == texts(inputs.currently_installed@).to_set(),
        texts(later.currently_disabled@).to_set() == texts(inputs.currently_disabled@).to_set()
            + texts(plan.packages_to_disable@).to_set(),
        is_plan(again, snap, later),
    ensures
        again.settings_to_write@ == Settings::empty(),
        again.settings_to_delete@.len() == 0,
        again.packages_to_disable@.len() == 0,
{
    the_plan_restores_the_snapshot(plan, snap, inputs);
    let after = later.current_settings@;
    let absent = texts(snap.absent_settings@);
    assert(again.settings_to_write@ =~= Settings::empty());
    lemma_picked(absent, after.dom(), true);
    if again.settings_to_delete@.len() > 0 {
        let gone = texts(again.settings_to_delete@);
        let name = gone[0];
        assert(gone.contains(name));
        let k = choose|k: int| 0 <= k < absent.len() && absent[k] == name;
        assert(!after.contains_key(absent[k]));
    }
    if again.packages_to_disable@.len() > 0 {
        let left = texts(again.packages_to_disable@);
        let package = left[0];
        assert(left.contains(package));
        packages_are_sorted_into_three(again, snap, later, package);
        packages_are_sorted_into_three(plan, snap, inputs, package);
        assert(texts(later.currently_installed@).to_set().contains(package));
        assert(texts(inputs.currently_installed@).to_set().contains(package));
        assert(!texts(later.currently_disabled@).to_set().contains(package));
        assert(!texts(inputs.currently_disabled@).to_set().contains(package));
        assert(texts(plan.packages_to_disable@).to_set().contains(package));
    }
}

/// A snapshot that names no absent setting deletes none.
pub proof fn nothing_is_deleted_unless_recorded_absent(
    plan: SnapshotApplyPlan,
    snap: Snapshot,
    inputs: ApplyPlanInputs<'_>,
)
    requires
        is_plan(plan, snap, inputs),
    ensures
        forall|i: int|
            0 <= i < plan.settings_to_delete@.len() ==> texts(snap.absent_settings@).contains(
                #[trigger] texts(plan.settings_to_delete@)[i],
            ),
        snap.absent_settings@.len() == 0 ==> plan.settings_to_delete@.len() == 0,
{
    let absent = texts(snap.absent_settings@);
    lemma_picked(absent, inputs.current_settings@.dom(), true);
    assert forall|i: int| 0 <= i < plan.settings_to_delete@.len() implies absent.contains(
        #[trigger] texts(plan.settings_to_delete@)[i],
    ) by {
        let gone = texts(plan.settings_to_delete@);
        assert(gone.contains(gone[i]));
    }
    assert(texts(plan.settings_to_delete@).len() == plan.settings_to_delete@.len());
}

proof fn lemma_picked_in_order(list: Seq<Seq<char>>, other: Set<Seq<char>>, inside: bool)
    ensures
        picked(list, other, inside) == list.filter(|x: Seq<char>| other.contains(x) == inside),
    decreases list.len(),
{
    reveal(Seq::filter);
    if list.len() > 0 {
        lemma_picked_in_order(list.drop_last(), other, inside);
    }
}

proof fn lemma_same_filter(
    list: Seq<Seq<char>>,
    a: spec_fn(Seq<char>) -> bool,
    b: spec_fn(Seq<char>) -> bool,
)
    requires
        forall|x: Seq<char>| #[trigger] a(x) == b(x),
    ensures
        list.filter(a) == list.filter(b),
    decreases list.len(),
{
    reveal(Seq::filter);
    if list.len() > 0 {
        lemma_same_filter(list.drop_last(), a, b);
        assert(a(list.last()) == b(list.last()));
    }
}

proof fn lemma_filter_twice(
    list: Seq<Seq<char>>,
    a: spec_fn(Seq<char>) -> bool,
    b: spec_fn(Seq<char>) -> bool,
)
    ensures
        list.filter(a).filter(b) == list.filter(|x: Seq<char>| a(x) && b(x)),
    decreases list.len(),
{
    reveal(Seq::filter);
    if list.len() > 0 {
        let front = list.drop_last();
        lemma_filter_twice(front, a, b);
        if a(list.last()) {
            assert(front.filter(a).push(list.last()).drop_last() =~= front.filter(a));
        }
    }
}

/// The packages of a snapshot are sorted by what the device has of them, and stand in each of
/// the three lists in the order of the snapshot.
pub proof fn packages_keep_the_order_of_the_snapshot(
    plan: SnapshotApplyPlan,
    snap: Snapshot,
    inputs: ApplyPlanInputs<'_>,
)
    requires
        is_plan(plan, snap, inputs),
    ensures
        ({
            let listed = texts(snap.disabled_packages@);
            let installed = texts(inputs.currently_installed@);
            let disabled = texts(inputs.currently_disabled@);
            &&& texts(plan.packages_not_installed@) == listed.filter(
                |package: Seq<char>| !installed.contains(package),
            )
            &&& texts(plan.packages_already_disabled@) == listed.filter(
                |package: Seq<char>| installed.contains(package) && disabled.contains(package),
            )
            &&& texts(plan.packages_to_disable@) == listed.filter(
                |package: Seq<char>| installed.contains(package) && !disabled.contains(package),
            )
        }),
{
    let listed = texts(snap.disabled_packages@);
    let installed = texts(inputs.currently_installed@);
    let disabled = texts(inputs.currently_disabled@);
    let on = installed.to_set();
    let off = disabled.to_set();
    let present = |x: Seq<char>| on.contains(x) == true;
    let gone = |x: Seq<char>| on.contains(x) == false;
    let done = |x: Seq<char>| off.contains(x) == true;
    let left = |x: Seq<char>| off.contains(x) == false;
    lemma_picked_in_order(listed, on, false);
    lemma_picked_in_order(listed, on, true);
    lemma_picked_in_order(picked(listed, on, true), off, true);
    lemma_picked_in_order(picked(listed, on, true), off, false);
    lemma_same_filter(listed, gone, |package: Seq<char>| !installed.contains(package));
    lemma_filter_twice(listed, present, done);
    lemma_filter_twice(listed, present, left);
    lemma_same_filter(
        listed,
        |x: Seq<char>| present(x) && done(x),
        |package: Seq<char>| installed.contains(package) && disabled.contains(package),
    );
    lemma_same_filter(
        listed,
        |x: Seq<char>| present(x) && left(x),
        |package: Seq<char>| installed.contains(package) && !disabled.contains(package),
    );
}

proof fn lemma_already_set_in_order(pairs: Pairs, current: Settings)
    ensures
        names_already_set(pairs, current) == pairs.filter(
            |pair: (Seq<char>, Seq<char>)|
                current.contains_key(pair.0) && current[pair.0] == pair.1,
        ).map_values(|pair: (Seq<char>, Seq<char>)| pair.0),
    decreases pairs.len(),
{
    reveal(Seq::filter);
    let set = |pair: (Seq<char>, Seq<char>)|
        current.contains_key(pair.0) && current[pair.0] == pair.1;
    let name = |pair: (Seq<char>, Seq<char>)| pair.0;
    if pairs.len() > 0 {
        let front = pairs.drop_last();
        lemma_already_set_in_order(front, current);
        assert(front.filter(set).push(pairs.last()).map_values(name) =~= front.filter(
            set,
        ).map_values(name).push(pairs.last().0));
    } else {
        assert(pairs.filter(set).map_values(name) =~= Seq::<Seq<char>>::empty());
    }
}

/// A setting is written where the device has no value for it or another one, and then to the
/// value of the snapshot; it is deleted where the snapshot names it as absent and the device has
/// a value; and it is told as set where the two agree already. The launcher is that of the
/// snapshot.
pub proof fn a_setting_is_touched_only_where_it_differs(
    plan: SnapshotApplyPlan,
    snap: Snapshot,
    inputs: ApplyPlanInputs<'_>,
)
    requires
        is_plan(plan, snap, inputs),
    ensures
        ({
            let wanted = snap.settings@;
            let current = inputs.current_settings@;
            let absent = texts(snap.absent_settings@);
            &&& forall|name: Seq<char>| #[trigger]
                plan.settings_to_write@.contains_key(name) <==> wanted.contains_key(name) && !(
                current.contains_key(name) && current[name] == wanted[name])
            &&& forall|name: Seq<char>| #[trigger]
                plan.settings_to_write@.contains_key(name) ==> plan.settings_to_write@[name]
                    == wanted[name]
            &&& texts(plan.settings_to_delete@) == absent.filter(
                |name: Seq<char>| current.contains_key(name),
            )
            &&& texts(plan.settings_already_set@) == snap.settings.pairs().filter(
                |pair: (Seq<char>, Seq<char>)|
                    current.contains_key(pair.0) && current[pair.0] == pair.1,
            ).map_values(|pair: (Seq<char>, Seq<char>)| pair.0) + absent.filter(
                |name: Seq<char>| !current.contains_key(name),
            )
            &&& plan.launcher_to_set is Some <==> snap.current_launcher is Some
            &&& plan.launcher_to_set is Some ==> plan.launcher_to_set->Some_0@
                == snap.current_launcher->Some_0@
        }),
{
    let current = inputs.current_settings@;
    let absent = texts(snap.absent_settings@);
    lemma_already_set_in_order(snap.settings.pairs(), current);
    lemma_picked_in_order(absent, current.dom(), true);
    lemma_picked_in_order(absent, current.dom(), false);
    lemma_same_filter(
        absent,
        |x: Seq<char>| current.dom().contains(x) == true,
        |name: Seq<char>| current.contains_key(name),
    );
    lemma_same_filter(
        absent,
        |x: Seq<char>| current.dom().contains(x) == false,
        |name: Seq<char>| !current.contains_key(name),
    );
}

/// The user is warned if and only if the snapshot is of another product line than the device,
/// and is told both.
pub proof fn another_kind_of_device_is_warned_of(
    plan: SnapshotApplyPlan,
    snap: Snapshot,
    inputs: ApplyPlanInputs<'_>,
)
    requires
        is_plan(plan, snap, inputs),
    ensures
        plan.cross_device_warning is Some <==> snap.device_type != inputs.target_device_type,
        plan.cross_device_warning matches Some(warning) ==> warning@ == "Snapshot was taken from a "@
            + snap.device_type.label_text() + " device; current device is detected as "@
            + inputs.target_device_type.label_text() + "."@,
{
}

/// A snapshot tracks eleven settings: the animation scales, HDMI control, frame-rate matching,
/// the long press, and encoded surround sound.
pub proof fn what_a_snapshot_tracks()
    ensures
        tracked_settings().len() == 11,
        tracked_settings()[0] == ("global"@, "window_animation_scale"@),
        tracked_settings()[1] == ("global"@, "transition_animation_scale"@),
        tracked_settings()[2] == ("global"@, "animator_duration_scale"@),
        tracked_settings()[3] == ("global"@, "hdmi_control_enabled"@),
        tracked_settings()[4] == ("global"@, "hdmi_control_auto_wakeup_enabled"@),
        tracked_settings()[5] == ("global"@, "hdmi_control_auto_device_off_enabled"@),
        tracked_settings()[6] == ("global"@, "hdmi_system_audio_control_enabled"@),
        tracked_settings()[7] == ("secure"@, "match_content_frame_rate"@),
        tracked_settings()[8] == ("secure"@, "long_press_timeout"@),
        tracked_settings()[9] == ("global"@, "encoded_surround_output"@),
        tracked_settings()[10] == ("global"@, "encoded_surround_output_enabled_formats"@),
{
}

} // verus!
