use std::cell::{Cell, RefCell};

use shield_optimizer::discovery::{
    adb_exe_name, discover_adb_binary_from, path_extensions, well_known_adb_locations,
    which_in_path, AdbDiscoverySources, AdbPlace, Platform,
};
use shield_optimizer::driver::{
    cached_adb_binary, forget_cached_adb_binary, shell_arguments, AdbPathCache, SubprocessAdb,
    TimeLimit,
};

#[test]
fn discovery_does_not_search_path_after_valid_override() {
    let sources = AdbDiscoverySources {
        explicit_override: Some("/tmp/explicit-adb"),
        managed_install: Some("/tmp/managed-adb"),
        sdk_roots: vec!["/tmp/sdk"],
        well_known: vec![AdbPlace::Given("/tmp/well-known-adb")],
        cwd: Some("/tmp/launch-volume"),
        cwd_parent: Some("/tmp"),
    };

    let found = discover_adb_binary_from(
        sources,
        Platform::Linux,
        || panic!("PATH must not be searched after a valid explicit override"),
        |place| place == AdbPlace::Given("/tmp/explicit-adb"),
    );

    assert_eq!(found, Some(AdbPlace::Given("/tmp/explicit-adb")));
}

#[test]
fn discovery_uses_path_after_higher_priority_candidates_fail() {
    let sources = AdbDiscoverySources {
        explicit_override: Some("/tmp/missing-explicit"),
        managed_install: Some("/tmp/missing-managed"),
        sdk_roots: vec!["/tmp/missing-sdk"],
        well_known: Vec::new(),
        cwd: None,
        cwd_parent: None,
    };

    let found =
        discover_adb_binary_from(sources, Platform::Linux, || Some("/tmp/path-adb"), |_| false);

    assert_eq!(found, Some(AdbPlace::Given("/tmp/path-adb")));
}

#[test]
fn discovery_does_not_search_path_after_valid_managed_install() {
    let sources = AdbDiscoverySources {
        explicit_override: None,
        managed_install: Some("/tmp/managed-adb"),
        sdk_roots: vec!["/tmp/sdk"],
        well_known: vec![AdbPlace::Given("/tmp/well-known-adb")],
        cwd: Some("/tmp/launch-volume"),
        cwd_parent: Some("/tmp"),
    };

    let found = discover_adb_binary_from(
        sources,
        Platform::Linux,
        || panic!("PATH must not be searched after a valid managed install"),
        |place| place == AdbPlace::Given("/tmp/managed-adb"),
    );

    assert_eq!(found, Some(AdbPlace::Given("/tmp/managed-adb")));
}

#[test]
fn discovery_never_touches_the_launch_directory_when_adb_is_installed() {
    let volume = "/tmp/Volumes/SHIELD OPTIMIZER";
    let sources = AdbDiscoverySources {
        explicit_override: None,
        managed_install: None,
        sdk_roots: Vec::new(),
        well_known: vec![AdbPlace::Given("/tmp/well-known-adb")],
        cwd: Some(volume),
        cwd_parent: Some("/tmp/Volumes"),
    };

    let inspected = RefCell::new(Vec::new());
    let found = discover_adb_binary_from(
        sources,
        Platform::MacOs,
        || None,
        |place| {
            inspected.borrow_mut().push(place);
            place == AdbPlace::Given("/tmp/well-known-adb")
        },
    );

    assert_eq!(found, Some(AdbPlace::Given("/tmp/well-known-adb")));
    assert!(
        !inspected
            .borrow()
            .iter()
            .any(|place| *place == AdbPlace::Inside(volume, "adb")),
        "launch directory was probed anyway: {inspected:?}"
    );
}

#[test]
fn repeated_discovery_resolves_once_until_explicitly_forgotten() {
    let mut cache: AdbPathCache<String> = AdbPathCache::new();
    let resolves = Cell::new(0);
    let resolve_once = || {
        resolves.set(resolves.get() + 1);
        None
    };

    for _ in 0..10 {
        assert_eq!(*cached_adb_binary(&mut cache, resolve_once), None);
    }
    assert_eq!(
        resolves.get(),
        1,
        "a cached miss must not re-probe the filesystem"
    );

    forget_cached_adb_binary(&mut cache);
    assert_eq!(*cached_adb_binary(&mut cache, resolve_once), None);
    assert_eq!(resolves.get(), 2);

    forget_cached_adb_binary(&mut cache);
    assert_eq!(
        cached_adb_binary(&mut cache, || Some("/usr/bin/adb".to_string())).as_deref(),
        Some("/usr/bin/adb")
    );
    assert_eq!(
        cached_adb_binary(&mut cache, || panic!("the path is known")).as_deref(),
        Some("/usr/bin/adb")
    );
}

#[test]
fn places_are_asked_in_this_order() {
    let sources = AdbDiscoverySources {
        explicit_override: Some("override"),
        managed_install: Some("managed"),
        sdk_roots: vec!["home-sdk", "root-sdk"],
        well_known: well_known_adb_locations(Platform::Windows, Some("local")),
        cwd: Some("cwd"),
        cwd_parent: Some("parent"),
    };
    let asked = RefCell::new(Vec::new());
    let searched = Cell::new(0);
    let found = discover_adb_binary_from(
        sources,
        Platform::Windows,
        || {
            searched.set(asked.borrow().len());
            None
        },
        |place| {
            asked.borrow_mut().push(place);
            false
        },
    );
    assert_eq!(found, None);
    assert_eq!(searched.get(), 4);
    assert_eq!(
        *asked.borrow(),
        [
            AdbPlace::Given("override"),
            AdbPlace::Given("managed"),
            AdbPlace::Under("home-sdk", "platform-tools", "adb.exe"),
            AdbPlace::Under("root-sdk", "platform-tools", "adb.exe"),
            AdbPlace::Under("local", "Android/Sdk/platform-tools", "adb.exe"),
            AdbPlace::Fixed(r"C:\Program Files\Android\platform-tools\adb.exe"),
            AdbPlace::Fixed(r"C:\platform-tools\adb.exe"),
            AdbPlace::Inside("cwd", "adb"),
            AdbPlace::Inside("parent", "adb"),
        ]
    );
}

#[test]
fn the_usual_places_are_these() {
    assert_eq!(adb_exe_name(Platform::Windows), "adb.exe");
    assert_eq!(adb_exe_name(Platform::MacOs), "adb");
    assert_eq!(
        well_known_adb_locations(Platform::MacOs, Some("~")),
        [
            AdbPlace::Fixed("/opt/homebrew/bin/adb"),
            AdbPlace::Fixed("/usr/local/bin/adb"),
            AdbPlace::Fixed("/opt/homebrew/share/android-platform-tools/adb"),
            AdbPlace::Under("~", "Library/Android/sdk/platform-tools", "adb"),
            AdbPlace::Under("~", ".android-sdk/platform-tools", "adb"),
        ]
    );
    assert_eq!(
        well_known_adb_locations(Platform::Linux, Some("~")),
        [
            AdbPlace::Fixed("/usr/bin/adb"),
            AdbPlace::Fixed("/usr/local/bin/adb"),
            AdbPlace::Fixed("/snap/bin/adb"),
            AdbPlace::Under("~", "Android/Sdk/platform-tools", "adb"),
            AdbPlace::Under("~", ".android-sdk/platform-tools", "adb"),
        ]
    );
    assert_eq!(well_known_adb_locations(Platform::Linux, None::<&str>).len(), 3);
    assert!(well_known_adb_locations(Platform::Other, Some("~")).is_empty());
}

#[test]
fn extensions_come_from_the_environment_on_windows_alone() {
    let some = |s: &str| Some(s.to_string());
    assert_eq!(path_extensions(false, Some(".EXE")), [None]);
    assert_eq!(path_extensions(true, None), [some("exe"), some("bat"), some("cmd")]);
    assert_eq!(
        path_extensions(true, Some(".COM;.EXE;;..x;.")),
        [some("com"), some("exe"), None, some("x"), some("")]
    );
}

#[test]
fn the_search_path_is_walked_directory_by_directory() {
    let extensions = path_extensions(true, Some(".exe;.bat"));
    let tried = RefCell::new(Vec::new());
    let found = which_in_path(&["a", "b", "c"], &extensions, |dir, extension| {
        let path = format!("{dir}/adb.{}", extension.as_deref().unwrap_or("-"));
        tried.borrow_mut().push(path.clone());
        if path == "b/adb.bat" {
            Some(path)
        } else {
            None
        }
    });
    assert_eq!(found.as_deref(), Some("b/adb.bat"));
    assert_eq!(
        *tried.borrow(),
        ["a/adb.exe", "a/adb.bat", "b/adb.exe", "b/adb.bat"]
    );
    let none: Option<u8> = which_in_path(&["a"], &extensions, |_, _| None);
    assert_eq!(none, None);
}

#[test]
fn a_driver_keeps_its_binary_and_its_time_limit() {
    let driver = SubprocessAdb::new("/opt/adb".to_string());
    assert_eq!(driver.binary(), "/opt/adb");
    assert_eq!(driver.command_timeout(), TimeLimit { seconds: 30, nanos: 0 });
    let limit = TimeLimit { seconds: 1, nanos: 500_000_000 };
    let driver = driver.with_timeout(limit);
    assert_eq!(driver.binary(), "/opt/adb");
    assert_eq!(driver.command_timeout(), limit);
    assert_eq!(SubprocessAdb::discover(Some(7)).unwrap().binary(), &7);
    assert_eq!(SubprocessAdb::from_path(Some(8)).unwrap().binary(), &8);
    assert!(SubprocessAdb::<u8>::discover(None).is_none());
    assert!(SubprocessAdb::<u8>::from_path(None).is_none());
    assert_eq!(shell_arguments("s", "id -u"), ["-s", "s", "shell", "id -u"]);
}
