//! Where the adb binary is looked for, and in which order.
//!
//! Paths belong to the operating system, so they are of any type `P` here. A place is a path
//! or what is to be joined to one.

use vstd::prelude::*;

use crate::text::{chars_of, lowered, opt_text, slice_texts, split, split_text, to_lower};

verus! {

/// The operating systems whose usual places for adb are known.
#[derive(Debug, Clone, Copy, PartialEq, Eq, Structural)]
pub enum Platform {
    MacOs,
    Linux,
    Windows,
    Other,
}

/// A place where adb may be.
#[derive(Debug, Clone, Copy, PartialEq, Eq)]
pub enum AdbPlace<P> {
    /// The path itself.
    Given(P),
    /// This path.
    Fixed(&'static str),
    /// The directory, the path below it, the file in that.
    Under(P, &'static str, &'static str),
    /// The file in the directory.
    Inside(P, &'static str),
}

/// What is known of a machine before adb is looked for.
#[derive(Debug, Clone)]
pub struct AdbDiscoverySources<P> {
    /// The path that the user set.
    pub explicit_override: Option<P>,
    /// The binary of the copy that the app installed.
    pub managed_install: Option<P>,
    /// The roots of Android SDKs.
    pub sdk_roots: Vec<P>,
    /// The usual places of the operating system.
    pub well_known: Vec<AdbPlace<P>>,
    /// The directory that the app was started in.
    pub cwd: Option<P>,
    /// The directory above that one.
    pub cwd_parent: Option<P>,
}

/// The file name of adb.
pub open spec fn exe_name(platform: Platform) -> &'static str {
    if platform == Platform::Windows {
        "adb.exe"
    } else {
        "adb"
    }
}

/// The file name of adb.
pub fn adb_exe_name(platform: Platform) -> (r: &'static str)
    ensures
        r == exe_name(platform),
{
    if platform == Platform::Windows {
        "adb.exe"
    } else {
        "adb"
    }
}

// ---------------------------------------------------------------------------
// The usual places.
// ---------------------------------------------------------------------------

/// The place, where there is a directory for it.
pub open spec fn under_maybe<P>(
    base: Option<P>,
    dir: &'static str,
    exe: &'static str,
) -> Seq<AdbPlace<P>> {
    match base {
        Some(base) => seq![AdbPlace::Under(base, dir, exe)],
        None => Seq::empty(),
    }
}

/// The usual places of an operating system, in order. On Windows `base` is the directory of
/// local application data, elsewhere the user's home.
pub open spec fn usual_places<P>(platform: Platform, base: Option<P>) -> Seq<AdbPlace<P>> {
    match platform {
        Platform::MacOs => seq![
            AdbPlace::Fixed("/opt/homebrew/bin/adb"),
            AdbPlace::Fixed("/usr/local/bin/adb"),
            AdbPlace::Fixed("/opt/homebrew/share/android-platform-tools/adb"),
        ] + under_maybe(base, "Library/Android/sdk/platform-tools", "adb") + under_maybe(
            base,
            ".android-sdk/platform-tools",
            "adb",
        ),
        Platform::Linux => seq![
            AdbPlace::Fixed("/usr/bin/adb"),
            AdbPlace::Fixed("/usr/local/bin/adb"),
            AdbPlace::Fixed("/snap/bin/adb"),
        ] + under_maybe(base, "Android/Sdk/platform-tools", "adb") + under_maybe(
            base,
            ".android-sdk/platform-tools",
            "adb",
        ),
        Platform::Windows => under_maybe(base, "Android/Sdk/platform-tools", "adb.exe") + seq![
            AdbPlace::Fixed("C:\\Program Files\\Android\\platform-tools\\adb.exe"),
            AdbPlace::Fixed("C:\\platform-tools\\adb.exe"),
        ],
        Platform::Other => Seq::empty(),
    }
}

/// The usual places of an operating system, in order. On Windows `base` is the directory of
/// local application data, elsewhere the user's home.
pub fn well_known_adb_locations<P: Copy>(platform: Platform, base: Option<P>) -> (r: Vec<
    AdbPlace<P>,
>)
    ensures
        r@ == usual_places(platform, base),
{
    let mut r: Vec<AdbPlace<P>> = Vec::new();
    match platform {
        Platform::MacOs => {
            r.push(AdbPlace::Fixed("/opt/homebrew/bin/adb"));
            r.push(AdbPlace::Fixed("/usr/local/bin/adb"));
            r.push(AdbPlace::Fixed("/opt/homebrew/share/android-platform-tools/adb"));
            if let Some(home) = base {
                r.push(AdbPlace::Under(home, "Library/Android/sdk/platform-tools", "adb"));
                r.push(AdbPlace::Under(home, ".android-sdk/platform-tools", "adb"));
            }
        },
        Platform::Linux => {
            r.push(AdbPlace::Fixed("/usr/bin/adb"));
            r.push(AdbPlace::Fixed("/usr/local/bin/adb"));
            r.push(AdbPlace::Fixed("/snap/bin/adb"));
            if let Some(home) = base {
                r.push(AdbPlace::Under(home, "Android/Sdk/platform-tools", "adb"));
                r.push(AdbPlace::Under(home, ".android-sdk/platform-tools", "adb"));
            }
        },
        Platform::Windows => {
            if let Some(local) = base {
                r.push(AdbPlace::Under(local, "Android/Sdk/platform-tools", "adb.exe"));
            }
            r.push(AdbPlace::Fixed("C:\\Program Files\\Android\\platform-tools\\adb.exe"));
            r.push(AdbPlace::Fixed("C:\\platform-tools\\adb.exe"));
        },
        Platform::Other => {},
    }
    assert(r@ =~= usual_places(platform, base));
    r
}

// ---------------------------------------------------------------------------
// The order of the search.
// ---------------------------------------------------------------------------

/// The path as a place, where there is one.
pub open spec fn given_maybe<P>(path: Option<P>) -> Seq<AdbPlace<P>> {
    match path {
        Some(path) => seq![AdbPlace::Given(path)],
        None => Seq::empty(),
    }
}

/// The file in the directory, where there is one.
pub open spec fn inside_maybe<P>(dir: Option<P>, file: &'static str) -> Seq<AdbPlace<P>> {
    match dir {
        Some(dir) => seq![AdbPlace::Inside(dir, file)],
        None => Seq::empty(),
    }
}

/// The places that come before the search path: what the user set, what the app installed, the
/// SDKs.
pub open spec fn places_before<P>(sources: AdbDiscoverySources<P>, platform: Platform) -> Seq<
    AdbPlace<P>,
> {
    given_maybe(sources.explicit_override) + given_maybe(sources.managed_install)
        + sources.sdk_roots@.map_values(
        |root: P| AdbPlace::Under(root, "platform-tools", exe_name(platform)),
    )
}

/// The places that come behind the search path: the usual ones, and last the directory that the
/// app was started in and the one above.
pub open spec fn places_behind<P>(sources: AdbDiscoverySources<P>) -> Seq<AdbPlace<P>> {
    sources.well_known@ + (if sources.cwd is Some {
        inside_maybe(sources.cwd, "adb") + inside_maybe(sources.cwd_parent, "adb")
    } else {
        Seq::empty()
    })
}

/// Each of the first `n` places may have been found to hold no file.
pub open spec fn missed<P, Q: Fn(AdbPlace<P>) -> bool>(
    places: Seq<AdbPlace<P>>,
    n: int,
    is_file: Q,
) -> bool {
    forall|i: int| 0 <= i < n ==> call_ensures(is_file, (#[trigger] places[i],), false)
}

/// The first of the places that was found to hold a file, or none.
pub open spec fn first_file<P, Q: Fn(AdbPlace<P>) -> bool>(
    places: Seq<AdbPlace<P>>,
    is_file: Q,
    found: Option<AdbPlace<P>>,
) -> bool {
    match found {
        Some(place) => exists|i: int|
            0 <= i < places.len() && #[trigger] places[i] == place && call_ensures(
                is_file,
                (place,),
                true,
            ) && missed(places, i, is_file),
        None => missed(places, places.len() as int, is_file),
    }
}

/// It may be asked of each place whether it holds a file, once all places before it held none.
pub open spec fn may_ask<P, Q: Fn(AdbPlace<P>) -> bool>(
    places: Seq<AdbPlace<P>>,
    is_file: Q,
) -> bool {
    forall|i: int|
        0 <= i < places.len() && missed(places, i, is_file) ==> call_requires(
            is_file,
            (#[trigger] places[i],),
        )
}

/// What a search comes to.
pub open spec fn is_discovery<
    P,
    F: FnOnce() -> Option<P>,
    Q: Fn(AdbPlace<P>) -> bool,
>(
    sources: AdbDiscoverySources<P>,
    platform: Platform,
    path_search: F,
    is_file: Q,
    found: Option<AdbPlace<P>>,
) -> bool {
    let before = places_before(sources, platform);
    let behind = places_behind(sources);
    ||| found is Some && first_file(before, is_file, found)
    ||| first_file(before, is_file, None::<AdbPlace<P>>) && (exists|path: P|
        found == Some(AdbPlace::Given(path)) && #[trigger] call_ensures(
            path_search,
            (),
            Some(path),
        ))
    ||| first_file(before, is_file, None::<AdbPlace<P>>) && call_ensures(
        path_search,
        (),
        None::<P>,
    ) && first_file(behind, is_file, found)
}

/// The first of the places that holds a file.
fn probe<P: Copy, Q: Fn(AdbPlace<P>) -> bool>(places: &Vec<AdbPlace<P>>, is_file: &Q) -> (r: Option<
    AdbPlace<P>,
>)
    requires
        may_ask(places@, *is_file),
    ensures
        first_file(places@, *is_file, r),
{
    let mut i: usize = 0;
    while i < places.len()
        invariant
            may_ask(places@, *is_file),
            i <= places@.len(),
            missed(places@, i as int, *is_file),
        decreases places@.len() - i,
    {
        let place = places[i];
        if is_file(place) {
            assert(places@[i as int] == place);
            return Some(place);
        }
        i = i + 1;
    }
    None
}

/// Looks for adb. The places before the search path come first; only where none of them holds a
/// file is the path searched, which may touch every directory on it; only where that finds
/// nothing come the places behind it.
///
/// What is asked of `path_search` and `is_file` says the same: neither need be able to answer
/// a question that an earlier answer has settled.
pub fn discover_adb_binary_from<P: Copy, F: FnOnce() -> Option<P>, Q: Fn(AdbPlace<P>) -> bool>(
    sources: AdbDiscoverySources<P>,
    platform: Platform,
    path_search: F,
    is_file: Q,
) -> (r: Option<AdbPlace<P>>)
    requires
        may_ask(places_before(sources, platform), is_file),
        first_file(places_before(sources, platform), is_file, None::<AdbPlace<P>>) ==> {
            &&& call_requires(path_search, ())
            &&& call_ensures(path_search, (), None::<P>) ==> may_ask(
                places_behind(sources),
                is_file,
            )
        },
    ensures
        is_discovery(sources, platform, path_search, is_file, r),
{
    let exe = adb_exe_name(platform);
    let mut before: Vec<AdbPlace<P>> = Vec::new();
    if let Some(path) = sources.explicit_override {
        before.push(AdbPlace::Given(path));
    }
    if let Some(path) = sources.managed_install {
        before.push(AdbPlace::Given(path));
    }
    let ghost first = given_maybe(sources.explicit_override) + given_maybe(sources.managed_install);
    let ghost tools = sources.sdk_roots@.map_values(
        |root: P| AdbPlace::Under(root, "platform-tools", exe_name(platform)),
    );
    let mut i: usize = 0;
    assert(before@ =~= first + tools.take(0));
    while i < sources.sdk_roots.len()
        invariant
            exe == exe_name(platform),
            tools == sources.sdk_roots@.map_values(
                |root: P| AdbPlace::Under(root, "platform-tools", exe_name(platform)),
            ),
            i <= sources.sdk_roots@.len(),
            before@ == first + tools.take(i as int),
        decreases sources.sdk_roots@.len() - i,
    {
        before.push(AdbPlace::Under(sources.sdk_roots[i], "platform-tools", exe));
        assert(before@ =~= first + tools.take(i + 1));
        i = i + 1;
    }
    assert(before@ =~= places_before(sources, platform));
    if let Some(place) = probe(&before, &is_file) {
        return Some(place);
    }
    if let Some(path) = path_search() {
        return Some(AdbPlace::Given(path));
    }
    let ghost behind = places_behind(sources);
    let mut last: Vec<AdbPlace<P>> = sources.well_known;
    if let Some(cwd) = sources.cwd {
        last.push(AdbPlace::Inside(cwd, "adb"));
        if let Some(parent) = sources.cwd_parent {
            last.push(AdbPlace::Inside(parent, "adb"));
        }
    }
    assert(last@ =~= behind);
    probe(&last, &is_file)
}

// ---------------------------------------------------------------------------
// The search path.
// ---------------------------------------------------------------------------

/// The text without the dots at its front.
pub open spec fn without_dots(s: Seq<char>) -> Seq<char>
    decreases s.len(),
{
    if s.len() > 0 && s[0] == '.' {
        without_dots(s.drop_first())
    } else {
        s
    }
}

/// The endings of executable files: on Windows those that the environment lists, in lower case.
pub open spec fn endings(windows: bool, listed: Option<Seq<char>>) -> Seq<Seq<char>> {
    if !windows {
        seq![""@]
    } else {
        match listed {
            Some(list) => split(list, ';').map_values(|ending: Seq<char>| lowered(ending)),
            None => seq![".exe"@, ".bat"@, ".cmd"@],
        }
    }
}

/// The extension that an ending gives a file, in place of its own. No ending leaves the name as
/// it is.
pub open spec fn extension_for(ending: Seq<char>) -> Option<Seq<char>> {
    if ending == ""@ {
        None
    } else {
        Some(without_dots(ending))
    }
}

/// The characters of each string of a list, where there is one.
pub open spec fn opt_texts(list: Seq<Option<String>>) -> Seq<Option<Seq<char>>> {
    list.map_values(|s: Option<String>| opt_text(s))
}

/// The extension that an ending gives a file.
fn extension_of(ending: &str) -> (r: Option<String>)
    ensures
        opt_text(r) == extension_for(ending@),
{
    let chars = chars_of(ending);
    proof {
        reveal_strlit("");
        assert((ending@.len() == 0) == (ending@ =~= ""@));
    }
    if chars.len() == 0 {
        return None;
    }
    let mut i: usize = 0;
    assert(ending@.skip(0) =~= ending@);
    while i < chars.len() && chars[i] == '.'
        invariant
            chars@ == ending@,
            i <= chars@.len(),
            without_dots(ending@) == without_dots(ending@.skip(i as int)),
        decreases chars@.len() - i,
    {
        assert(ending@.skip(i as int).drop_first() =~= ending@.skip(i + 1));
        i = i + 1;
    }
    let mut r = String::new();
    let mut k: usize = i;
    assert(r@ =~= ending@.subrange(i as int, i as int));
    while k < chars.len()
        invariant
            chars@ == ending@,
            i <= k <= chars@.len(),
            r@ == ending@.subrange(i as int, k as int),
        decreases chars@.len() - k,
    {
        r.push(chars[k]);
        assert(r@ =~= ending@.subrange(i as int, k + 1));
        k = k + 1;
    }
    assert(ending@.skip(i as int) =~= ending@.subrange(i as int, chars@.len() as int));
    Some(r)
}

/// The extensions that are tried on the search path, in order.
pub fn path_extensions(windows: bool, listed: Option<&str>) -> (r: Vec<Option<String>>)
    ensures
        opt_texts(r@) == endings(
            windows,
            match listed {
                Some(list) => Some(list@),
                None => None,
            },
        ).map_values(|ending: Seq<char>| extension_for(ending)),
{
    let mut r: Vec<Option<String>> = Vec::new();
    if !windows {
        r.push(extension_of(""));
        assert(opt_texts(r@) =~= seq![""@].map_values(|ending: Seq<char>| extension_for(ending)));
        return r;
    }
    match listed {
        Some(list) => {
            let pieces = split_text(list, ';');
            let ghost all = endings(true, Some(list@));
            let ghost wanted = all.map_values(|ending: Seq<char>| extension_for(ending));
            let mut i: usize = 0;
            while i < pieces.len()
                invariant
                    slice_texts(pieces@) == split(list@, ';'),
                    all == endings(true, Some(list@)),
                    wanted == all.map_values(|ending: Seq<char>| extension_for(ending)),
                    wanted.len() == pieces@.len(),
                    i <= pieces@.len(),
                    opt_texts(r@) == wanted.take(i as int),
                decreases pieces@.len() - i,
            {
                assert(slice_texts(pieces@)[i as int] == pieces@[i as int]@);
                let ghost before = r@;
                r.push(extension_of(to_lower(pieces[i]).as_str()));
                assert(opt_texts(r@) =~= opt_texts(before).push(wanted[i as int]));
                assert(opt_texts(r@) =~= wanted.take(i + 1));
                i = i + 1;
            }
            assert(wanted.take(wanted.len() as int) =~= wanted);
        },
        None => {
            r.push(extension_of(".exe"));
            r.push(extension_of(".bat"));
            r.push(extension_of(".cmd"));
            assert(opt_texts(r@) =~= endings(true, None).map_values(
                |ending: Seq<char>| extension_for(ending),
            ));
        },
    }
    r
}

/// Nothing may have been found before the directory `i` with the extension `j`: neither in an
/// earlier directory, nor in this one with an earlier extension.
pub open spec fn not_before<D, P, C: Fn(D, &Option<String>) -> Option<P>>(
    dirs: Seq<D>,
    extensions: Seq<Option<String>>,
    try_file: C,
    i: int,
    j: int,
) -> bool {
    forall|a: int, b: int|
        #![trigger dirs[a], extensions[b]]
        0 <= a < dirs.len() && 0 <= b < extensions.len() && (a < i || (a == i && b < j))
            ==> call_ensures(
            try_file,
            (dirs[a], &extensions[b]),
            None::<P>,
        )
}

/// The first file on the search path: in the first directory that has one, with the first
/// extension.
pub fn which_in_path<D: Copy, P, C: Fn(D, &Option<String>) -> Option<P>>(
    dirs: &[D],
    extensions: &[Option<String>],
    try_file: C,
) -> (r: Option<P>)
    requires
        forall|i: int, j: int|
            #![trigger dirs@[i], extensions@[j]]
            0 <= i < dirs@.len() && 0 <= j < extensions@.len() && not_before::<D, P, C>(
                dirs@,
                extensions@,
                try_file,
                i,
                j,
            ) ==> call_requires(try_file, (dirs@[i], &extensions@[j])),
    ensures
        match r {
            Some(path) => exists|i: int, j: int|
                #![trigger dirs@[i], extensions@[j]]
                0 <= i < dirs@.len() && 0 <= j < extensions@.len() && call_ensures(
                    try_file,
                    (dirs@[i], &extensions@[j]),
                    Some(path),
                ) && not_before::<D, P, C>(dirs@, extensions@, try_file, i, j),
            None => not_before::<D, P, C>(dirs@, extensions@, try_file, dirs@.len() as int, 0),
        },
{
    let mut i: usize = 0;
    while i < dirs.len()
        invariant
            i <= dirs@.len(),
            not_before::<D, P, C>(dirs@, extensions@, try_file, i as int, 0),
            forall|i: int, j: int|
                #![trigger dirs@[i], extensions@[j]]
                0 <= i < dirs@.len() && 0 <= j < extensions@.len() && not_before::<D, P, C>(
                    dirs@,
                    extensions@,
                    try_file,
                    i,
                    j,
                ) ==> call_requires(try_file, (dirs@[i], &extensions@[j])),
        decreases dirs@.len() - i,
    {
        let mut j: usize = 0;
        while j < extensions.len()
            invariant
                i < dirs@.len(),
                j <= extensions@.len(),
                not_before::<D, P, C>(dirs@, extensions@, try_file, i as int, j as int),
                forall|i: int, j: int|
                    #![trigger dirs@[i], extensions@[j]]
                    0 <= i < dirs@.len() && 0 <= j < extensions@.len() && not_before::<D, P, C>(
                        dirs@,
                        extensions@,
                        try_file,
                        i,
                        j,
                    ) ==> call_requires(
                        try_file,
                        (dirs@[i], &extensions@[j]),
                    ),
            decreases extensions@.len() - j,
        {
            let found = try_file(dirs[i], &extensions[j]);
            if found.is_some() {
                return found;
            }
            j = j + 1;
        }
        i = i + 1;
    }
    None
}

// ---------------------------------------------------------------------------
// Laws.
// ---------------------------------------------------------------------------

/// Whether a place holds a file does not change while adb is looked for.
pub open spec fn steady<P, Q: Fn(AdbPlace<P>) -> bool>(
    is_file: Q,
    holds: spec_fn(AdbPlace<P>) -> bool,
) -> bool {
    forall|place: AdbPlace<P>, answer: bool| #[trigger]
        call_ensures(is_file, (place,), answer) ==> answer == holds(place)
}

/// A path that the user set and that holds a file is taken, whatever else is installed.
pub proof fn a_valid_override_is_taken<
    P,
    F: FnOnce() -> Option<P>,
    Q: Fn(AdbPlace<P>) -> bool,
>(
    sources: AdbDiscoverySources<P>,
    platform: Platform,
    path_search: F,
    is_file: Q,
    found: Option<AdbPlace<P>>,
    holds: spec_fn(AdbPlace<P>) -> bool,
    path: P,
)
    requires
        is_discovery(sources, platform, path_search, is_file, found),
        steady(is_file, holds),
        sources.explicit_override == Some(path),
        holds(AdbPlace::Given(path)),
    ensures
        found == Some(AdbPlace::Given(path)),
{
    let before = places_before(sources, platform);
    assert(before[0] == AdbPlace::Given(path));
    if found is Some && first_file(before, is_file, found) {
        let i = choose|i: int|
            0 <= i < before.len() && #[trigger] before[i] == found->Some_0 && call_ensures(
                is_file,
                (found->Some_0,),
                true,
            ) && missed(before, i, is_file);
        if i > 0 {
            assert(call_ensures(is_file, (before[0],), false));
        }
    } else {
        assert(call_ensures(is_file, (before[0],), false));
    }
}

/// While adb is installed in a usual place, the directory that the app was started in is left
/// alone: what is found comes from elsewhere.
pub proof fn the_launch_directory_comes_last<
    P,
    F: FnOnce() -> Option<P>,
    Q: Fn(AdbPlace<P>) -> bool,
>(
    sources: AdbDiscoverySources<P>,
    platform: Platform,
    path_search: F,
    is_file: Q,
    found: Option<AdbPlace<P>>,
    holds: spec_fn(AdbPlace<P>) -> bool,
    k: int,
)
    requires
        is_discovery(sources, platform, path_search, is_file, found),
        steady(is_file, holds),
        0 <= k < sources.well_known@.len(),
        holds(sources.well_known@[k]),
    ensures
        found matches Some(place) && (place is Given || places_before(sources, platform).contains(
            place,
        ) || sources.well_known@.contains(place)),
{
    let before = places_before(sources, platform);
    let behind = places_behind(sources);
    assert(behind[k] == sources.well_known@[k]);
    if found is Some && first_file(before, is_file, found) {
        let i = choose|i: int|
            0 <= i < before.len() && #[trigger] before[i] == found->Some_0 && call_ensures(
                is_file,
                (found->Some_0,),
                true,
            ) && missed(before, i, is_file);
        assert(before.contains(before[i]));
    } else if first_file(behind, is_file, found) && !(found matches Some(place) && place is Given) {
        if found is None {
            assert(call_ensures(is_file, (behind[k],), false));
        } else {
            let i = choose|i: int|
                0 <= i < behind.len() && #[trigger] behind[i] == found->Some_0 && call_ensures(
                    is_file,
                    (found->Some_0,),
                    true,
                ) && missed(behind, i, is_file);
            if i > k {
                assert(call_ensures(is_file, (behind[k],), false));
            }
            assert(sources.well_known@[i] == behind[i]);
        }
    }
}

/// What is found at a place is there, and where nothing is found no place holds a file and the
/// search path has none.
pub proof fn a_search_misses_nothing<
    P,
    F: FnOnce() -> Option<P>,
    Q: Fn(AdbPlace<P>) -> bool,
>(
    sources: AdbDiscoverySources<P>,
    platform: Platform,
    path_search: F,
    is_file: Q,
    found: Option<AdbPlace<P>>,
    holds: spec_fn(AdbPlace<P>) -> bool,
)
    requires
        is_discovery(sources, platform, path_search, is_file, found),
        steady(is_file, holds),
    ensures
        match found {
            Some(AdbPlace::Given(path)) => holds(AdbPlace::Given(path)) || call_ensures(
                path_search,
                (),
                Some(path),
            ),
            Some(place) => holds(place),
            None => {
                &&& forall|i: int|
                    0 <= i < places_before(sources, platform).len() ==> !holds(
                        #[trigger] places_before(sources, platform)[i],
                    )
                &&& call_ensures(path_search, (), None::<P>)
                &&& forall|i: int|
                    0 <= i < places_behind(sources).len() ==> !holds(
                        #[trigger] places_behind(sources)[i],
                    )
            },
        },
{
    if found is None {
        let before = places_before(sources, platform);
        let behind = places_behind(sources);
        assert forall|i: int| 0 <= i < before.len() implies !holds(#[trigger] before[i]) by {
            assert(call_ensures(is_file, (before[i],), false));
        }
        assert forall|i: int| 0 <= i < behind.len() implies !holds(#[trigger] behind[i]) by {
            assert(call_ensures(is_file, (behind[i],), false));
        }
    }
}

/// The binary is `adb.exe` on Windows and `adb` anywhere else.
pub proof fn the_binary_has_its_name(platform: Platform)
    ensures
        platform == Platform::Windows ==> exe_name(platform)@ == "adb.exe"@,
        platform != Platform::Windows ==> exe_name(platform)@ == "adb"@,
{
}

/// The usual places are those of the operating system: on a Mac those of Homebrew, of the
/// system and of an SDK, on Linux those of the system, of Snap and of an SDK, on Windows those
/// of an SDK and of the platform tools. Those below the home are there where it is known.
pub proof fn the_usual_places_are_those_of_the_system<P>(base: P)
    ensures
        usual_places(Platform::MacOs, None::<P>) == seq![
            AdbPlace::<P>::Fixed("/opt/homebrew/bin/adb"),
            AdbPlace::<P>::Fixed("/usr/local/bin/adb"),
            AdbPlace::<P>::Fixed("/opt/homebrew/share/android-platform-tools/adb"),
        ],
        usual_places(Platform::MacOs, Some(base)) == usual_places(Platform::MacOs, None::<P>).push(
            AdbPlace::Under(base, "Library/Android/sdk/platform-tools", "adb"),
        ).push(AdbPlace::Under(base, ".android-sdk/platform-tools", "adb")),
        usual_places(Platform::Linux, None::<P>) == seq![
            AdbPlace::<P>::Fixed("/usr/bin/adb"),
            AdbPlace::<P>::Fixed("/usr/local/bin/adb"),
            AdbPlace::<P>::Fixed("/snap/bin/adb"),
        ],
        usual_places(Platform::Linux, Some(base)) == usual_places(Platform::Linux, None::<P>).push(
            AdbPlace::Under(base, "Android/Sdk/platform-tools", "adb"),
        ).push(AdbPlace::Under(base, ".android-sdk/platform-tools", "adb")),
        usual_places(Platform::Windows, None::<P>) == seq![
            AdbPlace::<P>::Fixed("C:\\Program Files\\Android\\platform-tools\\adb.exe"),
            AdbPlace::<P>::Fixed("C:\\platform-tools\\adb.exe"),
        ],
        usual_places(Platform::Windows, Some(base)) == seq![
            AdbPlace::Under(base, "Android/Sdk/platform-tools", "adb.exe"),
        ] + usual_places(Platform::Windows, None::<P>),
        usual_places(Platform::Other, None::<P>).len() == 0,
        usual_places(Platform::Other, Some(base)).len() == 0,
{
    assert(usual_places(Platform::MacOs, None::<P>) =~= seq![
        AdbPlace::<P>::Fixed("/opt/homebrew/bin/adb"),
        AdbPlace::<P>::Fixed("/usr/local/bin/adb"),
        AdbPlace::<P>::Fixed("/opt/homebrew/share/android-platform-tools/adb"),
    ]);
    assert(usual_places(Platform::Linux, None::<P>) =~= seq![
        AdbPlace::<P>::Fixed("/usr/bin/adb"),
        AdbPlace::<P>::Fixed("/usr/local/bin/adb"),
        AdbPlace::<P>::Fixed("/snap/bin/adb"),
    ]);
}

/// How many places an optional path makes.
pub open spec fn one_if_known<P>(path: Option<P>) -> int {
    if path is Some {
        1
    } else {
        0
    }
}

/// Before the search path come the path that the user set, the copy that the app installed, and
/// the platform tools of each SDK; behind it the usual places, and last of all the directory
/// that the app was started in and the one above.
pub proof fn places_stand_in_their_order<P>(sources: AdbDiscoverySources<P>, platform: Platform)
    ensures
        ({
            let before = places_before(sources, platform);
            let behind = places_behind(sources);
            let set = one_if_known(sources.explicit_override);
            let installed = one_if_known(sources.managed_install);
            let roots = sources.sdk_roots@;
            let usual = sources.well_known@;
            &&& before.len() == set + installed + roots.len()
            &&& sources.explicit_override matches Some(path) ==> before[0] == AdbPlace::Given(path)
            &&& sources.managed_install matches Some(path) ==> before[set] == AdbPlace::Given(path)
            &&& forall|i: int|
                0 <= i < roots.len() ==> (#[trigger] before[set + installed + i]
                    matches AdbPlace::Under(root, dir, file) && root == roots[i] && dir@
                    == "platform-tools"@ && file@ == exe_name(platform)@)
            &&& behind.take(usual.len() as int) == usual
            &&& sources.cwd is None ==> behind.len() == usual.len()
            &&& sources.cwd matches Some(dir) ==> {
                &&& behind.len() == usual.len() + 1 + one_if_known(sources.cwd_parent)
                &&& behind[usual.len() as int] matches AdbPlace::Inside(start, file) && start == dir
                    && file@ == "adb"@
                &&& sources.cwd_parent matches Some(above) ==> (behind[usual.len() as int + 1]
                    matches AdbPlace::Inside(parent, file) && parent == above && file@ == "adb"@)
            }
        }),
{
    assert(places_behind(sources).take(sources.well_known@.len() as int) =~= sources.well_known@);
}

/// All that is looked at while nothing is found, in order, where this is on the search path.
pub open spec fn search_order<P>(
    sources: AdbDiscoverySources<P>,
    platform: Platform,
    on_path: Option<P>,
) -> Seq<AdbPlace<P>> {
    places_before(sources, platform) + match on_path {
        Some(path) => seq![AdbPlace::Given(path)],
        None => places_behind(sources),
    }
}

/// What is found is the first that there is, in the order of the places before the search path,
/// the search path, and the places behind it.
pub proof fn the_first_that_there_is_is_found<
    P,
    F: FnOnce() -> Option<P>,
    Q: Fn(AdbPlace<P>) -> bool,
>(
    sources: AdbDiscoverySources<P>,
    platform: Platform,
    path_search: F,
    is_file: Q,
    found: Option<AdbPlace<P>>,
    holds: spec_fn(AdbPlace<P>) -> bool,
    on_path: Option<P>,
)
    requires
        is_discovery(sources, platform, path_search, is_file, found),
        steady(is_file, holds),
        forall|answer: Option<P>| #[trigger]
            call_ensures(path_search, (), answer) ==> answer == on_path,
    ensures
        ({
            let all = search_order(sources, platform, on_path);
            let n = places_before(sources, platform).len() as int;
            &&& found is None ==> on_path is None && forall|i: int|
                0 <= i < all.len() ==> !holds(#[trigger] all[i])
            &&& found matches Some(place) ==> exists|i: int|
                0 <= i < all.len() && #[trigger] all[i] == place && (holds(place) || (i == n
                    && on_path is Some)) && forall|j: int|
                    0 <= j < i && !(j == n && on_path is Some) ==> !holds(#[trigger] all[j])
        }),
{
    let before = places_before(sources, platform);
    let behind = places_behind(sources);
    let n = before.len() as int;
    let all = search_order(sources, platform, on_path);
    assert forall|i: int| 0 <= i < n implies all[i] == before[i] by {}
    if found is Some && first_file(before, is_file, found) {
        let i = choose|i: int|
            0 <= i < before.len() && #[trigger] before[i] == found->Some_0 && call_ensures(
                is_file,
                (found->Some_0,),
                true,
            ) && missed(before, i, is_file);
        assert(all[i] == found->Some_0);
        assert forall|j: int| 0 <= j < i implies !holds(#[trigger] all[j]) by {
            assert(call_ensures(is_file, (before[j],), false));
        }
    } else {
        assert forall|j: int| 0 <= j < n implies !holds(#[trigger] all[j]) by {
            assert(call_ensures(is_file, (before[j],), false));
        }
        if on_path is Some {
            assert(all[n] == AdbPlace::Given(on_path->Some_0));
            assert(found == Some(all[n]));
        } else {
            assert(first_file(behind, is_file, found));
            assert forall|j: int| n <= j < all.len() implies all[j] == behind[j - n] by {}
            if found is Some {
                let i = choose|i: int|
                    0 <= i < behind.len() && #[trigger] behind[i] == found->Some_0 && call_ensures(
                        is_file,
                        (found->Some_0,),
                        true,
                    ) && missed(behind, i, is_file);
                assert(all[n + i] == found->Some_0);
                assert forall|j: int| 0 <= j < n + i implies !holds(#[trigger] all[j]) by {
                    if j >= n {
                        assert(call_ensures(is_file, (behind[j - n],), false));
                    }
                }
            } else {
                assert forall|j: int| 0 <= j < all.len() implies !holds(#[trigger] all[j]) by {
                    if j >= n {
                        assert(call_ensures(is_file, (behind[j - n],), false));
                    }
                }
            }
        }
    }
}

proof fn lemma_without_dots(s: Seq<char>) -> (n: int)
    ensures
        0 <= n <= s.len(),
        without_dots(s) == s.skip(n),
        forall|i: int| 0 <= i < n ==> #[trigger] s[i] == '.',
        n < s.len() ==> s[n] != '.',
    decreases s.len(),
{
    if s.len() > 0 && s[0] == '.' {
        let rest = s.drop_first();
        let n = lemma_without_dots(rest);
        assert(rest.skip(n) =~= s.skip(n + 1));
        assert forall|i: int| 0 <= i < n + 1 implies #[trigger] s[i] == '.' by {
            if i > 0 {
                assert(rest[i - 1] == '.');
            }
        }
        n + 1
    } else {
        assert(s.skip(0) =~= s);
        0
    }
}

/// An ending gives its text without the dots at its front, and an empty one gives none. The
/// result says how many dots there are.
pub proof fn an_ending_loses_its_dots_alone(ending: Seq<char>) -> (n: int)
    ensures
        extension_for(ending) is None <==> ending.len() == 0,
        0 <= n <= ending.len(),
        forall|i: int| 0 <= i < n ==> #[trigger] ending[i] == '.',
        n < ending.len() ==> ending[n] != '.',
        extension_for(ending) matches Some(extension) ==> extension == ending.skip(n),
{
    reveal_strlit("");
    assert(ending.len() == 0 <==> ending =~= ""@);
    lemma_without_dots(ending)
}

/// Away from Windows a name is taken as it is. On Windows it gets each ending of the list of the
/// environment, in its order and in lower case, and without a list `.exe`, `.bat` and `.cmd`.
pub proof fn endings_are_those_of_the_environment(list: Seq<char>)
    ensures
        endings(false, None) == seq![""@],
        endings(false, Some(list)) == seq![""@],
        endings(true, None) == seq![".exe"@, ".bat"@, ".cmd"@],
        endings(true, Some(list)).len() == split(list, ';').len(),
        forall|i: int|
            0 <= i < split(list, ';').len() ==> #[trigger] endings(true, Some(list))[i] == lowered(
                split(list, ';')[i],
            ),
{
}

/// On the search path the directory counts before the extension: all extensions are tried in a
/// directory before the next one is looked at, and both in their order.
pub proof fn directories_come_before_extensions<
    D,
    P,
    C: Fn(D, &Option<String>) -> Option<P>,
>(dirs: Seq<D>, extensions: Seq<Option<String>>, try_file: C, i: int, j: int)
    requires
        0 <= i < dirs.len(),
        0 <= j < extensions.len(),
        not_before::<D, P, C>(dirs, extensions, try_file, i, j),
    ensures
        forall|a: int, b: int|
            #![trigger dirs[a], extensions[b]]
            0 <= a < i && 0 <= b < extensions.len() ==> call_ensures(
                try_file,
                (dirs[a], &extensions[b]),
                None::<P>,
            ),
        forall|b: int|
            0 <= b < j ==> call_ensures(
                try_file,
                (dirs[i], &#[trigger] extensions[b]),
                None::<P>,
            ),
{
}

} // verus!
