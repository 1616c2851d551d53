//! The driver that runs adb: which binary, for how long, and with which arguments.

use vstd::prelude::*;

use crate::text::texts;

verus! {

/// A length of time.
#[derive(Debug, Clone, Copy, PartialEq, Eq, Structural)]
pub struct TimeLimit {
    pub seconds: u64,
    pub nanos: u32,
}

/// How long a command may take.
pub const COMMAND_TIMEOUT_SECONDS: u64 = 30;

/// How long a file transfer may take: long enough for gigabytes over slow Wi-Fi, short enough
/// that an adb that hangs is noticed.
pub const TRANSFER_TIMEOUT_SECONDS: u64 = 900;

/// A driver round the adb binary at a path of type `P`.
#[derive(Debug, Clone)]
pub struct SubprocessAdb<P> {
    binary: P,
    command_timeout: TimeLimit,
}

impl<P> SubprocessAdb<P> {
    /// The path of the binary.
    pub closed spec fn path(self) -> P {
        self.binary
    }

    /// How long a command may take.
    pub closed spec fn limit(self) -> TimeLimit {
        self.command_timeout
    }

    /// A driver for the binary, with the usual time limit.
    pub fn new(binary: P) -> (r: Self)
        ensures
            r.path() == binary,
            r.limit() == (TimeLimit { seconds: COMMAND_TIMEOUT_SECONDS, nanos: 0 }),
    {
        SubprocessAdb {
            binary,
            command_timeout: TimeLimit { seconds: COMMAND_TIMEOUT_SECONDS, nanos: 0 },
        }
    }

    /// A driver for the binary that was found, where one was.
    pub fn discover(found: Option<P>) -> (r: Option<Self>)
        ensures
            match found {
                Some(binary) => r matches Some(driver) && driver.path() == binary && driver.limit()
                    == (TimeLimit { seconds: COMMAND_TIMEOUT_SECONDS, nanos: 0 }),
                None => r is None,
            },
    {
        match found {
            Some(binary) => Some(SubprocessAdb::new(binary)),
            None => None,
        }
    }

    /// Another name for `discover`.
    pub fn from_path(found: Option<P>) -> (r: Option<Self>)
        ensures
            match found {
                Some(binary) => r matches Some(driver) && driver.path() == binary && driver.limit()
                    == (TimeLimit { seconds: COMMAND_TIMEOUT_SECONDS, nanos: 0 }),
                None => r is None,
            },
    {
        SubprocessAdb::discover(found)
    }

    /// The path of the binary.
    pub fn binary(&self) -> (r: &P)
        ensures
            *r == self.path(),
    {
        &self.binary
    }

    /// How long a command may take.
    pub fn command_timeout(&self) -> (r: TimeLimit)
        ensures
            r == self.limit(),
    {
        self.command_timeout
    }

    /// The driver with another time limit.
    pub fn with_timeout(self, limit: TimeLimit) -> (r: Self)
        ensures
            r.path() == self.path(),
            r.limit() == limit,
    {
        SubprocessAdb { binary: self.binary, command_timeout: limit }
    }
}

/// The arguments that make adb run a command on a device.
pub fn shell_arguments(serial: &str, command: &str) -> (r: Vec<String>)
    ensures
        texts(r@) == seq!["-s"@, serial@, "shell"@, command@],
{
    let mut r: Vec<String> = Vec::new();
    r.push("-s".to_owned());
    r.push(serial.to_owned());
    r.push("shell".to_owned());
    r.push(command.to_owned());
    assert(texts(r@) =~= seq!["-s"@, serial@, "shell"@, command@]);
    r
}

// ---------------------------------------------------------------------------
// The path that was found, remembered.
// ---------------------------------------------------------------------------

/// What a search for adb came to, remembered. Searching is not free, and where adb is not
/// installed it ends in the directory that the app was started in, which may be a removable
/// volume; so that nothing was found is remembered too.
#[derive(Debug, Clone)]
pub struct AdbPathCache<P> {
    resolved: Option<Option<P>>,
}

impl<P> View for AdbPathCache<P> {
    type V = Option<Option<P>>;

    closed spec fn view(&self) -> Option<Option<P>> {
        self.resolved
    }
}

impl<P> AdbPathCache<P> {
    /// A cache in which nothing is remembered.
    pub fn new() -> (r: Self)
        ensures
            r@ is None,
    {
        AdbPathCache { resolved: None }
    }
}

/// What a lookup comes to: what is remembered, or what a search comes to, which is then
/// remembered.
pub open spec fn looked_up<P, F: FnOnce() -> Option<P>>(
    before: Option<Option<P>>,
    resolve: F,
    after: Option<Option<P>>,
    path: Option<P>,
) -> bool {
    &&& after == Some(path)
    &&& match before {
        Some(remembered) => path == remembered,
        None => call_ensures(resolve, (), path),
    }
}

/// The path of adb: what is remembered, or what a search comes to, which is then remembered. A
/// search is made only where nothing is remembered: otherwise `resolve` need not even be
/// able to make one.
pub fn cached_adb_binary<P, F: FnOnce() -> Option<P>>(
    cache: &mut AdbPathCache<P>,
    resolve: F,
) -> (r: &Option<P>)
    requires
        old(cache)@ is None ==> call_requires(resolve, ()),
    ensures
        looked_up(old(cache)@, resolve, final(cache)@, *r),
{
    if cache.resolved.is_none() {
        cache.resolved = Some(resolve());
    }
    cache.resolved.as_ref().unwrap()
}

/// Forgets what is remembered, so that the next call searches again. This is for whatever can
/// change which binary is the right one.
pub fn forget_cached_adb_binary<P>(cache: &mut AdbPathCache<P>)
    ensures
        final(cache)@ is None,
{
    cache.resolved = None;
}

/// Until it is forgotten, the path stays what the first lookup came to, whatever a later search
/// would come to; that nothing was found stays so too.
pub proof fn a_path_is_looked_for_once<
    P,
    F: FnOnce() -> Option<P>,
    G: FnOnce() -> Option<P>,
>(
    before: Option<Option<P>>,
    resolve: F,
    between: Option<Option<P>>,
    path: Option<P>,
    resolve_again: G,
    after: Option<Option<P>>,
    path_again: Option<P>,
)
    requires
        looked_up(before, resolve, between, path),
        looked_up(between, resolve_again, after, path_again),
    ensures
        path_again == path,
        after == between,
{
}

/// A lookup gives what is remembered, or else what its own search came to, and remembers what it
/// gives; a command may take half a minute and a transfer a quarter of an hour.
pub proof fn a_lookup_remembers_what_it_gives<P, F: FnOnce() -> Option<P>>(
    before: Option<Option<P>>,
    resolve: F,
    after: Option<Option<P>>,
    path: Option<P>,
)
    requires
        looked_up(before, resolve, after, path),
    ensures
        after is Some,
        after->Some_0 == path,
        before is Some ==> path == before->Some_0,
        before is None ==> call_ensures(resolve, (), path),
        COMMAND_TIMEOUT_SECONDS == 30,
        TRANSFER_TIMEOUT_SECONDS == 15 * 60,
{
}

} // verus!
