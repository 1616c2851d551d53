//! Looking for devices on the local network: where to connect, and what came of it.

use vstd::prelude::*;
use vstd::string::StringExecFns;

use crate::adb::{AdbError, AdbOutput};
use crate::connect::{both_streams, classify_connect_output, outcome_of, ConnectOutcome};
use crate::lists::{
    lemma_contains_add, lemma_contains_push, lemma_with_new, lemma_with_new_twice,
    new_items_come_in_their_order, with_new,
};
use crate::text::{
    concat2, concat3, decimal, decimal_text, join, join_texts, list_contains, lowered, same, texts,
};

verus! {

/// The port of classic network debugging.
pub const ADB_NETWORK_PORT: u16 = 5555;

/// The service of a device that has been paired and can be connected to.
pub const MDNS_SERVICE_CONNECT: &'static str = "_adb-tls-connect._tcp";

/// The service of a device that waits for a pairing code.
pub const MDNS_SERVICE_PAIRING: &'static str = "_adb-tls-pairing._tcp";

/// The service of classic network debugging.
pub const MDNS_SERVICE_LEGACY: &'static str = "_adb._tcp";

/// A service that a device advertises.
#[derive(Debug, Clone, PartialEq, Eq)]
pub struct MdnsService {
    pub instance: String,
    pub service: String,
    pub host: String,
    pub port: u16,
}

/// A host and a port.
pub open spec fn at_port(host: Seq<char>, port: u16) -> Seq<char> {
    host + ":"@ + decimal(port as nat)
}

impl MdnsService {
    /// The device can be connected to through this service.
    pub open spec fn connectable(self) -> bool {
        self.service@ == MDNS_SERVICE_CONNECT@ || self.service@ == MDNS_SERVICE_LEGACY@
    }

    /// The device waits for a pairing code at this service.
    pub open spec fn pairing(self) -> bool {
        self.service@ == MDNS_SERVICE_PAIRING@
    }

    /// Where the service is.
    pub open spec fn address(self) -> Seq<char> {
        at_port(self.host@, self.port)
    }

    /// Whether the device can be connected to through this service.
    pub fn is_connectable(&self) -> (r: bool)
        ensures
            r == self.connectable(),
    {
        same(self.service.as_str(), MDNS_SERVICE_CONNECT) || same(
            self.service.as_str(),
            MDNS_SERVICE_LEGACY,
        )
    }

    /// Whether the device waits for a pairing code at this service.
    pub fn is_pairing(&self) -> (r: bool)
        ensures
            r == self.pairing(),
    {
        same(self.service.as_str(), MDNS_SERVICE_PAIRING)
    }

    /// Where the service is: `host:port`.
    pub fn endpoint(&self) -> (r: String)
        ensures
            r@ == self.address(),
    {
        concat3(self.host.as_str(), ":", decimal_text(self.port as u64).as_str())
    }
}

// ---------------------------------------------------------------------------
// Where to connect.
// ---------------------------------------------------------------------------

/// Where a scan tries to connect, and what needs pairing first.
#[derive(Debug, Clone, PartialEq, Eq)]
pub struct ScanTargets {
    /// The addresses to connect to, in order.
    pub connect: Vec<String>,
    /// The pairing addresses of devices that cannot be connected to yet.
    pub needs_pairing: Vec<String>,
}

/// A device at the host advertises a service that it can be connected to through.
pub open spec fn advertises(services: Seq<MdnsService>, host: Seq<char>) -> bool {
    exists|i: int|
        0 <= i < services.len() && (#[trigger] services[i]).connectable() && services[i].host@
            == host
}

/// The addresses of the services that devices can be connected to through, in order.
pub open spec fn advertised_addresses(services: Seq<MdnsService>) -> Seq<Seq<char>>
    decreases services.len(),
{
    if services.len() == 0 {
        Seq::empty()
    } else {
        let before = advertised_addresses(services.drop_last());
        if services.last().connectable() {
            before.push(services.last().address())
        } else {
            before
        }
    }
}

/// The addresses to try at the hosts that answered a sweep: the classic port, unless the host
/// told its own.
pub open spec fn swept_addresses(swept: Seq<Seq<char>>, services: Seq<MdnsService>) -> Seq<
    Seq<char>,
>
    decreases swept.len(),
{
    if swept.len() == 0 {
        Seq::empty()
    } else {
        let before = swept_addresses(swept.drop_last(), services);
        if advertises(services, swept.last()) {
            before
        } else {
            before.push(at_port(swept.last(), ADB_NETWORK_PORT))
        }
    }
}

/// The addresses of the pairing services among the first `n` whose device cannot be connected
/// to yet.
pub open spec fn pairing_addresses(services: Seq<MdnsService>, n: int) -> Seq<Seq<char>>
    decreases n,
{
    if n <= 0 {
        Seq::empty()
    } else {
        let before = pairing_addresses(services, n - 1);
        if services[n - 1].pairing() && !advertises(services, services[n - 1].host@) {
            before.push(services[n - 1].address())
        } else {
            before
        }
    }
}

/// The addresses to connect to: first those that devices advertise, then the classic port of
/// the other hosts that answered; each once.
pub open spec fn connect_targets(swept: Seq<Seq<char>>, services: Seq<MdnsService>) -> Seq<
    Seq<char>,
> {
    with_new(Seq::empty(), advertised_addresses(services) + swept_addresses(swept, services))
}

/// The pairing addresses of the devices that cannot be connected to yet, each once.
pub open spec fn pairing_targets(services: Seq<MdnsService>) -> Seq<Seq<char>> {
    with_new(Seq::empty(), pairing_addresses(services, services.len() as int))
}

/// Puts a text behind a list, unless the list holds it.
fn push_new(list: &mut Vec<String>, text: String)
    ensures
        texts(final(list)@) == with_new(texts(old(list)@), seq![text@]),
{
    broadcast use crate::text::lemma_texts_push;

    proof {
        let one = seq![text@];
        assert(one.drop_last() =~= Seq::<Seq<char>>::empty());
        assert(with_new(texts(list@), one.drop_last()) == texts(list@));
    }
    if !list_contains(list.as_slice(), text.as_str()) {
        list.push(text);
    }
}

/// Whether a device at the host advertises a service that it can be connected to through.
fn host_advertises(services: &[MdnsService], host: &str) -> (r: bool)
    ensures
        r == advertises(services@, host@),
{
    let mut i: usize = 0;
    while i < services.len()
        invariant
            i <= services@.len(),
            forall|j: int|
                0 <= j < i ==> !((#[trigger] services@[j]).connectable() && services@[j].host@
                    == host@),
        decreases services@.len() - i,
    {
        if services[i].is_connectable() && same(services[i].host.as_str(), host) {
            return true;
        }
        i = i + 1;
    }
    false
}

/// Works out where to connect, from what devices advertise and from the hosts that answered a
/// sweep of the classic port.
///
/// Wireless debugging listens on a port of its own that changes whenever it is switched on, so
/// a sweep cannot see it; a host that advertises its port is not tried on the classic one. A
/// device that advertises a pairing service alone cannot be connected to until the user has
/// entered the code, so it is reported and not tried.
pub fn merge_scan_targets(swept_ips: &[String], services: &[MdnsService]) -> (r: ScanTargets)
    ensures
        texts(r.connect@) == connect_targets(texts(swept_ips@), services@),
        texts(r.needs_pairing@) == pairing_targets(services@),
{
    let mut connect: Vec<String> = Vec::new();
    let ghost none = Seq::<Seq<char>>::empty();
    let mut i: usize = 0;
    proof {
        assert(texts(connect@) =~= none);
        assert(services@.take(0) =~= Seq::<MdnsService>::empty());
    }
    while i < services.len()
        invariant
            i <= services@.len(),
            none == Seq::<Seq<char>>::empty(),
            texts(connect@) == with_new(none, advertised_addresses(services@.take(i as int))),
        decreases services@.len() - i,
    {
        proof {
            let more = services@.take(i + 1);
            let before = advertised_addresses(services@.take(i as int));
            let address = services@[i as int].address();
            assert(more.drop_last() =~= services@.take(i as int));
            lemma_with_new_twice(none, before, seq![address]);
            assert(before + seq![address] =~= before.push(address));
        }
        if services[i].is_connectable() {
            push_new(&mut connect, services[i].endpoint());
        }
        i = i + 1;
    }
    let ghost advertised = advertised_addresses(services@);
    let ghost swept = texts(swept_ips@);
    i = 0;
    proof {
        assert(services@.take(services@.len() as int) =~= services@);
        assert(swept.take(0) =~= none);
        assert(advertised + swept_addresses(swept.take(0), services@) =~= advertised);
    }
    while i < swept_ips.len()
        invariant
            i <= swept_ips@.len(),
            none == Seq::<Seq<char>>::empty(),
            swept == texts(swept_ips@),
            texts(connect@) == with_new(
                none,
                advertised + swept_addresses(swept.take(i as int), services@),
            ),
        decreases swept_ips@.len() - i,
    {
        let ip = &swept_ips[i];
        proof {
            let before = swept_addresses(swept.take(i as int), services@);
            let address = at_port(ip@, ADB_NETWORK_PORT);
            assert(swept.take(i + 1).drop_last() =~= swept.take(i as int));
            assert(swept.take(i + 1).last() == ip@);
            lemma_with_new_twice(none, advertised + before, seq![address]);
            assert(advertised + before + seq![address] =~= advertised + before.push(address));
        }
        if !host_advertises(services, ip.as_str()) {
            push_new(
                &mut connect,
                concat3(ip.as_str(), ":", decimal_text(ADB_NETWORK_PORT as u64).as_str()),
            );
        }
        i = i + 1;
    }
    let mut needs_pairing: Vec<String> = Vec::new();
    i = 0;
    proof {
        assert(swept.take(swept.len() as int) =~= swept);
        assert(texts(needs_pairing@) =~= none);
    }
    while i < services.len()
        invariant
            i <= services@.len(),
            none == Seq::<Seq<char>>::empty(),
            texts(needs_pairing@) == with_new(none, pairing_addresses(services@, i as int)),
        decreases services@.len() - i,
    {
        proof {
            let before = pairing_addresses(services@, i as int);
            let address = services@[i as int].address();
            lemma_with_new_twice(none, before, seq![address]);
            assert(before + seq![address] =~= before.push(address));
        }
        if services[i].is_pairing() && !host_advertises(services, services[i].host.as_str()) {
            push_new(&mut needs_pairing, services[i].endpoint());
        }
        i = i + 1;
    }
    ScanTargets { connect, needs_pairing }
}

proof fn lemma_advertised(services: Seq<MdnsService>, address: Seq<char>)
    ensures
        advertised_addresses(services).contains(address) <==> exists|i: int|
            0 <= i < services.len() && (#[trigger] services[i]).connectable()
                && services[i].address() == address,
    decreases services.len(),
{
    if services.len() > 0 {
        let front = services.drop_last();
        let last = services.len() - 1;
        lemma_advertised(front, address);
        lemma_contains_push(
            advertised_addresses(front),
            services.last().address(),
            address,
        );
        if exists|i: int|
            0 <= i < front.len() && (#[trigger] front[i]).connectable() && front[i].address()
                == address {
            let i = choose|i: int|
                0 <= i < front.len() && (#[trigger] front[i]).connectable() && front[i].address()
                    == address;
            assert(services[i] == front[i]);
        }
        if exists|i: int|
            0 <= i < services.len() && (#[trigger] services[i]).connectable()
                && services[i].address() == address {
            let i = choose|i: int|
                0 <= i < services.len() && (#[trigger] services[i]).connectable()
                    && services[i].address() == address;
            if i < last {
                assert(front[i] == services[i]);
            }
        }
        assert(services[last] == services.last());
    }
}

proof fn lemma_swept(swept: Seq<Seq<char>>, services: Seq<MdnsService>, address: Seq<char>)
    ensures
        swept_addresses(swept, services).contains(address) <==> exists|i: int|
            0 <= i < swept.len() && !advertises(services, #[trigger] swept[i]) && at_port(
                swept[i],
                ADB_NETWORK_PORT,
            ) == address,
    decreases swept.len(),
{
    if swept.len() > 0 {
        let front = swept.drop_last();
        let last = swept.len() - 1;
        lemma_swept(front, services, address);
        lemma_contains_push(
            swept_addresses(front, services),
            at_port(swept.last(), ADB_NETWORK_PORT),
            address,
        );
        if exists|i: int|
            0 <= i < front.len() && !advertises(services, #[trigger] front[i]) && at_port(
                front[i],
                ADB_NETWORK_PORT,
            ) == address {
            let i = choose|i: int|
                0 <= i < front.len() && !advertises(services, #[trigger] front[i]) && at_port(
                    front[i],
                    ADB_NETWORK_PORT,
                ) == address;
            assert(swept[i] == front[i]);
        }
        if exists|i: int|
            0 <= i < swept.len() && !advertises(services, #[trigger] swept[i]) && at_port(
                swept[i],
                ADB_NETWORK_PORT,
            ) == address {
            let i = choose|i: int|
                0 <= i < swept.len() && !advertises(services, #[trigger] swept[i]) && at_port(
                    swept[i],
                    ADB_NETWORK_PORT,
                ) == address;
            if i < last {
                assert(front[i] == swept[i]);
            }
        }
        assert(swept[last] == swept.last());
    }
}

proof fn lemma_pairing(services: Seq<MdnsService>, n: int, address: Seq<char>)
    requires
        0 <= n <= services.len(),
    ensures
        pairing_addresses(services, n).contains(address) <==> exists|i: int|
            0 <= i < n && (#[trigger] services[i]).pairing() && !advertises(
                services,
                services[i].host@,
            ) && services[i].address() == address,
    decreases n,
{
    if n > 0 {
        lemma_pairing(services, n - 1, address);
        lemma_contains_push(
            pairing_addresses(services, n - 1),
            services[n - 1].address(),
            address,
        );
    }
}

/// A scan tries an address if and only if a device advertises it as one to connect to, or it is
/// the classic port of a host that answered the sweep and advertises no port of its own. It
/// tries no address twice.
pub proof fn what_a_scan_tries(
    swept: Seq<Seq<char>>,
    services: Seq<MdnsService>,
    address: Seq<char>,
)
    ensures
        connect_targets(swept, services).no_duplicates(),
        connect_targets(swept, services).contains(address) <==> {
            ||| exists|i: int|
                0 <= i < services.len() && (#[trigger] services[i]).connectable()
                    && services[i].address() == address
            ||| exists|i: int|
                0 <= i < swept.len() && !advertises(services, #[trigger] swept[i]) && at_port(
                    swept[i],
                    ADB_NETWORK_PORT,
                ) == address
        },
{
    let a = advertised_addresses(services);
    let b = swept_addresses(swept, services);
    lemma_with_new(Seq::<Seq<char>>::empty(), a + b);
    lemma_contains_add(a, b, address);
    lemma_advertised(services, address);
    lemma_swept(swept, services, address);
}

/// A host that advertises a port is not tried on the classic one, unless it advertises that
/// one too.
pub proof fn an_advertised_host_is_not_guessed_at(
    swept: Seq<Seq<char>>,
    services: Seq<MdnsService>,
    host: Seq<char>,
)
    requires
        advertises(services, host),
        connect_targets(swept, services).contains(at_port(host, ADB_NETWORK_PORT)),
    ensures
        exists|i: int|
            0 <= i < services.len() && (#[trigger] services[i]).connectable()
                && services[i].address() == at_port(host, ADB_NETWORK_PORT),
{
    let address = at_port(host, ADB_NETWORK_PORT);
    what_a_scan_tries(swept, services, address);
    if exists|i: int|
        0 <= i < swept.len() && !advertises(services, #[trigger] swept[i]) && at_port(
            swept[i],
            ADB_NETWORK_PORT,
        ) == address {
        let i = choose|i: int|
            0 <= i < swept.len() && !advertises(services, #[trigger] swept[i]) && at_port(
                swept[i],
                ADB_NETWORK_PORT,
            ) == address;
        let port = ":"@ + decimal(ADB_NETWORK_PORT as nat);
        assert(at_port(swept[i], ADB_NETWORK_PORT) =~= swept[i] + port);
        assert(address =~= host + port);
        assert(swept[i] =~= (swept[i] + port).take(swept[i].len() as int));
        assert(host =~= (host + port).take(host.len() as int));
    }
}

/// A device is reported as one to pair with if and only if it advertises a pairing service and
/// nothing that it can be connected to through; each pairing address is reported once.
pub proof fn what_a_scan_asks_to_pair(services: Seq<MdnsService>, address: Seq<char>)
    ensures
        pairing_targets(services).no_duplicates(),
        pairing_targets(services).contains(address) <==> exists|i: int|
            0 <= i < services.len() && (#[trigger] services[i]).pairing() && !advertises(
                services,
                services[i].host@,
            ) && services[i].address() == address,
{
    let all = pairing_addresses(services, services.len() as int);
    lemma_with_new(Seq::<Seq<char>>::empty(), all);
    lemma_pairing(services, services.len() as int, address);
}

// ---------------------------------------------------------------------------
// What is said of a scan.
// ---------------------------------------------------------------------------

/// That no device answered.
pub open spec fn nothing_found_text(subnet: Seq<char>) -> Seq<char> {
    "No devices on "@ + subnet
        + ".x answered on the ADB port. Make sure Network Debugging is enabled on your TV, or use Connect IP for newer Google TVs that need PIN pairing first."@
}

/// How many devices were found and connected.
pub open spec fn counts_text(subnet: Seq<char>, found: nat, connected: nat) -> Seq<char> {
    "Scanned "@ + subnet + ".x — found "@ + decimal(found) + (if found == 1 {
        " device, connected "@
    } else {
        " devices, connected "@
    }) + decimal(connected) + "."@
}

/// How many devices wait to be authorized.
pub open spec fn unauthorized_text(count: nat) -> Seq<char> {
    if count == 0 {
        Seq::empty()
    } else {
        " "@ + decimal(count) + (if count == 1 {
            " needs"@
        } else {
            " need"@
        })
            + " authorization — accept the \"Allow USB debugging?\" prompt on the TV, then Refresh."@
    }
}

/// Which devices wait to be paired.
pub open spec fn pairing_text(addresses: Seq<Seq<char>>) -> Seq<char> {
    if addresses.len() == 0 {
        Seq::empty()
    } else {
        " "@ + decimal(addresses.len())
            + " waiting to be paired — on the TV open Wireless debugging → Pair device with pairing code, then use Pair PIN with "@
            + join(addresses, ", "@) + "."@
    }
}

/// What is said of a scan.
pub open spec fn summary_text(
    subnet: Seq<char>,
    found: nat,
    connected: nat,
    unauthorized: nat,
    needs_pairing: Seq<Seq<char>>,
) -> Seq<char> {
    if found == 0 {
        nothing_found_text(subnet)
    } else {
        counts_text(subnet, found, connected) + unauthorized_text(unauthorized) + pairing_text(
            needs_pairing,
        )
    }
}

/// What is said of a scan.
pub fn summary_message(
    subnet_label: &str,
    found: usize,
    connected: &[String],
    unauthorized: &[String],
    needs_pairing: &[String],
) -> (r: String)
    ensures
        r@ == summary_text(
            subnet_label@,
            found as nat,
            connected@.len(),
            unauthorized@.len(),
            texts(needs_pairing@),
        ),
{
    if found == 0 {
        return concat3(
            "No devices on ",
            subnet_label,
            ".x answered on the ADB port. Make sure Network Debugging is enabled on your TV, or use Connect IP for newer Google TVs that need PIN pairing first.",
        );
    }
    let mut message = concat3("Scanned ", subnet_label, ".x — found ");
    message.append(decimal_text(found as u64).as_str());
    message.append(
        if found == 1 {
            " device, connected "
        } else {
            " devices, connected "
        },
    );
    message.append(decimal_text(connected.len() as u64).as_str());
    message.append(".");
    let ghost counts = message@;
    assert(counts == counts_text(subnet_label@, found as nat, connected@.len()));
    let mut waiting = String::new();
    if unauthorized.len() > 0 {
        waiting = concat2(" ", decimal_text(unauthorized.len() as u64).as_str());
        waiting.append(
            if unauthorized.len() == 1 {
                " needs"
            } else {
                " need"
            },
        );
        waiting.append(
            " authorization — accept the \"Allow USB debugging?\" prompt on the TV, then Refresh.",
        );
    }
    assert(waiting@ == unauthorized_text(unauthorized@.len()));
    message.append(waiting.as_str());
    let mut pairing = String::new();
    if needs_pairing.len() > 0 {
        pairing = concat3(
            " ",
            decimal_text(needs_pairing.len() as u64).as_str(),
            " waiting to be paired — on the TV open Wireless debugging → Pair device with pairing code, then use Pair PIN with ",
        );
        pairing.append(join_texts(needs_pairing, ", ").as_str());
        pairing.append(".");
    }
    assert(pairing@ == pairing_text(texts(needs_pairing@)));
    message.append(pairing.as_str());
    message
}

// ---------------------------------------------------------------------------
// The course of a scan.
// ---------------------------------------------------------------------------

/// What came of a scan.
#[derive(Debug, Clone, PartialEq, Eq)]
pub struct ScanResult {
    /// The first three octets of the network that was scanned, or none where it is not known.
    pub subnet: Option<String>,
    /// The addresses that were found.
    pub found: Vec<String>,
    /// The addresses that were connected to.
    pub connected: Vec<String>,
    /// The addresses of devices that have not approved this computer.
    pub unauthorized: Vec<String>,
    /// The addresses that could not be connected to.
    pub failed: Vec<String>,
    /// The pairing addresses of devices that need a code first.
    pub needs_pairing: Vec<String>,
    /// What is said of the scan.
    pub message: String,
}

/// What a `ScanResult` holds.
#[verifier::ext_equal]
pub struct ScanResultView {
    pub subnet: Option<Seq<char>>,
    pub found: Seq<Seq<char>>,
    pub connected: Seq<Seq<char>>,
    pub unauthorized: Seq<Seq<char>>,
    pub failed: Seq<Seq<char>>,
    pub needs_pairing: Seq<Seq<char>>,
    pub message: Seq<char>,
}

impl View for ScanResult {
    type V = ScanResultView;

    open spec fn view(&self) -> ScanResultView {
        ScanResultView {
            subnet: match self.subnet {
                Some(subnet) => Some(subnet@),
                None => None,
            },
            found: texts(self.found@),
            connected: texts(self.connected@),
            unauthorized: texts(self.unauthorized@),
            failed: texts(self.failed@),
            needs_pairing: texts(self.needs_pairing@),
            message: self.message@,
        }
    }
}

/// How a scan starts.
#[derive(Debug)]
pub enum ScanStart {
    /// Sweep the network with these first three octets.
    Sweep(String),
    /// There is no network to sweep.
    Finished(ScanResult),
}

/// The first three octets of a network.
pub open spec fn subnet_text(prefix: Seq<u8>) -> Seq<char> {
    decimal(prefix[0] as nat) + "."@ + decimal(prefix[1] as nat) + "."@ + decimal(prefix[2] as nat)
}

/// What came of a scan that found no network.
pub open spec fn no_network() -> ScanResultView {
    ScanResultView {
        subnet: None,
        found: Seq::empty(),
        connected: Seq::empty(),
        unauthorized: Seq::empty(),
        failed: Seq::empty(),
        needs_pairing: Seq::empty(),
        message: "Could not detect default gateway. Set SHIELD_OPTIMIZER_SUBNET=\"a.b.c\" to override, or use Connect IP."@,
    }
}

/// Starts a scan of the network with these first three octets, where it is known.
pub fn start_scan(prefix: Option<[u8; 3]>) -> (r: ScanStart)
    ensures
        match prefix {
            Some(prefix) => r matches ScanStart::Sweep(subnet) && subnet@ == subnet_text(prefix@),
            None => r matches ScanStart::Finished(result) && result@ == no_network(),
        },
{
    match prefix {
        Some(prefix) => {
            let mut subnet = concat2(decimal_text(prefix[0] as u64).as_str(), ".");
            subnet.append(decimal_text(prefix[1] as u64).as_str());
            subnet.append(".");
            subnet.append(decimal_text(prefix[2] as u64).as_str());
            ScanStart::Sweep(subnet)
        },
        None => {
            let result = ScanResult {
                subnet: None,
                found: Vec::new(),
                connected: Vec::new(),
                unauthorized: Vec::new(),
                failed: Vec::new(),
                needs_pairing: Vec::new(),
                message: "Could not detect default gateway. Set SHIELD_OPTIMIZER_SUBNET=\"a.b.c\" to override, or use Connect IP.".to_owned(),
            };
            assert(result@ =~= no_network());
            ScanStart::Finished(result)
        },
    }
}

/// What one `adb connect` of a scan achieved. An error counts as a failure.
pub fn attempt_outcome(reply: &Result<AdbOutput, AdbError>) -> (r: ConnectOutcome)
    ensures
        r == match reply {
            Ok(out) => outcome_of(lowered(both_streams(*out))),
            Err(_) => ConnectOutcome::Failed,
        },
{
    match reply {
        Ok(out) => classify_connect_output(
            concat3(out.stdout.as_str(), "\n", out.stderr.as_str()).as_str(),
        ),
        Err(_) => ConnectOutcome::Failed,
    }
}

/// A scan that waits for what comes of connecting to its next address.
#[derive(Debug)]
pub struct ScanRun {
    subnet: String,
    targets: ScanTargets,
    /// What came of the addresses before this one.
    settled: Vec<ConnectOutcome>,
    /// This address failed once.
    retrying: bool,
}

/// What a `ScanRun` holds.
#[verifier::ext_equal]
pub struct ScanRunView {
    pub subnet: Seq<char>,
    pub connect: Seq<Seq<char>>,
    pub needs_pairing: Seq<Seq<char>>,
    pub settled: Seq<ConnectOutcome>,
    pub retrying: bool,
}

impl View for ScanRun {
    type V = ScanRunView;

    closed spec fn view(&self) -> ScanRunView {
        ScanRunView {
            subnet: self.subnet@,
            connect: texts(self.targets.connect@),
            needs_pairing: texts(self.targets.needs_pairing@),
            settled: self.settled@,
            retrying: self.retrying,
        }
    }
}

/// What a scan does next.
#[derive(Debug)]
pub enum ScanAction {
    /// Connect to the next address, and continue with what came of it.
    Connect(ScanRun),
    Finished(ScanResult),
}

/// What a `ScanAction` says.
pub enum ScanActionView {
    Connect(ScanRunView),
    Finished(ScanResultView),
}

impl View for ScanAction {
    type V = ScanActionView;

    open spec fn view(&self) -> ScanActionView {
        match self {
            ScanAction::Connect(run) => ScanActionView::Connect(run@),
            ScanAction::Finished(result) => ScanActionView::Finished(result@),
        }
    }
}

/// How long a scan waits before it tries an address again, in milliseconds.
pub const RETRY_DELAY_MS: u64 = 400;

/// The addresses of which that came.
pub open spec fn with_outcome(
    addresses: Seq<Seq<char>>,
    outcomes: Seq<ConnectOutcome>,
    outcome: ConnectOutcome,
) -> Seq<Seq<char>>
    decreases outcomes.len(),
{
    if outcomes.len() == 0 {
        Seq::empty()
    } else {
        let before = with_outcome(addresses, outcomes.drop_last(), outcome);
        if outcomes.last() == outcome {
            before.push(addresses[outcomes.len() - 1])
        } else {
            before
        }
    }
}

/// What came of a scan whose addresses are settled.
pub open spec fn result_of(run: ScanRunView) -> ScanResultView {
    let found = run.connect + run.needs_pairing;
    let connected = with_outcome(run.connect, run.settled, ConnectOutcome::Connected);
    let unauthorized = with_outcome(run.connect, run.settled, ConnectOutcome::Unauthorized);
    ScanResultView {
        subnet: Some(run.subnet),
        found,
        connected,
        unauthorized,
        failed: with_outcome(run.connect, run.settled, ConnectOutcome::Failed),
        needs_pairing: run.needs_pairing,
        message: summary_text(
            run.subnet,
            found.len(),
            connected.len(),
            unauthorized.len(),
            run.needs_pairing,
        ),
    }
}

/// What a scan does next: it connects to the first address that is not settled.
pub open spec fn next_action(run: ScanRunView) -> ScanActionView {
    if run.settled.len() < run.connect.len() {
        ScanActionView::Connect(run)
    } else {
        ScanActionView::Finished(result_of(run))
    }
}

/// The scan behind a reply. A first failure is not the last word on an address: it is tried
/// once more. Anything else settles it.
pub open spec fn replied(run: ScanRunView, outcome: ConnectOutcome) -> ScanRunView {
    if outcome == ConnectOutcome::Failed && !run.retrying {
        ScanRunView { retrying: true, ..run }
    } else {
        ScanRunView { settled: run.settled.push(outcome), retrying: false, ..run }
    }
}

/// The addresses of which that came.
fn pick_outcome(addresses: &Vec<String>, outcomes: &Vec<ConnectOutcome>, outcome: ConnectOutcome) ->
    (r: Vec<String>)
    requires
        outcomes@.len() <= addresses@.len(),
    ensures
        texts(r@) == with_outcome(texts(addresses@), outcomes@, outcome),
{
    broadcast use crate::text::lemma_texts_push;

    let mut r: Vec<String> = Vec::new();
    let mut i: usize = 0;
    proof {
        assert(outcomes@.take(0) =~= Seq::<ConnectOutcome>::empty());
        assert(texts(r@) =~= Seq::<Seq<char>>::empty());
    }
    while i < outcomes.len()
        invariant
            i <= outcomes@.len() <= addresses@.len(),
            texts(r@) == with_outcome(texts(addresses@), outcomes@.take(i as int), outcome),
        decreases outcomes@.len() - i,
    {
        broadcast use crate::text::lemma_texts_push;

        assert(outcomes@.take(i + 1).drop_last() =~= outcomes@.take(i as int));
        if outcomes[i] == outcome {
            r.push(addresses[i].clone());
        }
        i = i + 1;
    }
    assert(outcomes@.take(outcomes@.len() as int) =~= outcomes@);
    r
}

/// One list behind the other.
fn both_lists(a: &Vec<String>, b: &Vec<String>) -> (r: Vec<String>)
    ensures
        texts(r@) == texts(a@) + texts(b@),
        r@.len() == a@.len() + b@.len(),
{
    broadcast use crate::text::lemma_texts_push;

    let mut r: Vec<String> = Vec::new();
    let mut i: usize = 0;
    assert(texts(r@) =~= texts(a@).take(0));
    while i < a.len()
        invariant
            i <= a@.len(),
            texts(r@) == texts(a@).take(i as int),
        decreases a@.len() - i,
    {
        broadcast use crate::text::lemma_texts_push;

        r.push(a[i].clone());
        assert(texts(a@).take(i + 1) =~= texts(a@).take(i as int).push(a@[i as int]@));
        i = i + 1;
    }
    i = 0;
    assert(texts(r@) =~= texts(a@) + texts(b@).take(0));
    while i < b.len()
        invariant
            i <= b@.len(),
            texts(r@) == texts(a@) + texts(b@).take(i as int),
        decreases b@.len() - i,
    {
        broadcast use crate::text::lemma_texts_push;

        r.push(b[i].clone());
        assert((texts(a@) + texts(b@).take(i as int)).push(b@[i as int]@) =~= texts(a@) + texts(
            b@,
        ).take(i + 1));
        i = i + 1;
    }
    proof {
        assert(texts(b@).take(b@.len() as int) =~= texts(b@));
        assert(texts(r@).len() == r@.len());
    }
    r
}

impl ScanRun {
    #[verifier::type_invariant]
    spec fn waits(self) -> bool {
        self.settled@.len() < self.targets.connect@.len()
    }

    /// The address to connect to.
    pub fn target(&self) -> (r: &str)
        ensures
            self@.settled.len() < self@.connect.len(),
            r@ == self@.connect[self@.settled.len() as int],
    {
        proof {
            use_type_invariant(self);
        }
        self.targets.connect[self.settled.len()].as_str()
    }

    /// How long to wait before connecting, in milliseconds.
    pub fn delay_ms(&self) -> (r: u64)
        ensures
            r == if self@.retrying {
                RETRY_DELAY_MS
            } else {
                0
            },
    {
        if self.retrying {
            RETRY_DELAY_MS
        } else {
            0
        }
    }
}

/// What a scan does next.
fn act(
    subnet: String,
    targets: ScanTargets,
    settled: Vec<ConnectOutcome>,
    retrying: bool,
) -> (r: ScanAction)
    requires
        settled@.len() <= targets.connect@.len(),
    ensures
        r@ == next_action(
            (ScanRunView {
                subnet: subnet@,
                connect: texts(targets.connect@),
                needs_pairing: texts(targets.needs_pairing@),
                settled: settled@,
                retrying,
            }),
        ),
{
    if settled.len() < targets.connect.len() {
        return ScanAction::Connect(ScanRun { subnet, targets, settled, retrying });
    }
    let connected = pick_outcome(&targets.connect, &settled, ConnectOutcome::Connected);
    let unauthorized = pick_outcome(&targets.connect, &settled, ConnectOutcome::Unauthorized);
    let failed = pick_outcome(&targets.connect, &settled, ConnectOutcome::Failed);
    let found = both_lists(&targets.connect, &targets.needs_pairing);
    let message = summary_message(
        subnet.as_str(),
        found.len(),
        connected.as_slice(),
        unauthorized.as_slice(),
        targets.needs_pairing.as_slice(),
    );
    proof {
        assert(texts(connected@).len() == connected@.len());
        assert(texts(unauthorized@).len() == unauthorized@.len());
        assert(texts(found@).len() == found@.len());
    }
    ScanAction::Finished(
        ScanResult {
            subnet: Some(subnet),
            found,
            connected,
            unauthorized,
            failed,
            needs_pairing: targets.needs_pairing,
            message,
        },
    )
}

/// Begins to connect, once the network was swept and the services are known.
pub fn begin_connecting(subnet: String, swept_ips: &[String], services: &[MdnsService]) -> (r:
    ScanAction)
    ensures
        r@ == next_action(
            (ScanRunView {
                subnet: subnet@,
                connect: connect_targets(texts(swept_ips@), services@),
                needs_pairing: pairing_targets(services@),
                settled: Seq::empty(),
                retrying: false,
            }),
        ),
{
    act(subnet, merge_scan_targets(swept_ips, services), Vec::new(), false)
}

/// Continues a scan with what came of connecting to its next address.
pub fn continue_scan(run: ScanRun, outcome: ConnectOutcome) -> (r: ScanAction)
    ensures
        r@ == next_action(replied(run@, outcome)),
{
    proof {
        use_type_invariant(&run);
    }
    let ScanRun { subnet, targets, settled: before, retrying } = run;
    let mut settled = before;
    if outcome == ConnectOutcome::Failed && !retrying {
        return act(subnet, targets, settled, true);
    }
    settled.push(outcome);
    act(subnet, targets, settled, false)
}

// ---------------------------------------------------------------------------
// Laws of a scan.
// ---------------------------------------------------------------------------

/// How many replies a scan can wait for at most.
pub open spec fn replies_left(run: ScanRunView) -> int {
    2 * (run.connect.len() - run.settled.len()) - (if run.retrying {
        1int
    } else {
        0
    })
}

/// A scan comes to an end: each reply brings it nearer, and no address is tried more than
/// twice.
pub proof fn a_scan_comes_to_an_end(run: ScanRunView, outcome: ConnectOutcome)
    requires
        run.settled.len() < run.connect.len(),
    ensures
        0 <= replies_left(replied(run, outcome)) < replies_left(run),
        run.retrying ==> replied(run, outcome).settled.len() == run.settled.len() + 1,
        outcome != ConnectOutcome::Failed ==> replied(run, outcome).settled.len()
            == run.settled.len() + 1,
{
}

/// What an address is settled with stays: a later reply changes nothing about it.
pub proof fn a_settled_address_stays_settled(run: ScanRunView, outcome: ConnectOutcome, i: int)
    requires
        0 <= i < run.settled.len(),
    ensures
        replied(run, outcome).settled[i] == run.settled[i],
        replied(run, outcome).connect == run.connect,
        replied(run, outcome).needs_pairing == run.needs_pairing,
{
}

proof fn lemma_with_outcome(
    addresses: Seq<Seq<char>>,
    outcomes: Seq<ConnectOutcome>,
    outcome: ConnectOutcome,
    address: Seq<char>,
)
    requires
        outcomes.len() <= addresses.len(),
    ensures
        with_outcome(addresses, outcomes, outcome).contains(address) <==> exists|i: int|
            0 <= i < outcomes.len() && #[trigger] outcomes[i] == outcome && addresses[i] == address,
    decreases outcomes.len(),
{
    if outcomes.len() > 0 {
        let front = outcomes.drop_last();
        let last = outcomes.len() - 1;
        lemma_with_outcome(addresses, front, outcome, address);
        lemma_contains_push(with_outcome(addresses, front, outcome), addresses[last], address);
        if exists|i: int|
            0 <= i < front.len() && #[trigger] front[i] == outcome && addresses[i] == address {
            let i = choose|i: int|
                0 <= i < front.len() && #[trigger] front[i] == outcome && addresses[i] == address;
            assert(outcomes[i] == outcome);
        }
        if exists|i: int|
            0 <= i < outcomes.len() && #[trigger] outcomes[i] == outcome && addresses[i]
                == address {
            let i = choose|i: int|
                0 <= i < outcomes.len() && #[trigger] outcomes[i] == outcome && addresses[i]
                    == address;
            if i < last {
                assert(front[i] == outcome);
            }
        }
        assert(outcomes[last] == outcomes.last());
    }
}

proof fn lemma_outcomes_add_up(addresses: Seq<Seq<char>>, outcomes: Seq<ConnectOutcome>)
    ensures
        with_outcome(addresses, outcomes, ConnectOutcome::Connected).len() + with_outcome(
            addresses,
            outcomes,
            ConnectOutcome::Unauthorized,
        ).len() + with_outcome(addresses, outcomes, ConnectOutcome::Failed).len()
            == outcomes.len(),
    decreases outcomes.len(),
{
    if outcomes.len() > 0 {
        lemma_outcomes_add_up(addresses, outcomes.drop_last());
    }
}

/// When a scan is over each address that it tried is in one and only one of the three lists,
/// by what came of it, and the lists together are as long as the addresses are many.
pub proof fn each_address_has_one_result(run: ScanRunView, i: int)
    requires
        run.settled.len() == run.connect.len(),
        run.connect.no_duplicates(),
        0 <= i < run.connect.len(),
    ensures
        ({
            let result = result_of(run);
            let address = run.connect[i];
            &&& result.connected.contains(address) <==> run.settled[i] == ConnectOutcome::Connected
            &&& result.unauthorized.contains(address) <==> run.settled[i]
                == ConnectOutcome::Unauthorized
            &&& result.failed.contains(address) <==> run.settled[i] == ConnectOutcome::Failed
            &&& result.connected.len() + result.unauthorized.len() + result.failed.len()
                == run.connect.len()
            &&& result.found.len() == result.connected.len() + result.unauthorized.len()
                + result.failed.len() + result.needs_pairing.len()
        }),
{
    let address = run.connect[i];
    lemma_with_outcome(run.connect, run.settled, ConnectOutcome::Connected, address);
    lemma_with_outcome(run.connect, run.settled, ConnectOutcome::Unauthorized, address);
    lemma_with_outcome(run.connect, run.settled, ConnectOutcome::Failed, address);
    lemma_outcomes_add_up(run.connect, run.settled);
    assert(run.settled[i] == run.settled[i]);
}

/// A reply that settles an address settles it with that very reply, be it the first or the
/// second; and every reply settles the address but a first failure, which settles nothing and
/// has the address tried again. Nothing else changes.
pub proof fn an_address_is_settled_with_the_reply_itself(
    run: ScanRunView,
    outcome: ConnectOutcome,
)
    ensures
        ({
            let after = replied(run, outcome);
            let first_failure = outcome == ConnectOutcome::Failed && !run.retrying;
            &&& after.settled.len() > run.settled.len() ==> after.settled.last() == outcome
            &&& after.settled.len() > run.settled.len() ==> after.settled.drop_last()
                == run.settled && !after.retrying
            &&& after.settled.len() > run.settled.len() <==> !first_failure
            &&& first_failure ==> after.settled == run.settled && after.retrying
            &&& after.subnet == run.subnet
            &&& after.connect == run.connect
            &&& after.needs_pairing == run.needs_pairing
        }),
{
    assert(run.settled.push(outcome).drop_last() =~= run.settled);
}

/// An address that failed once is settled with what the second try brings, whatever that is; an
/// address that did not fail is settled at once, with what the first try brought.
pub proof fn the_last_try_decides(
    run: ScanRunView,
    first: ConnectOutcome,
    second: ConnectOutcome,
)
    requires
        !run.retrying,
    ensures
        first == ConnectOutcome::Failed ==> replied(replied(run, first), second).settled
            == run.settled.push(second),
        first != ConnectOutcome::Failed ==> replied(run, first).settled == run.settled.push(first),
        !replied(replied(run, ConnectOutcome::Failed), second).retrying,
{
}

/// A scan goes on while an address is not settled, from where it stands, and ends as soon as
/// all are.
pub proof fn a_scan_ends_when_all_is_settled(run: ScanRunView)
    ensures
        next_action(run) is Finished <==> run.settled.len() >= run.connect.len(),
        next_action(run) matches ScanActionView::Connect(next) ==> next == run,
        next_action(run) matches ScanActionView::Finished(result) ==> result == result_of(run),
        RETRY_DELAY_MS == 400,
{
}

/// The addresses with an outcome are those at whose position it stands, in order.
pub proof fn addresses_are_sorted_by_their_own_outcome(
    addresses: Seq<Seq<char>>,
    outcomes: Seq<ConnectOutcome>,
    outcome: ConnectOutcome,
)
    requires
        outcomes.len() <= addresses.len(),
    ensures
        with_outcome(addresses, outcomes, outcome) == Seq::new(outcomes.len(), |i: int| i).filter(
            |i: int| outcomes[i] == outcome,
        ).map_values(|i: int| addresses[i]),
{
    let n = outcomes.len() as int;
    assert(outcomes.take(n) =~= outcomes);
    lemma_sorted_up_to(addresses, outcomes, outcome, n);
}

proof fn lemma_sorted_up_to(
    addresses: Seq<Seq<char>>,
    outcomes: Seq<ConnectOutcome>,
    outcome: ConnectOutcome,
    n: int,
)
    requires
        0 <= n <= outcomes.len() <= addresses.len(),
    ensures
        with_outcome(addresses, outcomes.take(n), outcome) == Seq::new(n as nat, |i: int| i).filter(
            |i: int| outcomes[i] == outcome,
        ).map_values(|i: int| addresses[i]),
    decreases n,
{
    reveal(Seq::filter);
    let all = Seq::new(n as nat, |i: int| i);
    let has = |i: int| outcomes[i] == outcome;
    let at = |i: int| addresses[i];
    if n > 0 {
        lemma_sorted_up_to(addresses, outcomes, outcome, n - 1);
        assert(all.drop_last() =~= Seq::new((n - 1) as nat, |i: int| i));
        assert(outcomes.take(n).drop_last() =~= outcomes.take(n - 1));
        let before = all.drop_last().filter(has);
        assert(before.push(n - 1).map_values(at) =~= before.map_values(at).push(addresses[n - 1]));
    } else {
        assert(all.filter(has).map_values(at) =~= Seq::<Seq<char>>::empty());
    }
}

/// What came of a scan: the network, all that was found, the addresses by what came of each, and
/// what is to be paired.
pub proof fn a_result_tells_what_the_run_found(run: ScanRunView)
    ensures
        ({
            let result = result_of(run);
            &&& result.subnet == Some(run.subnet)
            &&& result.found == run.connect + run.needs_pairing
            &&& result.connected == with_outcome(
                run.connect,
                run.settled,
                ConnectOutcome::Connected,
            )
            &&& result.unauthorized == with_outcome(
                run.connect,
                run.settled,
                ConnectOutcome::Unauthorized,
            )
            &&& result.failed == with_outcome(run.connect, run.settled, ConnectOutcome::Failed)
            &&& result.needs_pairing == run.needs_pairing
            &&& result.message == summary_text(
                run.subnet,
                result.found.len(),
                result.connected.len(),
                result.unauthorized.len(),
                result.needs_pairing,
            )
        }),
{
}

/// A device can be connected to through the services of classic and of wireless debugging, and
/// waits for a code at the pairing service; a service is reached at its host, a colon and its
/// port.
pub proof fn services_are_known_by_their_names(service: MdnsService)
    ensures
        service.connectable() <==> service.service@ == "_adb-tls-connect._tcp"@ || service.service@
            == "_adb._tcp"@,
        service.pairing() <==> service.service@ == "_adb-tls-pairing._tcp"@,
        service.address() == service.host@ + ":"@ + decimal(service.port as nat),
        service.pairing() ==> !service.connectable(),
{
    reveal_strlit("_adb-tls-connect._tcp");
    reveal_strlit("_adb-tls-pairing._tcp");
    reveal_strlit("_adb._tcp");
    assert("_adb-tls-connect._tcp"@[9] == 'c');
    assert("_adb-tls-pairing._tcp"@[9] == 'p');
    assert("_adb-tls-pairing._tcp"@.len() == 21);
    assert("_adb._tcp"@.len() == 9);
}

/// The addresses that are tried are, in order, those of the services that a device can be
/// connected to through, and then port 5555 of the hosts that answered and tell no port.
pub proof fn addresses_come_from_services_and_hosts(
    swept: Seq<Seq<char>>,
    services: Seq<MdnsService>,
)
    ensures
        advertised_addresses(services) == services.filter(
            |s: MdnsService| s.connectable(),
        ).map_values(|s: MdnsService| s.host@ + ":"@ + decimal(s.port as nat)),
        swept_addresses(swept, services) == swept.filter(
            |host: Seq<char>| !advertises(services, host),
        ).map_values(|host: Seq<char>| host + ":"@ + decimal(5555)),
{
    lemma_advertised_in_order(services);
    lemma_swept_in_order(swept, services);
}

proof fn lemma_advertised_in_order(services: Seq<MdnsService>)
    ensures
        advertised_addresses(services) == services.filter(
            |s: MdnsService| s.connectable(),
        ).map_values(|s: MdnsService| s.host@ + ":"@ + decimal(s.port as nat)),
    decreases services.len(),
{
    reveal(Seq::filter);
    let can = |s: MdnsService| s.connectable();
    let at = |s: MdnsService| s.host@ + ":"@ + decimal(s.port as nat);
    if services.len() > 0 {
        let front = services.drop_last();
        lemma_advertised_in_order(front);
        assert(front.filter(can).push(services.last()).map_values(at) =~= front.filter(
            can,
        ).map_values(at).push(services.last().address()));
    } else {
        assert(services.filter(can).map_values(at) =~= Seq::<Seq<char>>::empty());
    }
}

proof fn lemma_swept_in_order(swept: Seq<Seq<char>>, services: Seq<MdnsService>)
    ensures
        swept_addresses(swept, services) == swept.filter(
            |host: Seq<char>| !advertises(services, host),
        ).map_values(|host: Seq<char>| host + ":"@ + decimal(5555)),
    decreases swept.len(),
{
    reveal(Seq::filter);
    let silent = |host: Seq<char>| !advertises(services, host);
    let at = |host: Seq<char>| host + ":"@ + decimal(5555);
    if swept.len() > 0 {
        let front = swept.drop_last();
        lemma_swept_in_order(front, services);
        assert(front.filter(silent).push(swept.last()).map_values(at) =~= front.filter(
            silent,
        ).map_values(at).push(at(swept.last())));
    } else {
        assert(swept.filter(silent).map_values(at) =~= Seq::<Seq<char>>::empty());
    }
}

/// The pairing addresses are, in order, those of the pairing services whose host tells no
/// service to connect to.
pub proof fn pairing_addresses_come_in_order(services: Seq<MdnsService>)
    ensures
        pairing_addresses(services, services.len() as int) == services.filter(
            |s: MdnsService| s.pairing() && !advertises(services, s.host@),
        ).map_values(|s: MdnsService| s.host@ + ":"@ + decimal(s.port as nat)),
{
    let n = services.len() as int;
    lemma_pairing_in_order(services, n);
    assert(services.take(n) =~= services);
}

proof fn lemma_pairing_in_order(services: Seq<MdnsService>, n: int)
    requires
        0 <= n <= services.len(),
    ensures
        pairing_addresses(services, n) == services.take(n).filter(
            |s: MdnsService| s.pairing() && !advertises(services, s.host@),
        ).map_values(|s: MdnsService| s.host@ + ":"@ + decimal(s.port as nat)),
    decreases n,
{
    reveal(Seq::filter);
    let waits = |s: MdnsService| s.pairing() && !advertises(services, s.host@);
    let at = |s: MdnsService| s.host@ + ":"@ + decimal(s.port as nat);
    if n > 0 {
        lemma_pairing_in_order(services, n - 1);
        assert(services.take(n).drop_last() =~= services.take(n - 1));
        let before = services.take(n - 1).filter(waits);
        assert(before.push(services[n - 1]).map_values(at) =~= before.map_values(at).push(
            services[n - 1].address(),
        ));
    } else {
        assert(services.take(0).filter(waits).map_values(at) =~= Seq::<Seq<char>>::empty());
    }
}

/// What devices advertise is tried first, whatever hosts answered, and in the order in which it
/// was advertised.
pub proof fn advertised_addresses_are_tried_first(
    swept: Seq<Seq<char>>,
    services: Seq<MdnsService>,
)
    ensures
        ({
            let advertised = connect_targets(Seq::empty(), services);
            let all = connect_targets(swept, services);
            &&& advertised == with_new(Seq::empty(), advertised_addresses(services))
            &&& advertised.len() <= all.len()
            &&& all.take(advertised.len() as int) == advertised
        }),
{
    let a = advertised_addresses(services);
    let b = swept_addresses(swept, services);
    assert(a + swept_addresses(Seq::empty(), services) =~= a);
    lemma_with_new_twice(Seq::empty(), a, b);
    let _ = new_items_come_in_their_order(with_new(Seq::empty(), a), b);
}

/// What is said of a scan: that nothing was found, or how many devices were found and connected
/// to, how many wait to be authorized, and which wait to be paired. What there is none of is not
/// mentioned.
pub proof fn what_is_said_of_a_scan(
    subnet: Seq<char>,
    found: nat,
    connected: nat,
    unauthorized: nat,
    needs_pairing: Seq<Seq<char>>,
)
    ensures
        ({
            let said = summary_text(subnet, found, connected, unauthorized, needs_pairing);
            let counts = summary_text(subnet, found, connected, 0, Seq::empty());
            let waiting = summary_text(subnet, found, connected, unauthorized, Seq::empty());
            &&& found == 0 ==> said == "No devices on "@ + subnet
                + ".x answered on the ADB port. Make sure Network Debugging is enabled on your TV, or use Connect IP for newer Google TVs that need PIN pairing first."@
            &&& found == 1 ==> counts == "Scanned "@ + subnet + ".x — found "@ + decimal(1)
                + " device, connected "@ + decimal(connected) + "."@
            &&& found > 1 ==> counts == "Scanned "@ + subnet + ".x — found "@ + decimal(found)
                + " devices, connected "@ + decimal(connected) + "."@
            &&& found > 0 && unauthorized == 1 ==> waiting == counts + (" "@ + decimal(1)
                + " needs"@
                + " authorization — accept the \"Allow USB debugging?\" prompt on the TV, then Refresh."@)
            &&& found > 0 && unauthorized > 1 ==> waiting == counts + (" "@ + decimal(unauthorized)
                + " need"@
                + " authorization — accept the \"Allow USB debugging?\" prompt on the TV, then Refresh."@)
            &&& needs_pairing.len() == 0 ==> said == waiting
            &&& found > 0 && needs_pairing.len() > 0 ==> said == waiting + (" "@ + decimal(
                needs_pairing.len(),
            )
                + " waiting to be paired — on the TV open Wireless debugging → Pair device with pairing code, then use Pair PIN with "@
                + join(needs_pairing, ", "@) + "."@)
        }),
{
    let counts = counts_text(subnet, found, connected);
    let none = Seq::<char>::empty();
    assert(counts + none + none =~= counts);
    assert(counts + unauthorized_text(unauthorized) + none =~= counts + unauthorized_text(
        unauthorized,
    ));
}

/// A network is named by its first three numbers, and where none is known nothing was found and
/// the user is told how to name one.
pub proof fn a_network_is_named_by_three_numbers(prefix: Seq<u8>)
    ensures
        subnet_text(prefix) == decimal(prefix[0] as nat) + "."@ + decimal(prefix[1] as nat) + "."@
            + decimal(prefix[2] as nat),
        no_network().subnet is None,
        no_network().found.len() == 0,
        no_network().connected.len() == 0,
        no_network().unauthorized.len() == 0,
        no_network().failed.len() == 0,
        no_network().needs_pairing.len() == 0,
        no_network().message
            == "Could not detect default gateway. Set SHIELD_OPTIMIZER_SUBNET=\"a.b.c\" to override, or use Connect IP."@,
{
}

/// A host tells its port where it advertises a service to connect to, and a pairing service is
/// none.
pub proof fn a_host_tells_its_port_by_a_service(services: Seq<MdnsService>, host: Seq<char>)
    ensures
        advertises(services, host) <==> exists|i: int|
            0 <= i < services.len() && (#[trigger] services[i]).host@ == host && (
            services[i].service@ == "_adb-tls-connect._tcp"@ || services[i].service@
                == "_adb._tcp"@),
{
    if advertises(services, host) {
        let i = choose|i: int|
            0 <= i < services.len() && (#[trigger] services[i]).connectable() && services[i].host@
                == host;
        services_are_known_by_their_names(services[i]);
    }
    if exists|i: int|
        0 <= i < services.len() && (#[trigger] services[i]).host@ == host && (services[i].service@
            == "_adb-tls-connect._tcp"@ || services[i].service@ == "_adb._tcp"@) {
        let i = choose|i: int|
            0 <= i < services.len() && (#[trigger] services[i]).host@ == host && (
            services[i].service@ == "_adb-tls-connect._tcp"@ || services[i].service@
                == "_adb._tcp"@);
        services_are_known_by_their_names(services[i]);
    }
}

} // verus!
