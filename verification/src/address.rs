//! Endpoints that `adb connect` and `adb pair` accept.

use vstd::prelude::*;
use vstd::string::StrSliceExecFns;

use crate::text::{
    a_joined_text_splits_back, a_split_text_joins_back, a_text_stands_where_its_characters_do,
    all_digits, begins_with, chars_of, concat2, concat3, contains_text, decimal,
    decimal_notation_stands_for_its_number, digits_are_the_notation_of_their_number, digits_value,
    find_first, find_last, first_index, holds_text, is_digit, join, last_index,
    lemma_digits_value_grows, lemma_first_index_prefix, lemma_first_index_take, lemma_index_bounds,
    lemma_last_index_between, lemma_trimmed_ends, lemma_trimmed_id,
    numbers_are_digits_with_one_plus_at_most, parse_unsigned, positions_are_the_outermost,
    slice_texts, split, split_text, starts_with, trim, trimmed, unsigned_value, without_plus,
};

verus! {

/// The port of legacy network debugging, taken where a hand-typed address names none.
pub const DEFAULT_PORT: &'static str = "5555";

// ---------------------------------------------------------------------------
// What an address is.
// ---------------------------------------------------------------------------

/// Four numbers of one byte each between dots.
pub open spec fn ipv4_host(host: Seq<char>) -> bool {
    let octets = split(host, '.');
    &&& octets.len() == 4
    &&& forall|i: int| 0 <= i < 4 ==> unsigned_value(#[trigger] octets[i], 255) is Some
}

pub open spec fn is_hex_digit(c: char) -> bool {
    ||| '0' <= c <= '9'
    ||| 'a' <= c <= 'f'
    ||| 'A' <= c <= 'F'
}

/// One 16-bit group of an IPv6 address: one to four hexadecimal digits.
pub open spec fn hex_group(s: Seq<char>) -> bool {
    &&& 1 <= s.len() <= 4
    &&& forall|i: int| 0 <= i < s.len() ==> is_hex_digit(#[trigger] s[i])
}

/// One byte of an IPv4 address inside an IPv6 address: no sign, no leading zero.
pub open spec fn plain_octet(s: Seq<char>) -> bool {
    &&& 1 <= s.len() <= 3
    &&& all_digits(s)
    &&& s[0] == '0' ==> s.len() == 1
    &&& digits_value(s) <= 255
}

/// An IPv4 address inside an IPv6 address.
pub open spec fn dotted_quad(s: Seq<char>) -> bool {
    let octets = split(s, '.');
    &&& octets.len() == 4
    &&& forall|i: int| 0 <= i < 4 ==> plain_octet(#[trigger] octets[i])
}

/// How many 16-bit groups a run of colon-separated pieces stands for, or -1 where a piece
/// is none. The last piece may be an IPv4 address, which stands for two groups, where
/// `quad` allows it.
pub open spec fn group_count(s: Seq<char>, quad: bool) -> int {
    let pieces = split(s, ':');
    let last = pieces.len() - 1;
    if s.len() == 0 {
        0
    } else if exists|i: int| 0 <= i < last && !hex_group(#[trigger] pieces[i]) {
        -1
    } else if hex_group(pieces[last]) {
        last + 1
    } else if quad && dotted_quad(pieces[last]) {
        last + 2
    } else {
        -1
    }
}

/// The first position from `i` on at which two colons stand, or -1.
pub open spec fn double_colon(s: Seq<char>, i: int) -> int
    decreases s.len() - i,
{
    if i < 0 || i + 1 >= s.len() {
        -1
    } else if s[i] == ':' && s[i + 1] == ':' {
        i
    } else {
        double_colon(s, i + 1)
    }
}

/// An IPv6 address in its textual form: eight groups, or fewer with one `::` that stands
/// for at least one group of zeros.
pub open spec fn ipv6_text(s: Seq<char>) -> bool {
    let k = double_colon(s, 0);
    if k < 0 {
        group_count(s, true) == 8
    } else {
        let head = group_count(s.take(k), false);
        let tail = group_count(s.skip(k + 2), true);
        head >= 0 && tail >= 0 && head + tail <= 7
    }
}

/// An IPv6 address in brackets.
pub open spec fn bracketed_ipv6_host(host: Seq<char>) -> bool {
    &&& host.len() > 2
    &&& host[0] == '['
    &&& host.last() == ']'
    &&& ipv6_text(host.subrange(1, host.len() - 1))
}

/// The name of an adb service as mDNS advertises it.
pub open spec fn mdns_host(host: Seq<char>) -> bool {
    holds_text(host, "._tcp"@) && begins_with(host, "adb-"@)
}

/// A host that adb can reach.
pub open spec fn reachable_host(host: Seq<char>) -> bool {
    ipv4_host(host) || bracketed_ipv6_host(host) || mdns_host(host)
}

/// The host and the port of an address, or what is wrong with its brackets.
pub open spec fn host_and_port(a: Seq<char>) -> Result<(Seq<char>, Seq<char>), Seq<char>> {
    if a.len() > 0 && a[0] == '[' {
        let rest = a.drop_first();
        let close = first_index(rest, ']');
        let host = a.take(close + 2);
        let tail = a.skip(close + 2);
        if close < 0 {
            Err("unterminated IPv6 address: "@ + a)
        } else if tail.len() == 0 {
            Ok((host, DEFAULT_PORT@))
        } else if tail[0] == ':' {
            Ok((host, tail.drop_first()))
        } else {
            Err("expected [IPv6]:port, got "@ + a)
        }
    } else {
        let colon = last_index(a, ':');
        if colon < 0 {
            Ok((a, DEFAULT_PORT@))
        } else {
            Ok((a.take(colon), a.skip(colon + 1)))
        }
    }
}

/// The endpoint `host:port` of a host and a port, or what is wrong with them.
pub open spec fn endpoint_of(host: Seq<char>, port: Seq<char>) -> Result<Seq<char>, Seq<char>> {
    if host.len() == 0 {
        Err("address is missing a host"@)
    } else if !reachable_host(host) {
        Err(
            "not an IP address or mDNS service name: "@ + host
                + ". Enter the IP and port shown on the TV's Wireless debugging screen."@,
        )
    } else {
        match unsigned_value(port, 65535) {
            Some(n) => if n == 0 {
                Err("port must be 1-65535, got "@ + port)
            } else {
                Ok(host + ":"@ + port)
            },
            None => Err("invalid port: "@ + port),
        }
    }
}

/// What becomes of an address that a user typed.
pub open spec fn connect_address(address: Seq<char>) -> Result<Seq<char>, Seq<char>> {
    let a = trimmed(address);
    if a.len() == 0 {
        Err("address is empty"@)
    } else {
        match host_and_port(a) {
            Err(message) => Err(message),
            Ok((host, port)) => endpoint_of(host, port),
        }
    }
}

/// The address names a port. The colons of an IPv6 address in brackets name none: where the
/// closing bracket ends the address, no port follows.
pub open spec fn names_port(a: Seq<char>) -> bool {
    a.contains(':') && !(a[0] == '[' && first_index(a.drop_first(), ']') + 2 == a.len())
}

/// What becomes of a pairing address that a user typed: as `connect_address`, but the port
/// has to be there, whatever the shape of the host.
pub open spec fn pairing_address(address: Seq<char>) -> Result<Seq<char>, Seq<char>> {
    if !names_port(trimmed(address)) {
        Err("pairing address must include the port shown on the TV"@)
    } else {
        connect_address(address)
    }
}

/// The characters of a result whose both sides are strings.
pub open spec fn result_text(r: Result<String, String>) -> Result<Seq<char>, Seq<char>> {
    match r {
        Ok(s) => Ok(s@),
        Err(s) => Err(s@),
    }
}

/// A serial of the form `a.b.c.d:port`, whatever the four pieces of the host are.
pub open spec fn ip_port(serial: Seq<char>) -> bool {
    let colon = last_index(serial, ':');
    &&& colon >= 0
    &&& unsigned_value(serial.skip(colon + 1), 65535) is Some
    &&& split(serial.take(colon), '.').len() == 4
}

// ---------------------------------------------------------------------------
// The executable checks.
// ---------------------------------------------------------------------------

/// Whether the host is an IPv4 address.
pub fn is_ipv4(host: &str) -> (r: bool)
    ensures
        r == ipv4_host(host@),
{
    let octets = split_text(host, '.');
    let ghost all = slice_texts(octets@);
    if octets.len() != 4 {
        return false;
    }
    let mut i: usize = 0;
    while i < 4
        invariant
            octets@.len() == 4,
            all == slice_texts(octets@),
            all == split(host@, '.'),
            i <= 4,
            forall|j: int| 0 <= j < i ==> unsigned_value(#[trigger] all[j], 255) is Some,
        decreases 4 - i,
    {
        proof {
            assert(all[i as int] == octets@[i as int]@);
        }
        if parse_unsigned(octets[i], 255).is_none() {
            return false;
        }
        i = i + 1;
    }
    true
}

/// Whether the text is one 16-bit group of an IPv6 address.
fn is_hex_group(s: &str) -> (r: bool)
    ensures
        r == hex_group(s@),
{
    let chars = chars_of(s);
    if chars.len() < 1 || chars.len() > 4 {
        return false;
    }
    let mut i: usize = 0;
    while i < chars.len()
        invariant
            chars@ == s@,
            i <= chars@.len(),
            forall|j: int| 0 <= j < i ==> is_hex_digit(#[trigger] s@[j]),
        decreases chars@.len() - i,
    {
        let c: char = chars[i];
        if !(('0' <= c && c <= '9') || ('a' <= c && c <= 'f') || ('A' <= c && c <= 'F')) {
            proof {
                assert(!is_hex_digit(s@[i as int]));
            }
            return false;
        }
        i = i + 1;
    }
    true
}

/// Whether the text is one byte of an IPv4 address inside an IPv6 address.
fn is_plain_octet(s: &str) -> (r: bool)
    ensures
        r == plain_octet(s@),
{
    let chars = chars_of(s);
    if chars.len() < 1 || chars.len() > 3 {
        return false;
    }
    if chars[0] == '0' && chars.len() > 1 {
        return false;
    }
    if chars[0] == '+' {
        proof {
            assert(!is_digit(s@[0]));
        }
        return false;
    }
    proof {
        assert(without_plus(s@) == s@);
    }
    parse_unsigned(s, 255).is_some()
}

/// Whether the text is an IPv4 address as it stands inside an IPv6 address.
fn is_dotted_quad(s: &str) -> (r: bool)
    ensures
        r == dotted_quad(s@),
{
    let octets = split_text(s, '.');
    let ghost all = slice_texts(octets@);
    if octets.len() != 4 {
        return false;
    }
    let mut i: usize = 0;
    while i < 4
        invariant
            octets@.len() == 4,
            all == slice_texts(octets@),
            all == split(s@, '.'),
            i <= 4,
            forall|j: int| 0 <= j < i ==> plain_octet(#[trigger] all[j]),
        decreases 4 - i,
    {
        proof {
            assert(all[i as int] == octets@[i as int]@);
        }
        if !is_plain_octet(octets[i]) {
            return false;
        }
        i = i + 1;
    }
    true
}

/// The number of 16-bit groups that the pieces stand for, where each is one and they are
/// not more than an address holds.
fn count_groups(s: &str, quad: bool) -> (r: Option<usize>)
    ensures
        match r {
            Some(n) => n == group_count(s@, quad),
            None => group_count(s@, quad) == -1 || group_count(s@, quad) > 8,
        },
{
    if s.is_empty() {
        return Some(0);
    }
    let pieces = split_text(s, ':');
    let ghost all = slice_texts(pieces@);
    proof {
        lemma_split_nonempty(s@, ':');
    }
    if pieces.len() > 8 {
        return None;
    }
    let last: usize = pieces.len() - 1;
    let mut i: usize = 0;
    while i < last
        invariant
            s@.len() > 0,
            all == slice_texts(pieces@),
            all == split(s@, ':'),
            last == pieces@.len() - 1,
            last < 8,
            i <= last,
            forall|j: int| 0 <= j < i ==> hex_group(#[trigger] all[j]),
        decreases last - i,
    {
        proof {
            assert(all[i as int] == pieces@[i as int]@);
        }
        if !is_hex_group(pieces[i]) {
            return None;
        }
        i = i + 1;
    }
    proof {
        assert(all[last as int] == pieces@[last as int]@);
    }
    if is_hex_group(pieces[last]) {
        Some(pieces.len())
    } else if quad && is_dotted_quad(pieces[last]) {
        Some(last + 2)
    } else {
        None
    }
}

proof fn lemma_split_nonempty(s: Seq<char>, sep: char)
    ensures
        split(s, sep).len() >= 1,
    decreases s.len(),
{
    if s.len() > 0 {
        lemma_split_nonempty(s.drop_last(), sep);
    }
}

/// Whether the text is an IPv6 address.
fn is_ipv6(s: &str) -> (r: bool)
    ensures
        r == ipv6_text(s@),
{
    let chars = chars_of(s);
    let mut i: usize = 0;
    while i < chars.len() && chars.len() - i > 1 && !(chars[i] == ':' && chars[i + 1] == ':')
        invariant
            chars@ == s@,
            i <= chars@.len(),
            double_colon(s@, 0) == double_colon(s@, i as int),
        decreases chars@.len() - i,
    {
        i = i + 1;
    }
    if chars.len() - i > 1 {
        let head = count_groups(s.substring_char(0, i), false);
        let tail = count_groups(s.substring_char(i + 2, chars.len()), true);
        proof {
            assert(s@.subrange(0, i as int) =~= s@.take(i as int));
            assert(s@.subrange(i + 2, s@.len() as int) =~= s@.skip(i + 2));
        }
        match (head, tail) {
            (Some(h), Some(t)) => h <= 7 && t <= 7 - h,
            _ => false,
        }
    } else {
        match count_groups(s, true) {
            Some(n) => n == 8,
            None => false,
        }
    }
}

/// Whether the host is an IPv6 address in brackets. Bare IPv6 is ambiguous with
/// `host:port`, and adb wants the brackets anyway.
pub fn is_bracketed_ipv6(host: &str) -> (r: bool)
    ensures
        r == bracketed_ipv6_host(host@),
{
    let chars = chars_of(host);
    let n: usize = chars.len();
    n > 2 && chars[0] == '[' && chars[n - 1] == ']' && is_ipv6(host.substring_char(1, n - 1))
}

/// Whether the host is an adb wireless-debugging mDNS instance, such as
/// `adb-58040DLCH005YV-jBeCEe._adb-tls-connect._tcp`.
pub fn is_mdns_instance(host: &str) -> (r: bool)
    ensures
        r == mdns_host(host@),
{
    contains_text(host, "._tcp") && starts_with(host, "adb-")
}

/// Whether a device serial is an address that a person can act on, `a.b.c.d:port`, rather
/// than a USB serial or a service name.
pub fn is_ip_port(serial: &str) -> (r: bool)
    ensures
        r == ip_port(serial@),
{
    match find_last(serial, ':') {
        Some(colon) => {
            proof {
                lemma_index_bounds(serial@, ':');
            }
            let n: usize = serial.unicode_len();
            let host = serial.substring_char(0, colon);
            let port = serial.substring_char(colon + 1, n);
            proof {
                assert(host@ =~= serial@.take(colon as int));
                assert(port@ =~= serial@.skip(colon + 1));
            }
            let pieces = split_text(host, '.');
            proof {
                assert(slice_texts(pieces@).len() == pieces@.len());
            }
            parse_unsigned(port, 65535).is_some() && pieces.len() == 4
        },
        None => false,
    }
}

/// The host and the port of a trimmed address.
fn split_address(a: &str) -> (r: Result<(&str, &str), String>)
    ensures
        match (r, host_and_port(a@)) {
            (Ok((host, port)), Ok((h, p))) => host@ == h && port@ == p,
            (Err(message), Err(m)) => message@ == m,
            _ => false,
        },
{
    let n: usize = a.unicode_len();
    if n > 0 && a.get_char(0) == '[' {
        // A bracketed IPv6 literal carries colons of its own, so the port is what follows
        // the closing bracket, not the last colon.
        let rest = a.substring_char(1, n);
        proof {
            assert(rest@ =~= a@.drop_first());
            lemma_index_bounds(rest@, ']');
        }
        match find_first(rest, ']') {
            None => Err(concat2("unterminated IPv6 address: ", a)),
            Some(close) => {
                let host = a.substring_char(0, close + 2);
                proof {
                    assert(host@ =~= a@.take(close + 2));
                }
                if close + 2 == n {
                    Ok((host, DEFAULT_PORT))
                } else if a.get_char(close + 2) == ':' {
                    let port = a.substring_char(close + 3, n);
                    proof {
                        assert(port@ =~= a@.skip(close + 2).drop_first());
                    }
                    Ok((host, port))
                } else {
                    Err(concat2("expected [IPv6]:port, got ", a))
                }
            },
        }
    } else {
        proof {
            lemma_index_bounds(a@, ':');
        }
        match find_last(a, ':') {
            None => Ok((a, DEFAULT_PORT)),
            Some(colon) => {
                let host = a.substring_char(0, colon);
                let port = a.substring_char(colon + 1, n);
                proof {
                    assert(host@ =~= a@.take(colon as int));
                    assert(port@ =~= a@.skip(colon + 1));
                }
                Ok((host, port))
            },
        }
    }
}

/// Validates and normalizes an endpoint for `adb connect` and `adb pair`.
///
/// Three shapes are accepted: `IPv4[:port]`, `[IPv6][:port]` in brackets, and an mDNS
/// service name with or without a port. A missing port is taken to be 5555, which is right
/// for legacy network debugging; discovery supplies the real port of newer devices. Empty
/// input is refused, and so is any port that is not a positive 16-bit number.
pub fn normalize_connect_address(address: &str) -> (r: Result<String, String>)
    ensures
        result_text(r) == connect_address(address@),
{
    let address = trim(address);
    if address.is_empty() {
        return Err("address is empty".to_owned());
    }
    let (host, port) = match split_address(address) {
        Ok(parts) => parts,
        Err(message) => {
            return Err(message);
        },
    };
    if host.is_empty() {
        return Err("address is missing a host".to_owned());
    }
    if !is_ipv4(host) && !is_bracketed_ipv6(host) && !is_mdns_instance(host) {
        return Err(
            concat3(
                "not an IP address or mDNS service name: ",
                host,
                ". Enter the IP and port shown on the TV's Wireless debugging screen.",
            ),
        );
    }
    match parse_unsigned(port, 65535) {
        Some(0) => Err(concat2("port must be 1-65535, got ", port)),
        Some(_) => Ok(concat3(host, ":", port)),
        None => Err(concat2("invalid port: ", port)),
    }
}

/// Whether the trimmed address names a port.
fn has_port(a: &str) -> (r: bool)
    ensures
        r == names_port(a@),
{
    proof {
        lemma_first_index_contains(a@, ':');
        lemma_index_bounds(a@, ':');
    }
    if find_first(a, ':').is_none() {
        return false;
    }
    let n: usize = a.unicode_len();
    if a.get_char(0) != '[' {
        return true;
    }
    let rest = a.substring_char(1, n);
    proof {
        assert(rest@ =~= a@.drop_first());
        lemma_index_bounds(rest@, ']');
    }
    match find_first(rest, ']') {
        Some(close) => close + 2 != n,
        None => true,
    }
}

/// Validates and normalizes an endpoint for `adb pair`, whose port the user has to give. None
/// is ever filled in: a device need not listen on the classic port.
pub fn normalize_pairing_address(address: &str) -> (r: Result<String, String>)
    ensures
        result_text(r) == pairing_address(address@),
{
    if has_port(trim(address)) {
        normalize_connect_address(address)
    } else {
        Err("pairing address must include the port shown on the TV".to_owned())
    }
}

proof fn lemma_first_index_contains(s: Seq<char>, c: char)
    ensures
        first_index(s, c) >= 0 <==> s.contains(c),
    decreases s.len(),
{
    lemma_index_bounds(s, c);
    if s.len() > 0 {
        lemma_first_index_contains(s.drop_last(), c);
        if s.contains(c) {
            let i = choose|i: int| 0 <= i < s.len() && s[i] == c;
            if i < s.len() - 1 {
                assert(s.drop_last()[i] == c);
            }
        }
    }
}

// ---------------------------------------------------------------------------
// Laws.
// ---------------------------------------------------------------------------

/// A port that was accepted is a run of digits, with at most a plus sign before it.
proof fn lemma_port_shape(port: Seq<char>)
    requires
        unsigned_value(port, 65535) is Some,
    ensures
        port.len() > 0,
        is_digit(port.last()),
        !port.contains(':'),
{
    let digits = without_plus(port);
    assert(is_digit(digits[digits.len() - 1]));
    assert(port.last() == digits[digits.len() - 1]);
    if port.contains(':') {
        let i = choose|i: int| 0 <= i < port.len() && port[i] == ':';
        if digits == port {
            assert(is_digit(digits[i]));
        } else if i > 0 {
            assert(digits[i - 1] == port[i]);
            assert(is_digit(digits[i - 1]));
        }
    }
}

/// The endpoint is the host and the port with a colon between them, and both are good.
pub open spec fn made_of(endpoint: Seq<char>, host: Seq<char>, port: Seq<char>) -> bool {
    &&& endpoint == host + ":"@ + port
    &&& reachable_host(host)
    &&& unsigned_value(port, 65535) matches Some(n)
    &&& 1 <= n <= 65535
}

/// An accepted endpoint is a reachable host, a colon and a port between 1 and 65535, and
/// it is accepted again as it stands: what discovery or an earlier connect showed can be
/// pasted back.
pub proof fn normalized_address_is_stable(address: Seq<char>)
    requires
        connect_address(address) is Ok,
    ensures
        connect_address(connect_address(address)->Ok_0) == connect_address(address),
        exists|host: Seq<char>, port: Seq<char>|
            made_of(connect_address(address)->Ok_0, host, port),
{
    let a = trimmed(address);
    let (host, port) = host_and_port(a)->Ok_0;
    let r = host + ":"@ + port;
    reveal_strlit(":");
    assert(connect_address(address) == Ok::<Seq<char>, Seq<char>>(r));
    lemma_port_shape(port);
    lemma_digits_value_grows(without_plus(port), 0);
    lemma_trimmed_ends(address);
    lemma_index_bounds(a, ':');
    lemma_index_bounds(a.drop_first(), ']');
    assert(host[0] == a[0]);
    assert(r.first() == a[0]);
    assert(r.last() == port.last());
    lemma_trimmed_id(r);
    if a[0] == '[' {
        let close = first_index(a.drop_first(), ']');
        lemma_first_index_take(a.drop_first(), ']');
        assert(a.drop_first().take(close + 1) =~= r.drop_first().take(close + 1));
        lemma_first_index_prefix(r.drop_first(), ']', close + 1);
        assert(r.take(close + 2) =~= host);
        assert(r.skip(close + 2) =~= ":"@ + port);
        assert(r.skip(close + 2).drop_first() =~= port);
    } else {
        assert(":"@ =~= seq![':']);
        lemma_last_index_between(host, ':', port);
        assert(r.take(host.len() as int) =~= host);
        assert(r.skip(host.len() as int + 1) =~= port);
    }
    assert(host_and_port(r) == Ok::<(Seq<char>, Seq<char>), Seq<char>>((host, port)));
    assert(made_of(r, host, port));
}

/// A pairing address is accepted only where it names the port itself, and then it is taken as
/// it was typed: no port is ever filled in.
pub proof fn pairing_address_names_its_port(address: Seq<char>)
    ensures
        pairing_address(address) is Ok ==> names_port(trimmed(address)) && pairing_address(address)
            == Ok::<Seq<char>, Seq<char>>(trimmed(address)),
{
    if pairing_address(address) is Ok {
        let a = trimmed(address);
        let (host, port) = host_and_port(a)->Ok_0;
        reveal_strlit(":");
        lemma_index_bounds(a, ':');
        lemma_index_bounds(a.drop_first(), ']');
        lemma_last_index_contains(a, ':');
        assert(host + ":"@ + port =~= a);
    }
}

proof fn lemma_last_index_contains(s: Seq<char>, c: char)
    ensures
        last_index(s, c) >= 0 <==> s.contains(c),
    decreases s.len(),
{
    lemma_index_bounds(s, c);
    if s.len() > 0 {
        lemma_last_index_contains(s.drop_last(), c);
        if s.contains(c) {
            let i = choose|i: int| 0 <= i < s.len() && s[i] == c;
            if i < s.len() - 1 {
                assert(s.drop_last()[i] == c);
            }
        }
    }
}

proof fn lemma_number_has_no(s: Seq<char>, max: int, c: char)
    requires
        unsigned_value(s, max) is Some,
        !is_digit(c),
        c != '+',
    ensures
        !s.contains(c),
{
    numbers_are_digits_with_one_plus_at_most(s, max);
    if s.contains(c) {
        let i = choose|i: int| 0 <= i < s.len() && s[i] == c;
        assert(48 <= s[i] as int <= 57 || (i == 0 && s[0] == '+'));
    }
}

/// An IPv4 host is four numbers of at most 255 with dots between them, and nothing else is.
pub proof fn an_ipv4_host_is_four_bytes(host: Seq<char>)
    ensures
        ipv4_host(host) <==> exists|octets: Seq<Seq<char>>|
            octets.len() == 4 && host == #[trigger] join(octets, seq!['.']) && forall|i: int|
                0 <= i < 4 ==> unsigned_value(#[trigger] octets[i], 255) is Some,
{
    a_split_text_joins_back(host, '.');
    if ipv4_host(host) {
        assert(host == join(split(host, '.'), seq!['.']));
    }
    if exists|octets: Seq<Seq<char>>|
        octets.len() == 4 && host == #[trigger] join(octets, seq!['.']) && forall|i: int|
            0 <= i < 4 ==> unsigned_value(#[trigger] octets[i], 255) is Some {
        let octets = choose|octets: Seq<Seq<char>>|
            octets.len() == 4 && host == #[trigger] join(octets, seq!['.']) && forall|i: int|
                0 <= i < 4 ==> unsigned_value(#[trigger] octets[i], 255) is Some;
        assert forall|i: int| 0 <= i < octets.len() implies !(#[trigger] octets[i]).contains(
            '.',
        ) by {
            lemma_number_has_no(octets[i], 255, '.');
        }
        a_joined_text_splits_back(octets, '.');
    }
}

/// The name of a service begins with `adb-` and holds `._tcp`.
pub proof fn a_service_name_is_known_by_its_ends(host: Seq<char>)
    ensures
        mdns_host(host) <==> host.len() >= 4 && host.take(4) == seq!['a', 'd', 'b', '-'] && exists|
            front: Seq<char>,
            back: Seq<char>,
        | host == #[trigger] (front + "._tcp"@ + back),
        reachable_host(host) <==> ipv4_host(host) || bracketed_ipv6_host(host) || mdns_host(host),
{
    reveal_strlit("adb-");
    assert("adb-"@ =~= seq!['a', 'd', 'b', '-']);
    a_text_stands_where_its_characters_do(host, "adb-"@, 0);
    a_text_stands_where_its_characters_do(host, "._tcp"@, 0);
}

/// One group of an IPv6 address is of one to four of the digits 0 to 9, a to f and A to F.
pub proof fn a_group_is_of_hexadecimal_digits(s: Seq<char>)
    ensures
        hex_group(s) <==> 1 <= s.len() <= 4 && forall|i: int|
            0 <= i < s.len() ==> {
                let code = (#[trigger] s[i]) as int;
                48 <= code <= 57 || 97 <= code <= 102 || 65 <= code <= 70
            },
{
    if hex_group(s) {
        assert forall|i: int| 0 <= i < s.len() implies {
            let code = (#[trigger] s[i]) as int;
            48 <= code <= 57 || 97 <= code <= 102 || 65 <= code <= 70
        } by {
            assert(is_hex_digit(s[i]));
        }
    }
}

/// A byte of an IPv4 address inside an IPv6 address is the decimal notation of a number of at
/// most 255.
pub proof fn a_plain_octet_is_a_byte_in_decimal(s: Seq<char>)
    ensures
        plain_octet(s) <==> exists|n: nat| n <= 255 && s == #[trigger] decimal(n),
{
    if plain_octet(s) {
        digits_are_the_notation_of_their_number(s);
        assert(s == decimal(digits_value(s) as nat));
    }
    if exists|n: nat| n <= 255 && s == #[trigger] decimal(n) {
        let n = choose|n: nat| n <= 255 && s == #[trigger] decimal(n);
        decimal_notation_stands_for_its_number(n);
        reveal_with_fuel(decimal, 4);
    }
}

/// The text stands for that many groups of an IPv6 address, with colons between them. The last
/// two may be written as an IPv4 address, where `quad` allows it.
pub open spec fn is_groups(s: Seq<char>, n: int, quad: bool) -> bool {
    ||| n == 0 && s.len() == 0
    ||| exists|parts: Seq<Seq<char>>|
        parts.len() == n && n >= 1 && s == #[trigger] join(parts, seq![':']) && all_hex(parts)
    ||| quad && exists|parts: Seq<Seq<char>>, octets: Seq<char>|
        parts.len() == n - 2 && s == #[trigger] join(parts.push(octets), seq![':']) && all_hex(
            parts,
        ) && is_byte_quad(octets)
}

/// Each piece is one group.
pub open spec fn all_hex(parts: Seq<Seq<char>>) -> bool {
    forall|i: int| 0 <= i < parts.len() ==> hex_group(#[trigger] parts[i])
}

/// The text is four bytes in decimal with dots between them.
pub open spec fn is_byte_quad(s: Seq<char>) -> bool {
    exists|octets: Seq<Seq<char>>|
        octets.len() == 4 && s == #[trigger] join(octets, seq!['.']) && forall|i: int|
            0 <= i < 4 ==> plain_octet(#[trigger] octets[i])
}

proof fn lemma_octet_has_no(s: Seq<char>, c: char)
    requires
        plain_octet(s),
        !is_digit(c),
    ensures
        !s.contains(c),
{
    if s.contains(c) {
        let i = choose|i: int| 0 <= i < s.len() && s[i] == c;
        assert(is_digit(s[i]));
    }
}

proof fn lemma_group_has_no(s: Seq<char>, c: char)
    requires
        hex_group(s),
        !is_hex_digit(c),
    ensures
        !s.contains(c),
{
    if s.contains(c) {
        let i = choose|i: int| 0 <= i < s.len() && s[i] == c;
        assert(is_hex_digit(s[i]));
    }
}

proof fn lemma_byte_quad(s: Seq<char>)
    ensures
        dotted_quad(s) <==> is_byte_quad(s),
{
    a_split_text_joins_back(s, '.');
    if dotted_quad(s) {
        assert(s == join(split(s, '.'), seq!['.']));
    }
    if is_byte_quad(s) {
        let octets = choose|octets: Seq<Seq<char>>|
            octets.len() == 4 && s == #[trigger] join(octets, seq!['.']) && forall|i: int|
                0 <= i < 4 ==> plain_octet(#[trigger] octets[i]);
        assert forall|i: int| 0 <= i < octets.len() implies !(#[trigger] octets[i]).contains(
            '.',
        ) by {
            lemma_octet_has_no(octets[i], '.');
        }
        a_joined_text_splits_back(octets, '.');
    }
}

proof fn lemma_join_holds(parts: Seq<Seq<char>>, sep: char, c: char)
    requires
        join(parts, seq![sep]).contains(c),
        c != sep,
    ensures
        exists|i: int| 0 <= i < parts.len() && (#[trigger] parts[i]).contains(c),
    decreases parts.len(),
{
    let whole = join(parts, seq![sep]);
    let k = choose|k: int| 0 <= k < whole.len() && whole[k] == c;
    if parts.len() == 1 {
        assert(parts[0].contains(c));
    } else if parts.len() > 1 {
        let front = parts.drop_last();
        let before = join(front, seq![sep]);
        let last = parts.len() - 1;
        if k < before.len() {
            assert(before[k] == c);
            lemma_join_holds(front, sep, c);
            let i = choose|i: int| 0 <= i < front.len() && (#[trigger] front[i]).contains(c);
            assert(parts[i] == front[i]);
        } else {
            assert(k != before.len());
            assert(parts[last][k - before.len() - 1] == c);
            assert(parts[last].contains(c));
        }
    }
}

proof fn lemma_quad_shape(s: Seq<char>)
    requires
        dotted_quad(s),
    ensures
        !s.contains(':'),
        !hex_group(s),
        s.len() > 0,
{
    let octets = split(s, '.');
    a_split_text_joins_back(s, '.');
    if s.contains(':') {
        lemma_join_holds(octets, '.', ':');
        let i = choose|i: int| 0 <= i < octets.len() && (#[trigger] octets[i]).contains(':');
        lemma_octet_has_no(octets[i], ':');
    }
    if !s.contains('.') {
        a_joined_text_splits_back(seq![s], '.');
        assert(split(s, '.').len() == 1);
    }
    if hex_group(s) {
        lemma_group_has_no(s, '.');
    }
}

proof fn lemma_join_nonempty(parts: Seq<Seq<char>>, sep: char)
    requires
        parts.len() > 0,
        forall|i: int| 0 <= i < parts.len() ==> (#[trigger] parts[i]).len() > 0,
    ensures
        join(parts, seq![sep]).len() > 0,
        join(parts, seq![sep]).last() == parts.last().last(),
        join(parts, seq![sep])[0] == parts[0][0],
    decreases parts.len(),
{
    assert(parts[0].len() > 0);
    assert(parts[parts.len() - 1].len() > 0);
    if parts.len() > 1 {
        let front = parts.drop_last();
        assert forall|i: int| 0 <= i < front.len() implies (#[trigger] front[i]).len() > 0 by {
            assert(front[i] == parts[i]);
        }
        lemma_join_nonempty(front, sep);
        assert(front[0] == parts[0]);
    }
}

proof fn lemma_groups_of_parts(parts: Seq<Seq<char>>, quad: bool)
    requires
        parts.len() > 0,
        all_hex(parts.drop_last()),
        hex_group(parts.last()) || (quad && dotted_quad(parts.last())),
    ensures
        ({
            let s = join(parts, seq![':']);
            &&& split(s, ':') == parts
            &&& s.len() > 0
            &&& group_count(s, quad) == (if hex_group(parts.last()) {
                parts.len() as int
            } else {
                parts.len() as int + 1
            })
        }),
{
    let s = join(parts, seq![':']);
    let last = parts.len() - 1;
    if dotted_quad(parts.last()) {
        lemma_quad_shape(parts.last());
    }
    assert forall|i: int| 0 <= i < parts.len() implies !(#[trigger] parts[i]).contains(':')
        && parts[i].len() > 0 by {
        if i < last {
            assert(parts.drop_last()[i] == parts[i]);
            lemma_group_has_no(parts[i], ':');
        } else if hex_group(parts[i]) {
            lemma_group_has_no(parts[i], ':');
        }
    }
    a_joined_text_splits_back(parts, ':');
    lemma_join_nonempty(parts, ':');
    assert forall|i: int| 0 <= i < last implies hex_group(#[trigger] parts[i]) by {
        assert(parts.drop_last()[i] == parts[i]);
    }
}

/// Groups are counted one by one, and an IPv4 address at the end for two; a text that stands for
/// no such thing has no count.
pub proof fn groups_are_counted_one_by_one(s: Seq<char>, n: int, quad: bool)
    requires
        n >= 0,
    ensures
        group_count(s, quad) == n <==> is_groups(s, n, quad),
        group_count(s, quad) >= -1,
{
    let pieces = split(s, ':');
    let last = pieces.len() - 1;
    a_split_text_joins_back(s, ':');
    lemma_byte_quad(pieces[last]);
    if group_count(s, quad) == n && s.len() > 0 {
        assert(s == join(pieces, seq![':']));
        assert forall|i: int| 0 <= i < last implies hex_group(#[trigger] pieces[i]) by {}
        if hex_group(pieces[last]) {
            assert(all_hex(pieces));
            assert(is_groups(s, n, quad));
        } else {
            let front = pieces.drop_last();
            assert(front.push(pieces[last]) =~= pieces);
            assert(all_hex(front));
            assert(is_groups(s, n, quad));
        }
    }
    if is_groups(s, n, quad) && !(n == 0 && s.len() == 0) {
        if exists|parts: Seq<Seq<char>>|
            parts.len() == n && n >= 1 && s == #[trigger] join(parts, seq![':']) && all_hex(
                parts,
            ) {
            let parts = choose|parts: Seq<Seq<char>>|
                parts.len() == n && n >= 1 && s == #[trigger] join(parts, seq![':']) && all_hex(
                    parts,
                );
            assert forall|i: int| 0 <= i < parts.drop_last().len() implies hex_group(
                #[trigger] parts.drop_last()[i],
            ) by {
                assert(parts.drop_last()[i] == parts[i]);
            }
            assert(hex_group(parts[parts.len() - 1]));
            lemma_groups_of_parts(parts, quad);
        } else {
            let (parts, octets) = choose|parts: Seq<Seq<char>>, octets: Seq<char>|
                parts.len() == n - 2 && s == #[trigger] join(parts.push(octets), seq![':'])
                    && all_hex(parts) && is_byte_quad(octets);
            assert(parts.push(octets).drop_last() =~= parts);
            lemma_byte_quad(octets);
            lemma_quad_shape(octets);
            lemma_groups_of_parts(parts.push(octets), quad);
        }
    }
}

/// Two colons stand one behind the other.
pub open spec fn colons_at(s: Seq<char>, i: int) -> bool {
    0 <= i < s.len() - 1 && s[i] == ':' && s[i + 1] == ':'
}

proof fn lemma_double_colon(s: Seq<char>, from: int)
    requires
        0 <= from,
    ensures
        ({
            let k = double_colon(s, from);
            &&& k == -1 || (from <= k && colons_at(s, k))
            &&& forall|i: int| from <= i && (k == -1 || i < k) ==> !#[trigger] colons_at(s, i)
        }),
    decreases s.len() - from,
{
    if from + 1 < s.len() && !(s[from] == ':' && s[from + 1] == ':') {
        lemma_double_colon(s, from + 1);
        assert(!colons_at(s, from));
    }
}

proof fn lemma_empty_piece(s: Seq<char>, i: int)
    requires
        colons_at(s, i),
    ensures
        exists|j: int|
            0 < j < split(s, ':').len() - 1 && (#[trigger] split(s, ':')[j]).len() == 0,
    decreases s.len(),
{
    let front = s.drop_last();
    let parts = split(front, ':');
    lemma_split_nonempty(front, ':');
    if i + 1 < front.len() {
        assert(colons_at(front, i));
        lemma_empty_piece(front, i);
        let j = choose|j: int| 0 < j < parts.len() - 1 && (#[trigger] parts[j]).len() == 0;
        assert(split(s, ':')[j] == parts[j]);
    } else {
        assert(front.last() == ':');
        lemma_split_nonempty(front.drop_last(), ':');
        assert(parts.last().len() == 0);
        let j = parts.len() - 1;
        assert(split(s, ':')[j] == parts[j]);
    }
}

proof fn lemma_groups_have_no_double_colon(s: Seq<char>, n: int, quad: bool)
    requires
        n >= 0,
        is_groups(s, n, quad),
    ensures
        forall|i: int| !#[trigger] colons_at(s, i),
        s.len() > 0 ==> s.last() != ':' && s[0] != ':',
{
    groups_are_counted_one_by_one(s, n, quad);
    let pieces = split(s, ':');
    let last = pieces.len() - 1;
    a_split_text_joins_back(s, ':');
    if s.len() > 0 {
        assert forall|i: int| 0 <= i < pieces.len() implies (#[trigger] pieces[i]).len() > 0 by {
            if i == last && !hex_group(pieces[i]) {
                lemma_quad_shape(pieces[i]);
            }
        }
        lemma_join_nonempty(pieces, ':');
        assert(!pieces[last].contains(':'));
        assert(!pieces[0].contains(':'));
        assert(pieces[last].len() > 0 && pieces[0].len() > 0);
        assert(pieces[last].contains(pieces[last][pieces[last].len() - 1]));
        assert(pieces[0].contains(pieces[0][0]));
        assert forall|i: int| !#[trigger] colons_at(s, i) by {
            if colons_at(s, i) {
                lemma_empty_piece(s, i);
                let j = choose|j: int| 0 < j < pieces.len() - 1 && (#[trigger] pieces[j]).len() == 0;
                assert(pieces[j].len() > 0);
            }
        }
    }
}

/// The groups before and behind the two colons are together fewer than an address has.
pub open spec fn is_shortened(s: Seq<char>, head: Seq<char>, tail: Seq<char>) -> bool {
    &&& s == head + seq![':', ':'] + tail
    &&& exists|h: int, t: int|
        h >= 0 && t >= 0 && h + t <= 7 && #[trigger] is_groups(head, h, false)
            && #[trigger] is_groups(tail, t, true)
}

/// An IPv6 address is eight groups with colons between them, or fewer with two colons once in
/// place of the groups that are left out; and nothing else is one.
pub proof fn an_ipv6_address_is_eight_groups_or_shortened(s: Seq<char>)
    ensures
        ipv6_text(s) <==> {
            ||| is_groups(s, 8, true)
            ||| exists|head: Seq<char>, tail: Seq<char>| #[trigger] is_shortened(s, head, tail)
        },
{
    let k = double_colon(s, 0);
    lemma_double_colon(s, 0);
    groups_are_counted_one_by_one(s, 8, true);
    if is_groups(s, 8, true) {
        lemma_groups_have_no_double_colon(s, 8, true);
        assert(k == -1);
    }
    if exists|head: Seq<char>, tail: Seq<char>| #[trigger] is_shortened(s, head, tail) {
        let (head, tail) = choose|head: Seq<char>, tail: Seq<char>| #[trigger]
            is_shortened(s, head, tail);
        let (h, t) = choose|h: int, t: int|
            h >= 0 && t >= 0 && h + t <= 7 && #[trigger] is_groups(head, h, false)
                && #[trigger] is_groups(tail, t, true);
        let n = head.len() as int;
        lemma_groups_have_no_double_colon(head, h, false);
        groups_are_counted_one_by_one(head, h, false);
        groups_are_counted_one_by_one(tail, t, true);
        assert(colons_at(s, n));
        assert forall|i: int| 0 <= i < n implies !#[trigger] colons_at(s, i) by {
            if i < n - 1 {
                assert(!colons_at(head, i));
            }
        }
        assert(k == n);
        assert(s.take(k) =~= head);
        assert(s.skip(k + 2) =~= tail);
    }
    if ipv6_text(s) && k >= 0 {
        let head = s.take(k);
        let tail = s.skip(k + 2);
        let h = group_count(head, false);
        let t = group_count(tail, true);
        groups_are_counted_one_by_one(head, h, false);
        groups_are_counted_one_by_one(tail, t, true);
        assert(s =~= head + seq![':', ':'] + tail);
        assert(is_groups(head, h, false) && is_groups(tail, t, true));
        assert(is_shortened(s, head, tail));
    }
}

/// An IPv6 host is an IPv6 address between brackets.
pub proof fn an_ipv6_host_stands_in_brackets(host: Seq<char>)
    ensures
        bracketed_ipv6_host(host) <==> exists|inner: Seq<char>|
            inner.len() > 0 && host == #[trigger] (seq!['['] + inner + seq![']']) && ipv6_text(
                inner,
            ),
{
    if bracketed_ipv6_host(host) {
        let inner = host.subrange(1, host.len() - 1);
        assert(host =~= seq!['['] + inner + seq![']']);
    }
    if exists|inner: Seq<char>|
        inner.len() > 0 && host == #[trigger] (seq!['['] + inner + seq![']']) && ipv6_text(inner) {
        let inner = choose|inner: Seq<char>|
            inner.len() > 0 && host == #[trigger] (seq!['['] + inner + seq![']']) && ipv6_text(
                inner,
            );
        assert(host.subrange(1, host.len() - 1) =~= inner);
    }
}

/// An endpoint needs a host that adb can reach and a port from 1 to 65535, and is then the two
/// with a colon between them; what is wrong is told with the part that is.
pub proof fn an_endpoint_needs_a_host_and_a_port(host: Seq<char>, port: Seq<char>)
    ensures
        ({
            let r = endpoint_of(host, port);
            let number = unsigned_value(port, 65535);
            &&& r is Ok <==> host.len() > 0 && reachable_host(host) && number is Some
                && number->Some_0 != 0
            &&& r matches Ok(endpoint) ==> endpoint == host.push(':') + port
            &&& host.len() == 0 ==> r is Err && r->Err_0 == "address is missing a host"@
            &&& host.len() > 0 && !reachable_host(host) ==> r is Err && r->Err_0
                == "not an IP address or mDNS service name: "@ + host
                + ". Enter the IP and port shown on the TV's Wireless debugging screen."@
            &&& host.len() > 0 && reachable_host(host) && number is None ==> r is Err && r->Err_0
                == "invalid port: "@ + port
            &&& host.len() > 0 && reachable_host(host) && number == Some(0int) ==> r is Err
                && r->Err_0 == "port must be 1-65535, got "@ + port
        }),
{
    reveal_strlit(":");
    assert(host + ":"@ + port =~= host.push(':') + port);
}

/// White space round an address does not matter, and an address of nothing else is empty.
pub proof fn white_space_round_an_address_does_not_matter(address: Seq<char>)
    ensures
        connect_address(address) == connect_address(trimmed(address)),
        pairing_address(address) == pairing_address(trimmed(address)),
        trimmed(address).len() == 0 ==> connect_address(address) is Err && connect_address(
            address,
        )->Err_0 == "address is empty"@,
{
    lemma_trimmed_ends(address);
    lemma_trimmed_id(trimmed(address));
}

/// What stands behind the last colon of an address is its port, and what stands before it the
/// host; an address without a colon is a host, and its port is 5555. For pairing a port has to
/// be there.
pub proof fn the_last_colon_parts_host_and_port(host: Seq<char>, port: Seq<char>)
    requires
        host.len() > 0 ==> host[0] != '[',
        !port.contains(':'),
    ensures
        ({
            let a = host + seq![':'] + port;
            trimmed(a) == a ==> connect_address(a) == endpoint_of(host, port) && pairing_address(a)
                == endpoint_of(host, port)
        }),
        host.len() > 0 && trimmed(host) == host && !host.contains(':') ==> {
            &&& connect_address(host) == endpoint_of(host, "5555"@)
            &&& pairing_address(host) is Err && pairing_address(host)->Err_0
                == "pairing address must include the port shown on the TV"@
        },
{
    let a = host + seq![':'] + port;
    lemma_last_index_between(host, ':', port);
    assert(a.take(host.len() as int) =~= host);
    assert(a.skip(host.len() as int + 1) =~= port);
    assert(a[host.len() as int] == ':');
    assert(a.contains(':'));
    lemma_last_index_contains(host, ':');
    lemma_index_bounds(host, ':');
}

/// An address that begins with a bracket has its host up to the first closing one, and behind
/// that nothing, or a colon and the port. Without a port it is 5555, but for pairing one has to
/// be there.
pub proof fn a_bracket_holds_the_host(inner: Seq<char>, tail: Seq<char>)
    requires
        !inner.contains(']'),
    ensures
        ({
            let host = seq!['['] + inner + seq![']'];
            let a = host + tail;
            trimmed(a) == a ==> {
                &&& tail.len() == 0 ==> connect_address(a) == endpoint_of(host, "5555"@)
                    && pairing_address(a) is Err && pairing_address(a)->Err_0
                    == "pairing address must include the port shown on the TV"@
                &&& tail.len() > 0 && tail[0] == ':' ==> connect_address(a) == endpoint_of(
                    host,
                    tail.skip(1),
                ) && pairing_address(a) == endpoint_of(host, tail.skip(1))
                &&& tail.len() > 0 && tail[0] != ':' ==> connect_address(a) is Err
                    && connect_address(a)->Err_0 == "expected [IPv6]:port, got "@ + a
            }
        }),
        ({
            let a = seq!['['] + inner;
            trimmed(a) == a ==> connect_address(a) is Err && connect_address(a)->Err_0
                == "unterminated IPv6 address: "@ + a
        }),
{
    let host = seq!['['] + inner + seq![']'];
    let a = host + tail;
    let rest = a.drop_first();
    assert(rest =~= inner + seq![']'] + tail);
    positions_are_the_outermost(rest, ']');
    assert(rest[inner.len() as int] == ']');
    assert(rest.contains(']'));
    let close = first_index(rest, ']');
    assert(close == inner.len()) by {
        if close < inner.len() {
            assert(inner[close] == ']');
            assert(inner.contains(']'));
        }
    }
    assert(a.take(close + 2) =~= host);
    assert(a.skip(close + 2) =~= tail);
    if tail.len() > 0 {
        assert(tail.drop_first() =~= tail.skip(1));
        if tail[0] == ':' {
            assert(a[close + 2] == ':');
            assert(a.contains(':'));
        }
    }
    let open = seq!['['] + inner;
    assert(open.drop_first() =~= inner);
    positions_are_the_outermost(inner, ']');
}

/// A serial is taken for an address that a person can use where a number of at most 65535 stands
/// behind its last colon, and four pieces with dots between them before it.
pub proof fn an_address_serial_is_four_pieces_and_a_port(host: Seq<char>, port: Seq<char>)
    requires
        !port.contains(':'),
    ensures
        ip_port(host + seq![':'] + port) <==> unsigned_value(port, 65535) is Some && exists|
            pieces: Seq<Seq<char>>,
        |
            pieces.len() == 4 && host == #[trigger] join(pieces, seq!['.']) && forall|i: int|
                0 <= i < 4 ==> !(#[trigger] pieces[i]).contains('.'),
        !host.contains(':') ==> !ip_port(host),
{
    let a = host + seq![':'] + port;
    lemma_last_index_between(host, ':', port);
    assert(a.take(host.len() as int) =~= host);
    assert(a.skip(host.len() as int + 1) =~= port);
    lemma_last_index_contains(host, ':');
    lemma_index_bounds(host, ':');
    a_split_text_joins_back(host, '.');
    if ip_port(a) {
        assert(host == join(split(host, '.'), seq!['.']));
    }
    if exists|pieces: Seq<Seq<char>>|
        pieces.len() == 4 && host == #[trigger] join(pieces, seq!['.']) && forall|i: int|
            0 <= i < 4 ==> !(#[trigger] pieces[i]).contains('.') {
        let pieces = choose|pieces: Seq<Seq<char>>|
            pieces.len() == 4 && host == #[trigger] join(pieces, seq!['.']) && forall|i: int|
                0 <= i < 4 ==> !(#[trigger] pieces[i]).contains('.');
        a_joined_text_splits_back(pieces, '.');
    }
}

} // verus!
