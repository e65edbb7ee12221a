//! The configured servers and their live status, and the supervisor that
//! starts, stops, adds and removes listeners one command at a time.
//!
//! The supervisor is a state machine: every command changes the state it owns
//! and yields the effects to carry out (spawn a listener, shut one down,
//! publish a status snapshot). Whoever runs it performs the effects in order.

use vstd::prelude::*;
use vstd::string::{StringExecFns, StringSliceAdditionalSpecFns};
use crate::constants::SHUTDOWN_GRACE_SECS;
use crate::ipv6::{ipv6_string, ipv6_text};
use crate::text::{chars_of, decimal, lemma_not_a_numeral, numeral_value, push_decimal};
use crate::utils::{fixed_bytes, same_id, string_to_fixed_array};

verus! {

/// The live state of one configured server.
#[derive(Clone, Copy, Debug, PartialEq, Eq)]
pub struct ServerStatusInfo {
    /// Position in the list of servers; reassigned when a server is removed.
    pub idx: usize,
    /// Stable identifier of the server; never changes.
    pub server_id: [u8; 32],
    pub new_data: bool,
    pub is_running: bool,
    pub is_connected: bool,
    pub is_alive: bool,
    /// Milliseconds since the Unix epoch at which the last packet arrived.
    pub last_packet_time: u64,
    /// Address of the peer: an IPv4 address in the first four bytes with
    /// zeros behind it, or a full IPv6 address.
    pub peer_ip: [u8; 16],
}

/// The status of a server that has never run: nothing set but its position,
/// its identifier and whether observers should take note of it.
pub open spec fn fresh_status(idx: usize, server_id: [u8; 32], new_data: bool) -> ServerStatusInfo {
    ServerStatusInfo {
        idx,
        server_id,
        new_data,
        is_running: false,
        is_connected: false,
        is_alive: false,
        last_packet_time: 0,
        peer_ip: zero_slot(),
    }
}

/// The slot that holds no peer: sixteen zero bytes.
pub open spec fn zero_slot() -> [u8; 16] {
    vstd::array::spec_array_fill_for_copy_type::<u8, 16>(0u8)
}

/// Sixteen zero bytes.
pub fn no_peer() -> (peer: [u8; 16])
    ensures
        peer == zero_slot(),
        forall|k: int| 0 <= k < 16 ==> peer@[k] == 0,
{
    let peer: [u8; 16] = [0u8;16];
    peer
}

impl ServerStatusInfo {
    /// A status with nothing set but position, identifier and the new-data flag.
    pub fn fresh(idx: usize, server_id: [u8; 32], new_data: bool) -> (status: ServerStatusInfo)
        ensures
            status == fresh_status(idx, server_id, new_data),
    {
        ServerStatusInfo {
            idx,
            server_id,
            new_data,
            is_running: false,
            is_connected: false,
            is_alive: false,
            last_packet_time: 0,
            peer_ip: no_peer(),
        }
    }

    /// Sets the identifier to the first 32 bytes of `id`, padded with zeros.
    pub fn set_server_id(&mut self, id: &str)
        ensures
            final(self).server_id@ == fixed_bytes(id.spec_bytes()),
            *final(self) == (ServerStatusInfo { server_id: final(self).server_id, ..*old(self) }),
    {
        self.server_id = string_to_fixed_array(id);
    }

    /// The identifier.
    pub fn get_server_id(&self) -> (id: &[u8; 32])
        ensures
            *id == self.server_id,
    {
        &self.server_id
    }

    /// Whether the identifier equals `id`.
    pub fn matches_server_id(&self, id: &[u8; 32]) -> (same: bool)
        ensures
            same == (self.server_id@ == id@),
    {
        same_id(self.get_server_id(), id)
    }
}

/// The address of a connected peer, as its octets.
#[derive(Clone, Copy, Debug, PartialEq, Eq)]
pub enum PeerAddress {
    V4([u8; 4]),
    V6([u8; 16]),
}

/// What the sixteen-byte slot of a status holds.
#[derive(Clone, Copy, Debug, PartialEq, Eq)]
pub enum PeerIp {
    /// No peer: there is no such server, or its slot holds the unspecified
    /// IPv4 address.
    Unknown,
    V4([u8; 4]),
    V6([u8; 16]),
}

/// The slot for an IPv4 address: its four octets, then zeros.
pub open spec fn ipv4_slot(octets: [u8; 4]) -> Seq<u8> {
    Seq::new(16, |i: int| if i < 4 { octets@[i] } else { 0u8 })
}

/// Whether all bytes of a slot behind the first four are zero.
pub open spec fn is_ipv4_slot(slot: Seq<u8>) -> bool {
    forall|k: int| 4 <= k < 16 ==> slot[k] == 0
}

/// How a slot reads: as IPv4 where its last twelve bytes are zero (as no
/// peer where the first four are zero too), as IPv6 otherwise.
pub open spec fn slot_reading(slot: [u8; 16]) -> PeerIp {
    if is_ipv4_slot(slot@) {
        if slot@[0] == 0 && slot@[1] == 0 && slot@[2] == 0 && slot@[3] == 0 {
            PeerIp::Unknown
        } else {
            PeerIp::V4([slot@[0], slot@[1], slot@[2], slot@[3]])
        }
    } else {
        PeerIp::V6(slot)
    }
}

/// The dotted text of an IPv4 address.
pub open spec fn ipv4_text(octets: [u8; 4]) -> Seq<char> {
    decimal(octets@[0] as nat) + seq!['.'] + decimal(octets@[1] as nat) + seq!['.'] + decimal(
        octets@[2] as nat,
    ) + seq!['.'] + decimal(octets@[3] as nat)
}

/// Writes an IPv4 address as four decimal numbers separated by dots.
pub fn ipv4_string(octets: &[u8; 4]) -> (text: String)
    ensures
        text@ == ipv4_text(*octets),
{
    let mut text = String::new();
    push_decimal(&mut text, octets[0] as u128);
    crate::text::push_char(&mut text, '.');
    push_decimal(&mut text, octets[1] as u128);
    crate::text::push_char(&mut text, '.');
    push_decimal(&mut text, octets[2] as u128);
    crate::text::push_char(&mut text, '.');
    push_decimal(&mut text, octets[3] as u128);
    assert(text@ =~= ipv4_text(*octets));
    text
}

/// Writes `octets` into a fresh slot as an IPv4 address.
pub fn slot_of_ipv4(octets: &[u8; 4]) -> (slot: [u8; 16])
    ensures
        slot@ == ipv4_slot(*octets),
{
    let mut slot: [u8; 16] = [0u8;16];
    slot[0] = octets[0];
    slot[1] = octets[1];
    slot[2] = octets[2];
    slot[3] = octets[3];
    assert(slot@ =~= ipv4_slot(*octets));
    slot
}

/// The live status of every configured server, by position.
#[derive(Clone, Debug)]
pub struct ServerStatus {
    pub server: Vec<ServerStatusInfo>,
}

impl ServerStatus {
    /// A status list with one entry, for a server that has never run, under a
    /// newly generated identifier.
    pub fn new() -> (status: ServerStatus)
        ensures
            status.server@.len() == 1,
            status.server@[0] == fresh_status(0, status.server@[0].server_id, false),
            is_generated_id(status.server@[0].server_id@),
    {
        let mut server: Vec<ServerStatusInfo> = Vec::new();
        server.push(ServerStatusInfo::fresh(0, generate_server_id(), false));
        ServerStatus { server }
    }

    /// The position of the first server with the identifier `id`, or `None`
    /// where no server has it. A position learnt earlier may have moved; the
    /// identifier never does.
    pub fn position_of(&self, id: &[u8; 32]) -> (position: Option<usize>)
        ensures
            match position {
                Some(at) => at < self.server@.len() && self.server@[at as int].server_id@ == id@
                    && forall|k: int| 0 <= k < at ==> self.server@[k].server_id@ != id@,
                None => forall|k: int|
                    0 <= k < self.server@.len() ==> self.server@[k].server_id@ != id@,
            },
    {
        let mut i: usize = 0;
        while i < self.server.len()
            invariant
                i <= self.server@.len(),
                forall|k: int| 0 <= k < i ==> self.server@[k].server_id@ != id@,
            decreases self.server@.len() - i,
        {
            if self.server[i].matches_server_id(id) {
                return Some(i);
            }
            i += 1;
        }
        None
    }

    /// Records an IPv4 peer for server `i`.
    pub fn set_ipv4(&mut self, i: usize, octets: [u8; 4])
        requires
            i < old(self).server@.len(),
        ensures
            final(self).server@ == old(self).server@.update(
                i as int,
                ServerStatusInfo { peer_ip: final(self).server@[i as int].peer_ip, ..old(
                    self,
                ).server@[i as int] },
            ),
            final(self).server@[i as int].peer_ip@ == ipv4_slot(octets),
    {
        let mut info = self.server[i];
        info.peer_ip = slot_of_ipv4(&octets);
        self.server[i] = info;
        assert(self.server@ =~= old(self).server@.update(i as int, info));
    }

    /// Records an IPv6 peer for server `i`.
    pub fn set_ipv6(&mut self, i: usize, octets: [u8; 16])
        requires
            i < old(self).server@.len(),
        ensures
            final(self).server@ == old(self).server@.update(
                i as int,
                ServerStatusInfo { peer_ip: octets, ..old(self).server@[i as int] },
            ),
    {
        let mut info = self.server[i];
        info.peer_ip = octets;
        self.server[i] = info;
        assert(self.server@ =~= old(self).server@.update(i as int, info));
    }

    /// Records for server `i` the peer that an address text was read as.
    /// Where the text was no address (`parsed` is `None`) the answer is
    /// `InvalidAddress` and nothing changes; otherwise the peer is recorded
    /// in the slot of server `i` and nothing else changes.
    pub fn set_ip_from_string(&mut self, i: usize, parsed: Option<PeerAddress>) -> (outcome: Result<
        (),
        EditError,
    >)
        requires
            parsed.is_some() ==> i < old(self).server@.len(),
        ensures
            outcome.is_ok() == parsed.is_some(),
            outcome matches Err(e) ==> e == EditError::InvalidAddress && final(self).server@ == old(
                self,
            ).server@,
            parsed matches Some(peer) ==> final(self).server@ == old(self).server@.update(
                i as int,
                ServerStatusInfo { peer_ip: final(self).server@[i as int].peer_ip, ..old(
                    self,
                ).server@[i as int] },
            ) && final(self).server@[i as int].peer_ip@ == peer_slot(peer),
    {
        match parsed {
            Some(PeerAddress::V4(octets)) => {
                self.set_ipv4(i, octets);
                Ok(())
            },
            Some(PeerAddress::V6(octets)) => {
                self.set_ipv6(i, octets);
                Ok(())
            },
            None => Err(EditError::InvalidAddress),
        }
    }

    /// What is known of the peer of server `i`: nothing where there is no
    /// such server or its slot is all zeros, else its address by family.
    pub fn peer_ip(&self, i: usize) -> (peer: PeerIp)
        ensures
            peer == if i < self.server@.len() {
                slot_reading(self.server@[i as int].peer_ip)
            } else {
                PeerIp::Unknown
            },
    {
        if i >= self.server.len() {
            return PeerIp::Unknown;
        }
        let slot: [u8; 16] = self.server[i].peer_ip;
        let mut k: usize = 4;
        while k < 16
            invariant
                i < self.server@.len(),
                slot == self.server@[i as int].peer_ip,
                4 <= k <= 16,
                forall|j: int| 4 <= j < k ==> slot@[j] == 0,
            decreases 16 - k,
        {
            if slot[k] != 0 {
                assert(slot@[k as int] != 0);
                return PeerIp::V6(slot);
            }
            k += 1;
        }
        if slot[0] == 0 && slot[1] == 0 && slot[2] == 0 && slot[3] == 0 {
            PeerIp::Unknown
        } else {
            PeerIp::V4([slot[0], slot[1], slot[2], slot[3]])
        }
    }
}

/// The text shown for what is known of a peer: a placeholder where nothing
/// is known, the dotted address for IPv4, the colon-separated address for
/// IPv6.
pub open spec fn peer_text(peer: PeerIp) -> Seq<char> {
    match peer {
        PeerIp::Unknown => "x.x.x.x"@,
        PeerIp::V4(octets) => ipv4_text(octets),
        PeerIp::V6(address) => ipv6_text(address),
    }
}

impl ServerStatus {
    /// The text shown for the peer of server `i`: `x.x.x.x` where there is
    /// no such server or no peer is known, the dotted address of an IPv4
    /// peer, the colon-separated address of an IPv6 peer.
    pub fn get_ip_string(&self, i: usize) -> (text: String)
        ensures
            text@ == peer_text(
                if i < self.server@.len() {
                    slot_reading(self.server@[i as int].peer_ip)
                } else {
                    PeerIp::Unknown
                },
            ),
    {
        match self.peer_ip(i) {
            PeerIp::Unknown => String::from_str("x.x.x.x"),
            PeerIp::V4(octets) => ipv4_string(&octets),
            PeerIp::V6(address) => ipv6_string(&address),
        }
    }
}

/// The slot that a peer address is kept in.
pub open spec fn peer_slot(peer: PeerAddress) -> Seq<u8> {
    match peer {
        PeerAddress::V4(octets) => ipv4_slot(octets),
        PeerAddress::V6(octets) => octets@,
    }
}

/// The configured servers.
#[derive(Clone, Debug)]
pub struct ServerConfig {
    pub server: Vec<ServerEntry>,
}

/// One configured controller endpoint.
#[derive(Clone, Debug)]
pub struct ServerEntry {
    /// Stable opaque identifier, kept verbatim.
    pub id: [u8; 32],
    pub name: String,
    pub ip_address: String,
    pub port: u16,
    pub autostart: bool,
}

/// The mathematical content of a configured endpoint.
pub struct EntryView {
    pub id: [u8; 32],
    pub name: Seq<char>,
    pub ip_address: Seq<char>,
    pub port: u16,
    pub autostart: bool,
}

impl View for ServerEntry {
    type V = EntryView;

    open spec fn view(&self) -> EntryView {
        EntryView {
            id: self.id,
            name: self.name@,
            ip_address: self.ip_address@,
            port: self.port,
            autostart: self.autostart,
        }
    }
}

impl ServerEntry {
    /// A copy of this entry.
    pub fn duplicate(&self) -> (copy: ServerEntry)
        ensures
            copy@ == self@,
    {
        ServerEntry {
            id: self.id,
            name: self.name.clone(),
            ip_address: self.ip_address.clone(),
            port: self.port,
            autostart: self.autostart,
        }
    }

    /// The address a listener for this entry binds: host, colon, port.
    pub fn listen_address(&self) -> (address: String)
        ensures
            address@ == self.ip_address@ + seq![':'] + decimal(self.port as nat),
    {
        let mut address = self.ip_address.clone();
        crate::text::push_char(&mut address, ':');
        push_decimal(&mut address, self.port as u128);
        assert(address@ =~= self.ip_address@ + seq![':'] + decimal(self.port as nat));
        address
    }
}

/// Why an edit of a configured endpoint was refused.
#[derive(Clone, Copy, Debug, PartialEq, Eq, Structural)]
pub enum EditError {
    /// The address given is not a valid address.
    InvalidAddress,
    /// The port given is not a decimal number up to 65535.
    InvalidPort,
}

impl EditError {
    /// The message that goes with the error.
    pub fn message(&self) -> (text: &'static str)
        ensures
            text@ == match *self {
                EditError::InvalidAddress => "Invalid IP address"@,
                EditError::InvalidPort => "Invalid port"@,
            },
    {
        match self {
            EditError::InvalidAddress => "Invalid IP address",
            EditError::InvalidPort => "Invalid port",
        }
    }
}

/// The port that a text denotes: the number its decimal digits denote, where
/// that is at most 65535.
pub open spec fn port_of(text: Seq<char>) -> Option<u16> {
    match numeral_value(text) {
        Some(value) => if value <= 65535 {
            Some(value as u16)
        } else {
            None
        },
        None => None,
    }
}

/// Reads a port: a text of one or more decimal digits that denotes a number
/// up to 65535. Anything else is no port.
pub fn parse_port(text: &str) -> (port: Option<u16>)
    ensures
        port == port_of(text@),
{
    let chars = chars_of(text);
    let n: usize = chars.len();
    if n == 0 {
        return None;
    }
    let mut capped: u32 = 0;
    let ghost mut value: nat = 0;
    let mut i: usize = 0;
    while i < n
        invariant
            n == chars@.len(),
            chars@ == text@,
            i <= n,
            i > 0 ==> numeral_value(chars@.subrange(0, i as int)) == Some(value),
            i == 0 ==> value == 0,
            capped == if value > 65535 { 65536 } else { value },
        decreases n - i,
    {
        let c: char = chars[i];
        if !('0' <= c && c <= '9') {
            proof {
                lemma_not_a_numeral(chars@, i as int);
            }
            return None;
        }
        let digit: u32 = c as u32 - '0' as u32;
        let ghost front = chars@.subrange(0, i as int);
        let ghost longer = chars@.subrange(0, i + 1);
        assert(longer.drop_last() =~= front);
        assert(longer.last() == c);
        proof {
            value = (value * 10 + digit) as nat;
        }
        capped = if capped > 65535 || capped * 10 + digit > 65535 {
            65536
        } else {
            capped * 10 + digit
        };
        i += 1;
    }
    assert(chars@.subrange(0, n as int) =~= chars@);
    if capped > 65535 {
        None
    } else {
        Some(capped as u16)
    }
}

/// The entry that an edit makes of `entry`, where the edit is accepted: the
/// same identifier, everything else as given.
pub open spec fn edited_entry(
    entry: EntryView,
    name: Seq<char>,
    ip_address: Seq<char>,
    port: u16,
    autostart: bool,
) -> EntryView {
    EntryView { id: entry.id, name, ip_address, port, autostart }
}

/// Applies an edit to a configured endpoint. `ip_is_valid` says whether the
/// address given was found valid. The edit is accepted exactly when the
/// address is valid and the port text is a decimal number up to 65535; the
/// entry that comes back keeps the identifier and takes everything else from
/// the edit. An invalid address is refused as `InvalidAddress`, a valid one
/// with an invalid port as `InvalidPort`; the entry handed in is never
/// changed.
pub fn edit_entry(
    entry: &ServerEntry,
    name: &str,
    ip_address: &str,
    ip_is_valid: bool,
    port: &str,
    autostart: bool,
) -> (edited: Result<ServerEntry, EditError>)
    ensures
        edited.is_ok() == (ip_is_valid && port_of(port@).is_some()),
        edited matches Ok(e) ==> e@ == edited_entry(
            entry@,
            name@,
            ip_address@,
            port_of(port@).unwrap(),
            autostart,
        ),
        edited matches Err(e) ==> e == if ip_is_valid {
            EditError::InvalidPort
        } else {
            EditError::InvalidAddress
        },
{
    if !ip_is_valid {
        return Err(EditError::InvalidAddress);
    }
    match parse_port(port) {
        Some(number) => Ok(
            ServerEntry {
                id: entry.id,
                name: String::from_str(name),
                ip_address: String::from_str(ip_address),
                port: number,
                autostart,
            },
        ),
        None => Err(EditError::InvalidPort),
    }
}

/// The identifier made from a count of nanoseconds: the count's decimal
/// numeral, kept in 32 bytes.
pub open spec fn id_of_nanos(nanos: u128) -> Seq<u8> {
    fixed_bytes(vstd::utf8::encode_utf8(decimal(nanos as nat)))
}

/// Whether an identifier is the one made from some count of nanoseconds.
pub open spec fn is_generated_id(id: Seq<u8>) -> bool {
    exists|nanos: u128| id == id_of_nanos(nanos)
}

/// Reads the clock with `std::time::SystemTime::now` and gives the
/// nanoseconds since the Unix epoch, or `None` where the clock is set
/// before it. Nothing is promised of the value.
#[verifier::external_body]
pub(crate) fn unix_nanos() -> (nanos: Option<u128>) {
    match std::time::SystemTime::now().duration_since(std::time::UNIX_EPOCH) {
        Ok(elapsed) => Some(elapsed.as_nanos()),
        Err(_) => None,
    }
}

/// The identifier made from a count of nanoseconds.
pub fn server_id_from_nanos(nanos: u128) -> (id: [u8; 32])
    ensures
        id@ == id_of_nanos(nanos),
{
    let mut text = String::new();
    push_decimal(&mut text, nanos);
    assert(text@ =~= decimal(nanos as nat));
    string_to_fixed_array(text.as_str())
}

/// Generates an identifier from the current time: the nanoseconds since the
/// Unix epoch as a decimal numeral, kept in 32 bytes. A clock set before the
/// epoch counts as the epoch itself.
pub fn generate_server_id() -> (id: [u8; 32])
    ensures
        is_generated_id(id@),
{
    let nanos: u128 = match unix_nanos() {
        Some(n) => n,
        None => 0,
    };
    server_id_from_nanos(nanos)
}

/// A request to the supervisor.
#[derive(Clone, Debug)]
pub enum ServerCommand {
    Start(usize),
    Stop(usize),
    StopAll,
    AddServer(ServerEntry),
    RemoveServer(usize),
}

/// Something the supervisor asks its runner to do.
#[derive(Clone, Copy, Debug, PartialEq, Eq)]
pub enum ServerEffect {
    /// Spawn a listener for the server at `index`, which starts out from
    /// `status`.
    Spawn { index: usize, status: ServerStatusInfo },
    /// Signal shutdown to the listener of the server with this identifier,
    /// which stood at `index`, wait for it for `grace_secs` seconds, and drop
    /// it by force if it has not ended by then.
    Shutdown { index: usize, server_id: [u8; 32], grace_secs: u64 },
    /// Publish a status snapshot to the observers.
    Emit(ServerStatusInfo),
}

/// Why the supervisor refused a command.
#[derive(Clone, Copy, Debug, PartialEq, Eq, Structural)]
pub enum ServerError {
    NotRunning,
    IndexOutOfBounds,
}

impl ServerError {
    /// The message that goes with the error.
    pub fn message(&self) -> (text: &'static str)
        ensures
            text@ == match *self {
                ServerError::NotRunning => "Server not running"@,
                ServerError::IndexOutOfBounds => "Server index out of bounds"@,
            },
    {
        match self {
            ServerError::NotRunning => "Server not running",
            ServerError::IndexOutOfBounds => "Server index out of bounds",
        }
    }
}

/// How a listener that was told to shut down ended.
#[derive(Clone, Copy, Debug, PartialEq, Eq, Structural)]
pub enum ExitOutcome {
    /// It ended by itself within the grace period.
    Graceful,
    /// It ended within the grace period, but in failure.
    JoinError,
    /// It had not ended when the grace period ran out.
    TimedOut,
}

/// Whether a listener must be dropped by force after it was told to shut
/// down: exactly when it outlasted the grace period.
pub fn must_abort(outcome: ExitOutcome) -> (abort: bool)
    ensures
        abort == (outcome == ExitOutcome::TimedOut),
{
    match outcome {
        ExitOutcome::TimedOut => true,
        _ => false,
    }
}

/// The state the supervisor owns: the configured servers, the status of each,
/// and the positions of the servers whose listener is live.
pub struct ManagerView {
    pub config: Seq<EntryView>,
    pub status: Seq<ServerStatusInfo>,
    pub handles: Seq<usize>,
}

/// A status after its server was stopped.
pub open spec fn stopped(status: ServerStatusInfo) -> ServerStatusInfo {
    ServerStatusInfo {
        new_data: true,
        is_running: false,
        is_connected: false,
        is_alive: false,
        ..status
    }
}

/// A status after its server was started.
pub open spec fn started(status: ServerStatusInfo) -> ServerStatusInfo {
    ServerStatusInfo { is_running: true, ..status }
}

/// A status after it moved to position `idx` because a server before it left.
pub open spec fn moved_to(status: ServerStatusInfo, idx: usize) -> ServerStatusInfo {
    ServerStatusInfo { idx, new_data: true, ..status }
}

/// The statuses of servers that have never run, one for each entry.
pub open spec fn fresh_statuses(config: Seq<EntryView>, new_data: bool) -> Seq<ServerStatusInfo> {
    Seq::new(config.len(), |i: int| fresh_status(i as usize, config[i].id, new_data))
}

/// The live positions without `idx`.
pub open spec fn without(handles: Seq<usize>, idx: usize) -> Seq<usize> {
    handles.filter(other_than(idx))
}

/// The test that a position is not `idx`.
pub open spec fn other_than(idx: usize) -> spec_fn(usize) -> bool {
    |h: usize| h != idx
}

/// The live positions after the server at `removed` left the list: its own
/// position is dropped, and every position behind it moves down by one.
pub open spec fn rekeyed(handles: Seq<usize>, removed: usize) -> Seq<usize> {
    without(handles, removed).map_values(
        |h: usize| if h > removed { (h - 1) as usize } else { h },
    )
}

/// The statuses after the servers at `handles` were stopped.
pub open spec fn stopped_where(status: Seq<ServerStatusInfo>, handles: Seq<usize>) -> Seq<
    ServerStatusInfo,
> {
    Seq::new(
        status.len(),
        |i: int| if handles.contains(i as usize) { stopped(status[i]) } else { status[i] },
    )
}

/// The mathematical content of a list of entries.
pub open spec fn entry_views(entries: Seq<ServerEntry>) -> Seq<EntryView> {
    entries.map_values(|entry: ServerEntry| entry@)
}

/// The effects of stopping the servers at `handles`, in that order: for each
/// its shutdown, then its new status.
pub open spec fn shutdown_effects(status: Seq<ServerStatusInfo>, handles: Seq<usize>) -> Seq<
    ServerEffect,
>
    decreases handles.len(),
{
    if handles.len() == 0 {
        Seq::empty()
    } else {
        let h = handles.last();
        shutdown_effects(status, handles.drop_last()) + seq![
            ServerEffect::Shutdown {
                index: h,
                server_id: status[h as int].server_id,
                grace_secs: 5,
            },
            ServerEffect::Emit(stopped(status[h as int])),
        ]
    }
}

impl ManagerView {
    /// The supervisor's invariant. The two lists have the same length. Every
    /// status sits at the position it names and carries the identifier of
    /// the entry at that position. Every live position is in range, none
    /// occurs twice, and a status says that its server runs exactly when its
    /// position is live.
    pub open spec fn wf(self) -> bool {
        &&& self.config.len() == self.status.len()
        &&& self.handles.no_duplicates()
        &&& self.status.len() <= usize::MAX
        &&& forall|i: int|
            0 <= i < self.status.len() ==> (#[trigger] self.status[i]).idx == i
                && self.status[i].server_id == self.config[i].id
        &&& forall|k: int| 0 <= k < self.handles.len() ==> #[trigger] self.handles[k] < self.status.len()
        &&& forall|i: int|
            0 <= i < self.status.len() ==> (#[trigger] self.status[i]).is_running
                == self.handles.contains(i as usize)
    }

    /// Whether the server at `idx` has a live listener.
    pub open spec fn running(self, idx: usize) -> bool {
        self.handles.contains(idx)
    }

    /// Whether starting the server at `idx` changes anything: it exists and
    /// is not yet running.
    pub open spec fn can_start(self, idx: usize) -> bool {
        idx < self.status.len() && !self.running(idx)
    }

    /// The state after a start of the server at `idx`.
    pub open spec fn after_start(self, idx: usize) -> ManagerView {
        if self.can_start(idx) {
            ManagerView {
                handles: self.handles.push(idx),
                status: self.status.update(idx as int, started(self.status[idx as int])),
                ..self
            }
        } else {
            self
        }
    }

    /// The effects of a start of the server at `idx`.
    pub open spec fn start_effects(self, idx: usize) -> Seq<ServerEffect> {
        if self.can_start(idx) {
            seq![
                ServerEffect::Spawn { index: idx, status: self.status[idx as int] },
                ServerEffect::Emit(started(self.status[idx as int])),
            ]
        } else {
            Seq::empty()
        }
    }

    /// The state after a stop of the server at `idx`.
    pub open spec fn after_stop(self, idx: usize) -> ManagerView {
        if self.running(idx) {
            ManagerView {
                handles: without(self.handles, idx),
                status: self.status.update(idx as int, stopped(self.status[idx as int])),
                ..self
            }
        } else {
            self
        }
    }

    /// The effects of a stop of the server at `idx`.
    pub open spec fn stop_effects(self, idx: usize) -> Seq<ServerEffect> {
        if self.running(idx) {
            seq![
                ServerEffect::Shutdown {
                    index: idx,
                    server_id: self.status[idx as int].server_id,
                    grace_secs: 5,
                },
                ServerEffect::Emit(stopped(self.status[idx as int])),
            ]
        } else {
            Seq::empty()
        }
    }

    /// The state after every running server was stopped.
    pub open spec fn after_stop_all(self) -> ManagerView {
        ManagerView {
            handles: Seq::empty(),
            status: stopped_where(self.status, self.handles),
            ..self
        }
    }

    /// The effects of stopping every running server.
    pub open spec fn stop_all_effects(self) -> Seq<ServerEffect> {
        shutdown_effects(self.status, self.handles)
    }

    /// The state after `entry` was added.
    pub open spec fn after_add(self, entry: EntryView) -> ManagerView {
        ManagerView {
            config: self.config.push(entry),
            status: self.status.push(fresh_status(self.status.len() as usize, entry.id, true)),
            ..self
        }
    }

    /// The effects of adding `entry`.
    pub open spec fn add_effects(self, entry: EntryView) -> Seq<ServerEffect> {
        seq![ServerEffect::Emit(fresh_status(self.status.len() as usize, entry.id, true))]
    }

    /// The statuses after the server at `idx` left the list: those before it
    /// stay, those behind it move down by one position.
    pub open spec fn statuses_without(self, idx: usize) -> Seq<ServerStatusInfo> {
        Seq::new(
            (self.status.len() - 1) as nat,
            |i: int|
                if i < idx {
                    self.status[i]
                } else {
                    moved_to(self.status[i + 1], i as usize)
                },
        )
    }

    /// The state after the server at `idx` was removed: it is stopped first
    /// if it runs, then its entry and its status leave their lists, the
    /// statuses behind it move down, and the live positions are rekeyed.
    pub open spec fn after_remove(self, idx: usize) -> ManagerView {
        if idx < self.status.len() {
            let halted = self.after_stop(idx);
            ManagerView {
                config: halted.config.remove(idx as int),
                status: halted.statuses_without(idx),
                handles: rekeyed(halted.handles, idx),
            }
        } else {
            self
        }
    }

    /// The effects of removing the server at `idx`: those of stopping it,
    /// then the new status of every server that moved, in order.
    pub open spec fn remove_effects(self, idx: usize) -> Seq<ServerEffect> {
        if idx < self.status.len() {
            self.stop_effects(idx) + Seq::new(
                (self.status.len() - 1 - idx) as nat,
                |j: int| ServerEffect::Emit(self.after_remove(idx).status[idx + j]),
            )
        } else {
            Seq::empty()
        }
    }

    /// The state after the statuses were brought in line with the entries:
    /// rebuilt from the entries where the two lists differ in length.
    pub open spec fn after_sync(self) -> ManagerView {
        if self.config.len() == self.status.len() {
            self
        } else {
            ManagerView { status: fresh_statuses(self.config, true), ..self }
        }
    }

    /// The effects of bringing the statuses in line with the entries.
    pub open spec fn sync_effects(self) -> Seq<ServerEffect> {
        if self.config.len() == self.status.len() {
            Seq::empty()
        } else {
            fresh_statuses(self.config, true).map_values(
                |status: ServerStatusInfo| ServerEffect::Emit(status),
            )
        }
    }

    /// The state after one command.
    pub open spec fn after_command(self, command: ServerCommand) -> ManagerView {
        match command {
            ServerCommand::Start(idx) => self.after_start(idx),
            ServerCommand::Stop(idx) => self.after_stop(idx),
            ServerCommand::StopAll => self.after_stop_all(),
            ServerCommand::AddServer(entry) => self.after_add(entry@),
            ServerCommand::RemoveServer(idx) => self.after_remove(idx).after_sync(),
        }
    }

    /// The effects of one command.
    pub open spec fn command_effects(self, command: ServerCommand) -> Seq<ServerEffect> {
        match command {
            ServerCommand::Start(idx) => self.start_effects(idx),
            ServerCommand::Stop(idx) => self.stop_effects(idx),
            ServerCommand::StopAll => self.stop_all_effects(),
            ServerCommand::AddServer(entry) => self.add_effects(entry@),
            ServerCommand::RemoveServer(idx) => self.remove_effects(idx) + self.after_remove(
                idx,
            ).sync_effects(),
        }
    }

    /// The state after a sequence of commands, taken strictly one at a time.
    pub open spec fn after_commands(self, commands: Seq<ServerCommand>) -> ManagerView
        decreases commands.len(),
    {
        if commands.len() == 0 {
            self
        } else {
            self.after_commands(commands.drop_last()).after_command(commands.last())
        }
    }

    /// The effects of a sequence of commands, in the order of the commands.
    pub open spec fn commands_effects(self, commands: Seq<ServerCommand>) -> Seq<ServerEffect>
        decreases commands.len(),
    {
        if commands.len() == 0 {
            Seq::empty()
        } else {
            self.commands_effects(commands.drop_last()) + self.after_commands(
                commands.drop_last(),
            ).command_effects(commands.last())
        }
    }
}

/// A position is live without `idx` exactly when it was live and is not `idx`.
pub proof fn lemma_without(handles: Seq<usize>, idx: usize)
    ensures
        forall|k: usize|
            #[trigger] without(handles, idx).contains(k) <==> (handles.contains(k) && k != idx),
{
    let pred = other_than(idx);
    let kept = handles.filter(pred);
    assert forall|k: usize| #[trigger] kept.contains(k) <==> (handles.contains(k) && k != idx) by {
        if kept.contains(k) {
            let i = choose|i: int| 0 <= i < kept.len() && kept[i] == k;
            handles.lemma_filter_pred(pred, i);
            handles.lemma_filter_contains_rev(pred, k);
        }
        if handles.contains(k) && k != idx {
            let j = choose|j: int| 0 <= j < handles.len() && handles[j] == k;
            handles.lemma_filter_contains(pred, j);
        }
    }
}

/// After the server at `removed` left, a position before it is live exactly
/// when it was live, and a position from it on is live exactly when the
/// position one above it was.
pub proof fn lemma_rekeyed(handles: Seq<usize>, removed: usize)
    ensures
        forall|k: usize|
            #[trigger] rekeyed(handles, removed).contains(k) <==> ((k < removed
                && handles.contains(k)) || (k >= removed && k < usize::MAX && handles.contains(
                (k + 1) as usize,
            ))),
{
    let kept = without(handles, removed);
    let shift = |h: usize| if h > removed { (h - 1) as usize } else { h };
    let moved = kept.map_values(shift);
    lemma_without(handles, removed);
    assert forall|k: usize| #[trigger] moved.contains(k) <==> ((k < removed && handles.contains(k))
        || (k >= removed && k < usize::MAX && handles.contains((k + 1) as usize))) by {
        if moved.contains(k) {
            let i = choose|i: int| 0 <= i < moved.len() && moved[i] == k;
            let h = kept[i];
            assert(kept.contains(h));
            assert(shift(h) == k);
        }
        if k < removed && handles.contains(k) {
            assert(kept.contains(k));
            let i = choose|i: int| 0 <= i < kept.len() && kept[i] == k;
            assert(moved[i] == k);
        }
        if k >= removed && k < usize::MAX && handles.contains((k + 1) as usize) {
            let h = (k + 1) as usize;
            assert(kept.contains(h));
            let i = choose|i: int| 0 <= i < kept.len() && kept[i] == h;
            assert(moved[i] == k);
        }
    }
}

/// Taking a position out of live positions none of which occurs twice
/// leaves none that occurs twice.
pub proof fn lemma_without_no_duplicates(handles: Seq<usize>, idx: usize)
    requires
        handles.no_duplicates(),
    ensures
        without(handles, idx).no_duplicates(),
    decreases handles.len(),
{
    if handles.len() == 0 {
        reveal(Seq::filter);
    } else {
        let front = handles.drop_last();
        let last = handles.last();
        assert(front.no_duplicates()) by {
            assert forall|i: int, j: int|
                0 <= i < front.len() && 0 <= j < front.len() && i != j implies front[i]
                != front[j] by {
                assert(handles[i] != handles[j]);
            }
        }
        lemma_without_no_duplicates(front, idx);
        lemma_without_push(front, last, idx);
        assert(front.push(last) =~= handles);
        if last != idx {
            let kept = without(front, idx);
            lemma_without(front, idx);
            assert(!kept.contains(last)) by {
                if front.contains(last) {
                    let k = choose|k: int| 0 <= k < front.len() && front[k] == last;
                    assert(handles[k] == handles[handles.len() - 1]);
                }
            }
            assert forall|i: int, j: int|
                0 <= i < kept.push(last).len() && 0 <= j < kept.push(last).len() && i
                    != j implies kept.push(last)[i] != kept.push(last)[j] by {
                if i < kept.len() && j < kept.len() {
                    assert(kept[i] != kept[j]);
                } else if i < kept.len() {
                    assert(kept.contains(kept[i]));
                } else {
                    assert(kept.contains(kept[j]));
                }
            }
        }
    }
}

/// Rekeying live positions none of which occurs twice leaves none that
/// occurs twice: two servers never move to the same position.
pub proof fn lemma_rekeyed_no_duplicates(handles: Seq<usize>, removed: usize)
    requires
        handles.no_duplicates(),
    ensures
        rekeyed(handles, removed).no_duplicates(),
{
    let kept = without(handles, removed);
    let moved = rekeyed(handles, removed);
    lemma_without_no_duplicates(handles, removed);
    lemma_without(handles, removed);
    assert forall|i: int, j: int|
        0 <= i < moved.len() && 0 <= j < moved.len() && i != j implies moved[i] != moved[j] by {
        assert(kept.contains(kept[i]));
        assert(kept.contains(kept[j]));
        assert(kept[i] != kept[j]);
    }
}

/// A start keeps the supervisor's invariant.
pub proof fn lemma_start_keeps_invariant(m: ManagerView, idx: usize)
    requires
        m.wf(),
    ensures
        m.after_start(idx).wf(),
{
    let after = m.after_start(idx);
    if m.can_start(idx) {
        assert forall|x: usize| #[trigger] after.handles.contains(x) <==> (m.handles.contains(x)
            || x == idx) by {
            if after.handles.contains(x) {
                let i = choose|i: int| 0 <= i < after.handles.len() && after.handles[i] == x;
                if i < m.handles.len() {
                    assert(m.handles[i] == x);
                }
            }
            if m.handles.contains(x) {
                let i = choose|i: int| 0 <= i < m.handles.len() && m.handles[i] == x;
                assert(after.handles[i] == x);
            }
            if x == idx {
                assert(after.handles[m.handles.len() as int] == x);
            }
        }
        assert forall|i: int| 0 <= i < after.status.len() implies (#[trigger] after.status[i]).idx
            == i && after.status[i].server_id == after.config[i].id && after.status[i].is_running
            == after.handles.contains(i as usize) by {
            assert(m.status[i].idx == i);
        }
        assert forall|i: int, j: int|
            0 <= i < after.handles.len() && 0 <= j < after.handles.len() && i
                != j implies after.handles[i] != after.handles[j] by {
            if i < m.handles.len() && j < m.handles.len() {
                assert(m.handles[i] != m.handles[j]);
            } else if i < m.handles.len() {
                assert(m.handles.contains(m.handles[i]));
            } else {
                assert(m.handles.contains(m.handles[j]));
            }
        }
    }
}

/// A stop keeps the supervisor's invariant.
pub proof fn lemma_stop_keeps_invariant(m: ManagerView, idx: usize)
    requires
        m.wf(),
    ensures
        m.after_stop(idx).wf(),
{
    let after = m.after_stop(idx);
    if m.running(idx) {
        lemma_without(m.handles, idx);
        lemma_without_no_duplicates(m.handles, idx);
        let at = choose|k: int| 0 <= k < m.handles.len() && m.handles[k] == idx;
        assert(m.handles[at] < m.status.len());
        assert forall|k: int| 0 <= k < after.handles.len() implies #[trigger] after.handles[k]
            < after.status.len() by {
            assert(after.handles.contains(after.handles[k]));
            let j = choose|j: int| 0 <= j < m.handles.len() && m.handles[j] == after.handles[k];
            assert(m.handles[j] < m.status.len());
        }
        assert forall|i: int| 0 <= i < after.status.len() implies (#[trigger] after.status[i]).idx
            == i && after.status[i].server_id == after.config[i].id && after.status[i].is_running
            == after.handles.contains(i as usize) by {
            assert(m.status[i].idx == i);
        }
    }
}

/// Stopping every server keeps the supervisor's invariant, and leaves no
/// server running.
pub proof fn lemma_stop_all_keeps_invariant(m: ManagerView)
    requires
        m.wf(),
    ensures
        m.after_stop_all().wf(),
        forall|i: int|
            0 <= i < m.status.len() ==> !(#[trigger] m.after_stop_all().status[i]).is_running,
{
    let after = m.after_stop_all();
    assert forall|i: int| 0 <= i < after.status.len() implies (#[trigger] after.status[i]).idx == i
        && after.status[i].server_id == after.config[i].id && !after.status[i].is_running
        && !after.handles.contains(i as usize) by {
        assert(m.status[i].idx == i);
    }
}

/// An addition keeps the supervisor's invariant.
pub proof fn lemma_add_keeps_invariant(m: ManagerView, entry: EntryView)
    requires
        m.wf(),
        m.status.len() < usize::MAX,
    ensures
        m.after_add(entry).wf(),
{
    let after = m.after_add(entry);
    assert forall|i: int| 0 <= i < after.status.len() implies (#[trigger] after.status[i]).idx == i
        && after.status[i].server_id == after.config[i].id && after.status[i].is_running
        == after.handles.contains(i as usize) by {
        if i < m.status.len() {
            assert(m.status[i].idx == i);
        } else {
            if m.handles.contains(i as usize) {
                let k = choose|k: int| 0 <= k < m.handles.len() && m.handles[k] == i as usize;
                assert(m.handles[k] < m.status.len());
            }
        }
    }
    assert forall|k: int| 0 <= k < after.handles.len() implies #[trigger] after.handles[k]
        < after.status.len() by {
        assert(m.handles[k] < m.status.len());
    }
}

/// A removal keeps the supervisor's invariant: the two lists stay equally
/// long, every remaining status names its new position and keeps its
/// identifier, and the live positions follow the servers they stand for.
pub proof fn lemma_remove_keeps_invariant(m: ManagerView, idx: usize)
    requires
        m.wf(),
    ensures
        m.after_remove(idx).wf(),
{
    if idx < m.status.len() {
        let halted = m.after_stop(idx);
        lemma_stop_keeps_invariant(m, idx);
        lemma_without(m.handles, idx);
        assert(!halted.handles.contains(idx));
        let after = m.after_remove(idx);
        lemma_rekeyed(halted.handles, idx);
        lemma_rekeyed_no_duplicates(halted.handles, idx);
        assert forall|k: int| 0 <= k < after.handles.len() implies #[trigger] after.handles[k]
            < after.status.len() by {
            let x = after.handles[k];
            assert(after.handles.contains(x));
            if x < idx {
            } else {
                let h = (x + 1) as usize;
                assert(halted.handles.contains(h));
                let j = choose|j: int| 0 <= j < halted.handles.len() && halted.handles[j] == h;
                assert(halted.handles[j] < halted.status.len());
            }
        }
        assert forall|i: int| 0 <= i < after.status.len() implies (#[trigger] after.status[i]).idx
            == i && after.status[i].server_id == after.config[i].id && after.status[i].is_running
            == after.handles.contains(i as usize) by {
            if i < idx {
                assert(halted.status[i].idx == i);
            } else {
                assert(halted.status[i + 1].idx == i + 1);
                assert(after.status[i].is_running == halted.handles.contains((i + 1) as usize));
            }
        }
    }
}

/// Every command keeps the supervisor's invariant.
pub proof fn lemma_command_keeps_invariant(m: ManagerView, command: ServerCommand)
    requires
        m.wf(),
        m.status.len() < usize::MAX,
    ensures
        m.after_command(command).wf(),
        m.after_command(command).status.len() <= m.status.len() + 1,
{
    match command {
        ServerCommand::Start(idx) => lemma_start_keeps_invariant(m, idx),
        ServerCommand::Stop(idx) => lemma_stop_keeps_invariant(m, idx),
        ServerCommand::StopAll => lemma_stop_all_keeps_invariant(m),
        ServerCommand::AddServer(entry) => lemma_add_keeps_invariant(m, entry@),
        ServerCommand::RemoveServer(idx) => lemma_remove_keeps_invariant(m, idx),
    }
}

/// After any sequence of commands, taken one at a time, the configured
/// servers and their statuses are lists of the same length, and every status
/// sits at the position it names under the identifier of its entry.
pub proof fn lemma_commands_keep_invariant(m: ManagerView, commands: Seq<ServerCommand>)
    requires
        m.wf(),
        m.status.len() + commands.len() <= usize::MAX,
    ensures
        m.after_commands(commands).wf(),
        m.after_commands(commands).status.len() <= m.status.len() + commands.len(),
    decreases commands.len(),
{
    if commands.len() > 0 {
        lemma_commands_keep_invariant(m, commands.drop_last());
        lemma_command_keeps_invariant(m.after_commands(commands.drop_last()), commands.last());
    }
}

/// Removing a server re-indexes the others: one status fewer remains, each
/// names the position it now stands at, so no two name the same, and each
/// keeps the identifier it had.
pub proof fn lemma_remove_reindexes(m: ManagerView, idx: usize)
    requires
        m.wf(),
        idx < m.status.len(),
    ensures
        m.after_remove(idx).status.len() == m.status.len() - 1,
        m.after_remove(idx).config == m.config.remove(idx as int),
        forall|i: int|
            0 <= i < m.after_remove(idx).status.len() ==> (#[trigger] m.after_remove(
                idx,
            ).status[i]).idx == i,
        forall|i: int, j: int|
            0 <= i < j < m.after_remove(idx).status.len() ==> (#[trigger] m.after_remove(
                idx,
            ).status[i]).idx != (#[trigger] m.after_remove(idx).status[j]).idx,
        forall|i: int|
            0 <= i < m.after_remove(idx).status.len() ==> (#[trigger] m.after_remove(
                idx,
            ).status[i]).server_id == m.status[if i < idx { i } else { i + 1 }].server_id,
{
    lemma_remove_keeps_invariant(m, idx);
}

/// A stop of a server that is not running changes nothing and asks for
/// nothing; a stop of one that runs leaves it stopped, disconnected and not
/// alive, whatever becomes of its listener afterwards.
pub proof fn lemma_stop_outcomes(m: ManagerView, idx: usize)
    requires
        m.wf(),
    ensures
        !m.running(idx) ==> m.after_stop(idx) == m && m.stop_effects(idx).len() == 0,
        m.running(idx) ==> idx < m.status.len() && !m.after_stop(idx).running(idx) && {
            let status = m.after_stop(idx).status[idx as int];
            !status.is_running && !status.is_connected && !status.is_alive
        },
{
    if m.running(idx) {
        let at = choose|k: int| 0 <= k < m.handles.len() && m.handles[k] == idx;
        assert(m.handles[at] < m.status.len());
        lemma_without(m.handles, idx);
    }
}

/// The live positions without `idx`, one position further.
proof fn lemma_without_push(handles: Seq<usize>, h: usize, idx: usize)
    ensures
        without(handles.push(h), idx) == if h != idx {
            without(handles, idx).push(h)
        } else {
            without(handles, idx)
        },
{
    reveal(Seq::filter);
    assert(handles.push(h).drop_last() =~= handles);
}

/// The rekeyed live positions, one position further.
proof fn lemma_rekeyed_push(handles: Seq<usize>, h: usize, removed: usize)
    ensures
        rekeyed(handles.push(h), removed) == if h > removed {
            rekeyed(handles, removed).push((h - 1) as usize)
        } else if h < removed {
            rekeyed(handles, removed).push(h)
        } else {
            rekeyed(handles, removed)
        },
{
    lemma_without_push(handles, h, removed);
    if h > removed {
        assert(rekeyed(handles.push(h), removed) =~= rekeyed(handles, removed).push(
            (h - 1) as usize,
        ));
    } else if h < removed {
        assert(rekeyed(handles.push(h), removed) =~= rekeyed(handles, removed).push(h));
    }
}

/// The supervisor: the single owner of the configured servers, of their live
/// status and of the record of which listeners are live.
pub struct ServerManager {
    pub config: ServerConfig,
    /// Positions of the servers whose listener is live.
    pub handles: Vec<usize>,
    pub server_status: ServerStatus,
}

impl View for ServerManager {
    type V = ManagerView;

    open spec fn view(&self) -> ManagerView {
        ManagerView {
            config: entry_views(self.config.server@),
            status: self.server_status.server@,
            handles: self.handles@,
        }
    }
}

impl ServerManager {
    /// A supervisor for the given servers, none of them running.
    pub fn new(config: ServerConfig) -> (manager: ServerManager)
        ensures
            manager@ == (ManagerView {
                config: entry_views(config.server@),
                status: fresh_statuses(entry_views(config.server@), false),
                handles: Seq::empty(),
            }),
            manager@.wf(),
    {
        let n: usize = config.server.len();
        let mut server: Vec<ServerStatusInfo> = Vec::new();
        let mut i: usize = 0;
        while i < n
            invariant
                n == config.server@.len(),
                i <= n,
                server@.len() == i,
                forall|k: int|
                    0 <= k < i ==> server@[k] == fresh_status(
                        k as usize,
                        config.server@[k].id,
                        false,
                    ),
            decreases n - i,
        {
            server.push(ServerStatusInfo::fresh(i, config.server[i].id, false));
            i += 1;
        }
        let manager = ServerManager {
            config,
            handles: Vec::new(),
            server_status: ServerStatus { server },
        };
        assert(manager@.status =~= fresh_statuses(entry_views(config.server@), false));
        assert(manager@.handles =~= Seq::<usize>::empty());
        manager
    }

    /// Whether the server at `server_index` has a live listener.
    pub fn is_running(&self, server_index: usize) -> (running: bool)
        ensures
            running == self@.running(server_index),
    {
        let mut k: usize = 0;
        while k < self.handles.len()
            invariant
                k <= self.handles@.len(),
                forall|j: int| 0 <= j < k ==> self.handles@[j] != server_index,
            decreases self.handles@.len() - k,
        {
            if self.handles[k] == server_index {
                return true;
            }
            k += 1;
        }
        false
    }

    /// Checks the supervisor's invariant, for callers that cannot know it.
    pub fn is_consistent(&self) -> (consistent: bool)
        ensures
            consistent == self@.wf(),
    {
        let n: usize = self.server_status.server.len();
        if self.config.server.len() != n {
            return false;
        }
        let mut k: usize = 0;
        while k < self.handles.len()
            invariant
                n == self@.status.len(),
                k <= self.handles@.len(),
                forall|j: int| 0 <= j < k ==> #[trigger] self.handles@[j] < n,
            decreases self.handles@.len() - k,
        {
            if self.handles[k] >= n {
                assert(!(self@.handles[k as int] < self@.status.len()));
                return false;
            }
            k += 1;
        }
        let mut a: usize = 0;
        while a < self.handles.len()
            invariant
                a <= self.handles@.len(),
                forall|i: int, j: int|
                    0 <= i < a && i < j < self.handles@.len() ==> self.handles@[i]
                        != self.handles@[j],
            decreases self.handles@.len() - a,
        {
            let mut b: usize = a + 1;
            while b < self.handles.len()
                invariant
                    a < self.handles@.len(),
                    a < b <= self.handles@.len(),
                    forall|j: int| a < j < b ==> self.handles@[a as int] != self.handles@[j],
                decreases self.handles@.len() - b,
            {
                if self.handles[a] == self.handles[b] {
                    assert(!self@.handles.no_duplicates());
                    return false;
                }
                b += 1;
            }
            a += 1;
        }
        assert(self@.handles.no_duplicates()) by {
            assert forall|i: int, j: int|
                0 <= i < self.handles@.len() && 0 <= j < self.handles@.len() && i
                    != j implies self.handles@[i] != self.handles@[j] by {
                if i < j {
                    assert(self.handles@[i] != self.handles@[j]);
                } else {
                    assert(self.handles@[j] != self.handles@[i]);
                }
            }
        }
        let mut i: usize = 0;
        while i < n
            invariant
                n == self@.status.len(),
                n == self@.config.len(),
                i <= n,
                self@.handles.no_duplicates(),
                forall|j: int| 0 <= j < self.handles@.len() ==> #[trigger] self.handles@[j] < n,
                forall|q: int|
                    0 <= q < i ==> (#[trigger] self@.status[q]).idx == q && self@.status[q].server_id
                        == self@.config[q].id && self@.status[q].is_running
                        == self@.handles.contains(q as usize),
            decreases n - i,
        {
            let status = &self.server_status.server[i];
            let entry = &self.config.server[i];
            assert(self@.config[i as int].id == entry.id);
            let same: bool = same_id(&status.server_id, &entry.id);
            assert(same == (status.server_id == entry.id)) by {
                if status.server_id@ == entry.id@ {
                    assert(status.server_id =~= entry.id);
                }
            }
            if status.idx != i || !same || status.is_running != self.is_running(i) {
                assert(!((self@.status[i as int]).idx == i && self@.status[i as int].server_id
                    == self@.config[i as int].id && self@.status[i as int].is_running
                    == self@.handles.contains(i as usize)));
                return false;
            }
            i += 1;
        }
        true
    }

    /// How many servers are configured.
    pub fn server_count(&self) -> (count: usize)
        ensures
            count == self@.status.len(),
    {
        self.server_status.server.len()
    }

    /// Starts the server at `server_index`: records its listener as live,
    /// marks it running, and asks for the listener to be spawned and the new
    /// status to be published. Nothing happens where the server runs already
    /// or there is no such server.
    pub fn start_server(&mut self, server_index: usize) -> (effects: Vec<ServerEffect>)
        requires
            old(self)@.wf(),
        ensures
            final(self)@ == old(self)@.after_start(server_index),
            effects@ == old(self)@.start_effects(server_index),
            final(self)@.wf(),
    {
        let mut effects: Vec<ServerEffect> = Vec::new();
        if server_index >= self.server_status.server.len() || self.is_running(server_index) {
            return effects;
        }
        let initial: ServerStatusInfo = self.server_status.server[server_index];
        let mut info = initial;
        info.is_running = true;
        self.handles.push(server_index);
        self.server_status.server[server_index] = info;
        effects.push(ServerEffect::Spawn { index: server_index, status: initial });
        effects.push(ServerEffect::Emit(info));
        proof {
            lemma_start_keeps_invariant(old(self)@, server_index);
            assert(self@.status =~= old(self)@.after_start(server_index).status);
            assert(effects@ =~= old(self)@.start_effects(server_index));
        }
        effects
    }

    /// Takes the server at `server_index` out of the running ones, if it is
    /// among them, and says what is then to be done.
    fn halt(&mut self, server_index: usize) -> (effects: Vec<ServerEffect>)
        requires
            old(self)@.wf(),
        ensures
            final(self)@ == old(self)@.after_stop(server_index),
            effects@ == old(self)@.stop_effects(server_index),
            final(self)@.wf(),
    {
        let mut effects: Vec<ServerEffect> = Vec::new();
        if !self.is_running(server_index) {
            return effects;
        }
        proof {
            let at = choose|k: int|
                0 <= k < self.handles@.len() && self.handles@[k] == server_index;
            assert(self.handles@[at] < self@.status.len());
        }
        let mut kept: Vec<usize> = Vec::new();
        let mut k: usize = 0;
        assert(self.handles@.subrange(0, 0) =~= Seq::<usize>::empty());
        assert(without(Seq::<usize>::empty(), server_index) =~= Seq::<usize>::empty()) by {
            reveal(Seq::filter);
        }
        while k < self.handles.len()
            invariant
                k <= self.handles@.len(),
                kept@ == without(self.handles@.subrange(0, k as int), server_index),
            decreases self.handles@.len() - k,
        {
            let h: usize = self.handles[k];
            proof {
                lemma_without_push(self.handles@.subrange(0, k as int), h, server_index);
                assert(self.handles@.subrange(0, k as int).push(h) =~= self.handles@.subrange(
                    0,
                    k + 1,
                ));
            }
            if h != server_index {
                kept.push(h);
            }
            k += 1;
        }
        assert(self.handles@.subrange(0, self.handles@.len() as int) =~= self.handles@);
        self.handles = kept;
        let mut info: ServerStatusInfo = self.server_status.server[server_index];
        info.is_running = false;
        info.is_connected = false;
        info.is_alive = false;
        info.new_data = true;
        self.server_status.server[server_index] = info;
        effects.push(
            ServerEffect::Shutdown {
                index: server_index,
                server_id: info.server_id,
                grace_secs: SHUTDOWN_GRACE_SECS,
            },
        );
        effects.push(ServerEffect::Emit(info));
        proof {
            lemma_stop_keeps_invariant(old(self)@, server_index);
            assert(self@.status =~= old(self)@.after_stop(server_index).status);
            assert(effects@ =~= old(self)@.stop_effects(server_index));
        }
        effects
    }

    /// Stops the server at `server_index`. Where it is not running, the
    /// answer is the error `NotRunning` and nothing changes. Where it runs,
    /// it is taken out of the running ones and marked stopped, disconnected
    /// and not alive at once, so that its status no longer depends on how its
    /// listener ends; the effects ask for the shutdown and publish the status.
    pub fn stop_server(&mut self, server_index: usize) -> (outcome: Result<
        Vec<ServerEffect>,
        ServerError,
    >)
        requires
            old(self)@.wf(),
        ensures
            final(self)@.wf(),
            outcome.is_ok() == old(self)@.running(server_index),
            outcome matches Ok(effects) ==> final(self)@ == old(self)@.after_stop(server_index)
                && effects@ == old(self)@.stop_effects(server_index),
            outcome matches Err(e) ==> e == ServerError::NotRunning && final(self)@ == old(self)@,
    {
        if !self.is_running(server_index) {
            return Err(ServerError::NotRunning);
        }
        Ok(self.halt(server_index))
    }

    /// Stops every running server, in the order in which they are recorded
    /// as live, and leaves none running.
    pub fn stop_all_servers(&mut self) -> (effects: Vec<ServerEffect>)
        requires
            old(self)@.wf(),
        ensures
            final(self)@ == old(self)@.after_stop_all(),
            effects@ == old(self)@.stop_all_effects(),
            final(self)@.wf(),
    {
        let mut effects: Vec<ServerEffect> = Vec::new();
        let ghost before = self@;
        let mut k: usize = 0;
        assert(self.handles@.subrange(0, 0) =~= Seq::<usize>::empty());
        assert(self.server_status.server@ =~= stopped_where(before.status, Seq::empty()));
        while k < self.handles.len()
            invariant
                before == old(self)@,
                before.wf(),
                self.handles@ == before.handles,
                self.config == old(self).config,
                k <= self.handles@.len(),
                self.server_status.server@ == stopped_where(
                    before.status,
                    before.handles.subrange(0, k as int),
                ),
                effects@ == shutdown_effects(before.status, before.handles.subrange(0, k as int)),
            decreases self.handles@.len() - k,
        {
            let h: usize = self.handles[k];
            assert(before.handles[k as int] < before.status.len());
            let ghost seen = before.handles.subrange(0, k as int);
            let ghost next = before.handles.subrange(0, k + 1);
            assert(next.drop_last() =~= seen);
            assert(next.last() == h);
            let mut info: ServerStatusInfo = self.server_status.server[h];
            info.is_running = false;
            info.is_connected = false;
            info.is_alive = false;
            info.new_data = true;
            assert(info == stopped(before.status[h as int]));
            self.server_status.server[h] = info;
            effects.push(
                ServerEffect::Shutdown {
                    index: h,
                    server_id: info.server_id,
                    grace_secs: SHUTDOWN_GRACE_SECS,
                },
            );
            effects.push(ServerEffect::Emit(info));
            proof {
                assert forall|x: usize| #[trigger]
                    next.contains(x) == (seen.contains(x) || x == h) by {
                    if next.contains(x) {
                        let j = choose|j: int| 0 <= j < next.len() && next[j] == x;
                        if j < seen.len() {
                            assert(seen[j] == x);
                        }
                    }
                    if seen.contains(x) {
                        let j = choose|j: int| 0 <= j < seen.len() && seen[j] == x;
                        assert(next[j] == x);
                    }
                    if x == h {
                        assert(next[k as int] == h);
                    }
                }
                assert(self.server_status.server@ =~= stopped_where(before.status, next));
                assert(effects@ =~= shutdown_effects(before.status, next));
            }
            k += 1;
        }
        assert(before.handles.subrange(0, before.handles.len() as int) =~= before.handles);
        self.handles.clear();
        proof {
            lemma_stop_all_keeps_invariant(before);
            assert(self@.handles =~= Seq::<usize>::empty());
        }
        effects
    }

    /// Adds a server behind the others, not running, under the identifier
    /// its entry brings, and publishes its status flagged as new.
    pub fn add_server(&mut self, server_entry: ServerEntry) -> (effects: Vec<ServerEffect>)
        requires
            old(self)@.wf(),
        ensures
            final(self)@ == old(self)@.after_add(server_entry@),
            effects@ == old(self)@.add_effects(server_entry@),
            final(self)@.wf(),
    {
        let new_idx: usize = self.server_status.server.len();
        let new_status = ServerStatusInfo::fresh(new_idx, server_entry.id, true);
        self.config.server.push(server_entry);
        self.server_status.server.push(new_status);
        let mut effects: Vec<ServerEffect> = Vec::new();
        effects.push(ServerEffect::Emit(new_status));
        let count: usize = self.server_status.server.len();
        proof {
            assert(self@.config =~= old(self)@.config.push(server_entry@));
            assert(count == old(self)@.status.len() + 1);
            lemma_add_keeps_invariant(old(self)@, server_entry@);
            assert(effects@ =~= old(self)@.add_effects(server_entry@));
        }
        effects
    }

    /// Removes the server at `server_index`. Where there is no such server
    /// the answer is the error `IndexOutOfBounds` and nothing changes.
    /// Otherwise the server is stopped first if it runs; its entry and its
    /// status leave their lists; every status behind it moves down by one
    /// position, is flagged as new and published; and the record of live
    /// listeners follows the servers to their new positions.
    pub fn remove_server(&mut self, server_index: usize) -> (outcome: Result<
        Vec<ServerEffect>,
        ServerError,
    >)
        requires
            old(self)@.wf(),
        ensures
            final(self)@.wf(),
            outcome.is_ok() == (server_index < old(self)@.status.len()),
            outcome matches Ok(effects) ==> final(self)@ == old(self)@.after_remove(server_index)
                && effects@ == old(self)@.remove_effects(server_index),
            outcome matches Err(e) ==> e == ServerError::IndexOutOfBounds && final(self)@ == old(
                self,
            )@,
    {
        if server_index >= self.server_status.server.len() {
            return Err(ServerError::IndexOutOfBounds);
        }
        let ghost before = self@;
        let mut effects = self.halt(server_index);
        let ghost halted = self@;
        let ghost after = before.after_remove(server_index);
        let ghost stop_part = effects@;
        self.config.server.remove(server_index);
        self.server_status.server.remove(server_index);
        assert(self@.config =~= halted.config.remove(server_index as int));
        let n: usize = self.server_status.server.len();
        let mut i: usize = 0;
        while i < n
            invariant
                halted.wf(),
                halted == before.after_stop(server_index),
                after == before.after_remove(server_index),
                server_index < before.status.len(),
                before.status.len() == halted.status.len(),
                n == halted.status.len() - 1,
                self.server_status.server@.len() == n,
                entry_views(self.config.server@) == halted.config.remove(server_index as int),
                self.handles@ == halted.handles,
                i <= n,
                forall|q: int| 0 <= q < i ==> self.server_status.server@[q] == after.status[q],
                forall|q: int|
                    i <= q < n ==> self.server_status.server@[q] == halted.status.remove(
                        server_index as int,
                    )[q],
                effects@ == stop_part + Seq::new(
                    if i > server_index { (i - server_index) as nat } else { 0 },
                    |j: int| ServerEffect::Emit(after.status[server_index + j]),
                ),
            decreases n - i,
        {
            let mut info: ServerStatusInfo = self.server_status.server[i];
            proof {
                let source = halted.status.remove(server_index as int);
                assert(info == source[i as int]);
                if i < server_index {
                    assert(source[i as int] == halted.status[i as int]);
                    assert(halted.status[i as int].idx == i);
                } else {
                    assert(source[i as int] == halted.status[i + 1]);
                    assert(halted.status[i + 1].idx == i + 1);
                }
            }
            if info.idx > server_index {
                info.idx = info.idx - 1;
                info.new_data = true;
                self.server_status.server[i] = info;
                effects.push(ServerEffect::Emit(info));
                assert(info == after.status[i as int]);
            }
            i += 1;
            assert(effects@ =~= stop_part + Seq::new(
                if i > server_index { (i - server_index) as nat } else { 0 },
                |j: int| ServerEffect::Emit(after.status[server_index + j]),
            ));
        }
        let mut moved: Vec<usize> = Vec::new();
        let mut k: usize = 0;
        assert(self.handles@.subrange(0, 0) =~= Seq::<usize>::empty());
        assert(rekeyed(Seq::<usize>::empty(), server_index) =~= Seq::<usize>::empty()) by {
            reveal(Seq::filter);
        }
        while k < self.handles.len()
            invariant
                k <= self.handles@.len(),
                moved@ == rekeyed(self.handles@.subrange(0, k as int), server_index),
            decreases self.handles@.len() - k,
        {
            let h: usize = self.handles[k];
            proof {
                lemma_rekeyed_push(self.handles@.subrange(0, k as int), h, server_index);
                assert(self.handles@.subrange(0, k as int).push(h) =~= self.handles@.subrange(
                    0,
                    k + 1,
                ));
            }
            if h > server_index {
                moved.push(h - 1);
            } else if h < server_index {
                moved.push(h);
            }
            k += 1;
        }
        assert(self.handles@.subrange(0, self.handles@.len() as int) =~= self.handles@);
        self.handles = moved;
        proof {
            lemma_remove_keeps_invariant(before, server_index);
            assert(self@.status =~= after.status);
            assert(self@.config =~= after.config);
            assert(effects@ =~= before.remove_effects(server_index));
        }
        Ok(effects)
    }

    /// Brings the statuses in line with the configured servers: where the
    /// two lists differ in length, the statuses are rebuilt from the entries,
    /// none running, each flagged as new and published.
    pub fn sync_with_config(&mut self) -> (effects: Vec<ServerEffect>)
        ensures
            final(self)@ == old(self)@.after_sync(),
            effects@ == old(self)@.sync_effects(),
    {
        let mut effects: Vec<ServerEffect> = Vec::new();
        let config_count: usize = self.config.server.len();
        if config_count == self.server_status.server.len() {
            return effects;
        }
        let ghost target = fresh_statuses(self@.config, true);
        self.server_status.server.clear();
        let mut i: usize = 0;
        while i < config_count
            invariant
                config_count == self.config.server@.len(),
                self.config == old(self).config,
                self.handles == old(self).handles,
                target == fresh_statuses(old(self)@.config, true),
                i <= config_count,
                self.server_status.server@.len() == i,
                effects@.len() == i,
                forall|q: int| 0 <= q < i ==> self.server_status.server@[q] == target[q],
                forall|q: int| 0 <= q < i ==> effects@[q] == ServerEffect::Emit(target[q]),
            decreases config_count - i,
        {
            let new_status = ServerStatusInfo::fresh(i, self.config.server[i].id, true);
            self.server_status.server.push(new_status);
            effects.push(ServerEffect::Emit(new_status));
            i += 1;
        }
        assert(self@.status =~= target);
        assert(effects@ =~= old(self)@.sync_effects());
        effects
    }

    /// Carries out one command and says what is to be done for it.
    pub fn process_command(&mut self, command: &ServerCommand) -> (effects: Vec<ServerEffect>)
        requires
            old(self)@.wf(),
        ensures
            final(self)@ == old(self)@.after_command(*command),
            effects@ == old(self)@.command_effects(*command),
            final(self)@.wf(),
    {
        match command {
            ServerCommand::Start(idx) => self.start_server(*idx),
            ServerCommand::Stop(idx) => self.halt(*idx),
            ServerCommand::StopAll => self.stop_all_servers(),
            ServerCommand::AddServer(entry) => self.add_server(entry.duplicate()),
            ServerCommand::RemoveServer(idx) => {
                let ghost before = self@;
                let mut effects = match self.remove_server(*idx) {
                    Ok(e) => e,
                    Err(_) => Vec::new(),
                };
                let mut more = self.sync_with_config();
                effects.append(&mut more);
                proof {
                    lemma_remove_keeps_invariant(before, *idx);
                    assert(effects@ =~= before.command_effects(*command));
                }
                effects
            },
        }
    }

    /// Carries out a sequence of commands strictly one at a time, in order,
    /// and collects what is to be done, in that order.
    pub fn process_commands(&mut self, commands: &Vec<ServerCommand>) -> (effects: Vec<
        ServerEffect,
    >)
        requires
            old(self)@.wf(),
        ensures
            final(self)@ == old(self)@.after_commands(commands@),
            effects@ == old(self)@.commands_effects(commands@),
            final(self)@.wf(),
    {
        let mut effects: Vec<ServerEffect> = Vec::new();
        let mut i: usize = 0;
        assert(commands@.subrange(0, 0) =~= Seq::<ServerCommand>::empty());
        while i < commands.len()
            invariant
                i <= commands@.len(),
                self@.wf(),
                self@ == old(self)@.after_commands(commands@.subrange(0, i as int)),
                effects@ == old(self)@.commands_effects(commands@.subrange(0, i as int)),
            decreases commands@.len() - i,
        {
            let ghost done = commands@.subrange(0, i as int);
            let ghost next = commands@.subrange(0, i + 1);
            assert(next.drop_last() =~= done);
            assert(next.last() == commands@[i as int]);
            let mut more = self.process_command(&commands[i]);
            effects.append(&mut more);
            i += 1;
            assert(effects@ =~= old(self)@.commands_effects(next));
        }
        assert(commands@.subrange(0, commands@.len() as int) =~= commands@);
        effects
    }
}

} // verus!
