//! Socket-table decoding and the PID-to-path policy.
//!
//! The kernel's TCP and UDP owner tables arrive as raw bytes and are decoded
//! here into plain rows. A sweep over all four tables also lists the PIDs whose
//! image paths have yet to be looked up; the finished [`SocketSnapshot`] is
//! gathered with no lock held and then applied to the flow table.

use crate::addr::{big_endian, read_big_endian, IpAddr, SocketAddr};
use crate::backend::synthetic::SYSTEM_EXE;
use crate::text::{
    decimal, decimal_text, from_utf16_lossy, law_numerals_are_distinct, lowercase, optional, to_lowercase, utf16_text,
};
use std::collections::HashSet;
use vstd::prelude::*;
use vstd::string::*;

verus! {

broadcast use {vstd::string::group_string_axioms, vstd::std_specs::hash::group_hash_axioms};

/// IANA protocol number for TCP.
pub const IPPROTO_TCP: u8 = 6;

/// IANA protocol number for UDP.
pub const IPPROTO_UDP: u8 = 17;

/// `AF_INET` (IPv4) address family for the socket-table queries.
pub const AF_INET: u32 = 2;

/// `AF_INET6` address family for the socket-table queries.
pub const AF_INET6: u32 = 23;

/// `NO_ERROR` return value from the table queries.
pub const NO_ERROR: u32 = 0;

/// One row extracted from a socket table, already converted to host order.
/// `remote` is `None` for UDP rows (which carry no peer address).
#[derive(Clone, Copy, PartialEq, Eq, Debug)]
pub struct SocketRow {
    pub local: SocketAddr,
    pub remote: Option<SocketAddr>,
    pub owning_pid: u32,
}

/// A row of the combined TCP+UDP socket tables, tagged with its protocol.
#[derive(Clone, Copy, PartialEq, Eq, Debug)]
pub struct SocketTableRow {
    pub protocol: u8,
    pub local: SocketAddr,
    pub remote: Option<SocketAddr>,
    pub pid: u32,
}

/// The result of one socket-table sweep, gathered with no locks held.
pub struct SocketSnapshot {
    pub rows: Vec<SocketTableRow>,
    /// PIDs resolved during the sweep (outside the flow-table lock).
    pub resolved: Vec<(u32, Option<String>)>,
    /// True only if every one of the four table queries succeeded; a partial
    /// sweep must not be treated as authoritative.
    pub complete: bool,
}

/// Why a socket table could not be read.
#[derive(Clone, Copy, PartialEq, Eq, Structural, Debug)]
pub enum TableError {
    /// The query returned this error code.
    Status(u32),
    /// The table claims more rows than its bytes hold.
    Truncated,
}

/// The path under which a PID's traffic is kept, given the image path that
/// was found for it.
pub open spec fn path_for_pid(pid: u32, image: Option<Seq<char>>) -> Option<Seq<char>> {
    if pid == 0 {
        None
    } else if pid == 4 {
        Some(SYSTEM_EXE@)
    } else {
        match image {
            Some(path) => Some(path),
            None => Some("pid:"@ + decimal(pid as nat)),
        }
    }
}

/// Processes whose image path cannot be found never share a key.
pub proof fn law_synthetic_keys_are_distinct(a: u32, b: u32)
    requires
        a != b,
        a != 0,
        a != 4,
        b != 0,
        b != 4,
    ensures
        path_for_pid(a, None) != path_for_pid(b, None),
{
    let prefix = "pid:"@;
    let (s, t) = (prefix + decimal(a as nat), prefix + decimal(b as nat));
    law_numerals_are_distinct(a as nat, b as nat);
    assert(s.skip(prefix.len() as int) =~= decimal(a as nat));
    assert(t.skip(prefix.len() as int) =~= decimal(b as nat));
}

/// Only the idle process is ignored, the kernel is itself whatever was found for
/// it, a path that was found is kept, and no key is empty unless an empty path
/// was found.
pub proof fn law_every_process_has_a_key(pid: u32, image: Option<Seq<char>>)
    requires
        image != Some(Seq::<char>::empty()),
    ensures
        path_for_pid(pid, image) is None <==> pid == 0,
        pid == 4 ==> path_for_pid(pid, image) == Some(SYSTEM_EXE@),
        pid != 0 && pid != 4 && image is Some ==> path_for_pid(pid, image) == image,
        pid != 0 && pid != 4 && image is None ==> path_for_pid(pid, image) == Some(
            "pid:"@ + decimal(pid as nat),
        ),
        path_for_pid(pid, image) matches Some(path) ==> path.len() > 0,
{
    reveal_strlit("pid:");
    reveal_strlit("system");
    if let Some(path) = image {
        if path.len() == 0 {
            assert(path =~= Seq::<char>::empty());
        }
    }
}

/// PID-to-path policy shared by the cached and the lock-free resolution paths:
/// PID 0 is ignored, PID 4 is the kernel, and anything unopenable gets a stable
/// synthetic key so its traffic is still attributed somewhere.
pub fn resolve_pid_path(pid: u32, image: Option<String>) -> (path: Option<String>)
    ensures
        optional(path) == path_for_pid(pid, optional(image)),
{
    if pid == 0 {
        None
    } else if pid == 4 {
        Some(SYSTEM_EXE.to_string())
    } else {
        match image {
            Some(path) => Some(path),
            None => {
                let mut path = "pid:".to_string();
                path.append(decimal_text(pid as u64).as_str());
                Some(path)
            },
        }
    }
}

/// Whether a PID can be opened for its image name: the idle process (0) and
/// the kernel (4) cannot.
pub fn has_image(pid: u32) -> (opens: bool)
    ensures
        opens == (pid != 0 && pid != 4),
{
    pid != 0 && pid != 4
}

/// The lowercase image path that UTF-16 code units spell; none if there are no
/// units.
pub fn image_path(units: &[u16]) -> (path: Option<String>)
    ensures
        optional(path) == (if units@.len() == 0 {
            None
        } else {
            Some(lowercase(utf16_text(units@)))
        }),
{
    if units.len() == 0 {
        return None;
    }
    Some(to_lowercase(from_utf16_lossy(units).as_str()))
}

/// Convert a table's port dword (network byte order in the low 16 bits) to a
/// host-order `u16`.
pub fn port_from_dword(dw: u32) -> (port: u16)
    ensures
        port == (dw % 256) * 256 + (dw / 256) % 256,
{
    ((dw % 256) * 256 + (dw / 256) % 256) as u16
}

/// The dword at `at`, least significant byte first.
pub open spec fn dword(bytes: Seq<u8>, at: int) -> nat {
    bytes[at] as nat + bytes[at + 1] as nat * 0x100 + bytes[at + 2] as nat * 0x1_0000 + bytes[at
        + 3] as nat * 0x100_0000
}

fn read_dword(bytes: &[u8], at: usize) -> (value: u32)
    requires
        at + 4 <= bytes.len(),
    ensures
        value == dword(bytes@, at as int),
{
    bytes[at] as u32 + bytes[at + 1] as u32 * 0x100 + bytes[at + 2] as u32 * 0x1_0000 + bytes[at
        + 3] as u32 * 0x100_0000
}

/// The port that the dword at `at` holds.
pub open spec fn port_at(bytes: Seq<u8>, at: int) -> u16 {
    (bytes[at] * 256 + bytes[at + 1]) as u16
}

fn read_port(bytes: &[u8], at: usize) -> (port: u16)
    requires
        at + 4 <= bytes.len(),
    ensures
        port == port_at(bytes@, at as int),
{
    let dw: u32 = read_dword(bytes, at);
    proof {
        let rest = bytes@[at + 1] + bytes@[at + 2] * 0x100 + bytes@[at + 3] * 0x1_0000;
        assert(dw == bytes@[at as int] + 256 * rest);
        assert(dw % 256 == bytes@[at as int]);
        assert(dw / 256 == rest);
        assert(rest % 256 == bytes@[at + 1]);
    }
    port_from_dword(dw)
}

/// The IPv4 address at `at`, in network byte order.
pub open spec fn v4_at(bytes: Seq<u8>, at: int) -> IpAddr {
    IpAddr::V4(big_endian(bytes.subrange(at, at + 4)) as u32)
}

/// The IPv6 address at `at`, in network byte order.
pub open spec fn v6_at(bytes: Seq<u8>, at: int) -> IpAddr {
    IpAddr::V6(big_endian(bytes.subrange(at, at + 16)) as u128)
}

/// The endpoint whose address stands at `ip` and whose port at `port`.
pub open spec fn endpoint_at(bytes: Seq<u8>, v6: bool, ip: int, port: int) -> SocketAddr {
    SocketAddr {
        ip: if v6 {
            v6_at(bytes, ip)
        } else {
            v4_at(bytes, ip)
        },
        port: port_at(bytes, port),
    }
}

/// Read the IPv4 address at `at`.
pub fn read_v4(bytes: &[u8], at: usize) -> (ip: IpAddr)
    requires
        at + 4 <= bytes.len(),
    ensures
        ip == v4_at(bytes@, at as int),
{
    IpAddr::V4(read_big_endian(bytes, at, 4) as u32)
}

/// Read the IPv6 address at `at`.
pub fn read_v6(bytes: &[u8], at: usize) -> (ip: IpAddr)
    requires
        at + 16 <= bytes.len(),
    ensures
        ip == v6_at(bytes@, at as int),
{
    IpAddr::V6(read_big_endian(bytes, at, 16))
}

/// What came of reading a table.
pub open spec fn listed(rows: Result<Vec<SocketRow>, TableError>) -> Result<
    Seq<SocketRow>,
    TableError,
> {
    match rows {
        Ok(rows) => Ok(rows@),
        Err(e) => Err(e),
    }
}

/// Where the fields of a socket table's rows stand. Rows follow the table's
/// leading dword, which counts them.
pub struct Layout {
    /// Bytes per row.
    pub size: usize,
    /// Whether the addresses are IPv6 ones.
    pub v6: bool,
    /// Whether rows name a peer.
    pub peer: bool,
    pub local_ip: usize,
    pub local_port: usize,
    pub remote_ip: usize,
    pub remote_port: usize,
    pub pid: usize,
}

impl Layout {
    /// Every field lies inside the row.
    pub open spec fn wf(self) -> bool {
        let ip: int = if self.v6 {
            16
        } else {
            4
        };
        &&& self.local_ip + ip <= self.size
        &&& self.remote_ip + ip <= self.size
        &&& self.local_port + 4 <= self.size
        &&& self.remote_port + 4 <= self.size
        &&& self.pid + 4 <= self.size
        &&& self.size <= 0x100
    }

    /// The row that starts at `at`.
    pub open spec fn row(self, bytes: Seq<u8>, at: int) -> SocketRow {
        SocketRow {
            local: endpoint_at(bytes, self.v6, at + self.local_ip, at + self.local_port),
            remote: if self.peer {
                Some(endpoint_at(bytes, self.v6, at + self.remote_ip, at + self.remote_port))
            } else {
                None
            },
            owning_pid: dword(bytes, at + self.pid) as u32,
        }
    }

    /// Whether the bytes hold as many rows as their leading dword claims.
    pub open spec fn fits(self, bytes: Seq<u8>) -> bool {
        bytes.len() >= 4 && 4 + dword(bytes, 0) * self.size <= bytes.len()
    }

    /// All rows of the table.
    pub open spec fn rows(self, bytes: Seq<u8>) -> Seq<SocketRow> {
        Seq::new(dword(bytes, 0), |i: int| self.row(bytes, 4 + i * self.size))
    }

    /// What reading a table of this layout gives: an empty answer has no rows,
    /// and a failed query or a table that lacks rows it claims is an error.
    pub open spec fn outcome(self, status: u32, bytes: Seq<u8>) -> Result<
        Seq<SocketRow>,
        TableError,
    > {
        if bytes.len() == 0 {
            Ok(Seq::empty())
        } else if status != NO_ERROR {
            Err(TableError::Status(status))
        } else if !self.fits(bytes) {
            Err(TableError::Truncated)
        } else {
            Ok(self.rows(bytes))
        }
    }

    fn read_endpoint(&self, bytes: &[u8], ip: usize, port: usize) -> (addr: SocketAddr)
        requires
            ip + (if self.v6 {
                16int
            } else {
                4int
            }) <= bytes.len(),
            port + 4 <= bytes.len(),
        ensures
            addr == endpoint_at(bytes@, self.v6, ip as int, port as int),
    {
        let address = if self.v6 {
            read_v6(bytes, ip)
        } else {
            read_v4(bytes, ip)
        };
        SocketAddr::new(address, read_port(bytes, port))
    }

    fn read_row(&self, bytes: &[u8], at: usize) -> (row: SocketRow)
        requires
            self.wf(),
            at + self.size <= bytes.len(),
        ensures
            row == self.row(bytes@, at as int),
    {
        let remote = if self.peer {
            Some(self.read_endpoint(bytes, at + self.remote_ip, at + self.remote_port))
        } else {
            None
        };
        SocketRow {
            local: self.read_endpoint(bytes, at + self.local_ip, at + self.local_port),
            remote,
            owning_pid: read_dword(bytes, at + self.pid),
        }
    }

    fn read(&self, status: u32, bytes: &[u8]) -> (rows: Result<Vec<SocketRow>, TableError>)
        requires
            self.wf(),
            self.size > 0,
        ensures
            listed(rows) == self.outcome(status, bytes@),
    {
        let mut rows: Vec<SocketRow> = Vec::new();
        if bytes.len() == 0 {
            assert(rows@ =~= Seq::<SocketRow>::empty());
            return Ok(rows);
        }
        if status != NO_ERROR {
            return Err(TableError::Status(status));
        }
        if bytes.len() < 4 {
            return Err(TableError::Truncated);
        }
        let count: u32 = read_dword(bytes, 0);
        let room: usize = (bytes.len() - 4) / self.size;
        let held: u128 = room as u128;
        if count as u128 > held {
            assert(4 + count * self.size > bytes.len()) by (nonlinear_arith)
                requires
                    count > room,
                    room == (bytes.len() - 4) / self.size as int,
                    self.size > 0,
            ;
            return Err(TableError::Truncated);
        }
        assert(4 + count * self.size <= bytes.len()) by (nonlinear_arith)
            requires
                count <= room,
                room == (bytes.len() - 4) / self.size as int,
                self.size > 0,
                bytes.len() >= 4,
        ;
        let mut i: u32 = 0;
        let mut at: usize = 4;
        while i < count
            invariant
                self.wf(),
                i <= count,
                count == dword(bytes@, 0),
                4 + count * self.size <= bytes.len(),
                at == 4 + i * self.size,
                rows@.len() == i,
                forall|j: int| 0 <= j < i ==> #[trigger] rows@[j] == self.rows(bytes@)[j],
            decreases count - i,
        {
            assert(i * self.size + self.size == (i + 1) * self.size) by (nonlinear_arith);
            assert((i + 1) * self.size <= count * self.size) by (nonlinear_arith)
                requires
                    i + 1 <= count,
            ;
            let row = self.read_row(bytes, at);
            rows.push(row);
            at = at + self.size;
            i = i + 1;
        }
        assert(rows@ =~= self.rows(bytes@));
        Ok(rows)
    }
}

/// How a TCP owner table for `family` (`AF_INET` or `AF_INET6`) is laid out.
pub open spec fn tcp_layout(family: u32) -> Layout {
    if family == AF_INET {
        Layout {
            size: 24,
            v6: false,
            peer: true,
            local_ip: 4,
            local_port: 8,
            remote_ip: 12,
            remote_port: 16,
            pid: 20,
        }
    } else {
        Layout {
            size: 56,
            v6: true,
            peer: true,
            local_ip: 0,
            local_port: 20,
            remote_ip: 24,
            remote_port: 44,
            pid: 52,
        }
    }
}

/// How a UDP owner table for `family` is laid out. Rows name no peer.
pub open spec fn udp_layout(family: u32) -> Layout {
    if family == AF_INET {
        Layout {
            size: 12,
            v6: false,
            peer: false,
            local_ip: 0,
            local_port: 4,
            remote_ip: 0,
            remote_port: 0,
            pid: 8,
        }
    } else {
        Layout {
            size: 28,
            v6: true,
            peer: false,
            local_ip: 0,
            local_port: 20,
            remote_ip: 0,
            remote_port: 0,
            pid: 24,
        }
    }
}

/// Decode the answer to a TCP table query (owner-PID variant) for `family`
/// (`AF_INET` or `AF_INET6`): the query's return code and the bytes it filled.
pub fn read_tcp_table(family: u32, status: u32, bytes: &[u8]) -> (rows: Result<
    Vec<SocketRow>,
    TableError,
>)
    ensures
        listed(rows) == tcp_layout(family).outcome(status, bytes@),
{
    let layout = if family == AF_INET {
        Layout {
            size: 24,
            v6: false,
            peer: true,
            local_ip: 4,
            local_port: 8,
            remote_ip: 12,
            remote_port: 16,
            pid: 20,
        }
    } else {
        Layout {
            size: 56,
            v6: true,
            peer: true,
            local_ip: 0,
            local_port: 20,
            remote_ip: 24,
            remote_port: 44,
            pid: 52,
        }
    };
    layout.read(status, bytes)
}

/// Decode the answer to a UDP table query (owner-PID variant) for `family`.
pub fn read_udp_table(family: u32, status: u32, bytes: &[u8]) -> (rows: Result<
    Vec<SocketRow>,
    TableError,
>)
    ensures
        listed(rows) == udp_layout(family).outcome(status, bytes@),
{
    let layout = if family == AF_INET {
        Layout {
            size: 12,
            v6: false,
            peer: false,
            local_ip: 0,
            local_port: 4,
            remote_ip: 0,
            remote_port: 0,
            pid: 8,
        }
    } else {
        Layout {
            size: 28,
            v6: true,
            peer: false,
            local_ip: 0,
            local_port: 20,
            remote_ip: 0,
            remote_port: 0,
            pid: 24,
        }
    };
    layout.read(status, bytes)
}

/// Rows tagged with their protocol.
pub open spec fn tagged(protocol: u8, rows: Seq<SocketRow>) -> Seq<SocketTableRow> {
    Seq::new(
        rows.len(),
        |i: int|
            SocketTableRow {
                protocol,
                local: rows[i].local,
                remote: rows[i].remote,
                pid: rows[i].owning_pid,
            },
    )
}

/// The rows that one table adds to a sweep: none if it could not be read.
pub open spec fn contributed(
    protocol: u8,
    table: Result<Vec<SocketRow>, TableError>,
) -> Seq<SocketTableRow> {
    match table {
        Ok(rows) => tagged(protocol, rows@),
        Err(_) => Seq::empty(),
    }
}

/// The PIDs of the rows that are not yet known, each once, in the order in
/// which they first occur.
pub open spec fn new_pids(rows: Seq<SocketTableRow>, known: Set<u32>) -> Seq<u32>
    decreases rows.len(),
{
    if rows.len() == 0 {
        Seq::empty()
    } else {
        let before = new_pids(rows.drop_last(), known);
        let pid = rows.last().pid;
        if known.contains(pid) || before.contains(pid) {
            before
        } else {
            before.push(pid)
        }
    }
}

/// A sweep looks every unknown PID up exactly once: the list holds each row's
/// PID unless it is known, no known one, and none twice.
pub proof fn law_sweep_resolves_each_new_pid_once(rows: Seq<SocketTableRow>, known: Set<u32>)
    ensures
        new_pids(rows, known).no_duplicates(),
        forall|pid: u32| #[trigger]
            new_pids(rows, known).contains(pid) <==> !known.contains(pid) && exists|i: int|
                0 <= i < rows.len() && #[trigger] rows[i].pid == pid,
    decreases rows.len(),
{
    let all = new_pids(rows, known);
    if rows.len() > 0 {
        let rest = rows.drop_last();
        law_sweep_resolves_each_new_pid_once(rest, known);
        let before = new_pids(rest, known);
        let last = rows.last().pid;
        assert forall|pid: u32| #[trigger] all.contains(pid) implies !known.contains(pid) && (
        exists|i: int| 0 <= i < rows.len() && #[trigger] rows[i].pid == pid) by {
            if before.contains(pid) {
                let i = choose|i: int| 0 <= i < rest.len() && #[trigger] rest[i].pid == pid;
                assert(rows[i].pid == pid);
            } else {
                assert(pid == last);
                assert(rows[rows.len() - 1].pid == pid);
            }
        }
        assert forall|pid: u32|
            !known.contains(pid) && (exists|i: int|
                0 <= i < rows.len() && #[trigger] rows[i].pid == pid) implies #[trigger] all.contains(
        pid) by {
            let i = choose|i: int| 0 <= i < rows.len() && #[trigger] rows[i].pid == pid;
            if i < rest.len() {
                assert(rest[i].pid == pid);
                assert(before.contains(pid));
                let k = choose|k: int| 0 <= k < before.len() && before[k] == pid;
                assert(all[k] == pid);
            } else if !before.contains(pid) {
                assert(all[before.len() as int] == pid);
            }
        }
    }
}

/// The PIDs of the rows that are not in `known`, each once, in the order in which
/// they first occur.
pub fn unknown_pids(rows: &Vec<SocketTableRow>, known: &HashSet<u32>) -> (pids: Vec<u32>)
    ensures
        pids@ == new_pids(rows@, known@),
{
    let mut seen: HashSet<u32> = HashSet::new();
    let mut pids: Vec<u32> = Vec::new();
    let mut i: usize = 0;
    assert(pids@ =~= new_pids(rows@.take(0), known@));
    while i < rows.len()
        invariant
            i <= rows.len(),
            pids@ == new_pids(rows@.take(i as int), known@),
            forall|pid: u32| #[trigger] seen@.contains(pid) == pids@.contains(pid),
        decreases rows.len() - i,
    {
        let pid: u32 = rows[i].pid;
        proof {
            assert(rows@.take(i + 1).drop_last() =~= rows@.take(i as int));
            assert(rows@.take(i + 1).last() == rows@[i as int]);
        }
        let ghost before = pids@;
        if !known.contains(&pid) && seen.insert(pid) {
            pids.push(pid);
            assert forall|p: u32| #[trigger] seen@.contains(p) == pids@.contains(p) by {
                if before.contains(p) {
                    let k = choose|k: int| 0 <= k < before.len() && before[k] == p;
                    assert(pids@[k] == p);
                }
                assert(pids@[before.len() as int] == pid);
            }
        }
        i = i + 1;
    }
    assert(rows@.take(i as int) =~= rows@);
    pids
}

/// A socket-table sweep whose new PIDs have yet to be looked up.
pub struct Sweep {
    pub rows: Vec<SocketTableRow>,
    pub complete: bool,
    /// The PIDs to look up.
    pub unresolved: Vec<u32>,
}

fn take_table(
    rows: &mut Vec<SocketTableRow>,
    protocol: u8,
    table: &Result<Vec<SocketRow>, TableError>,
) -> (taken: bool)
    ensures
        final(rows)@ == old(rows)@ + contributed(protocol, *table),
        taken == (table is Ok),
{
    match table {
        Ok(found) => {
            let ghost before = rows@;
            let mut i: usize = 0;
            while i < found.len()
                invariant
                    i <= found.len(),
                    rows@ == before + tagged(protocol, found@).take(i as int),
                decreases found.len() - i,
            {
                let row = &found[i];
                rows.push(
                    SocketTableRow {
                        protocol,
                        local: row.local,
                        remote: row.remote,
                        pid: row.owning_pid,
                    },
                );
                assert(rows@ =~= before + tagged(protocol, found@).take(i + 1));
                i = i + 1;
            }
            assert(tagged(protocol, found@).take(i as int) =~= tagged(protocol, found@));
            true
        },
        Err(_) => {
            assert(rows@ =~= rows@ + Seq::<SocketTableRow>::empty());
            false
        },
    }
}

impl Sweep {
    /// Combine the TCP and UDP owner tables (IPv4 and IPv6) and list every PID
    /// not already in `known_pids`.
    pub fn gather(
        known_pids: &HashSet<u32>,
        tcp4: &Result<Vec<SocketRow>, TableError>,
        tcp6: &Result<Vec<SocketRow>, TableError>,
        udp4: &Result<Vec<SocketRow>, TableError>,
        udp6: &Result<Vec<SocketRow>, TableError>,
    ) -> (sweep: Sweep)
        ensures
            sweep.rows@ == contributed(IPPROTO_TCP, *tcp4) + contributed(IPPROTO_TCP, *tcp6)
                + contributed(IPPROTO_UDP, *udp4) + contributed(IPPROTO_UDP, *udp6),
            sweep.complete == (tcp4 is Ok && tcp6 is Ok && udp4 is Ok && udp6 is Ok),
            sweep.unresolved@ == new_pids(sweep.rows@, known_pids@),
    {
        let mut rows: Vec<SocketTableRow> = Vec::new();
        let a = take_table(&mut rows, IPPROTO_TCP, tcp4);
        assert(rows@ =~= contributed(IPPROTO_TCP, *tcp4));
        let b = take_table(&mut rows, IPPROTO_TCP, tcp6);
        let c = take_table(&mut rows, IPPROTO_UDP, udp4);
        let d = take_table(&mut rows, IPPROTO_UDP, udp6);
        let complete = a && b && c && d;
        let unresolved = unknown_pids(&rows, known_pids);
        Sweep { rows, complete, unresolved }
    }

    /// Finish the sweep with the image path found for each PID it listed.
    /// Feed the result to `FlowTable::apply_socket_snapshot`.
    pub fn finish(self, images: Vec<Option<String>>) -> (snap: SocketSnapshot)
        requires
            images.len() == self.unresolved.len(),
        ensures
            snap.rows@ == self.rows@,
            snap.complete == self.complete,
            snap.resolved.len() == self.unresolved.len(),
            forall|i: int|
                0 <= i < self.unresolved.len() ==> (#[trigger] snap.resolved@[i]).0
                    == self.unresolved@[i] && optional(snap.resolved@[i].1) == path_for_pid(
                    self.unresolved@[i],
                    optional(images@[i]),
                ),
    {
        let mut resolved: Vec<(u32, Option<String>)> = Vec::new();
        let mut i: usize = 0;
        while i < self.unresolved.len()
            invariant
                i <= self.unresolved.len(),
                images.len() == self.unresolved.len(),
                resolved.len() == i,
                forall|j: int|
                    0 <= j < i ==> (#[trigger] resolved@[j]).0 == self.unresolved@[j] && optional(
                        resolved@[j].1,
                    ) == path_for_pid(self.unresolved@[j], optional(images@[j])),
            decreases self.unresolved.len() - i,
        {
            let pid: u32 = self.unresolved[i];
            let image = match &images[i] {
                Some(path) => Some(path.clone()),
                None => None,
            };
            resolved.push((pid, resolve_pid_path(pid, image)));
            i = i + 1;
        }
        SocketSnapshot { rows: self.rows, resolved, complete: self.complete }
    }
}

/// The rows of a table that was read keep their places, endpoints and PIDs and take
/// the table's protocol; a table that could not be read has none.
pub proof fn law_rows_carry_their_protocol(
    protocol: u8,
    table: Result<Vec<SocketRow>, TableError>,
    i: int,
)
    ensures
        match table {
            Ok(rows) => {
                &&& contributed(protocol, table).len() == rows@.len()
                &&& 0 <= i < rows@.len() ==> {
                    let row = contributed(protocol, table)[i];
                    &&& row.protocol == protocol
                    &&& row.local == rows@[i].local
                    &&& row.remote == rows@[i].remote
                    &&& row.pid == rows@[i].owning_pid
                }
            },
            Err(_) => contributed(protocol, table).len() == 0,
        },
        IPPROTO_TCP == 6,
        IPPROTO_UDP == 17,
{
}

/// New PIDs are listed in the order in which they first occur: what more rows add
/// comes behind.
pub proof fn law_new_pids_keep_their_order(
    rows: Seq<SocketTableRow>,
    more: Seq<SocketTableRow>,
    known: Set<u32>,
)
    ensures
        ({
            let before = new_pids(rows, known);
            let after = new_pids(rows + more, known);
            before.len() <= after.len() && after.take(before.len() as int) == before
        }),
    decreases more.len(),
{
    let before = new_pids(rows, known);
    if more.len() == 0 {
        assert(rows + more =~= rows);
        assert(before.take(before.len() as int) =~= before);
    } else {
        law_new_pids_keep_their_order(rows, more.drop_last(), known);
        assert((rows + more).drop_last() =~= rows + more.drop_last());
        let middle = new_pids(rows + more.drop_last(), known);
        let after = new_pids(rows + more, known);
        assert(after.take(before.len() as int) =~= middle.take(before.len() as int));
    }
}

} // verus!
