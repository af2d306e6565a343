//! What others write: IP packets and the kernel's socket tables, field by field.
//! Reading back what was written gives the fields, whatever else stands around
//! them.

use crate::addr::{big_endian, IpAddr, SocketAddr};
use crate::backend::engine::{five_tuple, ports_of};
use crate::backend::sockets::{
    dword, endpoint_at, tcp_layout, udp_layout, Layout, SocketRow, TableError,
};
use vstd::prelude::*;

verus! {

/// A number in network byte order, the most significant byte first.
pub open spec fn network_bytes(n: nat, width: nat) -> Seq<u8>
    decreases width,
{
    if width == 0 {
        Seq::empty()
    } else {
        network_bytes(n / 256, (width - 1) as nat).push((n % 256) as u8)
    }
}

/// A number in the order of a little-endian machine.
pub open spec fn host_bytes(n: nat, width: nat) -> Seq<u8>
    decreases width,
{
    if width == 0 {
        Seq::empty()
    } else {
        seq![(n % 256) as u8] + host_bytes(n / 256, (width - 1) as nat)
    }
}

/// An address as it goes over the network.
pub open spec fn ip_bytes(ip: IpAddr) -> Seq<u8> {
    match ip {
        IpAddr::V4(n) => network_bytes(n as nat, 4),
        IpAddr::V6(n) => network_bytes(n as nat, 16),
    }
}

/// Two to the eighth times `width`.
spec fn span(width: nat) -> nat
    decreases width,
{
    if width == 0 {
        1
    } else {
        256 * span((width - 1) as nat)
    }
}

proof fn lemma_network_bytes(n: nat, width: nat)
    ensures
        network_bytes(n, width).len() == width,
        n < span(width) ==> big_endian(network_bytes(n, width)) == n,
    decreases width,
{
    if width > 0 {
        let before = network_bytes(n / 256, (width - 1) as nat);
        lemma_network_bytes(n / 256, (width - 1) as nat);
        assert(network_bytes(n, width).drop_last() =~= before);
    }
}

proof fn lemma_ip_bytes(ip: IpAddr)
    ensures
        ip matches IpAddr::V4(n) ==> ip_bytes(ip).len() == 4 && big_endian(ip_bytes(ip)) == n,
        ip matches IpAddr::V6(n) ==> ip_bytes(ip).len() == 16 && big_endian(ip_bytes(ip)) == n,
{
    reveal_with_fuel(span, 17);
    match ip {
        IpAddr::V4(n) => lemma_network_bytes(n as nat, 4),
        IpAddr::V6(n) => lemma_network_bytes(n as nat, 16),
    }
}

proof fn lemma_port_bytes(port: u16)
    ensures
        network_bytes(port as nat, 2) == seq![(port / 256) as u8, (port % 256) as u8],
{
    reveal_with_fuel(network_bytes, 3);
    assert(network_bytes(port as nat, 2) =~= seq![(port / 256) as u8, (port % 256) as u8]);
}

proof fn lemma_host_bytes(n: u32)
    ensures
        host_bytes(n as nat, 4).len() == 4,
        dword(host_bytes(n as nat, 4), 0) == n,
{
    reveal_with_fuel(host_bytes, 5);
    let b = host_bytes(n as nat, 4);
    let (n1, n2, n3) = (n as nat / 256, n as nat / 256 / 256, n as nat / 256 / 256 / 256);
    assert(b =~= seq![(n % 256) as u8, (n1 % 256) as u8, (n2 % 256) as u8, (n3 % 256) as u8]);
    assert(n3 < 256);
}

/// A TCP or UDP segment: the ports, then anything.
pub open spec fn segment_bytes(source: u16, destination: u16, rest: Seq<u8>) -> Seq<u8> {
    network_bytes(source as nat, 2) + network_bytes(destination as nat, 2) + rest
}

/// The parts of an IPv4 packet. `words` is the header's length in units of four
/// bytes; `lead` stands between the first byte and the protocol.
pub struct V4Packet {
    pub words: nat,
    pub lead: Seq<u8>,
    pub protocol: u8,
    pub checksum: Seq<u8>,
    pub source: u32,
    pub destination: u32,
    pub options: Seq<u8>,
    pub payload: Seq<u8>,
}

impl V4Packet {
    /// The parts have the lengths that the header says.
    pub open spec fn wf(self) -> bool {
        &&& 5 <= self.words <= 15
        &&& self.lead.len() == 8
        &&& self.checksum.len() == 2
        &&& 20 + self.options.len() == 4 * self.words
    }

    /// The packet as it goes over the network.
    pub open spec fn bytes(self) -> Seq<u8> {
        seq![(0x40 + self.words) as u8] + self.lead + seq![self.protocol] + self.checksum
            + network_bytes(self.source as nat, 4) + network_bytes(self.destination as nat, 4)
            + self.options + self.payload
    }
}

/// The parts of an IPv6 packet. `traffic` fills the first byte, and `lead` stands
/// between it and the next header's number.
pub struct V6Packet {
    pub traffic: nat,
    pub lead: Seq<u8>,
    pub protocol: u8,
    pub hops: u8,
    pub source: u128,
    pub destination: u128,
    pub payload: Seq<u8>,
}

impl V6Packet {
    /// The parts have their fixed lengths.
    pub open spec fn wf(self) -> bool {
        self.traffic < 16 && self.lead.len() == 5
    }

    /// The packet as it goes over the network.
    pub open spec fn bytes(self) -> Seq<u8> {
        seq![(0x60 + self.traffic) as u8] + self.lead + seq![self.protocol] + seq![self.hops]
            + network_bytes(self.source as nat, 16) + network_bytes(self.destination as nat, 16)
            + self.payload
    }
}

/// The ports that a payload holds, for a protocol that has ports.
pub proof fn law_ports_read_back(protocol: u8, source: u16, destination: u16, rest: Seq<u8>)
    ensures
        protocol == 6 || protocol == 17 ==> ports_of(
            protocol,
            segment_bytes(source, destination, rest),
        ) == (source, destination),
        protocol != 6 && protocol != 17 ==> ports_of(protocol, rest) == (0u16, 0u16),
        rest.len() < 4 ==> ports_of(protocol, rest) == (0u16, 0u16),
{
    lemma_port_bytes(source);
    lemma_port_bytes(destination);
    let s = segment_bytes(source, destination, rest);
    assert(s[0] == (source / 256) as u8 && s[1] == (source % 256) as u8);
    assert(s[2] == (destination / 256) as u8 && s[3] == (destination % 256) as u8);
}

/// An IPv4 packet reads back as its protocol, source and destination, whatever
/// its options and the rest of its header say.
pub proof fn law_v4_packet_reads_back(p: V4Packet)
    requires
        p.wf(),
    ensures
        ({
            let (source, destination) = ports_of(p.protocol, p.payload);
            five_tuple(p.bytes()) == Some(
                (
                    p.protocol,
                    SocketAddr { ip: IpAddr::V4(p.source), port: source },
                    SocketAddr { ip: IpAddr::V4(p.destination), port: destination },
                ),
            )
        }),
{
    let (src, dst) = (network_bytes(p.source as nat, 4), network_bytes(p.destination as nat, 4));
    lemma_ip_bytes(IpAddr::V4(p.source));
    lemma_ip_bytes(IpAddr::V4(p.destination));
    let b = p.bytes();
    assert(b[0] == 0x40 + p.words);
    assert(b[9] == p.protocol);
    assert(b.subrange(12, 16) =~= src);
    assert(b.subrange(16, 20) =~= dst);
    assert(b.skip(4 * p.words as int) =~= p.payload);
}

/// An IPv6 packet reads back as its next header, source and destination.
pub proof fn law_v6_packet_reads_back(p: V6Packet)
    requires
        p.wf(),
    ensures
        ({
            let (source, destination) = ports_of(p.protocol, p.payload);
            five_tuple(p.bytes()) == Some(
                (
                    p.protocol,
                    SocketAddr { ip: IpAddr::V6(p.source), port: source },
                    SocketAddr { ip: IpAddr::V6(p.destination), port: destination },
                ),
            )
        }),
{
    let (src, dst) = (network_bytes(p.source as nat, 16), network_bytes(p.destination as nat, 16));
    lemma_ip_bytes(IpAddr::V6(p.source));
    lemma_ip_bytes(IpAddr::V6(p.destination));
    let b = p.bytes();
    assert(b[0] == 0x60 + p.traffic);
    assert(b[6] == p.protocol);
    assert(b.subrange(8, 24) =~= src);
    assert(b.subrange(24, 40) =~= dst);
    assert(b.skip(40) =~= p.payload);
}

/// Nothing but a whole IP header is read: what is read is exactly the packets
/// above.
pub proof fn law_only_packets_are_read(data: Seq<u8>)
    ensures
        five_tuple(data) is Some <==> (exists|p: V4Packet| p.wf() && #[trigger] p.bytes() == data)
            || (exists|p: V6Packet| p.wf() && #[trigger] p.bytes() == data),
{
    if five_tuple(data) is Some {
        if data[0] / 16 == 4 {
            let words = (data[0] % 16) as nat;
            let (src, dst) = (data.subrange(12, 16), data.subrange(16, 20));
            lemma_v4_bytes(src);
            lemma_v4_bytes(dst);
            let p = V4Packet {
                words,
                lead: data.subrange(1, 9),
                protocol: data[9],
                checksum: data.subrange(10, 12),
                source: big_endian(src) as u32,
                destination: big_endian(dst) as u32,
                options: data.subrange(20, 4 * words as int),
                payload: data.skip(4 * words as int),
            };
            assert(p.wf());
            assert(p.bytes() =~= data);
        } else {
            let (src, dst) = (data.subrange(8, 24), data.subrange(24, 40));
            lemma_v6_bytes(src);
            lemma_v6_bytes(dst);
            let p = V6Packet {
                traffic: (data[0] % 16) as nat,
                lead: data.subrange(1, 6),
                protocol: data[6],
                hops: data[7],
                source: big_endian(src) as u128,
                destination: big_endian(dst) as u128,
                payload: data.skip(40),
            };
            assert(p.wf());
            assert(p.bytes() =~= data);
        }
    }
    if exists|p: V4Packet| p.wf() && #[trigger] p.bytes() == data {
        let p = choose|p: V4Packet| p.wf() && #[trigger] p.bytes() == data;
        law_v4_packet_reads_back(p);
    }
    if exists|p: V6Packet| p.wf() && #[trigger] p.bytes() == data {
        let p = choose|p: V6Packet| p.wf() && #[trigger] p.bytes() == data;
        law_v6_packet_reads_back(p);
    }
}

proof fn lemma_spelled(bytes: Seq<u8>)
    ensures
        big_endian(bytes) < span(bytes.len()),
        network_bytes(big_endian(bytes), bytes.len()) == bytes,
    decreases bytes.len(),
{
    if bytes.len() > 0 {
        lemma_spelled(bytes.drop_last());
        let n = big_endian(bytes);
        assert(n / 256 == big_endian(bytes.drop_last()) && n % 256 == bytes.last());
        assert(network_bytes(n, bytes.len()) =~= bytes);
    } else {
        assert(network_bytes(big_endian(bytes), 0) =~= bytes);
    }
}

proof fn lemma_v4_bytes(bytes: Seq<u8>)
    requires
        bytes.len() == 4,
    ensures
        big_endian(bytes) <= u32::MAX,
        network_bytes(big_endian(bytes), 4) == bytes,
{
    reveal_with_fuel(span, 5);
    lemma_spelled(bytes);
}

proof fn lemma_v6_bytes(bytes: Seq<u8>)
    requires
        bytes.len() == 16,
    ensures
        big_endian(bytes) <= u128::MAX,
        network_bytes(big_endian(bytes), 16) == bytes,
{
    reveal_with_fuel(span, 17);
    lemma_spelled(bytes);
}

/// A port as the socket tables hold it: in network byte order, and two bytes that
/// say nothing.
pub open spec fn port_field(port: u16, filler: Seq<u8>) -> Seq<u8> {
    network_bytes(port as nat, 2) + filler
}

/// A socket as the kernel knows it. What a table does not hold of it, and what
/// the tables hold besides, can be anything.
pub struct Socket {
    pub local: SocketAddr,
    pub remote: SocketAddr,
    pub pid: u32,
    pub state: Seq<u8>,
    pub local_scope: Seq<u8>,
    pub remote_scope: Seq<u8>,
    pub local_filler: Seq<u8>,
    pub remote_filler: Seq<u8>,
}

impl Socket {
    /// The socket is of a family, and its fields have their lengths.
    pub open spec fn of_family(self, v6: bool) -> bool {
        &&& self.local.ip is V6 == v6
        &&& self.remote.ip is V6 == v6
        &&& self.state.len() == 4
        &&& self.local_scope.len() == 4
        &&& self.remote_scope.len() == 4
        &&& self.local_filler.len() == 2
        &&& self.remote_filler.len() == 2
    }

    /// The socket's row in the TCP table of its family. IPv4: state, local address
    /// and port, remote address and port, PID. IPv6: local address, scope and port,
    /// remote address, scope and port, state, PID.
    pub open spec fn tcp_bytes(self) -> Seq<u8> {
        if self.local.ip is V6 {
            ip_bytes(self.local.ip) + self.local_scope + port_field(
                self.local.port,
                self.local_filler,
            ) + ip_bytes(self.remote.ip) + self.remote_scope + port_field(
                self.remote.port,
                self.remote_filler,
            ) + self.state + host_bytes(self.pid as nat, 4)
        } else {
            self.state + ip_bytes(self.local.ip) + port_field(self.local.port, self.local_filler)
                + ip_bytes(self.remote.ip) + port_field(self.remote.port, self.remote_filler)
                + host_bytes(self.pid as nat, 4)
        }
    }

    /// The socket's row in the UDP table of its family: local address, with its
    /// scope in IPv6, and port, PID.
    pub open spec fn udp_bytes(self) -> Seq<u8> {
        if self.local.ip is V6 {
            ip_bytes(self.local.ip) + self.local_scope + port_field(
                self.local.port,
                self.local_filler,
            ) + host_bytes(self.pid as nat, 4)
        } else {
            ip_bytes(self.local.ip) + port_field(self.local.port, self.local_filler) + host_bytes(
                self.pid as nat,
                4,
            )
        }
    }

    /// What is to be read of the socket's row in a TCP table.
    pub open spec fn tcp_row(self) -> SocketRow {
        SocketRow { local: self.local, remote: Some(self.remote), owning_pid: self.pid }
    }

    /// What is to be read of the socket's row in a UDP table.
    pub open spec fn udp_row(self) -> SocketRow {
        SocketRow { local: self.local, remote: None, owning_pid: self.pid }
    }
}

/// Rows one after the other.
pub open spec fn joined(rows: Seq<Seq<u8>>) -> Seq<u8>
    decreases rows.len(),
{
    if rows.len() == 0 {
        Seq::empty()
    } else {
        joined(rows.drop_last()) + rows.last()
    }
}

/// A socket table: how many rows there are, the rows, and what else the buffer
/// holds.
pub open spec fn table_bytes(rows: Seq<Seq<u8>>, rest: Seq<u8>) -> Seq<u8> {
    host_bytes(rows.len(), 4) + joined(rows) + rest
}

/// An endpoint that was written at a place is read there.
proof fn lemma_endpoint(bytes: Seq<u8>, ip: int, port: int, addr: SocketAddr)
    requires
        0 <= ip,
        0 <= port,
        ip + ip_bytes(addr.ip).len() <= bytes.len(),
        port + 2 <= bytes.len(),
        bytes.subrange(ip, ip + ip_bytes(addr.ip).len()) == ip_bytes(addr.ip),
        bytes.subrange(port, port + 2) == network_bytes(addr.port as nat, 2),
    ensures
        endpoint_at(bytes, addr.ip is V6, ip, port) == addr,
{
    lemma_ip_bytes(addr.ip);
    lemma_port_bytes(addr.port);
    let cut = bytes.subrange(port, port + 2);
    assert(bytes[port] == cut[0] && bytes[port + 1] == cut[1]);
}

proof fn lemma_pid(bytes: Seq<u8>, at: int, pid: u32)
    requires
        0 <= at,
        at + 4 <= bytes.len(),
        bytes.subrange(at, at + 4) == host_bytes(pid as nat, 4),
    ensures
        dword(bytes, at) == pid,
{
    lemma_host_bytes(pid);
    let cut = bytes.subrange(at, at + 4);
    assert(bytes[at] == cut[0] && bytes[at + 1] == cut[1] && bytes[at + 2] == cut[2] && bytes[at
        + 3] == cut[3]);
}

proof fn lemma_field_lengths(s: Socket)
    ensures
        s.local.ip is V6 ==> ip_bytes(s.local.ip).len() == 16,
        s.local.ip is V4 ==> ip_bytes(s.local.ip).len() == 4,
        s.remote.ip is V6 ==> ip_bytes(s.remote.ip).len() == 16,
        s.remote.ip is V4 ==> ip_bytes(s.remote.ip).len() == 4,
        network_bytes(s.local.port as nat, 2).len() == 2,
        network_bytes(s.remote.port as nat, 2).len() == 2,
        host_bytes(s.pid as nat, 4).len() == 4,
{
    lemma_ip_bytes(s.local.ip);
    lemma_ip_bytes(s.remote.ip);
    lemma_port_bytes(s.local.port);
    lemma_port_bytes(s.remote.port);
    lemma_host_bytes(s.pid);
}

/// A TCP row is read back, wherever it stands.
pub proof fn law_tcp_row_reads_back(before: Seq<u8>, s: Socket, after: Seq<u8>, v6: bool)
    requires
        s.of_family(v6),
    ensures
        ({
            let layout = tcp_layout(if v6 { 23 } else { 2 });
            &&& s.tcp_bytes().len() == layout.size
            &&& layout.row(before + s.tcp_bytes() + after, before.len() as int) == s.tcp_row()
        }),
{
    lemma_field_lengths(s);
    let b = before + s.tcp_bytes() + after;
    let n = before.len() as int;
    let (local, remote) = (ip_bytes(s.local.ip), ip_bytes(s.remote.ip));
    let (lport, rport) = (
        network_bytes(s.local.port as nat, 2),
        network_bytes(s.remote.port as nat, 2),
    );
    let pid = host_bytes(s.pid as nat, 4);
    if v6 {
        assert(b.subrange(n, n + 16) =~= local);
        assert(b.subrange(n + 20, n + 22) =~= lport);
        assert(b.subrange(n + 24, n + 40) =~= remote);
        assert(b.subrange(n + 44, n + 46) =~= rport);
        assert(b.subrange(n + 52, n + 56) =~= pid);
        lemma_endpoint(b, n, n + 20, s.local);
        lemma_endpoint(b, n + 24, n + 44, s.remote);
        lemma_pid(b, n + 52, s.pid);
    } else {
        assert(b.subrange(n + 4, n + 8) =~= local);
        assert(b.subrange(n + 8, n + 10) =~= lport);
        assert(b.subrange(n + 12, n + 16) =~= remote);
        assert(b.subrange(n + 16, n + 18) =~= rport);
        assert(b.subrange(n + 20, n + 24) =~= pid);
        lemma_endpoint(b, n + 4, n + 8, s.local);
        lemma_endpoint(b, n + 12, n + 16, s.remote);
        lemma_pid(b, n + 20, s.pid);
    }
}

/// A UDP row is read back, wherever it stands.
pub proof fn law_udp_row_reads_back(before: Seq<u8>, s: Socket, after: Seq<u8>, v6: bool)
    requires
        s.of_family(v6),
    ensures
        ({
            let layout = udp_layout(if v6 { 23 } else { 2 });
            &&& s.udp_bytes().len() == layout.size
            &&& layout.row(before + s.udp_bytes() + after, before.len() as int) == s.udp_row()
        }),
{
    lemma_field_lengths(s);
    let b = before + s.udp_bytes() + after;
    let n = before.len() as int;
    let local = ip_bytes(s.local.ip);
    let lport = network_bytes(s.local.port as nat, 2);
    let pid = host_bytes(s.pid as nat, 4);
    if v6 {
        assert(b.subrange(n, n + 16) =~= local);
        assert(b.subrange(n + 20, n + 22) =~= lport);
        assert(b.subrange(n + 24, n + 28) =~= pid);
        lemma_endpoint(b, n, n + 20, s.local);
        lemma_pid(b, n + 24, s.pid);
    } else {
        assert(b.subrange(n, n + 4) =~= local);
        assert(b.subrange(n + 4, n + 6) =~= lport);
        assert(b.subrange(n + 8, n + 12) =~= pid);
        lemma_endpoint(b, n, n + 4, s.local);
        lemma_pid(b, n + 8, s.pid);
    }
}

/// In a run of rows of one size, row `i` stands where it should.
proof fn lemma_joined(rows: Seq<Seq<u8>>, size: nat, i: int)
    requires
        0 <= i < rows.len(),
        forall|j: int| 0 <= j < rows.len() ==> (#[trigger] rows[j]).len() == size,
    ensures
        joined(rows).len() == rows.len() * size,
        joined(rows.take(i)).len() == i * size,
        exists|after: Seq<u8>| joined(rows) == #[trigger] (joined(rows.take(i)) + rows[i] + after),
    decreases rows.len(),
{
    let rest = rows.drop_last();
    let n = rows.len() - 1;
    assert(forall|j: int| 0 <= j < rest.len() ==> (#[trigger] rest[j]) == rows[j]);
    assert(rows.len() * size == n * size + size) by (nonlinear_arith)
        requires
            n == rows.len() - 1,
    ;
    if rest.len() == 0 {
        assert(rows.take(i) =~= rest);
        assert(joined(rows) =~= joined(rows.take(i)) + rows[i] + Seq::<u8>::empty());
        assert(0 * size == 0) by (nonlinear_arith);
    } else if i == n {
        lemma_joined(rest, size, 0);
        assert(rows.take(i) =~= rest);
        assert(joined(rows) =~= joined(rows.take(i)) + rows[i] + Seq::<u8>::empty());
    } else {
        lemma_joined(rest, size, i);
        assert(rest.take(i) =~= rows.take(i));
        let after = choose|after: Seq<u8>|
            joined(rest) == #[trigger] (joined(rest.take(i)) + rest[i] + after);
        assert(joined(rows) =~= joined(rows.take(i)) + rows[i] + (after + rows.last()));
    }
}

/// A table of rows that are read back is read back.
proof fn lemma_table(layout: Layout, rows: Seq<Seq<u8>>, expected: Seq<SocketRow>, rest: Seq<u8>)
    requires
        rows.len() == expected.len(),
        rows.len() <= u32::MAX,
        forall|j: int| 0 <= j < rows.len() ==> (#[trigger] rows[j]).len() == layout.size,
        forall|j: int, before: Seq<u8>, after: Seq<u8>|
            0 <= j < rows.len() ==> layout.row(
                #[trigger] (before + rows[j] + after),
                before.len() as int,
            ) == expected[j],
    ensures
        layout.outcome(0, table_bytes(rows, rest)) == Ok::<Seq<SocketRow>, TableError>(expected),
{
    let bytes = table_bytes(rows, rest);
    let head = host_bytes(rows.len(), 4);
    lemma_host_bytes(rows.len() as u32);
    assert(bytes.subrange(0, 4) =~= head);
    lemma_pid(bytes, 0, rows.len() as u32);
    if rows.len() > 0 {
        lemma_joined(rows, layout.size as nat, 0);
    } else {
        assert(0 * layout.size == 0) by (nonlinear_arith);
    }
    assert(layout.fits(bytes));
    assert forall|i: int| 0 <= i < rows.len() implies #[trigger] layout.rows(bytes)[i]
        == expected[i] by {
        lemma_joined(rows, layout.size as nat, i);
        let after = choose|after: Seq<u8>|
            joined(rows) == #[trigger] (joined(rows.take(i)) + rows[i] + after);
        let before = head + joined(rows.take(i));
        assert(bytes =~= before + rows[i] + (after + rest));
        assert(before.len() == 4 + i * layout.size);
    }
    assert(layout.rows(bytes) =~= expected);
}

/// A TCP table is read back row by row: the endpoints and the PID of every socket,
/// whatever states and scopes they have and whatever follows the table.
pub proof fn law_tcp_table_reads_back(sockets: Seq<Socket>, v6: bool, rest: Seq<u8>)
    requires
        sockets.len() <= u32::MAX,
        forall|i: int| 0 <= i < sockets.len() ==> (#[trigger] sockets[i]).of_family(v6),
    ensures
        ({
            let rows = Seq::new(sockets.len(), |i: int| sockets[i].tcp_bytes());
            tcp_layout(if v6 { 23 } else { 2 }).outcome(0, table_bytes(rows, rest)) == Ok::<
                Seq<SocketRow>,
                TableError,
            >(Seq::new(sockets.len(), |i: int| sockets[i].tcp_row()))
        }),
{
    let layout = tcp_layout(if v6 { 23 } else { 2 });
    let rows = Seq::new(sockets.len(), |i: int| sockets[i].tcp_bytes());
    let expected = Seq::new(sockets.len(), |i: int| sockets[i].tcp_row());
    assert forall|j: int| 0 <= j < rows.len() implies (#[trigger] rows[j]).len() == layout.size by {
        law_tcp_row_reads_back(Seq::empty(), sockets[j], Seq::empty(), v6);
    }
    assert forall|j: int, before: Seq<u8>, after: Seq<u8>|
        0 <= j < rows.len() implies layout.row(
        #[trigger] (before + rows[j] + after),
        before.len() as int,
    ) == expected[j] by {
        law_tcp_row_reads_back(before, sockets[j], after, v6);
    }
    lemma_table(layout, rows, expected, rest);
}

/// A UDP table is read back likewise; its rows name no peer.
pub proof fn law_udp_table_reads_back(sockets: Seq<Socket>, v6: bool, rest: Seq<u8>)
    requires
        sockets.len() <= u32::MAX,
        forall|i: int| 0 <= i < sockets.len() ==> (#[trigger] sockets[i]).of_family(v6),
    ensures
        ({
            let rows = Seq::new(sockets.len(), |i: int| sockets[i].udp_bytes());
            udp_layout(if v6 { 23 } else { 2 }).outcome(0, table_bytes(rows, rest)) == Ok::<
                Seq<SocketRow>,
                TableError,
            >(Seq::new(sockets.len(), |i: int| sockets[i].udp_row()))
        }),
{
    let layout = udp_layout(if v6 { 23 } else { 2 });
    let rows = Seq::new(sockets.len(), |i: int| sockets[i].udp_bytes());
    let expected = Seq::new(sockets.len(), |i: int| sockets[i].udp_row());
    assert forall|j: int| 0 <= j < rows.len() implies (#[trigger] rows[j]).len() == layout.size by {
        law_udp_row_reads_back(Seq::empty(), sockets[j], Seq::empty(), v6);
    }
    assert forall|j: int, before: Seq<u8>, after: Seq<u8>|
        0 <= j < rows.len() implies layout.row(
        #[trigger] (before + rows[j] + after),
        before.len() as int,
    ) == expected[j] by {
        law_udp_row_reads_back(before, sockets[j], after, v6);
    }
    lemma_table(layout, rows, expected, rest);
}

/// A failed query is that error, a buffer that is empty holds no sockets, and one
/// that is shorter than its rows is an error.
pub proof fn law_bad_tables_are_errors(family: u32, status: u32, bytes: Seq<u8>)
    ensures
        forall|tcp: bool|
            #![trigger layout_for(family, tcp)]
            {
                let layout = layout_for(family, tcp);
                let row: int = match (tcp, family == 2) {
                    (true, true) => 24,
                    (true, false) => 56,
                    (false, true) => 12,
                    (false, false) => 28,
                };
                let read = layout.outcome(status, bytes);
                &&& bytes.len() == 0 ==> read == Ok::<Seq<SocketRow>, TableError>(Seq::empty())
                &&& bytes.len() > 0 && status != 0 ==> read == Err::<Seq<SocketRow>, TableError>(
                    TableError::Status(status),
                )
                &&& bytes.len() > 0 && status == 0 && (bytes.len() < 4 || bytes.len() < 4 + row
                    * dword(bytes, 0)) ==> read == Err::<Seq<SocketRow>, TableError>(
                    TableError::Truncated,
                )
                &&& read matches Ok(rows) ==> bytes.len() == 0 || rows.len() == dword(bytes, 0)
            },
{
    assert forall|row: int| #[trigger] (row * dword(bytes, 0)) == dword(bytes, 0) * row by {
        assert(row * dword(bytes, 0) == dword(bytes, 0) * row) by (nonlinear_arith);
    }
}

/// The layout of a table for `family`.
pub open spec fn layout_for(family: u32, tcp: bool) -> Layout {
    if tcp {
        tcp_layout(family)
    } else {
        udp_layout(family)
    }
}

} // verus!
