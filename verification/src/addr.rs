//! Network addresses as plain numbers.

use vstd::prelude::*;

verus! {

/// An IP address; the number is the address read in network byte order.
#[derive(Clone, Copy, PartialEq, Eq, Structural, Hash, Debug)]
pub enum IpAddr {
    V4(u32),
    V6(u128),
}

/// An IP address and a port.
#[derive(Clone, Copy, PartialEq, Eq, Structural, Hash, Debug)]
pub struct SocketAddr {
    pub ip: IpAddr,
    pub port: u16,
}

impl IpAddr {
    /// The IPv4 address written `a.b.c.d`.
    pub fn v4(a: u8, b: u8, c: u8, d: u8) -> (ip: IpAddr)
        ensures
            ip == IpAddr::V4((a * 0x100_0000 + b * 0x1_0000 + c * 0x100 + d) as u32),
    {
        IpAddr::V4(a as u32 * 0x100_0000 + b as u32 * 0x1_0000 + c as u32 * 0x100 + d as u32)
    }
}

impl SocketAddr {
    /// The endpoint at `ip` and `port`.
    pub fn new(ip: IpAddr, port: u16) -> (addr: SocketAddr)
        ensures
            addr == (SocketAddr { ip, port }),
    {
        SocketAddr { ip, port }
    }

    /// The port number.
    pub fn port(&self) -> (port: u16)
        ensures
            port == self.port,
    {
        self.port
    }

    /// Whether the address is an IPv6 one.
    pub fn is_ipv6(&self) -> (v6: bool)
        ensures
            v6 == (self.ip is V6),
    {
        matches!(self.ip, IpAddr::V6(_))
    }
}

/// The number that a run of bytes spells, most significant byte first.
pub open spec fn big_endian(bytes: Seq<u8>) -> nat
    decreases bytes.len(),
{
    if bytes.len() == 0 {
        0
    } else {
        big_endian(bytes.drop_last()) * 256 + bytes.last() as nat
    }
}

/// How many numbers `n` bytes can spell.
spec fn capacity(n: nat) -> nat
    decreases n,
{
    if n == 0 {
        1
    } else {
        256 * capacity((n - 1) as nat)
    }
}

proof fn lemma_capacity_grows(a: nat, b: nat)
    requires
        a <= b,
    ensures
        capacity(a) <= capacity(b),
    decreases b,
{
    if a < b {
        lemma_capacity_grows(a, (b - 1) as nat);
    }
}

/// Read the `n` bytes from `from` on, most significant first.
pub fn read_big_endian(bytes: &[u8], from: usize, n: usize) -> (value: u128)
    requires
        from + n <= bytes.len(),
        n <= 16,
    ensures
        value == big_endian(bytes@.subrange(from as int, from + n)),
{
    let mut value: u128 = 0;
    let mut i: usize = 0;
    assert(bytes@.subrange(from as int, from as int) =~= Seq::<u8>::empty());
    while i < n
        invariant
            from + n <= bytes.len(),
            n <= 16,
            i <= n,
            value == big_endian(bytes@.subrange(from as int, from + i)),
            value < capacity(i as nat),
        decreases n - i,
    {
        proof {
            lemma_capacity_grows((i + 1) as nat, 16);
            reveal_with_fuel(capacity, 17);
            assert(bytes@.subrange(from as int, from + i + 1).drop_last() =~= bytes@.subrange(
                from as int,
                from + i,
            ));
        }
        value = value * 256 + bytes[from + i] as u128;
        i = i + 1;
    }
    value
}

} // verus!
