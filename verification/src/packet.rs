//! Attributing captured packets to processes: the socket -> PID tables read
//! from the OS TCP/UDP tables, and the IPv4 header parsing that looks them up.

use vstd::prelude::*;
use crate::etw::le_u32_at;
use crate::models::Direction;
use crate::keyed::{map_of, lemma_map_of_last, lemma_map_of_absent};

verus! {

/// A `(local address, local port, owning PID)` row. Addresses are `u32`s whose
/// big-endian octets are the dotted-quad, as `Ipv4Addr::from(u32)` reads them.
pub type SocketRow = (u32, u16, u32);

pub open spec fn socket_key() -> spec_fn(SocketRow) -> (u32, u16) {
    |e: SocketRow| (e.0, e.1)
}

pub open spec fn port_key() -> spec_fn(SocketRow) -> u16 {
    |e: SocketRow| e.1
}

/// Layout of one OS table: bytes per row and the offsets of the local address,
/// local port and owning PID fields within a row.
pub struct RowLayout {
    pub row_size: usize,
    pub addr_off: usize,
    pub port_off: usize,
    pub pid_off: usize,
}

/// `MIB_TCPROW_OWNER_PID`: state, local address, local port, remote address,
/// remote port, owning PID (six `u32`s).
pub open spec fn tcp_layout() -> RowLayout {
    RowLayout { row_size: 24, addr_off: 4, port_off: 8, pid_off: 20 }
}

/// `MIB_UDPROW_OWNER_PID`: local address, local port, owning PID.
pub open spec fn udp_layout() -> RowLayout {
    RowLayout { row_size: 12, addr_off: 0, port_off: 4, pid_off: 8 }
}

pub open spec fn layout_ok(l: RowLayout) -> bool {
    l.row_size > 0 && l.addr_off + 4 <= l.row_size && l.port_off + 4 <= l.row_size && l.pid_off
        + 4 <= l.row_size
}

/// Number of rows read: the table's entry count, cut short where the buffer
/// ends (no rows without a 4-byte count).
pub open spec fn row_count(buf: Seq<u8>, l: RowLayout) -> nat {
    if buf.len() < 4 {
        0
    } else {
        let n = le_u32_at(buf, 0) as nat;
        let fit = ((buf.len() - 4) / (l.row_size as int)) as nat;
        if n < fit { n } else { fit }
    }
}

/// The row at index `k`: the port is the low 16 bits of its field in network
/// byte order.
pub open spec fn row_at(buf: Seq<u8>, l: RowLayout, k: int) -> SocketRow {
    let off = 4 + k * l.row_size;
    (
        le_u32_at(buf, off + l.addr_off),
        (buf[off + l.port_off] as int * 256 + buf[off + l.port_off + 1] as int) as u16,
        le_u32_at(buf, off + l.pid_off),
    )
}

/// The rows among the first `k` that have an owning PID.
pub open spec fn rows_upto(buf: Seq<u8>, l: RowLayout, k: nat) -> Seq<SocketRow>
    decreases k,
{
    if k == 0 {
        Seq::empty()
    } else {
        let prev = rows_upto(buf, l, (k - 1) as nat);
        let r = row_at(buf, l, k - 1);
        if r.2 > 0 { prev.push(r) } else { prev }
    }
}

pub open spec fn table_rows(buf: Seq<u8>, l: RowLayout) -> Seq<SocketRow> {
    rows_upto(buf, l, row_count(buf, l))
}

/// Socket -> PID mapping used to attribute captured packets to a process.
pub struct PortPidMap {
    rows: Vec<SocketRow>,
}

impl PortPidMap {
    /// The rows, in table order (TCP rows, then UDP rows).
    pub closed spec fn rows(&self) -> Seq<SocketRow> {
        self.rows@
    }

    /// Owning PID by `(address, port)`; later rows win.
    pub open spec fn addrs(&self) -> Map<(u32, u16), u32> {
        map_of(self.rows(), socket_key()).map_values(|e: SocketRow| e.2)
    }

    /// Owning PID by port; later rows win.
    pub open spec fn ports(&self) -> Map<u16, u32> {
        map_of(self.rows(), port_key()).map_values(|e: SocketRow| e.2)
    }

    /// An empty map (the shell refreshes it from the OS tables right away).
    pub fn new() -> (m: Self)
        ensures
            m.rows() == Seq::<SocketRow>::empty(),
    {
        PortPidMap { rows: Vec::new() }
    }

    /// Look up the owning PID for a socket, falling back to the port alone.
    pub fn lookup(&self, addr: u32, port: u16) -> (r: Option<u32>)
        ensures
            r == if self.addrs().contains_key((addr, port)) {
                Some(self.addrs()[(addr, port)])
            } else if self.ports().contains_key(port) {
                Some(self.ports()[port])
            } else {
                None
            },
    {
        let mut i = self.rows.len();
        while i > 0
            invariant
                i <= self.rows.len(),
                forall|j: int| i <= j < self.rows@.len() ==> (socket_key())(#[trigger] self.rows@[j]) != (addr, port),
            decreases i,
        {
            i = i - 1;
            if self.rows[i].0 == addr && self.rows[i].1 == port {
                proof {
                    lemma_map_of_last(self.rows@, socket_key(), i as int);
                }
                return Some(self.rows[i].2);
            }
        }
        proof {
            lemma_map_of_absent(self.rows@, socket_key(), (addr, port));
        }
        self.lookup_port(port)
    }

    /// Look up by port number directly.
    pub fn lookup_port(&self, port: u16) -> (r: Option<u32>)
        ensures
            r == if self.ports().contains_key(port) { Some(self.ports()[port]) } else { None },
    {
        let mut i = self.rows.len();
        while i > 0
            invariant
                i <= self.rows.len(),
                forall|j: int| i <= j < self.rows@.len() ==> (port_key())(#[trigger] self.rows@[j]) != port,
            decreases i,
        {
            i = i - 1;
            if self.rows[i].1 == port {
                proof {
                    lemma_map_of_last(self.rows@, port_key(), i as int);
                }
                return Some(self.rows[i].2);
            }
        }
        proof {
            lemma_map_of_absent(self.rows@, port_key(), port);
        }
        None
    }

    /// Replace the mapping with the rows of the OS tables: the TCP table
    /// (`GetExtendedTcpTable`, owner-PID rows) then the UDP table
    /// (`GetExtendedUdpTable`). An unavailable table is passed empty.
    pub fn refresh_from(&mut self, tcp_table: &[u8], udp_table: &[u8])
        ensures
            final(self).rows() == table_rows(tcp_table@, tcp_layout()) + table_rows(udp_table@, udp_layout()),
    {
        let mut rows: Vec<SocketRow> = Vec::new();
        append_rows(&mut rows, tcp_table, RowLayout { row_size: 24, addr_off: 4, port_off: 8, pid_off: 20 });
        append_rows(&mut rows, udp_table, RowLayout { row_size: 12, addr_off: 0, port_off: 4, pid_off: 8 });
        self.rows = rows;
    }
}

fn read_le_u32(d: &[u8], off: usize) -> (r: u32)
    requires
        off + 4 <= d@.len(),
    ensures
        r == le_u32_at(d@, off as int),
{
    let v: u64 = d[off] as u64 + d[off + 1] as u64 * 256 + d[off + 2] as u64 * 65536
        + d[off + 3] as u64 * 16777216;
    v as u32
}

fn append_rows(out: &mut Vec<SocketRow>, buf: &[u8], l: RowLayout)
    requires
        layout_ok(l),
        l.row_size <= 64,
    ensures
        final(out)@ == old(out)@ + table_rows(buf@, l),
{
    if buf.len() < 4 {
        assert(table_rows(buf@, l) =~= Seq::<SocketRow>::empty());
        assert(old(out)@ + Seq::<SocketRow>::empty() =~= old(out)@);
        return;
    }
    let n = read_le_u32(buf, 0) as usize;
    let fit = (buf.len() - 4) / l.row_size;
    let count = if n < fit { n } else { fit };
    assert(count == row_count(buf@, l));
    assert(count * l.row_size <= buf@.len() - 4) by (nonlinear_arith)
        requires
            count <= fit,
            fit == (buf@.len() - 4) / (l.row_size as int),
            l.row_size > 0,
            buf@.len() >= 4,
    ;
    let mut k: usize = 0;
    while k < count
        invariant
            layout_ok(l),
            l.row_size <= 64,
            buf@.len() >= 4,
            count == row_count(buf@, l),
            count * l.row_size <= buf@.len() - 4,
            buf@.len() == buf.len(),
            buf.len() <= usize::MAX,
            k <= count,
            out@ == old(out)@ + rows_upto(buf@, l, k as nat),
        decreases count - k,
    {
        assert(k * l.row_size + l.row_size <= buf@.len() - 4) by (nonlinear_arith)
            requires
                k < count,
                count * l.row_size <= buf@.len() - 4,
        ;
        let off = 4 + k * l.row_size;
        let addr = read_le_u32(buf, off + l.addr_off);
        let port = (buf[off + l.port_off] as u16) * 256 + buf[off + l.port_off + 1] as u16;
        let pid = read_le_u32(buf, off + l.pid_off);
        let ghost before = out@;
        if pid > 0 {
            out.push((addr, port, pid));
        }
        proof {
            assert(row_at(buf@, l, k as int) == (addr, port, pid));
            assert(out@ =~= old(out)@ + rows_upto(buf@, l, (k + 1) as nat));
        }
        k = k + 1;
    }
}

/// The big-endian `u32` at `off`.
pub open spec fn be_u32_at(d: Seq<u8>, off: int) -> u32 {
    (d[off] as int * 16777216 + d[off + 1] as int * 65536 + d[off + 2] as int * 256 + d[off + 3]
        as int) as u32
}

/// The big-endian `u16` at `off`.
pub open spec fn be_u16_at(d: Seq<u8>, off: int) -> u16 {
    (d[off] as int * 256 + d[off + 1] as int) as u16
}

/// The IPv4 TCP/UDP endpoints of a packet: `(source address, source port,
/// destination address, destination port)`, if it is one.
pub open spec fn ipv4_endpoints(pkt: Seq<u8>) -> Option<(u32, u16, u32, u16)> {
    if pkt.len() < 20 {
        None
    } else if pkt[0] / 16 != 4 {
        None
    } else {
        let ihl = (pkt[0] % 16) as int * 4;
        if pkt.len() < ihl + 4 {
            None
        } else if pkt[9] != 6 && pkt[9] != 17 {
            None
        } else {
            Some((be_u32_at(pkt, 12), be_u16_at(pkt, ihl), be_u32_at(pkt, 16), be_u16_at(pkt, ihl + 2)))
        }
    }
}

/// The owning PID of a packet: the local endpoint (the source of an outbound
/// packet, the destination of an inbound one) by socket then by port, then the
/// remote endpoint the same way.
pub open spec fn packet_owner(m: PortPidMap, pkt: Seq<u8>, is_outbound: bool) -> Option<u32> {
    match ipv4_endpoints(pkt) {
        None => None,
        Some((sa, sp, da, dp)) => {
            let (la, lp, ra, rp) = if is_outbound { (sa, sp, da, dp) } else { (da, dp, sa, sp) };
            if m.addrs().contains_key((la, lp)) {
                Some(m.addrs()[(la, lp)])
            } else if m.ports().contains_key(lp) {
                Some(m.ports()[lp])
            } else if m.addrs().contains_key((ra, rp)) {
                Some(m.addrs()[(ra, rp)])
            } else if m.ports().contains_key(rp) {
                Some(m.ports()[rp])
            } else {
                None
            }
        },
    }
}

/// Best-effort IPv4/TCP|UDP parser -> owning PID via the port map.
pub fn classify(pkt: &[u8], is_outbound: bool, port_map: &PortPidMap) -> (r: Option<u32>)
    ensures
        r == packet_owner(*port_map, pkt@, is_outbound),
{
    if pkt.len() < 20 {
        return None;
    }
    let b0 = pkt[0];
    let ip_version = b0 >> 4;
    assert(b0 >> 4u8 == b0 / 16) by (bit_vector);
    if ip_version != 4 {
        return None;
    }
    assert((b0 & 0x0fu8) == b0 % 16) by (bit_vector);
    let ihl = (b0 & 0x0f) as usize * 4;
    if pkt.len() < ihl + 4 {
        return None;
    }
    let proto = pkt[9];
    if proto != 6 && proto != 17 {
        return None;
    }
    let src_ip: u32 = (pkt[12] as u64 * 16777216 + pkt[13] as u64 * 65536 + pkt[14] as u64 * 256
        + pkt[15] as u64) as u32;
    let dst_ip: u32 = (pkt[16] as u64 * 16777216 + pkt[17] as u64 * 65536 + pkt[18] as u64 * 256
        + pkt[19] as u64) as u32;
    let src_port: u16 = pkt[ihl] as u16 * 256 + pkt[ihl + 1] as u16;
    let dst_port: u16 = pkt[ihl + 2] as u16 * 256 + pkt[ihl + 3] as u16;
    let (local_addr, local_port, remote_addr, remote_port) = if is_outbound {
        (src_ip, src_port, dst_ip, dst_port)
    } else {
        (dst_ip, dst_port, src_ip, src_port)
    };
    match port_map.lookup(local_addr, local_port) {
        Some(pid) => Some(pid),
        None => match port_map.lookup_port(local_port) {
            Some(pid) => Some(pid),
            None => match port_map.lookup(remote_addr, remote_port) {
                Some(pid) => Some(pid),
                None => port_map.lookup_port(remote_port),
            },
        },
    }
}


/// A captured packet's address as the capture driver reports it.
#[allow(non_camel_case_types)]
#[derive(Debug, Clone, Copy)]
pub struct WINDIVERT_ADDRESS {
    pub if_idx: u32,
    pub sub_if_idx: u32,
    /// 0 = outbound (send), 1 = inbound (recv).
    pub direction: u8,
}

impl WINDIVERT_ADDRESS {
    /// Whether the packet is leaving the machine.
    pub fn is_outbound(&self) -> (r: bool)
        ensures
            r == (self.direction == 0),
    {
        self.direction == 0
    }

    /// The traffic direction of the packet: outbound packets are sends.
    pub fn traffic_direction(&self) -> (d: Direction)
        ensures
            d == if self.direction == 0 {
                Direction::Send
            } else {
                Direction::Recv
            },
    {
        if self.direction == 0 {
            Direction::Send
        } else {
            Direction::Recv
        }
    }
}

/// TCP and UDP packets are attributed alike. For a well-formed IPv4 packet
/// (version 4, at least 20 bytes, the transport ports within it) whose
/// protocol byte is 6 (TCP) or 17 (UDP), the owner is that of the local
/// endpoint (the source of an outbound packet, the destination of an inbound
/// one) whenever the port map holds that socket, else whenever it holds that
/// port; and, with a header of the standard length or more, switching the
/// protocol byte between 6 and 17 does not change the owner.
pub proof fn tcp_and_udp_packets_are_attributed_alike(m: PortPidMap, pkt: Seq<u8>, is_outbound: bool)
    requires
        pkt.len() >= 20,
        pkt[0] / 16 == 4,
        pkt.len() >= (pkt[0] % 16) as int * 4 + 4,
        pkt[9] == 6 || pkt[9] == 17,
    ensures
        ({
            let ihl = (pkt[0] % 16) as int * 4;
            let la = if is_outbound { be_u32_at(pkt, 12) } else { be_u32_at(pkt, 16) };
            let lp = if is_outbound { be_u16_at(pkt, ihl) } else { be_u16_at(pkt, ihl + 2) };
            &&& m.addrs().contains_key((la, lp)) ==> packet_owner(m, pkt, is_outbound) == Some(m.addrs()[(la, lp)])
            &&& !m.addrs().contains_key((la, lp)) && m.ports().contains_key(lp) ==> packet_owner(m, pkt, is_outbound)
                == Some(m.ports()[lp])
        }),
        pkt[0] % 16 >= 5 ==> packet_owner(m, pkt, is_outbound) == packet_owner(
            m,
            pkt.update(9, if pkt[9] == 6 { 17u8 } else { 6u8 }),
            is_outbound,
        ),
{
    let q = pkt.update(9, if pkt[9] == 6 { 17u8 } else { 6u8 });
    if pkt[0] % 16 >= 5 {
        let ihl = (pkt[0] % 16) as int * 4;
        assert(q[0] == pkt[0]);
        assert(be_u32_at(q, 12) == be_u32_at(pkt, 12));
        assert(be_u32_at(q, 16) == be_u32_at(pkt, 16));
        assert(be_u16_at(q, ihl) == be_u16_at(pkt, ihl));
        assert(be_u16_at(q, ihl + 2) == be_u16_at(pkt, ihl + 2));
    }
}

} // verus!
