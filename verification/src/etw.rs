//! Decoding of `Microsoft-Windows-Kernel-Network` events.
//!
//! The provider emits TcpIp/UdpIp Send and Recv events. The `UserData` layout
//! for IPv4 events is documented as `[PID: u32] [size: u32] [daddr] [saddr] ...`,
//! but on some Windows builds the PID field is omitted (it is only in the event
//! header), shifting every field by four bytes. The layout is told apart by
//! comparing the first field with the header PID. Fields are little-endian, the
//! byte order of every Windows target.

use vstd::prelude::*;
use crate::clock::unix_nanos;
use crate::models::Direction;

verus! {

/// Event IDs for the Kernel-Network provider (IPv4).
pub const EID_TCP_SEND_V4: u16 = 10;
pub const EID_TCP_RECV_V4: u16 = 11;
pub const EID_UDP_SEND_V4: u16 = 12;
pub const EID_UDP_RECV_V4: u16 = 13;

/// Event IDs for IPv6 variants.
pub const EID_TCP_SEND_V6: u16 = 26;
pub const EID_TCP_RECV_V6: u16 = 27;
pub const EID_UDP_SEND_V6: u16 = 28;
pub const EID_UDP_RECV_V6: u16 = 29;

/// An IPv4 socket endpoint: the address as a `u32` (most significant byte
/// first) and the port.
#[derive(Debug, Clone, Copy, PartialEq, Eq, Structural)]
pub struct Endpoint {
    pub addr: u32,
    pub port: u16,
}

/// The unspecified endpoint `0.0.0.0:0`.
pub open spec fn unspecified_endpoint() -> Endpoint {
    Endpoint { addr: 0, port: 0 }
}

/// The unspecified endpoint `0.0.0.0:0`, which decoded events carry: the
/// addresses are not read from the payload.
pub fn socketaddr_unspecified() -> (e: Endpoint)
    ensures
        e == unspecified_endpoint(),
{
    Endpoint { addr: 0, port: 0 }
}

/// A single decoded network event (TCP/UDP send or receive).
#[derive(Debug, Clone, Copy)]
pub struct NetworkEvent {
    /// Wall-clock reading (nanoseconds since the Unix epoch) at decoding.
    pub timestamp_nanos: u128,
    pub pid: u32,
    pub direction: Direction,
    pub size: u32,
    pub local_addr: Endpoint,
    pub remote_addr: Endpoint,
}

impl NetworkEvent {
    pub fn new(pid: u32, direction: Direction, size: u32, local_addr: Endpoint, remote_addr: Endpoint) -> (e: Self)
        ensures
            e.pid == pid,
            e.direction == direction,
            e.size == size,
            e.local_addr == local_addr,
            e.remote_addr == remote_addr,
    {
        NetworkEvent { timestamp_nanos: unix_nanos(), pid, direction, size, local_addr, remote_addr }
    }
}

/// The direction an event id reports, if it is a send or receive event.
pub open spec fn event_direction(eid: u16) -> Option<Direction> {
    if eid == EID_TCP_SEND_V4 || eid == EID_UDP_SEND_V4 || eid == EID_TCP_SEND_V6
        || eid == EID_UDP_SEND_V6 {
        Some(Direction::Send)
    } else if eid == EID_TCP_RECV_V4 || eid == EID_UDP_RECV_V4 || eid == EID_TCP_RECV_V6
        || eid == EID_UDP_RECV_V6 {
        Some(Direction::Recv)
    } else {
        None
    }
}

/// The little-endian `u32` at `off`.
pub open spec fn le_u32_at(d: Seq<u8>, off: int) -> u32 {
    (d[off] as int + d[off + 1] as int * 256 + d[off + 2] as int * 65536 + d[off + 3] as int
        * 16777216) as u32
}

/// The transfer size an event's `UserData` carries.
///
/// Layout A (with PID prefix): `[PID:4][size:4][...]`; layout B (no PID
/// prefix): `[size:4][...]`. When the first field is not the header PID, a
/// plausible single-event byte count (1..=64 KiB - 1) is preferred, the first
/// field before the second; failing that, whichever is non-zero.
pub open spec fn event_size(d: Seq<u8>, header_pid: u32) -> u32 {
    if d.len() < 4 {
        0
    } else {
        let first = le_u32_at(d, 0);
        if d.len() >= 8 {
            let second = le_u32_at(d, 4);
            if first == header_pid && header_pid != 0 {
                second
            } else if first > 0 && first <= 0xFFFF {
                first
            } else if second > 0 && second <= 0xFFFF {
                second
            } else if first > 0 {
                first
            } else {
                second
            }
        } else {
            first
        }
    }
}

fn read_le_u32(d: &[u8], off: usize) -> (r: u32)
    requires
        off + 4 <= d@.len(),
    ensures
        r == le_u32_at(d@, off as int),
{
    let v: u64 = d[off] as u64 + d[off + 1] as u64 * 256 + d[off + 2] as u64 * 65536
        + d[off + 3] as u64 * 16777216;
    v as u32
}

/// Extract the transfer size from the event's `UserData` (empty when the
/// event carries none).
pub fn parse_size(user_data: &[u8], header_pid: u32) -> (r: u32)
    ensures
        r == event_size(user_data@, header_pid),
{
    if user_data.len() < 4 {
        return 0;
    }
    let first = read_le_u32(user_data, 0);
    if user_data.len() >= 8 {
        let second = read_le_u32(user_data, 4);
        if first == header_pid && header_pid != 0 {
            return second;
        }
        if first > 0 && first <= 0xFFFF {
            return first;
        }
        if second > 0 && second <= 0xFFFF {
            return second;
        }
        if first > 0 {
            return first;
        }
        return second;
    }
    first
}

/// Decode a single event (its id, header PID and `UserData`) into a
/// [`NetworkEvent`]; events other than send/receive give `None`.
pub fn decode(event_id: u16, header_pid: u32, user_data: &[u8]) -> (r: Option<NetworkEvent>)
    ensures
        match event_direction(event_id) {
            None => r is None,
            Some(d) => r matches Some(e) && e.pid == header_pid && e.direction == d && e.size
                == event_size(user_data@, header_pid) && e.local_addr == unspecified_endpoint()
                && e.remote_addr == unspecified_endpoint(),
        },
        event_id == 10 || event_id == 12 || event_id == 26 || event_id == 28 ==> (r matches Some(e)
            && e.direction == Direction::Send),
        event_id == 11 || event_id == 13 || event_id == 27 || event_id == 29 ==> (r matches Some(e)
            && e.direction == Direction::Recv),
{
    let direction = if event_id == EID_TCP_SEND_V4 || event_id == EID_UDP_SEND_V4
        || event_id == EID_TCP_SEND_V6 || event_id == EID_UDP_SEND_V6 {
        Direction::Send
    } else if event_id == EID_TCP_RECV_V4 || event_id == EID_UDP_RECV_V4
        || event_id == EID_TCP_RECV_V6 || event_id == EID_UDP_RECV_V6 {
        Direction::Recv
    } else {
        return None;
    };
    let size = parse_size(user_data, header_pid);
    let local = socketaddr_unspecified();
    let remote = socketaddr_unspecified();
    Some(NetworkEvent::new(header_pid, direction, size, local, remote))
}

/// Sends count as upload and receives as download: the TCP and UDP send
/// events over IPv4 and IPv6 (ids 10, 12, 26, 28) are sends, the matching
/// receive events (ids 11, 13, 27, 29) are receives, and every other id is
/// no traffic event at all.
pub proof fn event_ids_give_directions(eid: u16)
    ensures
        eid == 10 || eid == 12 || eid == 26 || eid == 28 ==> event_direction(eid) == Some(Direction::Send),
        eid == 11 || eid == 13 || eid == 27 || eid == 29 ==> event_direction(eid) == Some(Direction::Recv),
        !(10 <= eid <= 13 || 26 <= eid <= 29) ==> event_direction(eid) is None,
{
}

} // verus!
