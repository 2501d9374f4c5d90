use nettamer::aggregator::Aggregator;
use nettamer::etw::{decode, parse_size, socketaddr_unspecified, Endpoint, NetworkEvent, EID_TCP_RECV_V4, EID_TCP_SEND_V4, EID_UDP_SEND_V6};
use nettamer::models::Direction;
use nettamer::packet::{classify, PortPidMap, WINDIVERT_ADDRESS};

fn le(v: &[u32]) -> Vec<u8> {
    v.iter().flat_map(|x| x.to_le_bytes()).collect()
}

#[test]
fn size_follows_the_pid_when_present() {
    assert_eq!(parse_size(&le(&[1234, 1500, 0, 0]), 1234), 1500);
}

#[test]
fn size_is_first_field_when_pid_omitted() {
    assert_eq!(parse_size(&le(&[1400, 0x0A00_0001]), 99), 1400);
    assert_eq!(parse_size(&le(&[0x0A00_0001, 512]), 99), 512);
    assert_eq!(parse_size(&le(&[77]), 5), 77);
    assert_eq!(parse_size(&[1, 2, 3], 5), 0);
}

#[test]
fn decode_maps_event_ids() {
    let d = le(&[42, 100]);
    let e = decode(EID_TCP_SEND_V4, 42, &d).unwrap();
    assert_eq!((e.pid, e.direction, e.size), (42, Direction::Send, 100));
    let e = decode(EID_TCP_RECV_V4, 42, &d).unwrap();
    assert_eq!(e.direction, Direction::Recv);
    assert!(decode(EID_UDP_SEND_V6, 42, &d).is_some());
    assert!(decode(99, 42, &d).is_none());
    let unspecified = Endpoint { addr: 0, port: 0 };
    assert_eq!((e.local_addr, e.remote_addr), (unspecified, unspecified));
}

#[test]
fn aggregator_counts_and_drains_windows() {
    let mut a = Aggregator::new();
    a.ingest(NetworkEvent::new(5, Direction::Send, 100, socketaddr_unspecified(), socketaddr_unspecified()));
    a.ingest(NetworkEvent::new(5, Direction::Recv, 40, socketaddr_unspecified(), socketaddr_unspecified()));
    a.ingest(NetworkEvent::new(5, Direction::Send, 1, socketaddr_unspecified(), socketaddr_unspecified()));
    a.ingest(NetworkEvent::new(6, Direction::Recv, 7, socketaddr_unspecified(), socketaddr_unspecified()));
    let mut s = a.drain_windows();
    s.sort_by_key(|x| x.pid);
    assert_eq!(s.len(), 2);
    assert_eq!((s[0].pid, s[0].total_upload, s[0].total_download), (5, 101, 40));
    assert_eq!((s[0].window_bytes_up, s[0].window_bytes_down), (101, 40));
    assert_eq!((s[1].pid, s[1].total_download, s[1].window_bytes_down), (6, 7, 7));
    let s2 = a.drain_windows();
    for x in s2 {
        assert_eq!((x.window_bytes_up, x.window_bytes_down), (0, 0));
        assert!(x.total_upload + x.total_download > 0);
    }
}

#[test]
fn aggregator_fits_check_allows_large_totals() {
    let mut a = Aggregator::new();
    let big = NetworkEvent::new(1, Direction::Send, u32::MAX, socketaddr_unspecified(), socketaddr_unspecified());
    assert!(a.fits(&big));
    a.ingest(big);
    assert!(a.fits(&NetworkEvent::new(1, Direction::Send, 1, socketaddr_unspecified(), socketaddr_unspecified())));
}

/// A TCP owner-PID table with the given (address bytes as stored, port, pid) rows.
fn tcp_table(rows: &[([u8; 4], u16, u32)]) -> Vec<u8> {
    let mut t = (rows.len() as u32).to_le_bytes().to_vec();
    for (addr, port, pid) in rows {
        t.extend_from_slice(&2u32.to_le_bytes()); // state
        t.extend_from_slice(addr);
        t.extend_from_slice(&port.to_be_bytes());
        t.extend_from_slice(&[0, 0]);
        t.extend_from_slice(&[0, 0, 0, 0]); // remote addr
        t.extend_from_slice(&[0, 0, 0, 0]); // remote port
        t.extend_from_slice(&pid.to_le_bytes());
    }
    t
}

fn udp_table(rows: &[([u8; 4], u16, u32)]) -> Vec<u8> {
    let mut t = (rows.len() as u32).to_le_bytes().to_vec();
    for (addr, port, pid) in rows {
        t.extend_from_slice(addr);
        t.extend_from_slice(&port.to_be_bytes());
        t.extend_from_slice(&[0, 0]);
        t.extend_from_slice(&pid.to_le_bytes());
    }
    t
}

fn ipv4_tcp(src: [u8; 4], sport: u16, dst: [u8; 4], dport: u16) -> Vec<u8> {
    let mut p = vec![0x45u8, 0, 0, 40, 0, 0, 0, 0, 64, 6, 0, 0];
    p.extend_from_slice(&src);
    p.extend_from_slice(&dst);
    p.extend_from_slice(&sport.to_be_bytes());
    p.extend_from_slice(&dport.to_be_bytes());
    p.extend_from_slice(&[0u8; 16]);
    p
}

#[test]
fn port_map_lookup_after_refresh() {
    let mut m = PortPidMap::new();
    m.refresh_from(&tcp_table(&[([1, 0, 0, 127], 443, 10), ([0, 0, 0, 0], 8080, 0)]), &udp_table(&[([0, 0, 0, 0], 53, 20)]));
    assert_eq!(m.lookup(0x7F00_0001, 443), Some(10));
    assert_eq!(m.lookup_port(443), Some(10));
    assert_eq!(m.lookup_port(8080), None); // rows without an owner are skipped
    assert_eq!(m.lookup_port(53), Some(20));
    // later rows win
    m.refresh_from(&tcp_table(&[([0, 0, 0, 0], 9, 1), ([0, 0, 0, 0], 9, 2)]), &[]);
    assert_eq!(m.lookup_port(9), Some(2));
    assert_eq!(m.lookup_port(443), None);
}

#[test]
fn truncated_table_reads_only_whole_rows() {
    let mut t = tcp_table(&[([0, 0, 0, 0], 1, 5), ([0, 0, 0, 0], 2, 6)]);
    t.truncate(4 + 24 + 10);
    let mut m = PortPidMap::new();
    m.refresh_from(&t, &[1, 2]);
    assert_eq!(m.lookup_port(1), Some(5));
    assert_eq!(m.lookup_port(2), None);
}

#[test]
fn packets_are_attributed_by_local_then_remote_endpoint() {
    let mut m = PortPidMap::new();
    m.refresh_from(&tcp_table(&[([0, 0, 0, 0], 50000, 77)]), &udp_table(&[([0, 0, 0, 0], 5353, 88)]));
    let out = ipv4_tcp([10, 0, 0, 2], 50000, [1, 1, 1, 1], 443);
    assert_eq!(classify(&out, true, &m), Some(77));
    let inbound = ipv4_tcp([1, 1, 1, 1], 443, [10, 0, 0, 2], 50000);
    assert_eq!(classify(&inbound, false, &m), Some(77));
    // remote side fallback
    assert_eq!(classify(&inbound, true, &m), Some(77));
    let other = ipv4_tcp([10, 0, 0, 2], 1, [1, 1, 1, 1], 2);
    assert_eq!(classify(&other, true, &m), None);
    let mut v6 = out.clone();
    v6[0] = 0x60;
    assert_eq!(classify(&v6, true, &m), None);
    let mut icmp = out.clone();
    icmp[9] = 1;
    assert_eq!(classify(&icmp, true, &m), None);
    assert_eq!(classify(&out[..19], true, &m), None);
}

#[test]
fn capture_address_direction() {
    let a = WINDIVERT_ADDRESS { if_idx: 1, sub_if_idx: 0, direction: 0 };
    assert!(a.is_outbound());
    assert_eq!(a.traffic_direction(), Direction::Send);
    let b = WINDIVERT_ADDRESS { direction: 1, ..a };
    assert_eq!(b.traffic_direction(), Direction::Recv);
}

use nettamer::aggregator::{top_n, SortField, SortOrder};
use nettamer::models::ProcessStats;

fn ps(pid: u32, name: &str, up: u64, down: u64) -> ProcessStats {
    ProcessStats {
        pid,
        name: name.to_string(),
        path: String::new(),
        icon_b64: String::new(),
        upload_rate: up,
        download_rate: down,
        total_upload: 0,
        total_download: 0,
    }
}

fn sample() -> Vec<ProcessStats> {
    vec![ps(3, "b.exe", 10, 5), ps(1, "a.exe", 30, 5), ps(2, "C.exe", 20, 7), ps(4, "a.exe", 30, 1)]
}

fn pids(v: &[ProcessStats]) -> Vec<u32> {
    v.iter().map(|p| p.pid).collect()
}

#[test]
fn top_n_by_pid_and_name() {
    assert_eq!(pids(&top_n(sample(), 10, SortField::Pid, SortOrder::Asc)), vec![1, 2, 3, 4]);
    assert_eq!(pids(&top_n(sample(), 2, SortField::Pid, SortOrder::Desc)), vec![4, 3]);
    // "C.exe" sorts before lowercase names; equal names keep their order
    assert_eq!(pids(&top_n(sample(), 10, SortField::Name, SortOrder::Asc)), vec![2, 1, 4, 3]);
}

#[test]
fn top_n_is_stable_for_equal_rates() {
    assert_eq!(pids(&top_n(sample(), 10, SortField::Upload, SortOrder::Desc)), vec![1, 4, 2, 3]);
    assert_eq!(pids(&top_n(sample(), 10, SortField::Download, SortOrder::Asc)), vec![4, 3, 1, 2]);
    assert_eq!(pids(&top_n(sample(), 0, SortField::Pid, SortOrder::Asc)), Vec::<u32>::new());
    assert!(top_n(Vec::new(), 3, SortField::Pid, SortOrder::Asc).is_empty());
}
