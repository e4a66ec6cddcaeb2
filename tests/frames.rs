use lan_relay::frame::{heartbeat_region, is_disconnect, session_tag, SequenceGate};
use lan_relay::relay::{SessionLatch, TunnelInbound};

fn datagram(len: usize, tag: u8) -> Vec<u8> {
    let mut v = vec![0u8; len];
    if len >= 2 {
        v[1] = tag;
    }
    v
}

#[test]
fn tag_is_second_byte() {
    assert_eq!(session_tag(&[9, 7, 1]), Some(7));
    assert_eq!(session_tag(&[9, 3]), Some(3));
    assert_eq!(session_tag(&[9]), None);
    assert_eq!(session_tag(&[]), None);
}

#[test]
fn disconnect_tag_is_four() {
    assert!(is_disconnect(&datagram(300, 4)));
    assert!(!is_disconnect(&datagram(300, 5)));
    assert!(!is_disconnect(&[4]));
}

#[test]
fn heartbeat_region_bounds() {
    assert_eq!(heartbeat_region(300), Some((4, 296)));
    assert_eq!(heartbeat_region(8), Some((4, 4)));
    assert_eq!(heartbeat_region(7), None);
    assert_eq!(heartbeat_region(0), None);
}

#[test]
fn dedup_keeps_only_rising_sequence_numbers() {
    let mut gate = SequenceGate::new();
    let mut injected = Vec::new();
    for s in [5u64, 3, 7, 7, 9] {
        if gate.accept(Some(s)) {
            injected.push(s);
        }
    }
    assert_eq!(injected, vec![5, 7, 9]);
    assert_eq!(gate.highest, Some(9));
}

#[test]
fn frames_without_sequence_always_pass() {
    let mut gate = SequenceGate::new();
    assert!(gate.accept(Some(10)));
    assert!(gate.accept(None));
    assert!(gate.accept(None));
    assert!(!gate.accept(Some(10)));
    assert_eq!(gate.highest, Some(10));
}

#[test]
fn latch_takes_first_eligible_tag_for_good() {
    let mut latch = SessionLatch::new();
    assert_eq!(latch.latched(), None);
    assert!(!latch.pass(&[1]));
    assert!(!latch.pass(&datagram(40, 4)));
    assert_eq!(latch.latched(), None);
    assert!(latch.pass(&datagram(40, 2)));
    assert_eq!(latch.latched(), Some(2));
    assert!(!latch.pass(&datagram(40, 3)));
    assert!(latch.pass(&datagram(10, 2)));
    for tag in 0..=255u8 {
        if tag != 2 {
            assert!(!latch.pass(&datagram(20, tag)));
        }
    }
    assert_eq!(latch.latched(), Some(2));
}

#[test]
fn disconnect_datagram_never_relayed_nor_injected() {
    let frame = datagram(300, 4);
    let mut fresh_latch = SessionLatch::new();
    assert!(!fresh_latch.pass(&frame));
    let mut latch = SessionLatch::new();
    assert!(latch.pass(&datagram(300, 1)));
    assert!(!latch.pass(&frame));
    let mut inbound = TunnelInbound::new();
    assert!(!inbound.accept(&frame, None));
    assert!(!inbound.accept(&frame, Some(1)));
    assert_eq!(inbound.gate.highest, None);
}

#[test]
fn inbound_dedups_per_connection() {
    let mut a = TunnelInbound::new();
    let mut b = TunnelInbound::new();
    let f = datagram(50, 1);
    assert!(a.accept(&f, Some(5)));
    assert!(!a.accept(&f, Some(3)));
    assert!(b.accept(&f, Some(3)));
    assert!(a.accept(&f, None));
    assert_eq!(a.gate.highest, Some(5));
}
