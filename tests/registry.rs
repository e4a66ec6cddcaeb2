use lan_relay::member::{Endpoint, Member};
use lan_relay::peers::PeerRegistry;

fn player(id: i64) -> Member {
    Member { id, addr: Endpoint::V4([192, 168, 0, id as u8]) }
}

fn ids(reg: &PeerRegistry<String>) -> Vec<i64> {
    let mut v: Vec<i64> = (0..reg.len()).map(|i| reg.id_at(i)).collect();
    v.sort();
    v
}

fn reconcile(reg: &mut PeerRegistry<String>, snapshot: &Vec<Member>, fail: &[i64]) -> (Vec<i64>, Vec<String>) {
    let mut opened = Vec::new();
    for i in reg.to_open(snapshot) {
        let m = snapshot[i];
        if !fail.contains(&m.id) {
            assert!(reg.add(m.id, format!("tunnel-{}", m.id)).is_none());
            opened.push(m.id);
        }
    }
    let closed = reg.retain_members(snapshot);
    (opened, closed)
}

#[test]
fn registry_follows_latest_snapshot() {
    let mut reg: PeerRegistry<String> = PeerRegistry::new();
    let (opened, closed) = reconcile(&mut reg, &vec![player(1), player(2)], &[]);
    assert_eq!(opened, vec![1, 2]);
    assert!(closed.is_empty());
    assert_eq!(ids(&reg), vec![1, 2]);
    let (opened, closed) = reconcile(&mut reg, &vec![player(2), player(3)], &[]);
    assert_eq!(opened, vec![3]);
    assert_eq!(closed, vec!["tunnel-1".to_string()]);
    assert_eq!(ids(&reg), vec![2, 3]);
    let (_, closed) = reconcile(&mut reg, &vec![], &[]);
    assert_eq!(closed.len(), 2);
    assert_eq!(reg.len(), 0);
}

#[test]
fn same_snapshot_twice_causes_no_churn() {
    let mut reg: PeerRegistry<String> = PeerRegistry::new();
    let snap = vec![player(5), player(6), player(7)];
    reconcile(&mut reg, &snap, &[]);
    *reg.connection_mut(0) = "kept".to_string();
    assert!(reg.to_open(&snap).is_empty());
    let (opened, closed) = reconcile(&mut reg, &snap, &[]);
    assert!(opened.is_empty());
    assert!(closed.is_empty());
    assert_eq!(*reg.connection_mut(0), "kept");
    assert_eq!(ids(&reg), vec![5, 6, 7]);
}

#[test]
fn failed_tunnel_is_retried_on_next_snapshot() {
    let mut reg: PeerRegistry<String> = PeerRegistry::new();
    let snap = vec![player(1), player(2)];
    reconcile(&mut reg, &snap, &[2]);
    assert_eq!(ids(&reg), vec![1]);
    assert_eq!(reg.to_open(&snap), vec![1]);
    reconcile(&mut reg, &snap, &[]);
    assert_eq!(ids(&reg), vec![1, 2]);
}

#[test]
fn duplicate_listing_opens_once() {
    let reg: PeerRegistry<String> = PeerRegistry::new();
    let snap = vec![player(1), player(1), player(2)];
    assert_eq!(reg.to_open(&snap), vec![0, 2]);
}

#[test]
fn add_refuses_a_second_tunnel() {
    let mut reg: PeerRegistry<String> = PeerRegistry::new();
    assert!(reg.add(1, "a".to_string()).is_none());
    assert_eq!(reg.add(1, "b".to_string()), Some("b".to_string()));
    assert!(reg.contains(1));
    assert!(!reg.contains(2));
    assert_eq!(*reg.connection_mut(0), "a");
}

#[test]
fn removed_tunnel_is_reopened() {
    let mut reg: PeerRegistry<String> = PeerRegistry::new();
    let snap = vec![player(1), player(2)];
    reconcile(&mut reg, &snap, &[]);
    assert_eq!(reg.remove(1), Some("tunnel-1".to_string()));
    assert_eq!(reg.remove(1), None);
    assert_eq!(ids(&reg), vec![2]);
    let (opened, closed) = reconcile(&mut reg, &snap, &[]);
    assert_eq!(opened, vec![1]);
    assert!(closed.is_empty());
    assert_eq!(ids(&reg), vec![1, 2]);
}
