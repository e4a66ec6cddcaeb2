use lan_relay::groups::GroupDirectory;
use lan_relay::member::{Endpoint, Member};
use lan_relay::presence::Presence;
use lan_relay::session::{client_step, link_step, ClientAction, LinkAction, LinkEvent, LinkState, ServerEvent};

fn player(id: i64) -> Member {
    Member { id, addr: Endpoint::V4([10, 0, 0, id as u8]) }
}

#[test]
fn create_join_disconnect_scenario() {
    let mut groups = GroupDirectory::new();
    let a = player(1);
    let b = player(2);
    groups.create_group(a);
    assert_eq!(groups.group_of_player(1), Some(1));
    assert_eq!(groups.group_members(1), vec![a]);
    assert!(groups.snapshot_for(1).is_empty());
    groups.join_group(b, 1);
    assert_eq!(groups.snapshot_for(1), vec![b]);
    assert_eq!(groups.snapshot_for(2), vec![a]);
    groups.remove_player(2);
    assert!(groups.snapshot_for(1).is_empty());
    assert_eq!(groups.group_of_player(2), None);
    groups.remove_player(1);
    assert!(groups.group(1).is_none());
}

#[test]
fn group_capacity_is_four() {
    let mut groups = GroupDirectory::new();
    groups.create_group(player(1));
    for id in 2..=5 {
        groups.join_group(player(id), 1);
    }
    assert_eq!(groups.group_members(1), vec![player(1), player(2), player(3), player(4)]);
    assert_eq!(groups.group_of_player(5), None);
}

#[test]
fn joining_leaves_the_previous_group() {
    let mut groups = GroupDirectory::new();
    groups.create_group(player(1));
    groups.create_group(player(2));
    groups.join_group(player(3), 1);
    groups.join_group(player(3), 2);
    assert_eq!(groups.group_of_player(3), Some(2));
    assert_eq!(groups.group_members(1), vec![player(1)]);
    assert_eq!(groups.group_members(2), vec![player(2), player(3)]);
    groups.join_group(player(3), 2);
    assert_eq!(groups.group_members(2), vec![player(2), player(3)]);
}

#[test]
fn refused_join_changes_nothing() {
    let mut groups = GroupDirectory::new();
    groups.create_group(player(1));
    groups.join_group(player(1), 7);
    assert_eq!(groups.group_of_player(1), Some(1));
    assert!(groups.group(7).is_none());
}

#[test]
fn leaving_the_last_seat_dissolves_the_group() {
    let mut groups = GroupDirectory::new();
    groups.create_group(player(1));
    groups.join_group(player(2), 1);
    groups.leave_group(2, 3);
    assert_eq!(groups.group_of_player(2), Some(1));
    groups.leave_group(1, 1);
    let g = groups.group(1).unwrap();
    assert_eq!(g.id, 1);
    assert!(g.contains_user(2));
    assert!(!g.contains_user(1));
    groups.leave_group(2, 1);
    assert!(groups.group(1).is_none());
}

#[test]
fn creating_again_replaces_the_group() {
    let mut groups = GroupDirectory::new();
    groups.create_group(player(1));
    groups.join_group(player(2), 1);
    groups.create_group(player(2));
    assert_eq!(groups.group_members(1), vec![player(1)]);
    assert_eq!(groups.group_members(2), vec![player(2)]);
}

#[test]
fn presence_keeps_one_entry_per_player() {
    let mut presence = Presence::new();
    assert_eq!(presence.address_of(1), None);
    presence.connect(player(1));
    presence.connect(player(2));
    let moved = Member { id: 1, addr: Endpoint::V6([0, 0, 0, 0, 0, 0, 0, 1]) };
    presence.connect(moved);
    assert_eq!(presence.address_of(1), Some(moved.addr));
    assert_eq!(presence.address_of(2), Some(player(2).addr));
    presence.disconnect(1);
    assert_eq!(presence.address_of(1), None);
    assert_eq!(presence.address_of(2), Some(player(2).addr));
}

#[test]
fn client_decisions() {
    assert!(matches!(client_step(ServerEvent::Snapshot(vec![player(3)])), ClientAction::Reconcile(m) if m == vec![player(3)]));
    assert!(matches!(client_step(ServerEvent::Ping(vec![1, 2, 3])), ClientAction::Pong(p) if p == vec![1, 2, 3]));
    assert!(matches!(client_step(ServerEvent::Malformed), ClientAction::Skip));
    assert!(matches!(client_step(ServerEvent::Other), ClientAction::Skip));
    assert!(matches!(client_step(ServerEvent::Closed), ClientAction::Stop));
}

#[test]
fn link_lifecycle() {
    let a = player(4);
    let (s, act) = link_step(LinkState::Connecting, LinkEvent::Hello { player: Some(4), addr: Some(a.addr) });
    assert_eq!((s, act), (LinkState::Active(4), LinkAction::Register(a)));
    assert_eq!(link_step(s, LinkEvent::Tick { alive: true }), (LinkState::Active(4), LinkAction::Push(4)));
    assert_eq!(link_step(s, LinkEvent::Tick { alive: false }), (LinkState::Closed, LinkAction::Cleanup(4)));
    assert_eq!(
        link_step(LinkState::Connecting, LinkEvent::Hello { player: Some(4), addr: None }),
        (LinkState::Closed, LinkAction::Close)
    );
    assert_eq!(
        link_step(LinkState::Connecting, LinkEvent::Hello { player: None, addr: Some(a.addr) }),
        (LinkState::Closed, LinkAction::Close)
    );
    assert_eq!(link_step(LinkState::Closed, LinkEvent::Tick { alive: true }), (LinkState::Closed, LinkAction::Wait));
}
