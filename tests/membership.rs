use ipc_agent::ids::{PeerId, SubnetId, Timestamp};
use ipc_agent::membership::{Behaviour, Event, PollStep};
use ipc_agent::provider_cache::ProviderRecord;

fn peer(n: u8) -> PeerId {
    PeerId { bytes: vec![n] }
}

fn subnet(actor: u64) -> SubnetId {
    SubnetId::new_root(314).child(actor)
}

fn record(p: u8, actors: &[u64], t: u64) -> Option<ProviderRecord> {
    Some(ProviderRecord {
        peer_id: peer(p),
        subnet_ids: actors.iter().map(|a| subnet(*a)).collect(),
        timestamp: Timestamp(t),
    })
}

fn topic() -> String {
    String::from("/ipc/membership/testnet")
}

#[test]
fn topic_joins_prefix_and_network() {
    let b = Behaviour::new("testnet", 60);
    assert_eq!(b.membership_topic(), "/ipc/membership/testnet");
}

#[test]
fn add_subnet_twice_publishes_once() {
    let mut b = Behaviour::new("testnet", 60);
    assert!(b.add_subnet_id(subnet(1)));
    assert!(!b.add_subnet_id(subnet(1)));
    assert_eq!(b.subnet_ids(), &vec![subnet(1)]);
}

#[test]
fn remove_subnet_publishes_only_on_change() {
    let mut b = Behaviour::new("testnet", 60);
    assert!(b.set_subnet_ids(vec![subnet(1), subnet(2)]));
    assert!(!b.remove_subnet_id(subnet(3)));
    assert!(b.remove_subnet_id(subnet(1)));
    assert_eq!(b.subnet_ids(), &vec![subnet(2)]);
    assert!(!b.remove_subnet_id(subnet(1)));
}

#[test]
fn cold_ingest_then_routable() {
    let mut b = Behaviour::new("testnet", 60);
    let ev = b.handle_message(&topic(), record(1, &[10, 11], 100));
    assert!(matches!(ev, Some(Event::SkippedProvider(ref p)) if *p == peer(1)));
    assert!(b.providers_of_subnet(&subnet(10)).is_empty());
    b.set_routable(peer(1));
    // The skipped record was not kept: the peer's next announcement lets it in.
    assert!(b.providers_of_subnet(&subnet(10)).is_empty());
    let ev = b.handle_message(&topic(), record(1, &[10, 11], 160));
    match ev {
        Some(Event::AddedProvider(p, ids)) => {
            assert_eq!(p, peer(1));
            assert_eq!(ids, vec![subnet(10), subnet(11)]);
        }
        other => panic!("unexpected event {:?}", other),
    }
    assert_eq!(b.providers_of_subnet(&subnet(10)), vec![peer(1)]);
}

#[test]
fn upgrade_then_shrink() {
    let mut b = Behaviour::new("testnet", 60);
    b.set_routable(peer(1));
    assert!(b.handle_message(&topic(), record(1, &[10, 11], 100)).is_some());
    let ev = b.handle_message(&topic(), record(1, &[10], 200));
    assert!(ev.is_none());
    assert_eq!(b.providers_of_subnet(&subnet(10)), vec![peer(1)]);
    assert!(b.providers_of_subnet(&subnet(11)).is_empty());
}

#[test]
fn stale_record_is_dropped() {
    let mut b = Behaviour::new("testnet", 60);
    b.set_routable(peer(1));
    b.handle_message(&topic(), record(1, &[10, 11], 100));
    b.handle_message(&topic(), record(1, &[10], 200));
    let ev = b.handle_message(&topic(), record(1, &[10, 11, 12], 150));
    assert!(ev.is_none());
    assert_eq!(b.providers_of_subnet(&subnet(10)), vec![peer(1)]);
    assert!(b.providers_of_subnet(&subnet(11)).is_empty());
    assert!(b.providers_of_subnet(&subnet(12)).is_empty());
}

#[test]
fn other_topic_and_undecodable_payload_are_ignored() {
    let mut b = Behaviour::new("testnet", 60);
    b.set_routable(peer(1));
    let ev = b.handle_message(&String::from("/ipc/membership/mainnet"), record(1, &[10], 100));
    assert!(ev.is_none());
    assert!(b.handle_message(&topic(), None).is_none());
    assert!(b.providers_of_subnet(&subnet(10)).is_empty());
}

#[test]
fn heartbeat_publishes_and_prunes_in_one_poll() {
    let mut b = Behaviour::new("testnet", 60);
    b.set_routable(peer(1));
    b.set_routable(peer(2));
    b.handle_message(&topic(), record(1, &[10], 100));
    b.handle_message(&topic(), record(2, &[10], 150));
    match b.poll(true, Timestamp(200)) {
        PollStep::Proceed { publish } => assert!(publish),
        other => panic!("unexpected step {:?}", other),
    }
    assert_eq!(b.providers_of_subnet(&subnet(10)), vec![peer(2)]);
}

#[test]
fn poll_without_tick_changes_nothing() {
    let mut b = Behaviour::new("testnet", 60);
    b.set_routable(peer(1));
    b.handle_message(&topic(), record(1, &[10], 100));
    match b.poll(false, Timestamp(1000)) {
        PollStep::Proceed { publish } => assert!(!publish),
        other => panic!("unexpected step {:?}", other),
    }
    assert_eq!(b.providers_of_subnet(&subnet(10)), vec![peer(1)]);
}

#[test]
fn prune_cutoff_saturates_at_epoch() {
    let mut b = Behaviour::new("testnet", 600);
    b.set_routable(peer(1));
    b.handle_message(&topic(), record(1, &[10], 0));
    b.poll(true, Timestamp(100));
    assert_eq!(b.providers_of_subnet(&subnet(10)), vec![peer(1)]);
    assert_eq!(Timestamp(100).minus_secs(600), Timestamp(0));
    assert_eq!(Timestamp(700).minus_secs(600), Timestamp(100));
}

#[test]
fn remove_subnet_keeps_order_and_drops_every_copy() {
    let mut b = Behaviour::new("testnet", 60);
    b.set_subnet_ids(vec![subnet(1), subnet(2), subnet(3), subnet(2)]);
    assert!(b.remove_subnet_id(subnet(2)));
    assert_eq!(b.subnet_ids(), &vec![subnet(1), subnet(3)]);
}
