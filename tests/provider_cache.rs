use ipc_agent::ids::{PeerId, SubnetId, Timestamp};
use ipc_agent::provider_cache::{new_subnets, ProviderRecord, SubnetProviderCache};

fn peer(n: u8) -> PeerId {
    PeerId { bytes: vec![n] }
}

fn subnet(actor: u64) -> SubnetId {
    SubnetId::new_root(314).child(actor)
}

fn record(p: u8, actors: &[u64], t: u64) -> ProviderRecord {
    ProviderRecord {
        peer_id: peer(p),
        subnet_ids: actors.iter().map(|a| subnet(*a)).collect(),
        timestamp: Timestamp(t),
    }
}

fn sorted(mut v: Vec<PeerId>) -> Vec<PeerId> {
    v.sort_by(|a, b| a.bytes.cmp(&b.bytes));
    v
}

#[test]
fn unroutable_record_is_skipped_without_change() {
    let mut cache = SubnetProviderCache::new();
    assert!(cache.add_provider(record(1, &[10, 11], 100)).is_none());
    assert_eq!(cache.record_timestamp(&peer(1)), None);
    cache.set_routable(peer(1));
    assert!(cache.providers_of_subnet(&subnet(10)).is_empty());
}

#[test]
fn first_record_adds_all_its_subnets() {
    let mut cache = SubnetProviderCache::new();
    cache.set_routable(peer(1));
    let added = cache.add_provider(record(1, &[10, 11, 10], 100)).unwrap();
    assert_eq!(added, vec![subnet(10), subnet(11)]);
    assert_eq!(cache.providers_of_subnet(&subnet(10)), vec![peer(1)]);
    assert_eq!(cache.providers_of_subnet(&subnet(11)), vec![peer(1)]);
    assert!(cache.providers_of_subnet(&subnet(12)).is_empty());
}

#[test]
fn timestamp_is_the_latest_seen() {
    let mut cache = SubnetProviderCache::new();
    cache.set_routable(peer(1));
    cache.add_provider(record(1, &[10], 100));
    cache.add_provider(record(1, &[10], 300));
    cache.add_provider(record(1, &[11], 200));
    assert_eq!(cache.record_timestamp(&peer(1)), Some(Timestamp(300)));
    assert_eq!(cache.providers_of_subnet(&subnet(10)), vec![peer(1)]);
    assert!(cache.providers_of_subnet(&subnet(11)).is_empty());
}

#[test]
fn equal_timestamp_is_not_adopted() {
    let mut cache = SubnetProviderCache::new();
    cache.set_routable(peer(1));
    cache.add_provider(record(1, &[10], 100));
    let added = cache.add_provider(record(1, &[11], 100)).unwrap();
    assert!(added.is_empty());
    assert_eq!(cache.providers_of_subnet(&subnet(10)), vec![peer(1)]);
    assert!(cache.providers_of_subnet(&subnet(11)).is_empty());
}

#[test]
fn newer_record_reports_only_new_subnets() {
    let mut cache = SubnetProviderCache::new();
    cache.set_routable(peer(1));
    cache.add_provider(record(1, &[10, 11], 100));
    let added = cache.add_provider(record(1, &[11, 12], 200)).unwrap();
    assert_eq!(added, vec![subnet(12)]);
    assert!(cache.providers_of_subnet(&subnet(10)).is_empty());
}

#[test]
fn set_routable_twice_is_set_routable_once() {
    let mut once = SubnetProviderCache::new();
    let mut twice = SubnetProviderCache::new();
    once.set_routable(peer(1));
    twice.set_routable(peer(1));
    twice.set_routable(peer(1));
    once.add_provider(record(1, &[10], 100));
    twice.add_provider(record(1, &[10], 100));
    assert_eq!(once.providers_of_subnet(&subnet(10)), twice.providers_of_subnet(&subnet(10)));
    assert!(twice.set_unroutable(&peer(1)));
    assert!(!twice.is_routable(&peer(1)));
    assert!(!twice.set_unroutable(&peer(1)));
}

#[test]
fn unroutable_peer_is_no_provider_but_keeps_record() {
    let mut cache = SubnetProviderCache::new();
    cache.set_routable(peer(1));
    cache.set_routable(peer(2));
    cache.add_provider(record(1, &[10], 100));
    cache.add_provider(record(2, &[10], 100));
    assert!(cache.set_unroutable(&peer(1)));
    assert_eq!(cache.providers_of_subnet(&subnet(10)), vec![peer(2)]);
    assert_eq!(cache.record_timestamp(&peer(1)), Some(Timestamp(100)));
    cache.set_routable(peer(1));
    assert_eq!(sorted(cache.providers_of_subnet(&subnet(10))), vec![peer(1), peer(2)]);
}

#[test]
fn prune_removes_older_records() {
    let mut cache = SubnetProviderCache::new();
    cache.set_routable(peer(1));
    cache.set_routable(peer(2));
    cache.add_provider(record(1, &[10], 100));
    cache.add_provider(record(2, &[10], 500));
    cache.prune_providers(Timestamp(300));
    assert_eq!(cache.record_timestamp(&peer(1)), None);
    assert_eq!(cache.record_timestamp(&peer(2)), Some(Timestamp(500)));
    assert_eq!(cache.providers_of_subnet(&subnet(10)), vec![peer(2)]);
}

#[test]
fn prune_keeps_record_at_cutoff() {
    let mut cache = SubnetProviderCache::new();
    cache.set_routable(peer(1));
    cache.add_provider(record(1, &[10], 300));
    cache.prune_providers(Timestamp(300));
    assert_eq!(cache.record_timestamp(&peer(1)), Some(Timestamp(300)));
}

#[test]
fn new_subnets_is_the_difference() {
    let new = vec![subnet(1), subnet(2), subnet(3), subnet(2)];
    let prior = vec![subnet(2)];
    assert_eq!(new_subnets(&new, &prior), vec![subnet(1), subnet(3)]);
    assert!(new_subnets(&prior, &new).is_empty());
}
