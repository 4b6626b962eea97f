use ipc_agent::chain::{id_address, CIDMap, ContentId, Network, SUBMIT_CHECKPOINT_METHOD};
use ipc_agent::checkpoint::{
    accounts_to_submit, assemble_checkpoint, check_period, head_tip_set, is_checkpoint_epoch,
    join_results, submission, subnets_to_manage, CheckData, Checkpoint, ChildCheck, Monitor,
    MonitorError, MonitorPhase, Subnet, Supervisor, SupervisorAction, SupervisorEvent,
};
use ipc_agent::ids::{Address, SubnetId};

const CID_TEXT: &str = "QmYwAPJzv5CZsnA625s3Xf2nemtYgPpHdWEz79ojWnPbdG";

fn account(n: u8) -> Address {
    Address { bytes: vec![1, n, n, n] }
}

fn config(id: SubnetId, accounts: Vec<Address>) -> Subnet {
    Subnet {
        id,
        accounts,
        jsonrpc_api_http: String::from("http://127.0.0.1:1234/rpc/v1"),
        auth_token: None,
    }
}

fn root() -> SubnetId {
    SubnetId::new_root(314)
}

fn content(bytes: &[u8]) -> ContentId {
    ContentId { bytes: bytes.to_vec() }
}

#[test]
fn managed_pairs_need_accounts_and_configured_parent() {
    let p = root();
    let a = p.child(100);
    let b = p.child(101);
    let orphan = p.child(102).child(7);
    let subnets = vec![
        config(p.clone(), vec![account(1)]),
        config(a.clone(), vec![account(1)]),
        config(b.clone(), vec![]),
        config(orphan.clone(), vec![account(1)]),
    ];
    let pairs = subnets_to_manage(&subnets);
    assert_eq!(pairs.len(), 1);
    assert_eq!(pairs[0].0.id, a);
    assert_eq!(pairs[0].1.id, p);
}

#[test]
fn config_reload_drops_removed_pair() {
    let p = root();
    let a = p.child(100);
    let b = p.child(101);
    let before = vec![
        config(p.clone(), vec![]),
        config(a.clone(), vec![account(1)]),
        config(b.clone(), vec![account(2)]),
    ];
    let mut sup = Supervisor::start(&before);
    assert_eq!(sup.watched().len(), 2);
    let after = vec![config(p.clone(), vec![]), config(b.clone(), vec![account(2)])];
    assert_eq!(sup.on_event(SupervisorEvent::ConfigReloaded, &after), SupervisorAction::Restart);
    assert_eq!(sup.watched().len(), 1);
    assert_eq!(sup.watched()[0].0.id, b);
    assert_eq!(sup.watched()[0].1.id, p);
    assert!(!sup.stopped());
}

#[test]
fn shutdown_and_closed_stream_stop_the_supervisor() {
    let p = root();
    let subnets = vec![config(p.clone(), vec![]), config(p.child(100), vec![account(1)])];
    let mut sup = Supervisor::start(&subnets);
    assert_eq!(sup.on_event(SupervisorEvent::ShutdownRequested, &subnets), SupervisorAction::Stop);
    assert!(sup.stopped());
    assert!(sup.watched().is_empty());
    let mut sup = Supervisor::start(&subnets);
    assert_eq!(sup.on_event(SupervisorEvent::ConfigClosed, &subnets), SupervisorAction::Stop);
    assert!(sup.stopped());
}

#[test]
fn epoch_zero_is_a_checkpoint_epoch() {
    assert!(is_checkpoint_epoch(0, 10));
    assert!(is_checkpoint_epoch(20, 10));
    assert!(!is_checkpoint_epoch(21, 10));
    let submit = accounts_to_submit(0, 10, &vec![account(1)], &vec![account(1)]);
    assert_eq!(submit, vec![account(1)]);
}

#[test]
fn period_must_be_positive() {
    assert_eq!(check_period(10), Ok(10));
    assert_eq!(check_period(0), Err(MonitorError::InvalidPeriod));
    assert_eq!(check_period(-5), Err(MonitorError::InvalidPeriod));
}

#[test]
fn only_validating_accounts_submit_on_checkpoint_epochs() {
    let accounts = vec![account(1), account(2), account(3)];
    let validators = vec![account(3), account(1), account(9)];
    assert_eq!(accounts_to_submit(30, 10, &accounts, &validators), vec![account(1), account(3)]);
    assert!(accounts_to_submit(31, 10, &accounts, &validators).is_empty());
    assert!(accounts_to_submit(30, 10, &accounts, &vec![]).is_empty());
}

#[test]
fn tip_set_policy() {
    let one = vec![CIDMap { cid: Some(String::from(CID_TEXT)) }];
    let tip = head_tip_set(&one, true).unwrap();
    assert_eq!(tip.bytes.len(), 34);
    let two = vec![
        CIDMap { cid: Some(String::from(CID_TEXT)) },
        CIDMap { cid: None },
    ];
    assert_eq!(head_tip_set(&two, true).unwrap_err(), MonitorError::SeveralTipSets);
    assert_eq!(head_tip_set(&two, false).unwrap().bytes, tip.bytes);
    assert_eq!(head_tip_set(&vec![], false).unwrap_err(), MonitorError::NoTipSet);
    let bad = vec![CIDMap { cid: Some(String::from("nonsense")) }];
    assert_eq!(head_tip_set(&bad, true).unwrap_err(), MonitorError::BadTipSet);
}

#[test]
fn checkpoint_epoch_match_submits_once() {
    let parent = root();
    let child = parent.child(1001);
    let a = account(7);
    let child_config = config(child.clone(), vec![a.clone()]);
    let validators = vec![a.clone()];
    let epoch = 20;
    let period = 10;
    let submit = accounts_to_submit(epoch, period, &child_config.accounts, &validators);
    assert_eq!(submit, vec![a.clone()]);

    let template = Checkpoint {
        subnet_id: child.clone(),
        epoch,
        data: CheckData {
            children: vec![ChildCheck { source: child.child(5), checks: vec![content(&[9, 9])] }],
            prev_check: content(&[]),
            proof: vec![],
        },
    };
    let prev = content(&[1, 2, 3]);
    let tip = content(&[4, 5, 6]);
    let cp = assemble_checkpoint(&child, epoch, template, prev, &tip);
    assert_eq!(cp.subnet_id, child);
    assert_eq!(cp.epoch, 20);
    assert_eq!(cp.data.children.len(), 1);
    assert_eq!(cp.data.children[0].source, child.child(5));
    assert_eq!(cp.data.prev_check.bytes, vec![1, 2, 3]);
    assert_eq!(cp.data.proof, vec![4, 5, 6]);

    let s = submission(&submit[0], cp).unwrap();
    assert_eq!(s.message.to, id_address(1001));
    assert_eq!(s.message.from, a);
    assert_eq!(s.message.method, SUBMIT_CHECKPOINT_METHOD);
    assert_eq!(s.message.value, 0);
    assert_eq!(s.checkpoint.data.prev_check.bytes, vec![1, 2, 3]);
}

#[test]
fn root_network_has_no_subnet_actor() {
    let cp = Checkpoint {
        subnet_id: root(),
        epoch: 0,
        data: CheckData { children: vec![], prev_check: content(&[]), proof: vec![] },
    };
    assert_eq!(submission(&account(1), cp).unwrap_err(), MonitorError::RootSubnet);
}

#[test]
fn first_error_wins() {
    assert_eq!(join_results(&vec![Ok(()), Ok(())]), Ok(()));
    assert_eq!(join_results(&vec![]), Ok(()));
    let results = vec![Ok(()), Err(MonitorError::Rpc), Err(MonitorError::BadValidator)];
    assert_eq!(join_results(&results), Err(MonitorError::Rpc));
}

#[test]
fn subnet_parent_and_actor() {
    let p = root();
    let c = p.child(10).child(20);
    assert_eq!(c.parent(), Some(p.child(10)));
    assert_eq!(c.subnet_actor(), Some(20));
    assert_eq!(p.parent(), None);
    assert_eq!(p.subnet_actor(), None);
    assert_ne!(p.child(10), p.child(11));
}

#[test]
fn monitor_watches_then_picks_validating_accounts() {
    let p = root();
    let c = p.child(1001);
    let child = config(c.clone(), vec![id_address(1002), id_address(1003)]);
    let mut m = Monitor::new(child, config(p.clone(), vec![]));
    assert_eq!(m.phase(), MonitorPhase::Bootstrapping);
    assert_eq!(m.on_period(10), Ok(()));
    assert_eq!(m.phase(), MonitorPhase::Watching { period: 10 });
    assert!(m.on_child_head(0));
    assert!(m.on_child_head(20));
    assert!(!m.on_child_head(25));
    let validators = vec![String::from("f01003"), String::from("f01009")];
    assert_eq!(m.on_validators(20, Network::Mainnet, &validators), Ok(vec![id_address(1003)]));
    assert_eq!(m.phase(), MonitorPhase::Watching { period: 10 });
    m.on_cancel();
    assert_eq!(m.phase(), MonitorPhase::Terminated);
}

#[test]
fn monitor_stops_on_bad_period_or_validator() {
    let p = root();
    let mut m = Monitor::new(config(p.child(1), vec![account(1)]), config(p.clone(), vec![]));
    assert_eq!(m.on_period(0), Err(MonitorError::InvalidPeriod));
    assert_eq!(m.phase(), MonitorPhase::Terminated);
    let mut m = Monitor::new(config(p.child(1), vec![account(1)]), config(p.clone(), vec![]));
    m.on_period(5).unwrap();
    let bad = vec![String::from("f01"), String::from("garbage")];
    assert_eq!(m.on_validators(5, Network::Mainnet, &bad), Err(MonitorError::BadValidator));
    assert_eq!(m.phase(), MonitorPhase::Terminated);
    let mut m = Monitor::new(config(p.child(1), vec![]), config(p, vec![]));
    assert_eq!(m.on_failure(MonitorError::Rpc), MonitorError::Rpc);
    assert_eq!(m.phase(), MonitorPhase::Terminated);
}

#[test]
fn subnet_listed_twice_is_watched_once() {
    let p = root();
    let a = p.child(100);
    let subnets = vec![
        config(p.clone(), vec![]),
        config(a.clone(), vec![account(1)]),
        config(a.clone(), vec![account(2)]),
    ];
    let pairs = subnets_to_manage(&subnets);
    assert_eq!(pairs.len(), 1);
    assert_eq!(pairs[0].0.id, a);
    assert_eq!(pairs[0].0.accounts, vec![account(1)]);
}
