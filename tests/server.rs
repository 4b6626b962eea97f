use ipc_agent::chain::{
    id_address, network_matches, parse_subnet_id, subnet_path, ContentId, Network, JOIN_METHOD,
    KILL_METHOD, LEAVE_METHOD,
};
use ipc_agent::checkpoint::Subnet;
use ipc_agent::ids::{Address, SubnetId};
use ipc_agent::lotus::{
    actor_code_cid, create_subnet_message, join_message, kill_message, leave_message, LotusClient,
    LotusSubnetManager, ManagerError, INIT_ACTOR_ID, INIT_EXEC_METHOD, MANIFEST_ID,
};
use ipc_agent::server::{Connection, HandlerError, HandlerKind, Handlers, PoolLookup, SubnetManagerPool};

fn subnet_config(actor: u64) -> Subnet {
    Subnet {
        id: SubnetId::new_root(314).child(actor),
        accounts: vec![],
        jsonrpc_api_http: String::from("http://127.0.0.1:1234/rpc/v1"),
        auth_token: Some(String::from("token")),
    }
}

#[test]
fn handlers_route_known_methods() {
    let h = Handlers::new(String::from("config.toml"));
    assert_eq!(h.route(&String::from("reload_config")), Ok(HandlerKind::ReloadConfig));
    assert_eq!(h.route(&String::from("create_subnet")), Ok(HandlerKind::CreateSubnet));
    let err = h.route(&String::from("join_subnet")).unwrap_err();
    assert_eq!(err, HandlerError::MethodNotSupported);
    assert_eq!(err.message(), "method not supported");
    assert_eq!(h.config_path(), "config.toml");
}

#[test]
fn empty_handlers_route_nothing() {
    let h = Handlers::empty_handlers();
    assert!(h.route(&String::from("reload_config")).is_err());
}

#[test]
fn pool_connects_lazily() {
    let config = vec![
        (String::from("a"), subnet_config(1)),
        (String::from("b"), subnet_config(2)),
    ];
    let mut pool: SubnetManagerPool<u32> = SubnetManagerPool::new();
    assert_eq!(pool.get(&String::from("b"), &config), PoolLookup::FromConfig(1));
    assert_eq!(pool.get(&String::from("c"), &config), PoolLookup::NotFound);
    let conn = Connection::new(subnet_config(2), LotusSubnetManager::new(LotusClient::new(7u32)));
    let at = pool.insert(String::from("b"), conn);
    assert_eq!(pool.get(&String::from("b"), &config), PoolLookup::Pooled(at));
    let conn = pool.connection(at);
    assert_eq!(conn.subnet().id, SubnetId::new_root(314).child(2));
    assert_eq!(*conn.manager().lotus_client().inner(), 7);
    let again = Connection::new(subnet_config(2), LotusSubnetManager::new(LotusClient::new(8u32)));
    assert_eq!(pool.insert(String::from("b"), again), at);
    assert_eq!(*pool.connection(at).manager().lotus_client().inner(), 8);
}

fn chars(s: &str) -> Vec<char> {
    s.chars().collect()
}

#[test]
fn subnet_actor_messages() {
    let from = Address { bytes: vec![0, 9] };
    let s = SubnetId::new_root(314).child(1001);
    let node = chars("/r314");
    let m = join_message(Network::Mainnet, &node, &s, &from, 50, vec![1, 2]).unwrap();
    assert_eq!(m.to, id_address(1001));
    assert_eq!(m.method, JOIN_METHOD);
    assert_eq!(m.value, 50);
    assert_eq!(m.params, vec![1, 2]);
    assert_eq!(leave_message(Network::Mainnet, &node, &s, &from).unwrap().method, LEAVE_METHOD);
    assert_eq!(kill_message(Network::Mainnet, &node, &s, &from).unwrap().method, KILL_METHOD);
    let root = SubnetId::new_root(314);
    assert_eq!(leave_message(Network::Mainnet, &node, &root, &from).unwrap_err(), ManagerError::RootSubnet);
    assert_eq!(
        join_message(Network::Mainnet, &node, &root, &from, 1, vec![]).unwrap_err(),
        ManagerError::RootSubnet
    );
}

#[test]
fn wrong_network_is_refused() {
    let from = Address { bytes: vec![0, 9] };
    let s = SubnetId::new_root(314).child(1001).child(7);
    let other = chars("/r314");
    assert_eq!(
        join_message(Network::Mainnet, &other, &s, &from, 1, vec![]).unwrap_err(),
        ManagerError::WrongNetwork
    );
    let parent = chars("/r314/f01001");
    assert!(join_message(Network::Mainnet, &parent, &s, &from, 1, vec![]).is_ok());
    assert_eq!(
        kill_message(Network::Testnet, &parent, &s, &from).unwrap_err(),
        ManagerError::WrongNetwork
    );
    let code = ContentId { bytes: vec![5] };
    let (exec, m) = create_subnet_message(Network::Mainnet, &chars("/r314"), &SubnetId::new_root(314), &from, code, vec![8]).unwrap();
    assert_eq!(exec.code_cid.bytes, vec![5]);
    assert_eq!(exec.constructor_params, vec![8]);
    assert_eq!(m.to, id_address(INIT_ACTOR_ID));
    assert_eq!(m.method, INIT_EXEC_METHOD);
    let code = ContentId { bytes: vec![5] };
    assert_eq!(
        create_subnet_message(Network::Mainnet, &chars("/r315"), &SubnetId::new_root(314), &from, code, vec![]).unwrap_err(),
        ManagerError::WrongNetwork
    );
}

#[test]
fn subnet_paths_print_as_they_parse() {
    let s = SubnetId::new_root(314).child(1001).child(20);
    let text: String = subnet_path(Network::Mainnet, &s).into_iter().collect();
    assert_eq!(text, "/r314/f01001/f020");
    let back = parse_subnet_id(Network::Mainnet, &chars(&text)).unwrap();
    assert_eq!(back, s);
    let text: String = subnet_path(Network::Testnet, &SubnetId::new_root(0).child(0)).into_iter().collect();
    assert_eq!(text, "/r0/t00");
    assert!(network_matches(Network::Mainnet, &s, &chars("/r314/f01001/f020")));
    assert!(!network_matches(Network::Mainnet, &s, &chars("/r314/f01001/f02")));
}

#[test]
fn actor_code_is_looked_up_by_name() {
    let cids = vec![
        (String::from("account"), ContentId { bytes: vec![1] }),
        (String::from(MANIFEST_ID), ContentId { bytes: vec![2] }),
        (String::from(MANIFEST_ID), ContentId { bytes: vec![3] }),
    ];
    assert_eq!(actor_code_cid(&cids, &String::from(MANIFEST_ID)).unwrap().bytes, vec![2]);
    assert_eq!(
        actor_code_cid(&cids[..1].to_vec(), &String::from(MANIFEST_ID)).unwrap_err(),
        ManagerError::ActorCodeNotFound
    );
}

#[test]
fn pool_from_config_keeps_the_later_connection_and_the_others() {
    let conn = |actor: u64, t: u32| {
        Connection::new(subnet_config(actor), LotusSubnetManager::new(LotusClient::new(t)))
    };
    let pool = SubnetManagerPool::from_reload_config(vec![
        (String::from("a"), conn(1, 10)),
        (String::from("b"), conn(2, 20)),
        (String::from("a"), conn(1, 11)),
    ]);
    let config = vec![];
    let a = match pool.get(&String::from("a"), &config) {
        PoolLookup::Pooled(i) => i,
        other => panic!("unexpected {:?}", other),
    };
    let b = match pool.get(&String::from("b"), &config) {
        PoolLookup::Pooled(i) => i,
        other => panic!("unexpected {:?}", other),
    };
    assert_eq!(*pool.connection(a).manager().lotus_client().inner(), 11);
    assert_eq!(*pool.connection(b).manager().lotus_client().inner(), 20);
    let mut pool = pool;
    pool.insert(String::from("c"), conn(3, 30));
    assert_eq!(*pool.connection(a).manager().lotus_client().inner(), 11);
    assert_eq!(*pool.connection(b).manager().lotus_client().inner(), 20);
}
