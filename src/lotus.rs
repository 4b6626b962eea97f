//! The Lotus node client and the subnet manager built on it: the messages that
//! join, leave or kill a subnet, and the lookup of the subnet actor's code.
use vstd::prelude::*;

use crate::chain::{
    id_address, id_address_bytes, network_matches, subnet_path_text, ContentId, ExecParams,
    MpoolPushMessage, Network, JOIN_METHOD, KILL_METHOD, LEAVE_METHOD,
};
use crate::ids::{parent_of, Address, SubnetId};

verus! {

/// JSON-RPC method that pushes a message to the message pool.
pub const MPOOL_PUSH_MESSAGE: &'static str = "Filecoin.MpoolPushMessage";

/// JSON-RPC method that waits for a message to be included.
pub const STATE_WAIT_MSG: &'static str = "Filecoin.StateWaitMsg";

/// JSON-RPC method that creates a wallet.
pub const WALLET_NEW: &'static str = "Filecoin.WalletNew";

/// JSON-RPC method that lists the wallets.
pub const WALLET_LIST: &'static str = "Filecoin.WalletList";

/// JSON-RPC method that gives the default wallet.
pub const WALLET_DEFAULT_ADDRESS: &'static str = "Filecoin.WalletDefaultAddress";

/// JSON-RPC method that reads an actor's state.
pub const STATE_READ_STATE: &'static str = "Filecoin.StateReadState";

/// Actor id of the init actor, which instantiates actors.
pub const INIT_ACTOR_ID: u64 = 1;

/// Method number of the init actor's `Exec`.
pub const INIT_EXEC_METHOD: u64 = 2;

/// Name under which the subnet actor's code is listed among the actor code CIDs.
pub const MANIFEST_ID: &'static str = "ipc_subnet_actor";

/// A client of a Lotus node, over the JSON-RPC transport `Inner`.
pub struct LotusClient<Inner> {
    inner: Inner,
}

impl<Inner> LotusClient<Inner> {
    /// The transport the client talks through.
    pub closed spec fn transport(&self) -> Inner {
        self.inner
    }

    /// A client talking through `inner`.
    pub fn new(inner: Inner) -> (r: Self)
        ensures
            r.transport() == inner,
    {
        Self { inner }
    }

    /// The transport the client talks through.
    pub fn inner(&self) -> (r: &Inner)
        ensures
            *r == self.transport(),
    {
        &self.inner
    }
}

/// Manages subnets through a Lotus node of their parent.
pub struct LotusSubnetManager<T> {
    lotus_client: LotusClient<T>,
}

impl<T> LotusSubnetManager<T> {
    /// The client of the parent's node.
    pub closed spec fn client(&self) -> LotusClient<T> {
        self.lotus_client
    }

    /// A manager talking to the parent's node through `lotus_client`.
    pub fn new(lotus_client: LotusClient<T>) -> (r: Self)
        ensures
            r.client() == lotus_client,
    {
        Self { lotus_client }
    }

    /// The client of the parent's node.
    pub fn lotus_client(&self) -> (r: &LotusClient<T>)
        ensures
            *r == self.client(),
    {
        &self.lotus_client
    }
}

/// Why the subnet manager refused an operation.
#[derive(PartialEq, Eq, Structural, Clone, Copy, Debug)]
pub enum ManagerError {
    /// A root network has no parent to join, leave or kill it on.
    RootSubnet,
    /// The node is not on the network the subnet's parent lives on.
    WrongNetwork,
    /// The node lists no code for the subnet actor.
    ActorCodeNotFound,
}

/// A message to the subnet actor of `subnet` on its parent, to be pushed to a
/// node whose network name is `node_network`. A root network has no parent:
/// `RootSubnet`. A node that is not on the parent's network: `WrongNetwork`.
pub fn subnet_actor_message(
    network: Network,
    node_network: &Vec<char>,
    subnet: &SubnetId,
    from: &Address,
    method: u64,
    params: Vec<u8>,
    value: u64,
) -> (r: Result<MpoolPushMessage, ManagerError>)
    ensures
        subnet@.1.len() == 0 ==> r == Err::<MpoolPushMessage, ManagerError>(ManagerError::RootSubnet),
        subnet@.1.len() > 0 && node_network@ != subnet_path_text(network, parent_of(subnet@).unwrap())
            ==> r == Err::<MpoolPushMessage, ManagerError>(ManagerError::WrongNetwork),
        subnet@.1.len() > 0 && node_network@ == subnet_path_text(network, parent_of(subnet@).unwrap())
            ==> (r matches Ok(m) && {
            &&& m.to@ == id_address_bytes(subnet@.1.last())
            &&& m.from@ == from@
            &&& m.method == method
            &&& m.params == params
            &&& m.value == value
            &&& m.nonce is None
        }),
{
    match subnet.parent() {
        None => Err(ManagerError::RootSubnet),
        Some(parent) => {
            if !network_matches(network, &parent, node_network) {
                return Err(ManagerError::WrongNetwork);
            }
            let actor = subnet.children[subnet.children.len() - 1];
            let mut m = MpoolPushMessage::new(id_address(actor), from.copy_address(), method, params);
            m.value = value;
            Ok(m)
        },
    }
}

/// The message that joins `subnet` from `from`, staking `collateral`, pushed to
/// a node whose network name is `node_network`.
pub fn join_message(
    network: Network,
    node_network: &Vec<char>,
    subnet: &SubnetId,
    from: &Address,
    collateral: u64,
    params: Vec<u8>,
) -> (r: Result<MpoolPushMessage, ManagerError>)
    ensures
        subnet@.1.len() == 0 ==> r == Err::<MpoolPushMessage, ManagerError>(ManagerError::RootSubnet),
        subnet@.1.len() > 0 && node_network@ != subnet_path_text(network, parent_of(subnet@).unwrap())
            ==> r == Err::<MpoolPushMessage, ManagerError>(ManagerError::WrongNetwork),
        subnet@.1.len() > 0 && node_network@ == subnet_path_text(network, parent_of(subnet@).unwrap())
            ==> (r matches Ok(m) && {
            &&& m.to@ == id_address_bytes(subnet@.1.last())
            &&& m.from@ == from@
            &&& m.method == JOIN_METHOD
            &&& m.params == params
            &&& m.value == collateral
            &&& m.nonce is None
        }),
{
    subnet_actor_message(network, node_network, subnet, from, JOIN_METHOD, params, collateral)
}

/// The message that leaves `subnet` from `from`, pushed to a node whose network
/// name is `node_network`.
pub fn leave_message(network: Network, node_network: &Vec<char>, subnet: &SubnetId, from: &Address) -> (r: Result<MpoolPushMessage, ManagerError>)
    ensures
        subnet@.1.len() == 0 ==> r == Err::<MpoolPushMessage, ManagerError>(ManagerError::RootSubnet),
        subnet@.1.len() > 0 && node_network@ != subnet_path_text(network, parent_of(subnet@).unwrap())
            ==> r == Err::<MpoolPushMessage, ManagerError>(ManagerError::WrongNetwork),
        subnet@.1.len() > 0 && node_network@ == subnet_path_text(network, parent_of(subnet@).unwrap())
            ==> (r matches Ok(m) && {
            &&& m.to@ == id_address_bytes(subnet@.1.last())
            &&& m.from@ == from@
            &&& m.method == LEAVE_METHOD
            &&& m.params@.len() == 0
            &&& m.value == 0
            &&& m.nonce is None
        }),
{
    subnet_actor_message(network, node_network, subnet, from, LEAVE_METHOD, Vec::new(), 0)
}

/// The message that kills `subnet` from `from`, pushed to a node whose network
/// name is `node_network`.
pub fn kill_message(network: Network, node_network: &Vec<char>, subnet: &SubnetId, from: &Address) -> (r: Result<MpoolPushMessage, ManagerError>)
    ensures
        subnet@.1.len() == 0 ==> r == Err::<MpoolPushMessage, ManagerError>(ManagerError::RootSubnet),
        subnet@.1.len() > 0 && node_network@ != subnet_path_text(network, parent_of(subnet@).unwrap())
            ==> r == Err::<MpoolPushMessage, ManagerError>(ManagerError::WrongNetwork),
        subnet@.1.len() > 0 && node_network@ == subnet_path_text(network, parent_of(subnet@).unwrap())
            ==> (r matches Ok(m) && {
            &&& m.to@ == id_address_bytes(subnet@.1.last())
            &&& m.from@ == from@
            &&& m.method == KILL_METHOD
            &&& m.params@.len() == 0
            &&& m.value == 0
            &&& m.nonce is None
        }),
{
    subnet_actor_message(network, node_network, subnet, from, KILL_METHOD, Vec::new(), 0)
}

/// The message that creates a subnet under `parent`: the init actor's `Exec`
/// of the subnet actor's code `code_cid` with the encoded constructor
/// parameters, pushed to a node whose network name is `node_network`. The
/// message carries the encoded `Exec` parameters, which are returned beside it
/// for encoding. A node that is not on the parent's network: `WrongNetwork`.
pub fn create_subnet_message(
    network: Network,
    node_network: &Vec<char>,
    parent: &SubnetId,
    from: &Address,
    code_cid: ContentId,
    constructor_params: Vec<u8>,
) -> (r: Result<(ExecParams, MpoolPushMessage), ManagerError>)
    ensures
        node_network@ != subnet_path_text(network, parent@) ==> r == Err::<
            (ExecParams, MpoolPushMessage),
            ManagerError,
        >(ManagerError::WrongNetwork),
        node_network@ == subnet_path_text(network, parent@) ==> (r matches Ok((exec, m)) && {
            &&& exec.code_cid == code_cid
            &&& exec.constructor_params == constructor_params
            &&& m.to@ == id_address_bytes(INIT_ACTOR_ID)
            &&& m.from@ == from@
            &&& m.method == INIT_EXEC_METHOD
            &&& m.value == 0
            &&& m.params@.len() == 0
        }),
{
    if !network_matches(network, parent, node_network) {
        return Err(ManagerError::WrongNetwork);
    }
    let m = MpoolPushMessage::new(id_address(INIT_ACTOR_ID), from.copy_address(), INIT_EXEC_METHOD, Vec::new());
    Ok((ExecParams { code_cid, constructor_params }, m))
}

/// The code CID listed under `name` among a node's actor code CIDs, the first
/// where the name is listed more than once.
pub fn actor_code_cid(code_cids: &Vec<(String, ContentId)>, name: &String) -> (r: Result<ContentId, ManagerError>)
    ensures
        match r {
            Ok(c) => exists|i: int|
                0 <= i < code_cids@.len() && (#[trigger] code_cids@[i]).0@ == name@
                    && code_cids@[i].1.bytes@ == c.bytes@ && forall|j: int|
                    0 <= j < i ==> (#[trigger] code_cids@[j]).0@ != name@,
            Err(e) => e == ManagerError::ActorCodeNotFound && forall|i: int|
                0 <= i < code_cids@.len() ==> (#[trigger] code_cids@[i]).0@ != name@,
        },
{
    let mut i: usize = 0;
    while i < code_cids.len()
        invariant
            i <= code_cids.len(),
            forall|j: int| 0 <= j < i ==> (#[trigger] code_cids@[j]).0@ != name@,
        decreases code_cids.len() - i,
    {
        if code_cids[i].0 == *name {
            let c = code_cids[i].1.copy_cid();
            assert(code_cids@[i as int].0@ == name@);
            return Ok(c);
        }
        i = i + 1;
    }
    Err(ManagerError::ActorCodeNotFound)
}

} // verus!
