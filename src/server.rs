//! The JSON-RPC server side: which handler serves a method, and the pool of
//! connections to the nodes of configured subnets.
use vstd::prelude::*;
use vstd::string::StringExecFns;

use crate::checkpoint::{Subnet, SubnetView};
use crate::lotus::LotusSubnetManager;

verus! {

/// Method that reloads the configuration.
pub const RELOAD_CONFIG: &'static str = "reload_config";

/// Method that creates a subnet.
pub const CREATE_SUBNET: &'static str = "create_subnet";

/// The handler that serves a method.
#[derive(PartialEq, Eq, Structural, Clone, Copy, Debug)]
pub enum HandlerKind {
    CreateSubnet,
    ReloadConfig,
}

/// Why a request could not be routed.
#[derive(PartialEq, Eq, Structural, Clone, Copy, Debug)]
pub enum HandlerError {
    /// No handler serves the method.
    MethodNotSupported,
}

impl HandlerError {
    /// The message the error is reported with.
    pub fn message(&self) -> (r: String)
        ensures
            r@ == "method not supported"@,
    {
        <String as StringExecFns>::from_str("method not supported")
    }
}

/// The handler of `method` in `table`: that of its first entry.
pub open spec fn route_in(table: Seq<(Seq<char>, HandlerKind)>, method: Seq<char>) -> Option<HandlerKind>
    decreases table.len(),
{
    if table.len() == 0 {
        None
    } else if table[0].0 == method {
        Some(table[0].1)
    } else {
        route_in(table.drop_first(), method)
    }
}

/// The handler of each method the server serves.
pub struct Handlers {
    handlers: Vec<(String, HandlerKind)>,
    config_path: String,
}

impl Handlers {
    /// The routing table: each method with its handler.
    pub closed spec fn table(&self) -> Seq<(Seq<char>, HandlerKind)> {
        self.handlers@.map_values(|e: (String, HandlerKind)| (e.0@, e.1))
    }

    /// The handler that serves `method`, if any.
    pub open spec fn route_of(&self, method: Seq<char>) -> Option<HandlerKind> {
        route_in(self.table(), method)
    }

    /// The path of the configuration file the handlers read.
    pub closed spec fn config_path_of(&self) -> Seq<char> {
        self.config_path@
    }

    /// Handlers that serve no method.
    pub fn empty_handlers() -> (r: Handlers)
        ensures
            forall|m: Seq<char>| r.route_of(m) is None,
    {
        let r = Handlers { handlers: Vec::new(), config_path: String::new() };
        assert(r.table().len() == 0);
        r
    }

    /// The server's handlers for the configuration file at `config_path_string`:
    /// `reload_config` reloads it, and `create_subnet` creates a subnet; no other
    /// method is served.
    pub fn new(config_path_string: String) -> (r: Handlers)
        ensures
            r.config_path_of() == config_path_string@,
            r.route_of(RELOAD_CONFIG@) == Some(HandlerKind::ReloadConfig),
            r.route_of(CREATE_SUBNET@) == Some(HandlerKind::CreateSubnet),
            forall|m: Seq<char>|
                m != RELOAD_CONFIG@ && m != CREATE_SUBNET@ ==> r.route_of(m) is None,
    {
        let mut handlers: Vec<(String, HandlerKind)> = Vec::new();
        handlers.push((<String as StringExecFns>::from_str(RELOAD_CONFIG), HandlerKind::ReloadConfig));
        handlers.push((<String as StringExecFns>::from_str(CREATE_SUBNET), HandlerKind::CreateSubnet));
        let r = Handlers { handlers, config_path: config_path_string };
        proof {
            reveal_strlit("reload_config");
            reveal_strlit("create_subnet");
            reveal_with_fuel(route_in, 3);
            let t = r.table();
            assert(t.drop_first().drop_first().len() == 0);
            assert(t[0] == (RELOAD_CONFIG@, HandlerKind::ReloadConfig));
            assert(t.drop_first()[0] == (CREATE_SUBNET@, HandlerKind::CreateSubnet));
            assert(RELOAD_CONFIG@ != CREATE_SUBNET@) by {
                assert(RELOAD_CONFIG@[0] != CREATE_SUBNET@[0]);
            }
        }
        r
    }

    /// The path of the configuration file the handlers read.
    pub fn config_path(&self) -> (r: &String)
        ensures
            r@ == self.config_path_of(),
    {
        &self.config_path
    }

    /// The handler that serves `method`; `MethodNotSupported` where none does.
    pub fn route(&self, method: &String) -> (r: Result<HandlerKind, HandlerError>)
        ensures
            match self.route_of(method@) {
                Some(k) => r == Ok::<HandlerKind, HandlerError>(k),
                None => r == Err::<HandlerKind, HandlerError>(HandlerError::MethodNotSupported),
            },
    {
        let ghost t = self.table();
        assert(t.skip(0) =~= t);
        let mut i: usize = 0;
        while i < self.handlers.len()
            invariant
                i <= self.handlers.len(),
                t == self.table(),
                route_in(t, method@) == route_in(t.skip(i as int), method@),
            decreases self.handlers.len() - i,
        {
            proof {
                assert(t.skip(i as int)[0] == t[i as int]);
                assert(t.skip(i as int).drop_first() =~= t.skip(i + 1));
            }
            if self.handlers[i].0 == *method {
                return Ok(self.handlers[i].1);
            }
            i = i + 1;
        }
        assert(t.skip(i as int).len() == 0);
        Err(HandlerError::MethodNotSupported)
    }
}

/// A connection to the node of a configured subnet: its configuration and its manager.
pub struct Connection<T> {
    subnet: Subnet,
    manager: LotusSubnetManager<T>,
}

impl<T> Connection<T> {
    /// The configuration of the subnet connected to.
    pub closed spec fn subnet_view(&self) -> SubnetView {
        self.subnet@
    }

    /// The manager of the subnet connected to.
    pub closed spec fn manager_of(&self) -> LotusSubnetManager<T> {
        self.manager
    }

    /// A connection to `subnet` through `manager`.
    pub fn new(subnet: Subnet, manager: LotusSubnetManager<T>) -> (r: Self)
        ensures
            r.subnet_view() == subnet@,
            r.manager_of() == manager,
    {
        Connection { subnet, manager }
    }

    /// The configuration of the subnet connected to.
    pub fn subnet(&self) -> (r: &Subnet)
        ensures
            r@ == self.subnet_view(),
    {
        &self.subnet
    }

    /// The manager of the subnet connected to.
    pub fn manager(&self) -> (r: &LotusSubnetManager<T>)
        ensures
            *r == self.manager_of(),
    {
        &self.manager
    }
}

/// Where a subnet's connection is to come from.
#[derive(PartialEq, Eq, Structural, Clone, Copy, Debug)]
pub enum PoolLookup {
    /// The pool holds it, at this place.
    Pooled(usize),
    /// The pool does not hold it; the configuration lists the subnet at this place.
    FromConfig(usize),
    /// Neither the pool nor the configuration knows the subnet.
    NotFound,
}

/// Where `name` first stands in a list of named entries.
fn first_named<V>(entries: &Vec<(String, V)>, name: &String) -> (r: Option<usize>)
    ensures
        match r {
            Some(i) => i < entries@.len() && entries@[i as int].0@ == name@ && forall|j: int|
                0 <= j < i ==> (#[trigger] entries@[j]).0@ != name@,
            None => forall|j: int| 0 <= j < entries@.len() ==> (#[trigger] entries@[j]).0@ != name@,
        },
{
    let mut i: usize = 0;
    while i < entries.len()
        invariant
            i <= entries.len(),
            forall|j: int| 0 <= j < i ==> (#[trigger] entries@[j]).0@ != name@,
        decreases entries.len() - i,
    {
        if entries[i].0 == *name {
            return Some(i);
        }
        i = i + 1;
    }
    None
}

/// `c` is the last connection that `entries` gives under name `n`.
pub open spec fn last_under<T>(entries: Seq<(String, Connection<T>)>, n: Seq<char>, c: Connection<T>) -> bool {
    exists|j: int|
        0 <= j < entries.len() && (#[trigger] entries[j]).0@ == n && entries[j].1 == c && forall|m: int|
            j < m < entries.len() ==> (#[trigger] entries[m]).0@ != n
}

/// The pool of connections to the nodes of configured subnets, by subnet name.
/// A connection is made the first time a subnet is asked for.
pub struct SubnetManagerPool<T> {
    connections: Vec<(String, Connection<T>)>,
}

impl<T> SubnetManagerPool<T> {
    /// The names of the subnets connected to, in order.
    pub closed spec fn names(&self) -> Seq<Seq<char>> {
        self.connections@.map_values(|e: (String, Connection<T>)| e.0@)
    }

    /// No subnet has two connections.
    pub closed spec fn wf(&self) -> bool {
        self.names().no_duplicates()
    }

    /// The connection to the subnet at place `i`.
    pub closed spec fn connection_at(&self, i: int) -> Connection<T> {
        self.connections@[i].1
    }

    /// An empty pool.
    pub fn new() -> (r: Self)
        ensures
            r.wf(),
            r.names().len() == 0,
    {
        let r = SubnetManagerPool { connections: Vec::new() };
        assert(r.names().len() == 0);
        r
    }

    /// A pool holding the given connections, by name; of two connections under
    /// one name the later is kept.
    pub fn from_reload_config(connections: Vec<(String, Connection<T>)>) -> (r: Self)
        ensures
            r.wf(),
            forall|n: Seq<char>|
                r.names().contains(n) <==> exists|i: int|
                    0 <= i < connections@.len() && (#[trigger] connections@[i]).0@ == n,
            forall|i: int|
                0 <= i < r.names().len() ==> #[trigger] last_under(connections@, r.names()[i], r.connection_at(i)),
    {
        let ghost all = connections@;
        let mut rest = connections;
        let mut pool = Self::new();
        assert(all.skip(0) =~= all);
        while rest.len() > 0
            invariant
                pool.wf(),
                rest@.len() <= all.len(),
                rest@ == all.skip(all.len() - rest@.len()),
                forall|n: Seq<char>|
                    pool.names().contains(n) <==> exists|i: int|
                        0 <= i < all.len() - rest@.len() && (#[trigger] all[i]).0@ == n,
                forall|i: int|
                    0 <= i < pool.names().len() ==> #[trigger] last_under(
                        all.take(all.len() - rest@.len()),
                        pool.names()[i],
                        pool.connection_at(i),
                    ),
            decreases rest@.len(),
        {
            let ghost k = all.len() - rest@.len();
            let ghost before = pool.names();
            let ghost old_pool = pool;
            let (name, conn) = rest.remove(0);
            let ghost nm = name@;
            assert(all[k].0@ == nm);
            assert(all[k].1 == conn);
            let at = pool.insert(name, conn);
            proof {
                assert(rest@ =~= all.skip(k + 1));
                assert forall|n: Seq<char>|
                    pool.names().contains(n) <==> exists|i: int|
                        0 <= i < k + 1 && (#[trigger] all[i]).0@ == n by {
                    crate::membership::lemma_push_contains(before, nm, n);
                    if exists|i: int| 0 <= i < k + 1 && (#[trigger] all[i]).0@ == n {
                        let i = choose|i: int| 0 <= i < k + 1 && (#[trigger] all[i]).0@ == n;
                        if i < k {
                            assert(before.contains(n));
                        }
                    }
                    if before.contains(n) {
                        let i = choose|i: int| 0 <= i < k && (#[trigger] all[i]).0@ == n;
                        assert(0 <= i < k + 1);
                    }
                }
                let pre = all.take(k);
                let post = all.take(k + 1);
                assert forall|i: int| 0 <= i < pool.names().len() implies #[trigger] last_under(
                    post,
                    pool.names()[i],
                    pool.connection_at(i),
                ) by {
                    if i == at {
                        assert(post[k] == all[k]);
                    } else {
                        assert(i < before.len());
                        assert(pool.names()[i] == before[i]);
                        assert(pool.connection_at(i) == old_pool.connection_at(i));
                        assert(last_under(pre, before[i], old_pool.connection_at(i)));
                        let j = choose|j: int|
                            0 <= j < pre.len() && (#[trigger] pre[j]).0@ == before[i] && pre[j].1
                                == old_pool.connection_at(i) && forall|m: int|
                                j < m < pre.len() ==> (#[trigger] pre[m]).0@ != before[i];
                        assert(post[j] == pre[j]);
                        assert(before[i] != nm);
                        assert forall|m: int| j < m < post.len() implies (#[trigger] post[m]).0@
                            != before[i] by {
                            if m < k {
                                assert(post[m] == pre[m]);
                            }
                        }
                    }
                }
            }
        }
        assert(all.take(all.len() as int) =~= all);
        pool
    }

    /// Where the connection to `name` is to come from: the pool, else the
    /// configuration `config` of named subnets, else nowhere.
    pub fn get(&self, name: &String, config: &Vec<(String, Subnet)>) -> (r: PoolLookup)
        requires
            self.wf(),
        ensures
            self.names().contains(name@) ==> (r matches PoolLookup::Pooled(i) && 0 <= i
                < self.names().len() && self.names()[i as int] == name@),
            !self.names().contains(name@) ==> match r {
                PoolLookup::FromConfig(j) => j < config@.len() && config@[j as int].0@ == name@
                    && forall|k: int| 0 <= k < j ==> (#[trigger] config@[k]).0@ != name@,
                PoolLookup::NotFound => forall|k: int|
                    0 <= k < config@.len() ==> (#[trigger] config@[k]).0@ != name@,
                PoolLookup::Pooled(_) => false,
            },
    {
        match first_named(&self.connections, name) {
            Some(i) => {
                assert(self.names()[i as int] == name@);
                PoolLookup::Pooled(i)
            },
            None => {
                proof {
                    if self.names().contains(name@) {
                        let k = choose|k: int| 0 <= k < self.names().len() && self.names()[k] == name@;
                        assert(self.connections@[k].0@ == name@);
                    }
                }
                match first_named(config, name) {
                    Some(j) => PoolLookup::FromConfig(j),
                    None => PoolLookup::NotFound,
                }
            },
        }
    }

    /// The connection at place `i` of the pool.
    pub fn connection(&self, i: usize) -> (r: &Connection<T>)
        requires
            i < self.names().len(),
        ensures
            *r == self.connection_at(i as int),
    {
        &self.connections[i].1
    }

    /// Add the connection to subnet `name`, replacing the one the pool held for it.
    /// Returns where it now stands.
    pub fn insert(&mut self, name: String, conn: Connection<T>) -> (r: usize)
        requires
            old(self).wf(),
        ensures
            final(self).wf(),
            r < final(self).names().len(),
            final(self).names()[r as int] == name@,
            final(self).connection_at(r as int) == conn,
            old(self).names().contains(name@) ==> final(self).names() == old(self).names(),
            !old(self).names().contains(name@) ==> final(self).names() == old(self).names().push(name@),
            forall|i: int|
                0 <= i < old(self).names().len() && i != r ==> #[trigger] final(self).connection_at(i)
                    == old(self).connection_at(i),
    {
        let ghost before = self.names();
        match first_named(&self.connections, &name) {
            Some(i) => {
                let ghost nm = name@;
                assert(before[i as int] == nm);
                self.connections.set(i, (name, conn));
                assert(self.names() =~= before);
                i
            },
            None => {
                proof {
                    if before.contains(name@) {
                        let k = choose|k: int| 0 <= k < before.len() && before[k] == name@;
                        assert(old(self).connections@[k].0@ == name@);
                    }
                }
                let n = self.connections.len();
                let ghost nm = name@;
                self.connections.push((name, conn));
                assert(self.names() =~= before.push(nm));
                n
            },
        }
    }
}

} // verus!
