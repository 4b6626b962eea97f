//! Identities shared by the membership and checkpointing parts: peers, subnets,
//! timestamps and account addresses.
use vstd::prelude::*;

verus! {


/// A wall-clock instant, in whole seconds since the Unix epoch.
#[derive(PartialEq, Eq, Structural, Clone, Copy, Debug, Hash)]
pub struct Timestamp(pub u64);

/// The instant `secs` seconds before `t`, or the epoch where that would fall before it.
pub open spec fn secs_before(t: u64, secs: u64) -> u64 {
    if t >= secs {
        (t - secs) as u64
    } else {
        0
    }
}

impl Timestamp {
    /// The instant `secs` seconds earlier; the epoch itself where that would fall before it.
    pub fn minus_secs(self, secs: u64) -> (r: Timestamp)
        ensures
            r.0 == secs_before(self.0, secs),
    {
        if self.0 >= secs {
            Timestamp(self.0 - secs)
        } else {
            Timestamp(0)
        }
    }
}

/// Whether two integer sequences hold the same values in the same order.
pub fn same_u64s(a: &Vec<u64>, b: &Vec<u64>) -> (r: bool)
    ensures
        r == (a@ == b@),
{
    if a.len() != b.len() {
        return false;
    }
    let mut i: usize = 0;
    while i < a.len()
        invariant
            a.len() == b.len(),
            i <= a.len(),
            forall|j: int| 0 <= j < i ==> a@[j] == b@[j],
        decreases a.len() - i,
    {
        if a[i] != b[i] {
            return false;
        }
        i = i + 1;
    }
    assert(a@ =~= b@);
    true
}

/// Whether two byte sequences are equal.
pub fn same_bytes(a: &Vec<u8>, b: &Vec<u8>) -> (r: bool)
    ensures
        r == (a@ == b@),
{
    if a.len() != b.len() {
        return false;
    }
    let mut i: usize = 0;
    while i < a.len()
        invariant
            a.len() == b.len(),
            i <= a.len(),
            forall|j: int| 0 <= j < i ==> a@[j] == b@[j],
        decreases a.len() - i,
    {
        if a[i] != b[i] {
            return false;
        }
        i = i + 1;
    }
    assert(a@ =~= b@);
    true
}

/// A copy of an integer sequence.
pub fn copy_u64s(a: &Vec<u64>) -> (r: Vec<u64>)
    ensures
        r@ == a@,
{
    let mut r: Vec<u64> = Vec::new();
    let mut i: usize = 0;
    while i < a.len()
        invariant
            i <= a.len(),
            r@ == a@.take(i as int),
        decreases a.len() - i,
    {
        r.push(a[i]);
        i = i + 1;
        assert(r@ =~= a@.take(i as int));
    }
    assert(a@.take(a.len() as int) =~= a@);
    r
}

/// A copy of a byte sequence.
pub fn copy_bytes(a: &Vec<u8>) -> (r: Vec<u8>)
    ensures
        r@ == a@,
{
    let mut r: Vec<u8> = Vec::new();
    let mut i: usize = 0;
    while i < a.len()
        invariant
            i <= a.len(),
            r@ == a@.take(i as int),
        decreases a.len() - i,
    {
        r.push(a[i]);
        i = i + 1;
        assert(r@ =~= a@.take(i as int));
    }
    assert(a@.take(a.len() as int) =~= a@);
    r
}

/// A subnet's place in the hierarchy: the chain id of the root network, then the
/// actor id of the subnet actor of each subnet on the path down from the root.
#[derive(Clone, Debug)]
pub struct SubnetId {
    pub root: u64,
    pub children: Vec<u64>,
}

/// What a subnet id denotes: the root's chain id and the path of actor ids.
pub type SubnetKey = (u64, Seq<u64>);

impl View for SubnetId {
    type V = SubnetKey;

    open spec fn view(&self) -> SubnetKey {
        (self.root, self.children@)
    }
}

/// The parent of a subnet, or `None` for a root network.
pub open spec fn parent_of(k: SubnetKey) -> Option<SubnetKey> {
    if k.1.len() == 0 {
        None
    } else {
        Some((k.0, k.1.drop_last()))
    }
}

impl SubnetId {
    /// The root network with the given chain id.
    pub fn new_root(root: u64) -> (r: SubnetId)
        ensures
            r@ == (root, Seq::<u64>::empty()),
    {
        SubnetId { root, children: Vec::new() }
    }

    /// The child of this subnet whose subnet actor has id `actor`.
    pub fn child(&self, actor: u64) -> (r: SubnetId)
        ensures
            r@ == (self.root, self.children@.push(actor)),
    {
        let mut children = copy_u64s(&self.children);
        children.push(actor);
        SubnetId { root: self.root, children }
    }

    /// Whether `self` and `other` name the same subnet.
    pub fn same(&self, other: &SubnetId) -> (r: bool)
        ensures
            r == (self@ == other@),
    {
        self.root == other.root && same_u64s(&self.children, &other.children)
    }

    /// A copy of this id.
    pub fn copy_id(&self) -> (r: SubnetId)
        ensures
            r@ == self@,
    {
        SubnetId { root: self.root, children: copy_u64s(&self.children) }
    }

    /// The parent subnet; `None` for a root network.
    pub fn parent(&self) -> (r: Option<SubnetId>)
        ensures
            match r {
                Some(p) => parent_of(self@) == Some(p@),
                None => parent_of(self@) is None,
            },
    {
        let n = self.children.len();
        if n == 0 {
            return None;
        }
        let mut children: Vec<u64> = Vec::new();
        let mut i: usize = 0;
        while i + 1 < n
            invariant
                n == self.children.len(),
                n > 0,
                i <= n - 1,
                children@ == self.children@.take(i as int),
            decreases n - i,
        {
            children.push(self.children[i]);
            i = i + 1;
            assert(children@ =~= self.children@.take(i as int));
        }
        assert(children@ =~= self.children@.drop_last());
        Some(SubnetId { root: self.root, children })
    }

    /// The actor id of the subnet actor that governs this subnet on its parent;
    /// `None` for a root network.
    pub fn subnet_actor(&self) -> (r: Option<u64>)
        ensures
            match r {
                Some(a) => self.children@.len() > 0 && a == self.children@.last(),
                None => self.children@.len() == 0,
            },
    {
        let n = self.children.len();
        if n == 0 {
            None
        } else {
            Some(self.children[n - 1])
        }
    }
}

impl PartialEq for SubnetId {
    fn eq(&self, other: &SubnetId) -> (r: bool) {
        self.same(other)
    }
}

impl vstd::std_specs::cmp::PartialEqSpecImpl for SubnetId {
    open spec fn obeys_eq_spec() -> bool {
        true
    }

    open spec fn eq_spec(&self, other: &SubnetId) -> bool {
        self@ == other@
    }
}

/// A peer of the gossip network, by the bytes of its peer id: the multihash of
/// its public identity key.
#[derive(Clone, Debug)]
pub struct PeerId {
    pub bytes: Vec<u8>,
}

/// What a peer id denotes: its bytes.
pub type PeerKey = Seq<u8>;

impl View for PeerId {
    type V = PeerKey;

    open spec fn view(&self) -> PeerKey {
        self.bytes@
    }
}

impl PeerId {
    /// Whether `self` and `other` are the same peer.
    pub fn same(&self, other: &PeerId) -> (r: bool)
        ensures
            r == (self@ == other@),
    {
        same_bytes(&self.bytes, &other.bytes)
    }

    /// A copy of this peer id.
    pub fn copy_peer(&self) -> (r: PeerId)
        ensures
            r@ == self@,
    {
        PeerId { bytes: copy_bytes(&self.bytes) }
    }
}

impl PartialEq for PeerId {
    fn eq(&self, other: &PeerId) -> (r: bool) {
        self.same(other)
    }
}

impl vstd::std_specs::cmp::PartialEqSpecImpl for PeerId {
    open spec fn obeys_eq_spec() -> bool {
        true
    }

    open spec fn eq_spec(&self, other: &PeerId) -> bool {
        self@ == other@
    }
}

/// An account address, in its binary encoding: the protocol byte, then the payload.
#[derive(Clone, Debug)]
pub struct Address {
    pub bytes: Vec<u8>,
}

impl View for Address {
    type V = Seq<u8>;

    open spec fn view(&self) -> Seq<u8> {
        self.bytes@
    }
}

impl Address {
    /// Whether `self` and `other` are the same address.
    pub fn same(&self, other: &Address) -> (r: bool)
        ensures
            r == (self@ == other@),
    {
        same_bytes(&self.bytes, &other.bytes)
    }

    /// A copy of this address.
    pub fn copy_address(&self) -> (r: Address)
        ensures
            r@ == self@,
    {
        Address { bytes: copy_bytes(&self.bytes) }
    }
}

impl PartialEq for Address {
    fn eq(&self, other: &Address) -> (r: bool) {
        self.same(other)
    }
}

impl vstd::std_specs::cmp::PartialEqSpecImpl for Address {
    open spec fn obeys_eq_spec() -> bool {
        true
    }

    open spec fn eq_spec(&self, other: &Address) -> bool {
        self@ == other@
    }
}

} // verus!
