//! Values exchanged with a chain node: content identifiers and their wire form,
//! account addresses in text, and the messages pushed to the message pool.
use vstd::prelude::*;

use crate::ids::{copy_bytes, Address, SubnetId, SubnetKey};

verus! {

/// Method number of the subnet actor's `Join`.
pub const JOIN_METHOD: u64 = 2;

/// Method number of the subnet actor's `Leave`.
pub const LEAVE_METHOD: u64 = 3;

/// Method number of the subnet actor's `Kill`.
pub const KILL_METHOD: u64 = 4;

/// Method number of the subnet actor's `SubmitCheckpoint`.
pub const SUBMIT_CHECKPOINT_METHOD: u64 = 5;

/// The binary form of the content identifier written as `text`, where it is one.
pub uninterp spec fn cid_bytes_of_text(text: Seq<char>) -> Option<Seq<u8>>;

/// The text form of the content identifier whose binary form `bytes` begins with,
/// where they begin with one; bytes after it play no part.
pub uninterp spec fn cid_text_of_bytes(bytes: Seq<u8>) -> Option<Seq<char>>;

/// The binary form of the account address written as `text` on `network`, where it is one.
pub uninterp spec fn address_bytes_of_text(network: Network, text: Seq<char>) -> Option<Seq<u8>>;

/// The binary form of the ID address of actor `id`.
pub uninterp spec fn id_address_bytes(id: u64) -> Seq<u8>;

/// The actor id of the ID address written as `text` on `network`, where it is one.
pub uninterp spec fn actor_id_of_text(network: Network, text: Seq<char>) -> Option<u64>;

/// Relies on fvm_shared's `Network::parse_address`, which parses the text form of
/// an address of the given network, and `Address::id`, the actor id of an ID address.
#[verifier::external_body]
fn decode_actor_id(network: Network, text: &Vec<char>) -> (r: Option<u64>)
    ensures
        r == actor_id_of_text(network, text@),
{
    let net = match network {
        Network::Mainnet => fvm_shared::address::Network::Mainnet,
        Network::Testnet => fvm_shared::address::Network::Testnet,
    };
    let text: String = text.iter().collect();
    net.parse_address(&text).ok().and_then(|a| a.id().ok())
}

/// Relies on cid's `Cid::try_from(&str)`, which decodes the text form of a CID,
/// and `Cid::to_bytes`, which gives its binary form.
#[verifier::external_body]
fn decode_cid_text(text: &str) -> (r: Option<Vec<u8>>)
    ensures
        match r {
            Some(b) => cid_bytes_of_text(text@) == Some(b@),
            None => cid_bytes_of_text(text@) is None,
        },
{
    cid::Cid::try_from(text).ok().map(|c| c.to_bytes())
}

/// Relies on cid's `Cid::try_from(&[u8])`, which reads the binary form of a CID,
/// and its `Display`, which writes the text form.
#[verifier::external_body]
fn encode_cid_text(bytes: &Vec<u8>) -> (r: Option<String>)
    ensures
        match r {
            Some(t) => cid_text_of_bytes(bytes@) == Some(t@),
            None => cid_text_of_bytes(bytes@) is None,
        },
{
    cid::Cid::try_from(bytes.as_slice()).ok().map(|c| c.to_string())
}

/// Relies on fvm_shared's `Network::parse_address`, which parses the text form of
/// an address of the given network, and `Address::to_bytes`, which gives its binary form.
#[verifier::external_body]
fn decode_address_text(network: Network, text: &str) -> (r: Option<Vec<u8>>)
    ensures
        match r {
            Some(b) => address_bytes_of_text(network, text@) == Some(b@),
            None => address_bytes_of_text(network, text@) is None,
        },
{
    let net = match network {
        Network::Mainnet => fvm_shared::address::Network::Mainnet,
        Network::Testnet => fvm_shared::address::Network::Testnet,
    };
    net.parse_address(text).ok().map(|a| a.to_bytes())
}

/// Relies on fvm_shared's `Address::new_id`, the ID address of an actor, and
/// `Address::to_bytes`, its binary form.
#[verifier::external_body]
fn encode_id_address(id: u64) -> (r: Vec<u8>)
    ensures
        r@ == id_address_bytes(id),
{
    fvm_shared::address::Address::new_id(id).to_bytes()
}

/// The network whose prefix an address is written with.
#[derive(PartialEq, Eq, Structural, Clone, Copy, Debug)]
pub enum Network {
    Mainnet,
    Testnet,
}

/// Why a text could not be read as an address.
#[derive(PartialEq, Eq, Structural, Clone, Copy, Debug)]
pub enum AddressError {
    /// The text is no address of the network.
    Malformed,
}

/// Read an account address from its text form on `network`.
pub fn parse_address(network: Network, text: &str) -> (r: Result<Address, AddressError>)
    ensures
        match r {
            Ok(a) => address_bytes_of_text(network, text@) == Some(a@),
            Err(e) => e == AddressError::Malformed && address_bytes_of_text(network, text@) is None,
        },
{
    match decode_address_text(network, text) {
        Some(bytes) => Ok(Address { bytes }),
        None => Err(AddressError::Malformed),
    }
}

/// The ID address of actor `id`.
pub fn id_address(id: u64) -> (r: Address)
    ensures
        r@ == id_address_bytes(id),
{
    Address { bytes: encode_id_address(id) }
}

/// Read each address of `texts`, in order; the first that is no address fails the whole.
pub fn parse_addresses(network: Network, texts: &Vec<String>) -> (r: Result<Vec<Address>, AddressError>)
    ensures
        match r {
            Ok(v) => v@.len() == texts@.len() && forall|i: int|
                0 <= i < v@.len() ==> address_bytes_of_text(network, texts@[i]@) == Some(
                    (#[trigger] v@[i])@,
                ),
            Err(_) => exists|i: int|
                0 <= i < texts@.len() && (#[trigger] address_bytes_of_text(network, texts@[i]@))
                    is None,
        },
{
    let mut v: Vec<Address> = Vec::new();
    let mut i: usize = 0;
    while i < texts.len()
        invariant
            i <= texts.len(),
            v@.len() == i,
            forall|j: int|
                0 <= j < i ==> address_bytes_of_text(network, texts@[j]@) == Some(
                    (#[trigger] v@[j])@,
                ),
        decreases texts.len() - i,
    {
        match parse_address(network, texts[i].as_str()) {
            Ok(a) => {
                v.push(a);
            },
            Err(e) => {
                assert(address_bytes_of_text(network, texts@[i as int]@) is None);
                return Err(e);
            },
        }
        i = i + 1;
    }
    Ok(v)
}

/// The parts of `s` between slashes, in order; `s` with no slash is one part.
pub open spec fn segments(s: Seq<char>) -> Seq<Seq<char>>
    decreases s.len(),
{
    if s.len() == 0 {
        seq![Seq::empty()]
    } else {
        let rest = segments(s.drop_last());
        if s.last() == '/' {
            rest.push(Seq::empty())
        } else {
            rest.update(rest.len() - 1, rest.last().push(s.last()))
        }
    }
}

/// `segments` always holds at least one part.
proof fn lemma_segments_nonempty(s: Seq<char>)
    ensures
        segments(s).len() >= 1,
    decreases s.len(),
{
    if s.len() > 0 {
        lemma_segments_nonempty(s.drop_last());
    }
}

/// Whether every character of `s` is a decimal digit.
pub open spec fn all_digits(s: Seq<char>) -> bool {
    forall|i: int| 0 <= i < s.len() ==> '0' <= #[trigger] s[i] <= '9'
}

/// The number the decimal digits `s` write.
pub open spec fn decimal(s: Seq<char>) -> nat
    decreases s.len(),
{
    if s.len() == 0 {
        0
    } else {
        decimal(s.drop_last()) * 10 + (s.last() as nat - '0' as nat) as nat
    }
}

/// A longer prefix of digits writes a number no smaller.
proof fn lemma_decimal_grows(s: Seq<char>, j: int)
    requires
        0 <= j <= s.len(),
        all_digits(s),
    ensures
        decimal(s.take(j)) <= decimal(s),
    decreases s.len() - j,
{
    if j < s.len() {
        lemma_decimal_grows(s, j + 1);
        assert(s.take(j + 1).drop_last() =~= s.take(j));
        assert(s.take(j + 1).last() == s[j]);
    } else {
        assert(s.take(j) =~= s);
    }
}

/// The chain id a root segment `r<digits>` writes, where it is one.
pub open spec fn root_of_segment(seg: Seq<char>) -> Option<u64> {
    let digits = seg.skip(1);
    if seg.len() >= 2 && seg[0] == 'r' && all_digits(digits) && decimal(digits) <= u64::MAX {
        Some(decimal(digits) as u64)
    } else {
        None
    }
}

/// The subnet that path `s` names on `network`: `/r<chain id>` for the root,
/// then `/<ID address>` for each subnet actor down from it.
pub open spec fn subnet_of_path(network: Network, s: Seq<char>) -> Option<SubnetKey> {
    let segs = segments(s);
    if segs.len() >= 2 && segs[0].len() == 0 && root_of_segment(segs[1]) is Some && forall|i: int|
        2 <= i < segs.len() ==> (#[trigger] actor_id_of_text(network, segs[i])) is Some {
        Some(
            (
                root_of_segment(segs[1]).unwrap(),
                Seq::new(
                    (segs.len() - 2) as nat,
                    |i: int| actor_id_of_text(network, segs[i + 2]).unwrap(),
                ),
            ),
        )
    } else {
        None
    }
}

/// The parts of `text` between slashes.
fn split_path(text: &Vec<char>) -> (r: Vec<Vec<char>>)
    ensures
        r@.len() == segments(text@).len(),
        forall|i: int| 0 <= i < r@.len() ==> (#[trigger] r@[i])@ == segments(text@)[i],
{
    let mut r: Vec<Vec<char>> = Vec::new();
    r.push(Vec::new());
    let mut i: usize = 0;
    assert(text@.take(0) =~= Seq::<char>::empty());
    while i < text.len()
        invariant
            i <= text.len(),
            r@.len() == segments(text@.take(i as int)).len(),
            r@.len() >= 1,
            forall|k: int| 0 <= k < r@.len() ==> (#[trigger] r@[k])@ == segments(text@.take(i as int))[k],
        decreases text.len() - i,
    {
        let c = text[i];
        let ghost before = segments(text@.take(i as int));
        proof {
            assert(text@.take(i + 1).drop_last() =~= text@.take(i as int));
            assert(text@.take(i + 1).last() == c);
        }
        proof {
            lemma_segments_nonempty(text@.take(i as int));
        }
        let ghost before_r = r@;
        if c == '/' {
            r.push(Vec::new());
            proof {
                assert forall|k: int| 0 <= k < r@.len() implies (#[trigger] r@[k])@ == segments(
                    text@.take(i + 1),
                )[k] by {
                    if k < before_r.len() {
                        assert(r@[k] == before_r[k]);
                    }
                }
            }
        } else {
            let n = r.len();
            let mut last = r.pop().unwrap();
            last.push(c);
            r.push(last);
            proof {
                assert(last@ == before[n - 1].push(c));
                assert forall|k: int| 0 <= k < r@.len() implies (#[trigger] r@[k])@ == segments(
                    text@.take(i + 1),
                )[k] by {
                    if k < n - 1 {
                        assert(r@[k] == before_r[k]);
                    }
                }
            }
        }
        i = i + 1;
    }
    assert(text@.take(text.len() as int) =~= text@);
    r
}

/// The chain id written by the root segment `seg`.
fn parse_root(seg: &Vec<char>) -> (r: Option<u64>)
    ensures
        r == root_of_segment(seg@),
{
    if seg.len() < 2 || seg[0] != 'r' {
        return None;
    }
    let ghost digits = seg@.skip(1);
    let mut acc: u64 = 0;
    let mut j: usize = 1;
    while j < seg.len()
        invariant
            1 <= j <= seg.len(),
            seg@.len() >= 2,
            digits == seg@.skip(1),
            all_digits(digits.take(j - 1)),
            acc == decimal(digits.take(j - 1)),
        decreases seg.len() - j,
    {
        let c = seg[j];
        proof {
            assert(digits.take(j as int).drop_last() =~= digits.take(j - 1));
            assert(digits.take(j as int).last() == c);
        }
        if c < '0' || c > '9' {
            assert(!all_digits(digits)) by {
                assert(digits[j - 1] == c);
            }
            return None;
        }
        let d = (c as u32 - '0' as u32) as u64;
        if acc > (u64::MAX - d) / 10 {
            proof {
                assert(all_digits(digits.take(j as int)));
                assert(decimal(digits.take(j as int)) > u64::MAX) by (nonlinear_arith)
                    requires
                        decimal(digits.take(j as int)) == acc * 10 + d,
                        acc > (u64::MAX - d) / 10,
                        d <= 9,
                ;
                if all_digits(digits) {
                    lemma_decimal_grows(digits, j as int);
                }
            }
            return None;
        }
        assert(acc * 10 + d <= u64::MAX) by (nonlinear_arith)
            requires
                acc <= (u64::MAX - d) / 10,
                d <= 9,
        ;
        acc = acc * 10 + d;
        j = j + 1;
    }
    assert(digits.take(j - 1) =~= digits);
    Some(acc)
}

/// Read a subnet id from its path on `network`, such as `/r314/f01001`.
pub fn parse_subnet_id(network: Network, text: &Vec<char>) -> (r: Option<SubnetId>)
    ensures
        match r {
            Some(id) => subnet_of_path(network, text@) == Some(id@),
            None => subnet_of_path(network, text@) is None,
        },
{
    let segs = split_path(text);
    let ghost ss = segments(text@);
    if segs.len() < 2 || segs[0].len() != 0 {
        return None;
    }
    let root = match parse_root(&segs[1]) {
        Some(root) => root,
        None => return None,
    };
    let mut children: Vec<u64> = Vec::new();
    let mut i: usize = 2;
    while i < segs.len()
        invariant
            2 <= i <= segs.len(),
            ss == segments(text@),
            segs@.len() == ss.len(),
            forall|k: int| 0 <= k < segs@.len() ==> (#[trigger] segs@[k])@ == ss[k],
            children@.len() == i - 2,
            forall|k: int|
                2 <= k < i ==> (#[trigger] actor_id_of_text(network, ss[k])) == Some(children@[k - 2]),
        decreases segs.len() - i,
    {
        match decode_actor_id(network, &segs[i]) {
            Some(id) => {
                children.push(id);
            },
            None => {
                assert(actor_id_of_text(network, ss[i as int]) is None);
                assert(subnet_of_path(network, text@) is None) by {
                    if subnet_of_path(network, text@) is Some {
                        assert(actor_id_of_text(network, segments(text@)[i as int]) is Some);
                    }
                }
                return None;
            },
        }
        i = i + 1;
    }
    let r = SubnetId { root, children };
    assert(r@.1 =~= Seq::new(
        (ss.len() - 2) as nat,
        |k: int| actor_id_of_text(network, ss[k + 2]).unwrap(),
    ));
    Some(r)
}

/// The decimal digits.
pub open spec fn digits() -> Seq<char> {
    seq!['0', '1', '2', '3', '4', '5', '6', '7', '8', '9']
}

/// The decimal text of `n`.
pub open spec fn decimal_text(n: nat) -> Seq<char>
    decreases n,
{
    if n < 10 {
        seq![digits()[n as int]]
    } else {
        decimal_text(n / 10).push(digits()[(n % 10) as int])
    }
}

/// The letter addresses of `network` are written with.
pub open spec fn network_prefix(network: Network) -> char {
    match network {
        Network::Mainnet => 'f',
        Network::Testnet => 't',
    }
}

/// The text of the ID address of actor `id` on `network`.
pub open spec fn id_address_text(network: Network, id: u64) -> Seq<char> {
    seq![network_prefix(network), '0'] + decimal_text(id as nat)
}

/// The text of a path of subnet actors: `/<ID address>` for each.
pub open spec fn actors_text(network: Network, actors: Seq<u64>) -> Seq<char>
    decreases actors.len(),
{
    if actors.len() == 0 {
        Seq::empty()
    } else {
        actors_text(network, actors.drop_last()) + seq!['/'] + id_address_text(network, actors.last())
    }
}

/// The path text of a subnet on `network`, such as `/r314/f01001`.
pub open spec fn subnet_path_text(network: Network, k: SubnetKey) -> Seq<char> {
    seq!['/', 'r'] + decimal_text(k.0 as nat) + actors_text(network, k.1)
}

fn digit_char(d: u64) -> (c: char)
    requires
        d < 10,
    ensures
        c == digits()[d as int],
{
    if d == 0 {
        '0'
    } else if d == 1 {
        '1'
    } else if d == 2 {
        '2'
    } else if d == 3 {
        '3'
    } else if d == 4 {
        '4'
    } else if d == 5 {
        '5'
    } else if d == 6 {
        '6'
    } else if d == 7 {
        '7'
    } else if d == 8 {
        '8'
    } else {
        '9'
    }
}

/// Append the decimal text of `n`.
fn push_decimal(out: &mut Vec<char>, n: u64)
    ensures
        final(out)@ == old(out)@ + decimal_text(n as nat),
    decreases n,
{
    if n < 10 {
        out.push(digit_char(n));
        assert(final(out)@ =~= old(out)@ + decimal_text(n as nat));
    } else {
        push_decimal(out, n / 10);
        out.push(digit_char(n % 10));
        assert(final(out)@ =~= old(out)@ + decimal_text(n as nat));
    }
}

/// The path text of subnet `id` on `network`.
pub fn subnet_path(network: Network, id: &SubnetId) -> (r: Vec<char>)
    ensures
        r@ == subnet_path_text(network, id@),
{
    let mut r: Vec<char> = Vec::new();
    r.push('/');
    r.push('r');
    push_decimal(&mut r, id.root);
    let ghost head = r@;
    let prefix = match network {
        Network::Mainnet => 'f',
        Network::Testnet => 't',
    };
    let mut i: usize = 0;
    assert(id.children@.take(0) =~= Seq::<u64>::empty());
    while i < id.children.len()
        invariant
            i <= id.children.len(),
            prefix == network_prefix(network),
            head == seq!['/', 'r'] + decimal_text(id.root as nat),
            r@ == head + actors_text(network, id.children@.take(i as int)),
        decreases id.children.len() - i,
    {
        let ghost before = r@;
        r.push('/');
        r.push(prefix);
        r.push('0');
        push_decimal(&mut r, id.children[i]);
        proof {
            let t = id.children@.take(i + 1);
            assert(t.drop_last() =~= id.children@.take(i as int));
            assert(t.last() == id.children@[i as int]);
            assert(r@ =~= head + actors_text(network, t));
        }
        i = i + 1;
    }
    assert(id.children@.take(id.children.len() as int) =~= id.children@);
    assert(r@ =~= subnet_path_text(network, id@));
    r
}

/// Whether a node whose network name is `node_network` is on subnet `id` of `network`.
pub fn network_matches(network: Network, id: &SubnetId, node_network: &Vec<char>) -> (r: bool)
    ensures
        r == (node_network@ == subnet_path_text(network, id@)),
{
    let path = subnet_path(network, id);
    if path.len() != node_network.len() {
        return false;
    }
    let mut i: usize = 0;
    while i < path.len()
        invariant
            path@ == subnet_path_text(network, id@),
            path.len() == node_network.len(),
            i <= path.len(),
            forall|j: int| 0 <= j < i ==> path@[j] == node_network@[j],
        decreases path.len() - i,
    {
        if path[i] != node_network[i] {
            assert(path@[i as int] != node_network@[i as int]);
            assert(path@ != node_network@);
            return false;
        }
        i = i + 1;
    }
    assert(path@ =~= node_network@);
    true
}

/// A content identifier, in its binary form.
#[derive(Clone, Debug)]
pub struct ContentId {
    pub bytes: Vec<u8>,
}

impl ContentId {
    /// A copy of this identifier.
    pub fn copy_cid(&self) -> (r: ContentId)
        ensures
            r.bytes@ == self.bytes@,
    {
        ContentId { bytes: copy_bytes(&self.bytes) }
    }
}

/// Why a CID could not be had from its wire form.
#[derive(PartialEq, Eq, Structural, Clone, Copy, Debug)]
pub enum CidError {
    /// The wire form holds no CID.
    NotFound,
    /// The text is no CID.
    Malformed,
}

/// A CID in the form a node exchanges it: `{"/": "<cid>"}`, with no text for no CID.
#[derive(Debug)]
pub struct CIDMap {
    pub cid: Option<String>,
}

impl CIDMap {
    /// The wire form of a CID: its text form, or no text where the bytes are no CID.
    pub fn from_content_id(c: &ContentId) -> (r: CIDMap)
        ensures
            match r.cid {
                Some(t) => cid_text_of_bytes(c.bytes@) == Some(t@),
                None => cid_text_of_bytes(c.bytes@) is None,
            },
    {
        CIDMap { cid: encode_cid_text(&c.bytes) }
    }

    /// The wire form of an optional CID; `None` gives the form with no text.
    pub fn from_optional(c: &Option<ContentId>) -> (r: CIDMap)
        ensures
            match c {
                Some(c) => match r.cid {
                    Some(t) => cid_text_of_bytes(c.bytes@) == Some(t@),
                    None => cid_text_of_bytes(c.bytes@) is None,
                },
                None => r.cid is None,
            },
    {
        match c {
            Some(c) => CIDMap::from_content_id(c),
            None => CIDMap { cid: None },
        }
    }

    /// The CID this wire form holds: `NotFound` where it holds no text,
    /// `Malformed` where the text is no CID.
    pub fn to_content_id(&self) -> (r: Result<ContentId, CidError>)
        ensures
            match self.cid {
                None => r == Err::<ContentId, CidError>(CidError::NotFound),
                Some(t) => match cid_bytes_of_text(t@) {
                    None => r == Err::<ContentId, CidError>(CidError::Malformed),
                    Some(b) => r matches Ok(c) && c.bytes@ == b,
                },
            },
    {
        match &self.cid {
            None => Err(CidError::NotFound),
            Some(t) => match decode_cid_text(t.as_str()) {
                None => Err(CidError::Malformed),
                Some(bytes) => Ok(ContentId { bytes }),
            },
        }
    }
}

/// Parameters of the init actor's `Exec`: the code to instantiate and the
/// encoded parameters of its constructor.
#[derive(Debug)]
pub struct ExecParams {
    pub code_cid: ContentId,
    pub constructor_params: Vec<u8>,
}

/// Parameters of installing an actor's code.
#[derive(Debug)]
pub struct InstallActorParams {
    pub code: Vec<u8>,
}

/// A message to push to a node's message pool. Fields left `None` are filled
/// in by the node.
#[derive(Debug)]
pub struct MpoolPushMessage {
    pub to: Address,
    pub from: Address,
    pub value: u64,
    pub method: u64,
    pub params: Vec<u8>,
    pub nonce: Option<u64>,
    pub gas_limit: Option<u64>,
    pub gas_fee_cap: Option<u64>,
    pub gas_premium: Option<u64>,
    pub max_fee: Option<u64>,
}

impl MpoolPushMessage {
    /// A message of no value from `from` calling `method` of `to` with `params`,
    /// its gas and nonce left to the node.
    pub fn new(to: Address, from: Address, method: u64, params: Vec<u8>) -> (r: MpoolPushMessage)
        ensures
            r.to == to,
            r.from == from,
            r.value == 0,
            r.method == method,
            r.params == params,
            r.nonce is None,
            r.gas_limit is None,
            r.gas_fee_cap is None,
            r.gas_premium is None,
            r.max_fee is None,
    {
        MpoolPushMessage {
            to,
            from,
            value: 0,
            method,
            params,
            nonce: None,
            gas_limit: None,
            gas_fee_cap: None,
            gas_premium: None,
            max_fee: None,
        }
    }
}

} // verus!
