//! Checkpointing: which (child, parent) subnet pairs are watched, when a child
//! epoch calls for a checkpoint, on whose behalf it is submitted, what the
//! checkpoint and its message hold, and how the supervisor of the watchers
//! reacts to configuration reloads and shutdown.
use vstd::prelude::*;

use crate::chain::{
    address_bytes_of_text, id_address, id_address_bytes, parse_addresses, CIDMap, ContentId,
    MpoolPushMessage, Network, SUBMIT_CHECKPOINT_METHOD,
};
use crate::ids::{copy_bytes, parent_of, Address, SubnetId, SubnetKey};

verus! {

/// A subnet of the agent's configuration.
#[derive(Debug)]
pub struct Subnet {
    pub id: SubnetId,
    pub accounts: Vec<Address>,
    pub jsonrpc_api_http: String,
    pub auth_token: Option<String>,
}

/// What a configured subnet denotes.
pub struct SubnetView {
    pub id: SubnetKey,
    pub accounts: Seq<Seq<u8>>,
    pub jsonrpc_api_http: Seq<char>,
    pub auth_token: Option<Seq<char>>,
}

/// The addresses of a list of accounts, in order.
pub open spec fn addresses_of(accounts: Seq<Address>) -> Seq<Seq<u8>> {
    accounts.map_values(|a: Address| a@)
}

impl View for Subnet {
    type V = SubnetView;

    open spec fn view(&self) -> SubnetView {
        SubnetView {
            id: self.id@,
            accounts: addresses_of(self.accounts@),
            jsonrpc_api_http: self.jsonrpc_api_http@,
            auth_token: match self.auth_token {
                Some(t) => Some(t@),
                None => None,
            },
        }
    }
}

/// A copy of a list of accounts.
pub fn copy_accounts(accounts: &Vec<Address>) -> (r: Vec<Address>)
    ensures
        addresses_of(r@) == addresses_of(accounts@),
{
    let mut r: Vec<Address> = Vec::new();
    let mut i: usize = 0;
    while i < accounts.len()
        invariant
            i <= accounts.len(),
            addresses_of(r@) == addresses_of(accounts@).take(i as int),
        decreases accounts.len() - i,
    {
        let ghost before = addresses_of(r@);
        let a = accounts[i].copy_address();
        r.push(a);
        assert(addresses_of(r@) =~= before.push(accounts@[i as int]@));
        assert(addresses_of(accounts@).take(i + 1) =~= addresses_of(accounts@).take(i as int).push(
            accounts@[i as int]@,
        ));
        i = i + 1;
    }
    assert(addresses_of(accounts@).take(accounts.len() as int) =~= addresses_of(accounts@));
    r
}

impl Subnet {
    /// A copy of this subnet's configuration.
    pub fn copy_subnet(&self) -> (r: Subnet)
        ensures
            r@ == self@,
    {
        Subnet {
            id: self.id.copy_id(),
            accounts: copy_accounts(&self.accounts),
            jsonrpc_api_http: self.jsonrpc_api_http.clone(),
            auth_token: match &self.auth_token {
                Some(t) => Some(t.clone()),
                None => None,
            },
        }
    }
}

/// The views of a list of configured subnets, in order.
pub open spec fn views_of(subnets: Seq<Subnet>) -> Seq<SubnetView> {
    subnets.map_values(|s: Subnet| s@)
}

/// The first configured subnet with id `id`.
pub open spec fn lookup(subnets: Seq<SubnetView>, id: SubnetKey) -> Option<SubnetView>
    decreases subnets.len(),
{
    if subnets.len() == 0 {
        None
    } else {
        match lookup(subnets.drop_last(), id) {
            Some(s) => Some(s),
            None => if subnets.last().id == id {
                Some(subnets.last())
            } else {
                None
            },
        }
    }
}

/// The (child, parent) pairs that call for checkpoints, for the subnets of `subnets`
/// taken in order and their parents looked up in `all`: a child has at least one
/// account, its parent is configured too, and a child id listed more than once
/// counts once, by its first entry.
pub open spec fn managed_pairs(subnets: Seq<SubnetView>, all: Seq<SubnetView>) -> Seq<
    (SubnetView, SubnetView),
>
    decreases subnets.len(),
{
    if subnets.len() == 0 {
        Seq::empty()
    } else {
        let rest = managed_pairs(subnets.drop_last(), all);
        let s = subnets.last();
        match parent_of(s.id) {
            Some(p) => if s.accounts.len() > 0 && lookup(subnets.drop_last(), s.id) is None
                && lookup(all, p) is Some {
                rest.push((s, lookup(all, p).unwrap()))
            } else {
                rest
            },
            None => rest,
        }
    }
}

/// No configured subnet with id `id` stands in `subnets` where `lookup` finds none.
proof fn lemma_lookup_none(subnets: Seq<SubnetView>, id: SubnetKey)
    requires
        lookup(subnets, id) is None,
    ensures
        forall|k: int| 0 <= k < subnets.len() ==> (#[trigger] subnets[k]).id != id,
    decreases subnets.len(),
{
    if subnets.len() > 0 {
        lemma_lookup_none(subnets.drop_last(), id);
        assert forall|k: int| 0 <= k < subnets.len() implies (#[trigger] subnets[k]).id != id by {
            if k < subnets.len() - 1 {
                assert(subnets[k] == subnets.drop_last()[k]);
            }
        }
    }
}

/// Each watched pair's child is one of `subnets`, and no two pairs share a child id.
proof fn lemma_managed_children(subnets: Seq<SubnetView>, all: Seq<SubnetView>)
    ensures
        forall|a: int|
            0 <= a < managed_pairs(subnets, all).len() ==> exists|k: int|
                0 <= k < subnets.len() && (#[trigger] managed_pairs(subnets, all)[a]).0.id
                    == subnets[k].id,
        forall|a: int, b: int|
            0 <= a < b < managed_pairs(subnets, all).len() ==> (#[trigger] managed_pairs(
                subnets,
                all,
            )[a]).0.id != (#[trigger] managed_pairs(subnets, all)[b]).0.id,
    decreases subnets.len(),
{
    if subnets.len() > 0 {
        let rest = subnets.drop_last();
        lemma_managed_children(rest, all);
        let pr = managed_pairs(rest, all);
        let pm = managed_pairs(subnets, all);
        let s = subnets.last();
        assert forall|a: int| 0 <= a < pm.len() implies exists|k: int|
            0 <= k < subnets.len() && (#[trigger] pm[a]).0.id == subnets[k].id by {
            if a < pr.len() {
                assert(pm[a] == pr[a]);
                let k = choose|k: int| 0 <= k < rest.len() && (#[trigger] pr[a]).0.id == rest[k].id;
                assert(subnets[k] == rest[k]);
            } else {
                assert(pm[a].0 == s);
                assert(subnets[subnets.len() - 1] == s);
            }
        }
        if pm.len() > pr.len() {
            assert(lookup(rest, s.id) is None);
            lemma_lookup_none(rest, s.id);
            assert forall|a: int, b: int| 0 <= a < b < pm.len() implies (#[trigger] pm[a]).0.id
                != (#[trigger] pm[b]).0.id by {
                assert(pm[a] == pr[a]);
                if b == pr.len() {
                    let k = choose|k: int| 0 <= k < rest.len() && (#[trigger] pr[a]).0.id == rest[k].id;
                    assert(pm[b].0 == s);
                } else {
                    assert(pm[b] == pr[b]);
                }
            }
        }
    }
}

/// Every configured child is watched at most once: no two watched pairs share
/// a child id, however often the configuration lists that id.
pub proof fn law_one_pair_per_child(subnets: Seq<SubnetView>)
    ensures
        forall|a: int, b: int|
            0 <= a < b < managed_pairs(subnets, subnets).len() ==> (#[trigger] managed_pairs(
                subnets,
                subnets,
            )[a]).0.id != (#[trigger] managed_pairs(subnets, subnets)[b]).0.id,
{
    lemma_managed_children(subnets, subnets);
}

/// The views of a list of (child, parent) pairs.
pub open spec fn pair_views(pairs: Seq<(Subnet, Subnet)>) -> Seq<(SubnetView, SubnetView)> {
    pairs.map_values(|p: (Subnet, Subnet)| (p.0@, p.1@))
}

/// A subnet found in a prefix is the one found in the whole.
proof fn lemma_lookup_prefix(subnets: Seq<SubnetView>, n: int, id: SubnetKey)
    requires
        0 <= n <= subnets.len(),
        lookup(subnets.take(n), id) is Some,
    ensures
        lookup(subnets, id) == lookup(subnets.take(n), id),
    decreases subnets.len(),
{
    if n == subnets.len() {
        assert(subnets.take(n) =~= subnets);
    } else {
        let shorter = subnets.drop_last();
        assert(shorter.take(n) =~= subnets.take(n));
        lemma_lookup_prefix(shorter, n, id);
    }
}

/// Where the first subnet with id `id` stands among the first `end` configured ones.
fn find_subnet_before(subnets: &Vec<Subnet>, id: &SubnetId, end: usize) -> (r: Option<usize>)
    requires
        end <= subnets@.len(),
    ensures
        match r {
            Some(i) => i < end && lookup(views_of(subnets@).take(end as int), id@) == Some(
                subnets@[i as int]@,
            ),
            None => lookup(views_of(subnets@).take(end as int), id@) is None,
        },
{
    let ghost all = views_of(subnets@).take(end as int);
    let mut i: usize = 0;
    assert(all.take(0) =~= Seq::<SubnetView>::empty());
    while i < end
        invariant
            i <= end,
            end <= subnets@.len(),
            all == views_of(subnets@).take(end as int),
            lookup(all.take(i as int), id@) is None,
        decreases end - i,
    {
        proof {
            assert(all.take(i + 1).drop_last() =~= all.take(i as int));
            assert(all.take(i + 1).last() == subnets@[i as int]@);
        }
        if subnets[i].id.same(id) {
            proof {
                lemma_lookup_prefix(all, i + 1, id@);
            }
            return Some(i);
        }
        i = i + 1;
    }
    assert(all.take(end as int) =~= all);
    None
}

/// Where the first configured subnet with id `id` stands.
pub fn find_subnet(subnets: &Vec<Subnet>, id: &SubnetId) -> (r: Option<usize>)
    ensures
        match r {
            Some(i) => i < subnets@.len() && lookup(views_of(subnets@), id@) == Some(
                subnets@[i as int]@,
            ),
            None => lookup(views_of(subnets@), id@) is None,
        },
{
    assert(views_of(subnets@).take(subnets@.len() as int) =~= views_of(subnets@));
    find_subnet_before(subnets, id, subnets.len())
}

/// The (child, parent) pairs to watch: each configured subnet, in order, that has
/// at least one account and whose parent is configured too, with that parent.
/// A subnet id configured twice is watched once, as its first entry.
pub fn subnets_to_manage(subnets: &Vec<Subnet>) -> (r: Vec<(Subnet, Subnet)>)
    ensures
        pair_views(r@) == managed_pairs(views_of(subnets@), views_of(subnets@)),
{
    let ghost all = views_of(subnets@);
    let mut r: Vec<(Subnet, Subnet)> = Vec::new();
    let mut i: usize = 0;
    while i < subnets.len()
        invariant
            i <= subnets.len(),
            all == views_of(subnets@),
            pair_views(r@) == managed_pairs(all.take(i as int), all),
        decreases subnets.len() - i,
    {
        let ghost before = pair_views(r@);
        let s = &subnets[i];
        proof {
            assert(all.take(i + 1).drop_last() =~= all.take(i as int));
            assert(all.take(i + 1).last() == s@);
        }
        let first = find_subnet_before(subnets, &s.id, i).is_none();
        proof {
            assert(views_of(subnets@).take(i as int) == all.take(i as int));
        }
        if s.accounts.len() > 0 && first {
            match s.id.parent() {
                Some(p) => match find_subnet(subnets, &p) {
                    Some(j) => {
                        r.push((s.copy_subnet(), subnets[j].copy_subnet()));
                        assert(pair_views(r@) =~= before.push((s@, subnets@[j as int]@)));
                    },
                    None => {},
                },
                None => {},
            }
        }
        i = i + 1;
    }
    assert(all.take(all.len() as int) =~= all);
    r
}

/// Why a watcher of a subnet pair stopped with an error.
#[derive(PartialEq, Eq, Structural, Clone, Copy, Debug)]
pub enum MonitorError {
    /// The subnet actor's checkpoint period is not a positive number of epochs.
    InvalidPeriod,
    /// A chain head came with no tip set.
    NoTipSet,
    /// A chain head came with more than one tip set where one was required.
    SeveralTipSets,
    /// A tip set's CID could not be read.
    BadTipSet,
    /// A validator's address could not be read.
    BadValidator,
    /// A child subnet has no subnet actor: it is a root network.
    RootSubnet,
    /// A call to a node failed.
    Rpc,
}

/// The checkpoint period read from the subnet actor, which must be positive.
pub fn check_period(period: i64) -> (r: Result<u64, MonitorError>)
    ensures
        period > 0 ==> r == Ok::<u64, MonitorError>(period as u64),
        period <= 0 ==> r == Err::<u64, MonitorError>(MonitorError::InvalidPeriod),
{
    if period > 0 {
        Ok(period as u64)
    } else {
        Err(MonitorError::InvalidPeriod)
    }
}

/// Whether child epoch `epoch` is one that a checkpoint is submitted for.
pub fn is_checkpoint_epoch(epoch: u64, period: u64) -> (r: bool)
    requires
        period > 0,
    ensures
        r == (epoch % period == 0),
{
    epoch % period == 0
}

/// The epoch of the very first block is a checkpoint epoch, whatever the period.
pub proof fn law_epoch_zero_is_checkpoint(period: u64)
    requires
        period > 0,
    ensures
        0u64 % period == 0,
{
}

/// The tip set of a chain head, given as the CIDs of its tip sets. Where
/// `require_single` holds, more than one tip set is an error; otherwise the first is taken.
pub fn head_tip_set(cids: &Vec<CIDMap>, require_single: bool) -> (r: Result<ContentId, MonitorError>)
    ensures
        cids@.len() == 0 ==> r == Err::<ContentId, MonitorError>(MonitorError::NoTipSet),
        cids@.len() > 1 && require_single ==> r == Err::<ContentId, MonitorError>(
            MonitorError::SeveralTipSets,
        ),
        cids@.len() == 1 || (cids@.len() > 1 && !require_single) ==> match cids@[0].cid {
            Some(t) => match crate::chain::cid_bytes_of_text(t@) {
                Some(b) => r matches Ok(c) && c.bytes@ == b,
                None => r == Err::<ContentId, MonitorError>(MonitorError::BadTipSet),
            },
            None => r == Err::<ContentId, MonitorError>(MonitorError::BadTipSet),
        },
{
    if cids.len() == 0 {
        return Err(MonitorError::NoTipSet);
    }
    if cids.len() > 1 && require_single {
        return Err(MonitorError::SeveralTipSets);
    }
    match cids[0].to_content_id() {
        Ok(c) => Ok(c),
        Err(_) => Err(MonitorError::BadTipSet),
    }
}

/// Whether an address is among `set`.
pub fn contains_address(set: &Vec<Address>, a: &Address) -> (r: bool)
    ensures
        r == addresses_of(set@).contains(a@),
{
    let mut i: usize = 0;
    while i < set.len()
        invariant
            i <= set.len(),
            forall|j: int| 0 <= j < i ==> (#[trigger] set@[j])@ != a@,
        decreases set.len() - i,
    {
        if set[i].same(a) {
            assert(addresses_of(set@)[i as int] == a@);
            return true;
        }
        i = i + 1;
    }
    proof {
        if addresses_of(set@).contains(a@) {
            let j = choose|j: int| 0 <= j < addresses_of(set@).len() && addresses_of(set@)[j] == a@;
            assert(set@[j]@ == a@);
        }
    }
    false
}

/// The accounts of `accounts`, in order, that are in the validator set `validators`.
pub open spec fn validating(accounts: Seq<Seq<u8>>, validators: Seq<Seq<u8>>) -> Seq<Seq<u8>>
    decreases accounts.len(),
{
    if accounts.len() == 0 {
        Seq::empty()
    } else {
        let rest = validating(accounts.drop_last(), validators);
        if validators.contains(accounts.last()) {
            rest.push(accounts.last())
        } else {
            rest
        }
    }
}

/// The local accounts that a checkpoint for child epoch `epoch` is submitted on
/// behalf of: on a checkpoint epoch, each account of the child subnet that is in
/// the validator set, in the order of the configuration; on any other epoch, none.
pub fn accounts_to_submit(epoch: u64, period: u64, accounts: &Vec<Address>, validators: &Vec<Address>) -> (r: Vec<Address>)
    requires
        period > 0,
    ensures
        epoch % period == 0 ==> addresses_of(r@) == validating(addresses_of(accounts@), addresses_of(validators@)),
        epoch % period != 0 ==> r@.len() == 0,
{
    let mut r: Vec<Address> = Vec::new();
    if !is_checkpoint_epoch(epoch, period) {
        return r;
    }
    let ghost acc = addresses_of(accounts@);
    let ghost vals = addresses_of(validators@);
    let mut i: usize = 0;
    while i < accounts.len()
        invariant
            i <= accounts.len(),
            acc == addresses_of(accounts@),
            vals == addresses_of(validators@),
            addresses_of(r@) == validating(acc.take(i as int), vals),
        decreases accounts.len() - i,
    {
        let ghost before = addresses_of(r@);
        proof {
            assert(acc.take(i + 1).drop_last() =~= acc.take(i as int));
            assert(acc.take(i + 1).last() == accounts@[i as int]@);
        }
        if contains_address(validators, &accounts[i]) {
            r.push(accounts[i].copy_address());
            assert(addresses_of(r@) =~= before.push(accounts@[i as int]@));
        }
        i = i + 1;
    }
    assert(acc.take(acc.len() as int) =~= acc);
    r
}

/// Whether every text of `texts` is an address on `network`.
pub open spec fn all_parse(network: Network, texts: Seq<String>) -> bool {
    forall|i: int| 0 <= i < texts.len() ==> (#[trigger] address_bytes_of_text(network, texts[i]@)) is Some
}

/// The addresses the texts of `texts` write on `network`.
pub open spec fn parsed(network: Network, texts: Seq<String>) -> Seq<Seq<u8>> {
    Seq::new(texts.len(), |i: int| address_bytes_of_text(network, texts[i]@).unwrap())
}

/// Where the watcher of a (child, parent) pair stands.
#[derive(PartialEq, Eq, Structural, Clone, Copy, Debug)]
pub enum MonitorPhase {
    /// The checkpoint period is not known yet.
    Bootstrapping,
    /// Child heads are read every period of the chain-head poll, and checked
    /// against the checkpoint period.
    Watching { period: u64 },
    /// The watcher has returned.
    Terminated,
}

/// The watcher of one (child, parent) pair. It reads the checkpoint period from
/// the parent once, then on every child head decides whether a checkpoint is
/// due, and on whose behalf.
pub struct Monitor {
    child: Subnet,
    parent: Subnet,
    phase: MonitorPhase,
}

impl Monitor {
    /// The child subnet watched.
    pub closed spec fn child_view(&self) -> SubnetView {
        self.child@
    }

    /// The parent the checkpoints go to.
    pub closed spec fn parent_view(&self) -> SubnetView {
        self.parent@
    }

    /// Where the watcher stands.
    pub closed spec fn phase_of(&self) -> MonitorPhase {
        self.phase
    }

    /// A watcher only watches with a positive period.
    pub open spec fn wf(&self) -> bool {
        self.phase_of() matches MonitorPhase::Watching { period } ==> period > 0
    }

    /// A watcher of `child` submitting to `parent`, before the period is known.
    pub fn new(child: Subnet, parent: Subnet) -> (r: Monitor)
        ensures
            r.child_view() == child@,
            r.parent_view() == parent@,
            r.phase_of() == MonitorPhase::Bootstrapping,
            r.wf(),
    {
        Monitor { child, parent, phase: MonitorPhase::Bootstrapping }
    }

    /// The child subnet watched.
    pub fn child(&self) -> (r: &Subnet)
        ensures
            r@ == self.child_view(),
    {
        &self.child
    }

    /// The parent the checkpoints go to.
    pub fn parent(&self) -> (r: &Subnet)
        ensures
            r@ == self.parent_view(),
    {
        &self.parent
    }

    /// Where the watcher stands.
    pub fn phase(&self) -> (r: MonitorPhase)
        ensures
            r == self.phase_of(),
    {
        self.phase
    }

    /// The subnet actor's checkpoint period was read: the watcher starts
    /// watching, or stops with `InvalidPeriod` where the period is not positive.
    pub fn on_period(&mut self, period: i64) -> (r: Result<(), MonitorError>)
        requires
            old(self).phase_of() == MonitorPhase::Bootstrapping,
        ensures
            final(self).wf(),
            final(self).child_view() == old(self).child_view(),
            final(self).parent_view() == old(self).parent_view(),
            period > 0 ==> r is Ok && final(self).phase_of() == (MonitorPhase::Watching {
                period: period as u64,
            }),
            period <= 0 ==> r == Err::<(), MonitorError>(MonitorError::InvalidPeriod)
                && final(self).phase_of() == MonitorPhase::Terminated,
    {
        match check_period(period) {
            Ok(p) => {
                self.phase = MonitorPhase::Watching { period: p };
                Ok(())
            },
            Err(e) => {
                self.phase = MonitorPhase::Terminated;
                Err(e)
            },
        }
    }

    /// Whether the child head at `height` calls for a checkpoint.
    pub fn on_child_head(&self, height: u64) -> (r: bool)
        requires
            self.wf(),
            self.phase_of() matches MonitorPhase::Watching { .. },
        ensures
            self.phase_of() matches MonitorPhase::Watching { period } && r == (height % period == 0),
    {
        match self.phase {
            MonitorPhase::Watching { period } => is_checkpoint_epoch(height, period),
            _ => false,
        }
    }

    /// The parent's validator set was read, as address texts on `network`, for
    /// checkpoint epoch `epoch`: the child's accounts that a checkpoint is
    /// submitted for, in the order of the configuration. An unreadable address
    /// stops the watcher with `BadValidator`.
    pub fn on_validators(&mut self, epoch: u64, network: Network, validators: &Vec<String>) -> (r: Result<Vec<Address>, MonitorError>)
        requires
            old(self).wf(),
            old(self).phase_of() matches MonitorPhase::Watching { period } && epoch % period == 0,
        ensures
            final(self).wf(),
            final(self).child_view() == old(self).child_view(),
            final(self).parent_view() == old(self).parent_view(),
            all_parse(network, validators@) ==> (r matches Ok(accounts) && addresses_of(accounts@)
                == validating(old(self).child_view().accounts, parsed(network, validators@))
                && final(self).phase_of() == old(self).phase_of()),
            !all_parse(network, validators@) ==> r == Err::<Vec<Address>, MonitorError>(
                MonitorError::BadValidator,
            ) && final(self).phase_of() == MonitorPhase::Terminated,
    {
        let period = match self.phase {
            MonitorPhase::Watching { period } => period,
            _ => 1,
        };
        match parse_addresses(network, validators) {
            Ok(vals) => {
                let accounts = accounts_to_submit(epoch, period, &self.child.accounts, &vals);
                assert forall|i: int| 0 <= i < validators@.len() implies (#[trigger] address_bytes_of_text(
                    network,
                    validators@[i]@,
                )) is Some by {
                    assert(address_bytes_of_text(network, validators@[i]@) == Some(vals@[i]@));
                }
                assert(addresses_of(vals@) =~= parsed(network, validators@));
                Ok(accounts)
            },
            Err(_) => {
                self.phase = MonitorPhase::Terminated;
                Err(MonitorError::BadValidator)
            },
        }
    }

    /// A step of the watcher failed: it stops with that error.
    pub fn on_failure(&mut self, e: MonitorError) -> (r: MonitorError)
        ensures
            r == e,
            final(self).wf(),
            final(self).phase_of() == MonitorPhase::Terminated,
            final(self).child_view() == old(self).child_view(),
            final(self).parent_view() == old(self).parent_view(),
    {
        self.phase = MonitorPhase::Terminated;
        e
    }

    /// Cancellation was signalled: the watcher returns cleanly.
    pub fn on_cancel(&mut self)
        ensures
            final(self).wf(),
            final(self).phase_of() == MonitorPhase::Terminated,
            final(self).child_view() == old(self).child_view(),
            final(self).parent_view() == old(self).parent_view(),
    {
        self.phase = MonitorPhase::Terminated;
    }
}

/// An account of the child that is in the validator set is among those a
/// checkpoint is submitted for, and every account submitted for is one of the
/// child's and a validator.
pub proof fn law_validating_accounts_submit(accounts: Seq<Seq<u8>>, validators: Seq<Seq<u8>>)
    ensures
        forall|a: Seq<u8>|
            validating(accounts, validators).contains(a) <==> (accounts.contains(a)
                && validators.contains(a)),
    decreases accounts.len(),
{
    if accounts.len() > 0 {
        let rest = accounts.drop_last();
        law_validating_accounts_submit(rest, validators);
        assert forall|a: Seq<u8>|
            validating(accounts, validators).contains(a) <==> (accounts.contains(a)
                && validators.contains(a)) by {
            crate::membership::lemma_push_contains(rest, accounts.last(), a);
            crate::membership::lemma_push_contains(
                validating(rest, validators),
                accounts.last(),
                a,
            );
            assert(accounts =~= rest.push(accounts.last()));
        }
    } else {
        assert forall|a: Seq<u8>| !validating(accounts, validators).contains(a) by {}
    }
}

/// A checkpoint of a child subnet as the gateway of its parent records it.
#[derive(Debug)]
pub struct ChildCheck {
    pub source: SubnetId,
    pub checks: Vec<ContentId>,
}

/// What a checkpoint carries.
#[derive(Debug)]
pub struct CheckData {
    pub children: Vec<ChildCheck>,
    pub prev_check: ContentId,
    pub proof: Vec<u8>,
}

/// A checkpoint of subnet `subnet_id` at epoch `epoch`.
#[derive(Debug)]
pub struct Checkpoint {
    pub subnet_id: SubnetId,
    pub epoch: u64,
    pub data: CheckData,
}

/// The checkpoint of `child` for `epoch`: the children's checkpoints of the
/// template that the child's gateway holds for that epoch, the CID of the
/// previous checkpoint that the parent holds for the child, and as proof the
/// child's tip set.
pub fn assemble_checkpoint(
    child: &SubnetId,
    epoch: u64,
    template: Checkpoint,
    prev_check: ContentId,
    child_tip_set: &ContentId,
) -> (r: Checkpoint)
    ensures
        r.subnet_id@ == child@,
        r.epoch == epoch,
        r.data.children == template.data.children,
        r.data.prev_check == prev_check,
        r.data.proof@ == child_tip_set.bytes@,
{
    Checkpoint {
        subnet_id: child.copy_id(),
        epoch,
        data: CheckData {
            children: template.data.children,
            prev_check,
            proof: copy_bytes(&child_tip_set.bytes),
        },
    }
}

/// A checkpoint submission: the message calls `SubmitCheckpoint` of the child's
/// subnet actor on the parent, from `account`; its parameters are the encoded checkpoint.
#[derive(Debug)]
pub struct Submission {
    pub message: MpoolPushMessage,
    pub checkpoint: Checkpoint,
}

/// The submission of `checkpoint` on behalf of `account`, its message parameters
/// left for the encoded checkpoint. A root network has no subnet actor: `RootSubnet`.
pub fn submission(account: &Address, checkpoint: Checkpoint) -> (r: Result<Submission, MonitorError>)
    ensures
        checkpoint.subnet_id@.1.len() == 0 ==> r == Err::<Submission, MonitorError>(MonitorError::RootSubnet),
        checkpoint.subnet_id@.1.len() > 0 ==> (r matches Ok(s) && {
            &&& s.message.to@ == id_address_bytes(checkpoint.subnet_id@.1.last())
            &&& s.message.from@ == account@
            &&& s.message.method == SUBMIT_CHECKPOINT_METHOD
            &&& s.message.value == 0
            &&& s.message.params@.len() == 0
            &&& s.checkpoint == checkpoint
        }),
{
    match checkpoint.subnet_id.subnet_actor() {
        None => Err(MonitorError::RootSubnet),
        Some(actor) => {
            let message = MpoolPushMessage::new(
                id_address(actor),
                account.copy_address(),
                SUBMIT_CHECKPOINT_METHOD,
                Vec::new(),
            );
            Ok(Submission { message, checkpoint })
        },
    }
}

/// The outcome of the watchers: the first error among them, or success.
pub fn join_results(results: &Vec<Result<(), MonitorError>>) -> (r: Result<(), MonitorError>)
    ensures
        r is Ok <==> forall|i: int| 0 <= i < results@.len() ==> (#[trigger] results@[i]) is Ok,
        r matches Err(e) ==> exists|i: int|
            0 <= i < results@.len() && results@[i] == Err::<(), MonitorError>(e) && forall|j: int|
                0 <= j < i ==> (#[trigger] results@[j]) is Ok,
{
    let mut i: usize = 0;
    while i < results.len()
        invariant
            i <= results.len(),
            forall|j: int| 0 <= j < i ==> (#[trigger] results@[j]) is Ok,
        decreases results.len() - i,
    {
        match results[i] {
            Ok(()) => {},
            Err(e) => {
                assert(results@[i as int] == Err::<(), MonitorError>(e));
                return Err(e);
            },
        }
        i = i + 1;
    }
    Ok(())
}

/// What woke the supervisor while its watchers ran.
#[derive(PartialEq, Eq, Structural, Clone, Copy, Debug)]
pub enum SupervisorEvent {
    /// Shutdown was requested.
    ShutdownRequested,
    /// A new configuration was loaded.
    ConfigReloaded,
    /// The stream of configurations closed.
    ConfigClosed,
}

/// What the supervisor does next. Either way the running watchers are first
/// cancelled and awaited.
#[derive(PartialEq, Eq, Structural, Clone, Copy, Debug)]
pub enum SupervisorAction {
    /// Start watchers for the pairs of the latest configuration.
    Restart,
    /// Return.
    Stop,
}

/// The supervisor of the watchers: the pairs being watched, and whether it has stopped.
pub struct Supervisor {
    watched: Vec<(Subnet, Subnet)>,
    stopped: bool,
}

impl Supervisor {
    /// The pairs being watched.
    pub closed spec fn pairs(&self) -> Seq<(SubnetView, SubnetView)> {
        pair_views(self.watched@)
    }

    /// Whether the supervisor has stopped.
    pub closed spec fn is_stopped(&self) -> bool {
        self.stopped
    }

    /// A supervisor watching the pairs of configuration `subnets`.
    pub fn start(subnets: &Vec<Subnet>) -> (r: Supervisor)
        ensures
            r.pairs() == managed_pairs(views_of(subnets@), views_of(subnets@)),
            !r.is_stopped(),
    {
        Supervisor { watched: subnets_to_manage(subnets), stopped: false }
    }

    /// The pairs being watched.
    pub fn watched(&self) -> (r: &Vec<(Subnet, Subnet)>)
        ensures
            pair_views(r@) == self.pairs(),
    {
        &self.watched
    }

    /// Whether the supervisor has stopped.
    pub fn stopped(&self) -> (r: bool)
        ensures
            r == self.is_stopped(),
    {
        self.stopped
    }

    /// React to `event`, `subnets` being the latest configuration. A reload
    /// replaces the watched pairs with those of the new configuration; a
    /// shutdown request or the end of the configuration stream stops the supervisor.
    pub fn on_event(&mut self, event: SupervisorEvent, subnets: &Vec<Subnet>) -> (r: SupervisorAction)
        requires
            !old(self).is_stopped(),
        ensures
            event == SupervisorEvent::ConfigReloaded ==> {
                &&& r == SupervisorAction::Restart
                &&& final(self).pairs() == managed_pairs(views_of(subnets@), views_of(subnets@))
                &&& !final(self).is_stopped()
            },
            event != SupervisorEvent::ConfigReloaded ==> {
                &&& r == SupervisorAction::Stop
                &&& final(self).pairs().len() == 0
                &&& final(self).is_stopped()
            },
    {
        match event {
            SupervisorEvent::ConfigReloaded => {
                self.watched = subnets_to_manage(subnets);
                SupervisorAction::Restart
            },
            _ => {
                self.watched = Vec::new();
                self.stopped = true;
                assert(pair_views(self.watched@).len() == 0);
                SupervisorAction::Stop
            },
        }
    }
}

} // verus!
