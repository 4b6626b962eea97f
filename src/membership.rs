//! The decisions of the membership behaviour: which subnets this agent announces,
//! what a provider record received over gossip does to the cache, and what each
//! poll of the behaviour does. The gossip network, the signing of records and the
//! heartbeat timer are driven from outside: they hand their results in here.
use vstd::prelude::*;
use vstd::string::StringExecFns;

use crate::ids::{secs_before, PeerId, PeerKey, SubnetId, SubnetKey, Timestamp};
use crate::provider_cache::{
    adopts, after_add, peer_keys, distinct_keys, is_provider, key_set, kept_records, prior_subnets, CacheView,
    ProviderRecord,
    SubnetProviderCache,
};

verus! {

/// Prefix of the gossip topic that subnet memberships are published on.
pub const PUBSUB_MEMBERSHIP: &'static str = "/ipc/membership";

/// The gossip topic of the membership records of network `network_name`.
pub open spec fn membership_topic(network_name: Seq<char>) -> Seq<char> {
    PUBSUB_MEMBERSHIP@ + "/"@ + network_name
}

/// Events emitted by the membership behaviour.
#[derive(Debug)]
pub enum Event {
    /// The peer serves data from these subnets, which it did not announce before.
    AddedProvider(PeerId, Vec<SubnetId>),
    /// The peer is no longer treated as routable.
    RemovedProvider(PeerId),
    /// A record of the peer arrived before the peer was known to be routable;
    /// looking up its address would let its record in.
    SkippedProvider(PeerId),
}

/// What the driver of the behaviour is to do after a poll.
#[derive(Debug)]
pub enum PollStep {
    /// Hand this event to the application, and poll again later.
    Emit(Event),
    /// Publish the current subnet list where `publish` holds, then go on to the
    /// messages of the gossip network.
    Proceed { publish: bool },
}

/// The subnet list after `id` is added: unchanged where it is there already.
pub open spec fn with_subnet(ids: Seq<SubnetKey>, id: SubnetKey) -> Seq<SubnetKey> {
    if ids.contains(id) {
        ids
    } else {
        ids.push(id)
    }
}

/// The subnets of a list of subnet ids, in order.
pub open spec fn keys_of(ids: Seq<SubnetId>) -> Seq<SubnetKey> {
    ids.map_values(|s: SubnetId| s@)
}

/// Where subnet `s` first occurs in `ids`.
fn position_of(ids: &Vec<SubnetId>, s: &SubnetId) -> (r: Option<usize>)
    ensures
        match r {
            Some(i) => i < ids@.len() && ids@[i as int]@ == s@,
            None => !keys_of(ids@).contains(s@),
        },
        r is Some <==> keys_of(ids@).contains(s@),
{
    let mut i: usize = 0;
    while i < ids.len()
        invariant
            i <= ids.len(),
            forall|j: int| 0 <= j < i ==> (#[trigger] ids@[j])@ != s@,
        decreases ids.len() - i,
    {
        if ids[i].same(s) {
            assert(keys_of(ids@)[i as int] == s@);
            return Some(i);
        }
        i = i + 1;
    }
    proof {
        if keys_of(ids@).contains(s@) {
            let j = choose|j: int| 0 <= j < keys_of(ids@).len() && keys_of(ids@)[j] == s@;
            assert(ids@[j]@ == s@);
        }
    }
    None
}

/// The subnets of `ids` other than `s`, in order.
fn without(ids: &Vec<SubnetId>, s: &SubnetId) -> (r: Vec<SubnetId>)
    ensures
        keys_of(r@) == keys_of(ids@).filter(|k: SubnetKey| k != s@),
{
    let ghost ks = keys_of(ids@);
    let ghost keep = |k: SubnetKey| k != s@;
    let mut kept: Vec<SubnetId> = Vec::new();
    let mut i: usize = 0;
    while i < ids.len()
        invariant
            i <= ids.len(),
            ks == keys_of(ids@),
            keep == (|k: SubnetKey| k != s@),
            keys_of(kept@) == ks.take(i as int).filter(keep),
        decreases ids.len() - i,
    {
        let ghost before = keys_of(kept@);
        let x = &ids[i];
        if !x.same(s) {
            kept.push(x.copy_id());
        }
        proof {
            assert(ks.take(i + 1).drop_last() =~= ks.take(i as int));
            assert(ks.take(i + 1).last() == x@);
            assert(keep(x@) == (x@ != s@));
            reveal(Seq::filter);
            assert(ks.take(i + 1).filter(keep) == (if keep(x@) {
                ks.take(i as int).filter(keep).push(x@)
            } else {
                ks.take(i as int).filter(keep)
            }));
            if x@ != s@ {
                assert(keys_of(kept@) =~= before.push(x@));
            } else {
                assert(keys_of(kept@) =~= before);
            }
        }
        i = i + 1;
    }
    assert(ks.take(ks.len() as int) =~= ks);
    kept
}

/// What a sequence holds after a push: what it held, and the pushed value.
pub proof fn lemma_push_contains<A>(s: Seq<A>, x: A, k: A)
    ensures
        s.push(x).contains(k) <==> (s.contains(k) || k == x),
{
    if s.push(x).contains(k) {
        let j = choose|j: int| 0 <= j < s.push(x).len() && s.push(x)[j] == k;
        if j < s.len() {
            assert(s[j] == k);
        }
    }
    if s.contains(k) {
        let j = choose|j: int| 0 <= j < s.len() && s[j] == k;
        assert(s.push(x)[j] == k);
    }
    if k == x {
        assert(s.push(x)[s.len() as int] == k);
    }
}

/// The membership behaviour's state: the subnets this agent serves, the provider
/// cache, and the events not yet handed out.
pub struct Behaviour {
    outbox: Vec<Event>,
    membership_topic: String,
    subnet_ids: Vec<SubnetId>,
    provider_cache: SubnetProviderCache,
    max_provider_age: u64,
}

impl Behaviour {
    /// The behaviour's bookkeeping holds.
    pub closed spec fn wf(&self) -> bool {
        self.provider_cache.wf()
    }

    /// The subnets this agent announces, in order.
    pub closed spec fn subnets(&self) -> Seq<SubnetKey> {
        keys_of(self.subnet_ids@)
    }

    /// What the provider cache holds.
    pub closed spec fn cache(&self) -> CacheView {
        self.provider_cache@
    }

    /// The topic membership records are published on.
    pub closed spec fn topic(&self) -> Seq<char> {
        self.membership_topic@
    }

    /// Age in seconds after which a provider's record is pruned.
    pub closed spec fn max_age(&self) -> u64 {
        self.max_provider_age
    }

    /// Events waiting to be handed out, oldest first.
    pub closed spec fn pending(&self) -> Seq<Event> {
        self.outbox@
    }

    /// A behaviour for network `network_name` that serves no subnet yet and
    /// prunes records older than `max_provider_age` seconds.
    pub fn new(network_name: &str, max_provider_age: u64) -> (r: Behaviour)
        ensures
            r.wf(),
            r.topic() == membership_topic(network_name@),
            r.subnets() == Seq::<SubnetKey>::empty(),
            r.cache().routable == Set::<PeerKey>::empty(),
            r.cache().records.is_empty(),
            r.max_age() == max_provider_age,
            r.pending().len() == 0,
    {
        let topic = <String as StringExecFns>::from_str(PUBSUB_MEMBERSHIP).concat("/").concat(
            network_name,
        );
        let r = Behaviour {
            outbox: Vec::new(),
            membership_topic: topic,
            subnet_ids: Vec::new(),
            provider_cache: SubnetProviderCache::new(),
            max_provider_age,
        };
        assert(r.subnets() =~= Seq::<SubnetKey>::empty());
        r
    }

    /// The topic membership records are published on.
    pub fn membership_topic(&self) -> (r: &String)
        ensures
            r@ == self.topic(),
    {
        &self.membership_topic
    }

    /// The subnets this agent announces.
    pub fn subnet_ids(&self) -> (r: &Vec<SubnetId>)
        ensures
            keys_of(r@) == self.subnets(),
    {
        &self.subnet_ids
    }

    /// Replace the list of subnets this agent serves. The new list is always to
    /// be published, so the result is `true`.
    pub fn set_subnet_ids(&mut self, subnet_ids: Vec<SubnetId>) -> (publish: bool)
        requires
            old(self).wf(),
        ensures
            final(self).wf(),
            publish,
            final(self).subnets() == keys_of(subnet_ids@),
            final(self).cache() == old(self).cache(),
            final(self).topic() == old(self).topic(),
            final(self).max_age() == old(self).max_age(),
            final(self).pending() == old(self).pending(),
    {
        self.subnet_ids = subnet_ids;
        true
    }

    /// Add a subnet to the list this agent serves. Returns whether the list
    /// changed and so is to be published: it does not where the subnet is there already.
    pub fn add_subnet_id(&mut self, subnet_id: SubnetId) -> (publish: bool)
        requires
            old(self).wf(),
        ensures
            final(self).wf(),
            publish == !old(self).subnets().contains(subnet_id@),
            final(self).subnets() == with_subnet(old(self).subnets(), subnet_id@),
            final(self).cache() == old(self).cache(),
            final(self).topic() == old(self).topic(),
            final(self).max_age() == old(self).max_age(),
            final(self).pending() == old(self).pending(),
    {
        if position_of(&self.subnet_ids, &subnet_id).is_some() {
            return false;
        }
        let ghost ks = keys_of(self.subnet_ids@);
        self.subnet_ids.push(subnet_id);
        assert(keys_of(self.subnet_ids@) =~= ks.push(subnet_id@));
        true
    }

    /// Remove a subnet from the list this agent serves. Returns whether the
    /// list changed and so is to be published: it does not where the subnet was
    /// not there.
    pub fn remove_subnet_id(&mut self, subnet_id: SubnetId) -> (publish: bool)
        requires
            old(self).wf(),
        ensures
            final(self).wf(),
            publish == old(self).subnets().contains(subnet_id@),
            !publish ==> final(self).subnets() == old(self).subnets(),
            publish ==> final(self).subnets() == old(self).subnets().filter(
                |k: SubnetKey| k != subnet_id@,
            ),
            final(self).cache() == old(self).cache(),
            final(self).topic() == old(self).topic(),
            final(self).max_age() == old(self).max_age(),
            final(self).pending() == old(self).pending(),
    {
        if position_of(&self.subnet_ids, &subnet_id).is_none() {
            return false;
        }
        let kept = without(&self.subnet_ids, &subnet_id);
        self.subnet_ids = kept;
        true
    }

    /// Mark a peer as routable, once its address is known.
    pub fn set_routable(&mut self, peer_id: PeerId)
        requires
            old(self).wf(),
        ensures
            final(self).wf(),
            final(self).cache().routable == old(self).cache().routable.insert(peer_id@),
            final(self).cache().records == old(self).cache().records,
            final(self).subnets() == old(self).subnets(),
            final(self).topic() == old(self).topic(),
            final(self).max_age() == old(self).max_age(),
            final(self).pending() == old(self).pending(),
    {
        self.provider_cache.set_routable(peer_id)
    }

    /// Mark a peer as unroutable, once its address is forgotten.
    pub fn set_unroutable(&mut self, peer_id: &PeerId)
        requires
            old(self).wf(),
        ensures
            final(self).wf(),
            final(self).cache().routable == old(self).cache().routable.remove(peer_id@),
            final(self).cache().records == old(self).cache().records,
            final(self).subnets() == old(self).subnets(),
            final(self).topic() == old(self).topic(),
            final(self).max_age() == old(self).max_age(),
            final(self).pending() == old(self).pending(),
    {
        let _was_routable = self.provider_cache.set_unroutable(peer_id);
    }

    /// The current providers of a subnet: routable peers whose latest record lists it.
    pub fn providers_of_subnet(&self, subnet_id: &SubnetId) -> (r: Vec<PeerId>)
        requires
            self.wf(),
        ensures
            peer_keys(r@).no_duplicates(),
            forall|p: PeerKey| peer_keys(r@).contains(p) <==> is_provider(self.cache(), p, subnet_id@),
    {
        self.provider_cache.providers_of_subnet(subnet_id)
    }

    /// Handle a gossip message on `topic`, whose payload decoded and verified to
    /// `record`, or to `None` where it did not. A record on the membership topic
    /// is offered to the cache: a peer that is not routable gives
    /// `SkippedProvider`, a record that adds subnets gives `AddedProvider` with
    /// them, and anything else gives no event.
    pub fn handle_message(&mut self, topic: &String, record: Option<ProviderRecord>) -> (r: Option<
        Event,
    >)
        requires
            old(self).wf(),
        ensures
            final(self).wf(),
            final(self).subnets() == old(self).subnets(),
            final(self).topic() == old(self).topic(),
            final(self).max_age() == old(self).max_age(),
            final(self).pending() == old(self).pending(),
            (topic@ != old(self).topic() || record is None) ==> r is None && final(self).cache()
                == old(self).cache(),
            topic@ == old(self).topic() && record is Some ==> {
                let rec = record.unwrap();
                let c = old(self).cache();
                &&& final(self).cache() == after_add(c, rec.peer_id@, rec@)
                &&& !c.routable.contains(rec.peer_id@) ==> (r matches Some(Event::SkippedProvider(q)) && q@ == rec.peer_id@)
                &&& c.routable.contains(rec.peer_id@) ==> match r {
                    None => !adopts(c, rec.peer_id@, rec@.timestamp) || rec@.subnets.difference(
                        prior_subnets(c, rec.peer_id@),
                    ).is_empty(),
                    Some(Event::AddedProvider(p, ids)) => {
                        &&& p@ == rec.peer_id@
                        &&& adopts(c, rec.peer_id@, rec@.timestamp)
                        &&& ids@.len() > 0
                        &&& distinct_keys(ids@)
                        &&& key_set(ids@) == rec@.subnets.difference(prior_subnets(c, rec.peer_id@))
                    },
                    Some(_) => false,
                }
            },
    {
        if *topic != self.membership_topic {
            return None;
        }
        match record {
            None => None,
            Some(rec) => {
                let peer = rec.peer_id.copy_peer();
                match self.provider_cache.add_provider(rec) {
                    None => Some(Event::SkippedProvider(peer)),
                    Some(ids) => {
                        if ids.len() == 0 {
                            assert(key_set(ids@) =~= Set::<SubnetKey>::empty());
                            None
                        } else {
                            Some(Event::AddedProvider(peer, ids))
                        }
                    },
                }
            },
        }
    }

    /// One poll of the behaviour, `now` being the current time and `tick` whether
    /// the heartbeat timer fired. A waiting event is handed out first and nothing
    /// else is done. Otherwise, on a heartbeat, records older than the maximum
    /// age are pruned and the subnet list is to be published, both in this poll.
    pub fn poll(&mut self, tick: bool, now: Timestamp) -> (r: PollStep)
        requires
            old(self).wf(),
        ensures
            final(self).wf(),
            final(self).subnets() == old(self).subnets(),
            final(self).topic() == old(self).topic(),
            final(self).max_age() == old(self).max_age(),
            old(self).pending().len() > 0 ==> {
                &&& r matches PollStep::Emit(e) && e == old(self).pending()[0]
                &&& final(self).pending() == old(self).pending().drop_first()
                &&& final(self).cache() == old(self).cache()
            },
            old(self).pending().len() == 0 ==> {
                &&& final(self).pending().len() == 0
                &&& r == PollStep::Proceed { publish: tick }
                &&& final(self).cache().routable == old(self).cache().routable
                &&& tick ==> final(self).cache().records == kept_records(
                    old(self).cache().records,
                    secs_before(now.0, old(self).max_age()),
                )
                &&& !tick ==> final(self).cache() == old(self).cache()
            },
    {
        if self.outbox.len() > 0 {
            let ev = self.outbox.remove(0);
            assert(self.outbox@ =~= old(self).outbox@.drop_first());
            return PollStep::Emit(ev);
        }
        if tick {
            let cutoff = now.minus_secs(self.max_provider_age);
            self.provider_cache.prune_providers(cutoff);
        }
        PollStep::Proceed { publish: tick }
    }
}

/// Adding a subnet the agent does not serve yet, twice in a row, asks for one
/// publication: the first call changes the list, the second finds it there.
pub proof fn law_add_subnet_twice_publishes_once(ids: Seq<SubnetKey>, id: SubnetKey)
    requires
        !ids.contains(id),
    ensures
        with_subnet(ids, id) != ids,
        with_subnet(ids, id).contains(id),
        with_subnet(with_subnet(ids, id), id) == with_subnet(ids, id),
{
    assert(with_subnet(ids, id).len() == ids.len() + 1);
    assert(ids.push(id)[ids.len() as int] == id);
}

} // verus!
