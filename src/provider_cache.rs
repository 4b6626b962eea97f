//! The cache of subnet providers: the latest record of each peer, which peers
//! are routable, and from both, which peers serve a subnet.
use vstd::prelude::*;

use crate::ids::{PeerId, PeerKey, SubnetId, SubnetKey, Timestamp};

verus! {

/// A peer's announcement that it serves a set of subnets, as of a timestamp.
#[derive(Debug)]
pub struct ProviderRecord {
    pub peer_id: PeerId,
    pub subnet_ids: Vec<SubnetId>,
    pub timestamp: Timestamp,
}

/// What the cache knows of one peer's record.
pub struct RecordView {
    pub subnets: Set<SubnetKey>,
    pub timestamp: u64,
}

/// The subnets a list of subnet ids denotes.
pub open spec fn key_set(ids: Seq<SubnetId>) -> Set<SubnetKey> {
    Set::new(|k: SubnetKey| exists|i: int| 0 <= i < ids.len() && (#[trigger] ids[i])@ == k)
}

impl View for ProviderRecord {
    type V = RecordView;

    open spec fn view(&self) -> RecordView {
        RecordView { subnets: key_set(self.subnet_ids@), timestamp: self.timestamp.0 }
    }
}

/// No subnet occurs twice in the list.
pub open spec fn distinct_keys(ids: Seq<SubnetId>) -> bool {
    forall|i: int, j: int| 0 <= i < j < ids.len() ==> (#[trigger] ids[i])@ != (#[trigger] ids[j])@
}

/// Whether a subnet occurs in a list of subnet ids.
pub fn contains_subnet(ids: &Vec<SubnetId>, s: &SubnetId) -> (r: bool)
    ensures
        r == key_set(ids@).contains(s@),
{
    let mut i: usize = 0;
    while i < ids.len()
        invariant
            i <= ids.len(),
            forall|j: int| 0 <= j < i ==> (#[trigger] ids@[j])@ != s@,
        decreases ids.len() - i,
    {
        if ids[i].same(s) {
            return true;
        }
        i = i + 1;
    }
    false
}

/// The subnets of `new` that `prior` does not hold, each once, in the order of `new`.
pub fn new_subnets(new: &Vec<SubnetId>, prior: &Vec<SubnetId>) -> (r: Vec<SubnetId>)
    ensures
        key_set(r@) == key_set(new@).difference(key_set(prior@)),
        distinct_keys(r@),
{
    let mut r: Vec<SubnetId> = Vec::new();
    let mut i: usize = 0;
    while i < new.len()
        invariant
            i <= new.len(),
            distinct_keys(r@),
            forall|k: SubnetKey|
                key_set(r@).contains(k) <==> (key_set(new@.take(i as int)).contains(k)
                    && !key_set(prior@).contains(k)),
        decreases new.len() - i,
    {
        let s = &new[i];
        let fresh = !contains_subnet(prior, s) && !contains_subnet(&r, s);
        let ghost old_r = r@;
        if fresh {
            r.push(s.copy_id());
        }
        assert forall|k: SubnetKey|
            key_set(r@).contains(k) <==> (key_set(new@.take(i + 1)).contains(k) && !key_set(
                prior@,
            ).contains(k)) by {
            if key_set(new@.take(i + 1)).contains(k) {
                let j = choose|j: int| 0 <= j < i + 1 && (#[trigger] new@.take(i + 1)[j])@ == k;
                if j < i {
                    assert(new@.take(i as int)[j] == new@.take(i + 1)[j]);
                }
            }
            if key_set(new@.take(i as int)).contains(k) {
                let j = choose|j: int| 0 <= j < i && (#[trigger] new@.take(i as int)[j])@ == k;
                assert(new@.take(i + 1)[j] == new@.take(i as int)[j]);
            }
            if key_set(r@).contains(k) {
                let j = choose|j: int| 0 <= j < r@.len() && (#[trigger] r@[j])@ == k;
                if j < old_r.len() {
                    assert(old_r[j] == r@[j]);
                }
            }
            if key_set(old_r).contains(k) {
                let j = choose|j: int| 0 <= j < old_r.len() && (#[trigger] old_r[j])@ == k;
                assert(old_r[j] == r@[j]);
            }
            assert(new@.take(i + 1)[i as int] == new@[i as int]);
            if fresh {
                assert(r@[old_r.len() as int]@ == new@[i as int]@);
            }
        }
        i = i + 1;
    }
    assert(new@.take(new.len() as int) =~= new@);
    assert(key_set(r@) =~= key_set(new@).difference(key_set(prior@)));
    r
}

/// The peers that are routable, and the latest record of each peer.
pub struct CacheView {
    pub routable: Set<PeerKey>,
    pub records: Map<PeerKey, RecordView>,
}

/// The record of each peer that has one in `recs`.
pub open spec fn record_map(recs: Seq<ProviderRecord>) -> Map<PeerKey, RecordView> {
    Map::new(
        |p: PeerKey| exists|i: int| 0 <= i < recs.len() && (#[trigger] recs[i]).peer_id@ == p,
        |p: PeerKey|
            recs[choose|i: int| 0 <= i < recs.len() && (#[trigger] recs[i]).peer_id@ == p]@,
    )
}

/// No peer has two records.
pub open spec fn distinct_peers(recs: Seq<ProviderRecord>) -> bool {
    forall|i: int, j: int|
        0 <= i < j < recs.len() ==> (#[trigger] recs[i]).peer_id@ != (#[trigger] recs[j]).peer_id@
}

/// Under distinct peers, the map holds each record of the sequence under its peer.
proof fn lemma_record_at(recs: Seq<ProviderRecord>, i: int)
    requires
        distinct_peers(recs),
        0 <= i < recs.len(),
    ensures
        record_map(recs).contains_key(recs[i].peer_id@),
        record_map(recs)[recs[i].peer_id@] == recs[i]@,
{
    let p = recs[i].peer_id@;
    assert(exists|j: int| 0 <= j < recs.len() && (#[trigger] recs[j]).peer_id@ == p) by {
        assert(recs[i].peer_id@ == p);
    }
    let j = choose|j: int| 0 <= j < recs.len() && (#[trigger] recs[j]).peer_id@ == p;
    if j != i {
        if j < i {
            assert(recs[j].peer_id@ != recs[i].peer_id@);
        } else {
            assert(recs[i].peer_id@ != recs[j].peer_id@);
        }
    }
}

/// A cache of subnet providers.
///
/// Only routable peers are ever reported as providers; a record of a peer that
/// is not routable is refused, and a peer that stops being routable keeps its
/// record but is no longer reported.
pub struct SubnetProviderCache {
    routable: Vec<PeerId>,
    records: Vec<ProviderRecord>,
}

impl View for SubnetProviderCache {
    type V = CacheView;

    closed spec fn view(&self) -> CacheView {
        CacheView {
            routable: Set::new(|p: PeerKey| peer_keys(self.routable@).contains(p)),
            records: record_map(self.records@),
        }
    }
}

/// Whether `p` is among the providers of subnet `s`: it is routable and its latest record lists `s`.
pub open spec fn is_provider(c: CacheView, p: PeerKey, s: SubnetKey) -> bool {
    &&& c.routable.contains(p)
    &&& c.records.contains_key(p)
    &&& c.records[p].subnets.contains(s)
}

/// Whether a record of `peer` stamped `timestamp` is adopted into `c`: the peer is
/// routable, and the record is its first or strictly newer than the one held.
pub open spec fn adopts(c: CacheView, peer: PeerKey, timestamp: u64) -> bool {
    &&& c.routable.contains(peer)
    &&& (!c.records.contains_key(peer) || c.records[peer].timestamp < timestamp)
}

/// The subnets of the record held for `peer`; none where it has no record.
pub open spec fn prior_subnets(c: CacheView, peer: PeerKey) -> Set<SubnetKey> {
    if c.records.contains_key(peer) {
        c.records[peer].subnets
    } else {
        Set::empty()
    }
}

/// The records of `m` whose timestamp is at least `cutoff`.
pub open spec fn kept_records(m: Map<PeerKey, RecordView>, cutoff: u64) -> Map<PeerKey, RecordView> {
    Map::new(|p: PeerKey| m.contains_key(p) && m[p].timestamp >= cutoff, |p: PeerKey| m[p])
}

/// The cache after a record of `peer` is offered to it.
pub open spec fn after_add(c: CacheView, peer: PeerKey, rec: RecordView) -> CacheView {
    if adopts(c, peer, rec.timestamp) {
        CacheView { routable: c.routable, records: c.records.insert(peer, rec) }
    } else {
        c
    }
}

/// The cache after `peer` is marked routable.
pub open spec fn with_routable(c: CacheView, peer: PeerKey) -> CacheView {
    CacheView { routable: c.routable.insert(peer), records: c.records }
}

/// The cache after `peer` is marked unroutable.
pub open spec fn without_routable(c: CacheView, peer: PeerKey) -> CacheView {
    CacheView { routable: c.routable.remove(peer), records: c.records }
}

/// The cache after each record of `recs`, all of `peer`, is offered in turn.
pub open spec fn after_adds(c: CacheView, peer: PeerKey, recs: Seq<RecordView>) -> CacheView
    decreases recs.len(),
{
    if recs.len() == 0 {
        c
    } else {
        after_add(after_adds(c, peer, recs.drop_last()), peer, recs.last())
    }
}

/// The largest timestamp among `recs`, and `start`.
pub open spec fn latest_timestamp(start: u64, recs: Seq<RecordView>) -> u64
    decreases recs.len(),
{
    if recs.len() == 0 {
        start
    } else {
        let t = latest_timestamp(start, recs.drop_last());
        if recs.last().timestamp > t {
            recs.last().timestamp
        } else {
            t
        }
    }
}

/// Offering a routable peer's records one after another leaves it with the
/// latest timestamp among them and the one it held before; a peer without a
/// record gets one from the first offer.
pub proof fn law_latest_timestamp_wins(c: CacheView, peer: PeerKey, recs: Seq<RecordView>)
    requires
        c.routable.contains(peer),
        c.records.contains_key(peer) || recs.len() > 0,
    ensures
        after_adds(c, peer, recs).records.contains_key(peer),
        after_adds(c, peer, recs).records[peer].timestamp == if c.records.contains_key(peer) {
            latest_timestamp(c.records[peer].timestamp, recs)
        } else {
            latest_timestamp(recs[0].timestamp, recs)
        },
        after_adds(c, peer, recs).routable == c.routable,
    decreases recs.len(),
{
    if recs.len() == 0 {
    } else if recs.len() == 1 && !c.records.contains_key(peer) {
        let rest = recs.drop_last();
        assert(rest.len() == 0);
        assert(after_adds(c, peer, rest) == c);
        assert(latest_timestamp(recs[0].timestamp, rest) == recs[0].timestamp);
        assert(recs.last() == recs[0]);
        assert(after_adds(c, peer, recs) == after_add(c, peer, recs[0]));
    } else {
        let rest = recs.drop_last();
        law_latest_timestamp_wins(c, peer, rest);
        let mid = after_adds(c, peer, rest);
        assert(after_adds(c, peer, recs) == after_add(mid, peer, recs.last()));
        if !c.records.contains_key(peer) {
            assert(rest[0] == recs[0]);
            assert(latest_timestamp(recs[0].timestamp, recs) == {
                let t = latest_timestamp(recs[0].timestamp, rest);
                if recs.last().timestamp > t { recs.last().timestamp } else { t }
            });
        } else {
            assert(latest_timestamp(c.records[peer].timestamp, recs) == {
                let t = latest_timestamp(c.records[peer].timestamp, rest);
                if recs.last().timestamp > t { recs.last().timestamp } else { t }
            });
        }
    }
}

/// A record stamped with the very timestamp of the record held is not adopted.
pub proof fn law_equal_timestamp_not_adopted(c: CacheView, peer: PeerKey, rec: RecordView)
    requires
        c.records.contains_key(peer),
        rec.timestamp == c.records[peer].timestamp,
    ensures
        after_add(c, peer, rec) == c,
{
}

/// A record of a peer that is not routable leaves the cache as it was.
pub proof fn law_unroutable_record_skipped(c: CacheView, peer: PeerKey, rec: RecordView)
    requires
        !c.routable.contains(peer),
    ensures
        after_add(c, peer, rec) == c,
{
}

/// Marking a peer routable twice is the same as marking it once.
pub proof fn law_set_routable_idempotent(c: CacheView, peer: PeerKey)
    ensures
        with_routable(with_routable(c, peer), peer) == with_routable(c, peer),
{
    assert(c.routable.insert(peer).insert(peer) =~= c.routable.insert(peer));
}

/// Once a peer is marked unroutable it is a provider of no subnet, whatever its record.
pub proof fn law_unroutable_is_no_provider(c: CacheView, peer: PeerKey, s: SubnetKey)
    ensures
        !is_provider(without_routable(c, peer), peer, s),
{
}

/// After pruning with a cutoff, no record older than the cutoff remains.
pub proof fn law_prune_keeps_only_recent(m: Map<PeerKey, RecordView>, cutoff: u64)
    ensures
        forall|p: PeerKey| #[trigger]
            kept_records(m, cutoff).contains_key(p) ==> kept_records(m, cutoff)[p].timestamp
                >= cutoff,
{
}

/// The peer ids of a list of peers, in order.
pub open spec fn peer_keys(v: Seq<PeerId>) -> Seq<PeerKey> {
    v.map_values(|p: PeerId| p@)
}

fn index_of_peer(v: &Vec<PeerId>, p: &PeerId) -> (r: Option<usize>)
    ensures
        match r {
            Some(i) => i < v@.len() && v@[i as int]@ == p@ && peer_keys(v@)[i as int] == p@,
            None => !peer_keys(v@).contains(p@),
        },
        r is Some <==> peer_keys(v@).contains(p@),
{
    let mut i: usize = 0;
    while i < v.len()
        invariant
            i <= v.len(),
            forall|j: int| 0 <= j < i ==> (#[trigger] v@[j])@ != p@,
        decreases v.len() - i,
    {
        if v[i].same(p) {
            assert(peer_keys(v@)[i as int] == p@);
            return Some(i);
        }
        i = i + 1;
    }
    proof {
        if peer_keys(v@).contains(p@) {
            let j = choose|j: int| 0 <= j < peer_keys(v@).len() && peer_keys(v@)[j] == p@;
            assert(v@[j]@ == p@);
        }
    }
    None
}

impl SubnetProviderCache {
    /// The cache's own bookkeeping: no peer is listed twice as routable, and no
    /// peer has two records.
    pub closed spec fn wf(&self) -> bool {
        &&& peer_keys(self.routable@).no_duplicates()
        &&& distinct_peers(self.records@)
    }

    /// An empty cache.
    pub fn new() -> (r: SubnetProviderCache)
        ensures
            r.wf(),
            r@.routable == Set::<PeerKey>::empty(),
            r@.records == Map::<PeerKey, RecordView>::empty(),
    {
        let r = SubnetProviderCache { routable: Vec::new(), records: Vec::new() };
        assert(peer_keys(r.routable@) =~= Seq::<PeerKey>::empty());
        assert(r@.routable =~= Set::<PeerKey>::empty());
        assert(r@.records =~= Map::<PeerKey, RecordView>::empty());
        r
    }

    fn record_index(&self, p: &PeerId) -> (r: Option<usize>)
        requires
            self.wf(),
        ensures
            match r {
                Some(i) => i < self.records@.len() && self.records@[i as int].peer_id@ == p@,
                None => !self@.records.contains_key(p@),
            },
    {
        let mut i: usize = 0;
        while i < self.records.len()
            invariant
                i <= self.records.len(),
                forall|j: int| 0 <= j < i ==> (#[trigger] self.records@[j]).peer_id@ != p@,
            decreases self.records.len() - i,
        {
            if self.records[i].peer_id.same(p) {
                return Some(i);
            }
            i = i + 1;
        }
        None
    }

    /// The timestamp of the record held for `p`, if it has one.
    pub fn record_timestamp(&self, p: &PeerId) -> (r: Option<Timestamp>)
        requires
            self.wf(),
        ensures
            match r {
                Some(t) => self@.records.contains_key(p@) && self@.records[p@].timestamp == t.0,
                None => !self@.records.contains_key(p@),
            },
    {
        match self.record_index(p) {
            Some(i) => {
                proof {
                    lemma_record_at(self.records@, i as int);
                }
                Some(self.records[i].timestamp)
            },
            None => None,
        }
    }

    /// Whether `p` is routable.
    pub fn is_routable(&self, p: &PeerId) -> (r: bool)
        ensures
            r == self@.routable.contains(p@),
    {
        index_of_peer(&self.routable, p).is_some()
    }

    /// Mark a peer as routable; its record, if it has one, is reported from now on.
    pub fn set_routable(&mut self, p: PeerId)
        requires
            old(self).wf(),
        ensures
            final(self).wf(),
            final(self)@.routable == old(self)@.routable.insert(p@),
            final(self)@.records == old(self)@.records,
            final(self)@ == with_routable(old(self)@, p@),
    {
        let ghost k = p@;
        if index_of_peer(&self.routable, &p).is_none() {
            let ghost before = peer_keys(self.routable@);
            self.routable.push(p);
            let ghost after = peer_keys(self.routable@);
            assert(after =~= before.push(k));
            assert forall|q: PeerKey| after.contains(q) <==> (before.contains(q) || q == k) by {
                crate::membership::lemma_push_contains(before, k, q);
            }
            assert(self@.routable =~= old(self)@.routable.insert(k));
        } else {
            assert(self@.routable =~= old(self)@.routable.insert(k));
        }
    }

    /// Mark a peer as no longer routable; its record stays but it is no longer
    /// reported. Returns whether it had been routable.
    pub fn set_unroutable(&mut self, p: &PeerId) -> (r: bool)
        requires
            old(self).wf(),
        ensures
            final(self).wf(),
            r == old(self)@.routable.contains(p@),
            final(self)@.routable == old(self)@.routable.remove(p@),
            final(self)@.records == old(self)@.records,
            final(self)@ == without_routable(old(self)@, p@),
    {
        let ghost k = p@;
        match index_of_peer(&self.routable, p) {
            None => {
                assert(self@.routable =~= old(self)@.routable.remove(k));
                false
            },
            Some(i) => {
                let ghost before = peer_keys(self.routable@);
                assert(before[i as int] == k);
                self.routable.remove(i);
                let ghost after = peer_keys(self.routable@);
                assert(after =~= before.remove(i as int));
                assert forall|q: PeerKey| after.contains(q) <==> (before.contains(q) && q != k) by {
                    if after.contains(q) {
                        let j = choose|j: int| 0 <= j < after.len() && after[j] == q;
                        if j < i {
                            assert(before[j] == q);
                            assert(j != i);
                        } else {
                            assert(before[j + 1] == q);
                        }
                    }
                    if before.contains(q) && q != k {
                        let j = choose|j: int| 0 <= j < before.len() && before[j] == q;
                        if j < i {
                            assert(after[j] == q);
                        } else {
                            assert(j != i);
                            assert(after[j - 1] == q);
                        }
                    }
                }
                assert(self@.routable =~= old(self)@.routable.remove(k));
                true
            },
        }
    }

    /// Offer a peer's record. A peer that is not routable gets `None` and the
    /// cache is unchanged. A routable peer's record is adopted where it is the
    /// peer's first or strictly newer than the one held, and the subnets it adds
    /// over the one it replaces are returned; otherwise it is dropped and the
    /// result is empty.
    pub fn add_provider(&mut self, record: ProviderRecord) -> (r: Option<Vec<SubnetId>>)
        requires
            old(self).wf(),
        ensures
            final(self).wf(),
            final(self)@.routable == old(self)@.routable,
            !old(self)@.routable.contains(record.peer_id@) ==> r is None && final(self)@ == old(self)@,
            old(self)@.routable.contains(record.peer_id@) ==> r is Some,
            adopts(old(self)@, record.peer_id@, record.timestamp.0) ==> {
                &&& final(self)@.records == old(self)@.records.insert(record.peer_id@, record@)
                &&& key_set(r.unwrap()@) == record@.subnets.difference(
                    prior_subnets(old(self)@, record.peer_id@),
                )
            },
            !adopts(old(self)@, record.peer_id@, record.timestamp.0) ==> final(self)@ == old(self)@,
            final(self)@ == after_add(old(self)@, record.peer_id@, record@),
            r matches Some(v) ==> distinct_keys(v@),
            old(self)@.routable.contains(record.peer_id@) && !adopts(
                old(self)@,
                record.peer_id@,
                record.timestamp.0,
            ) ==> r.unwrap()@.len() == 0,
    {
        let peer = record.peer_id.copy_peer();
        let ghost p = peer@;
        if !self.is_routable(&peer) {
            return None;
        }
        match self.record_index(&peer) {
            None => {
                let empty: Vec<SubnetId> = Vec::new();
                let added = new_subnets(&record.subnet_ids, &empty);
                assert(key_set(empty@) =~= Set::<SubnetKey>::empty());
                assert(prior_subnets(old(self)@, p) =~= Set::<SubnetKey>::empty());
                let ghost before = self.records@;
                self.records.push(record);
                proof {
                    let n = before.len() as int;
                    assert forall|i: int, j: int|
                        0 <= i < j < self.records@.len() implies (#[trigger] self.records@[i]).peer_id@
                        != (#[trigger] self.records@[j]).peer_id@ by {
                        if j == n {
                            assert(self.records@[i] == before[i]);
                            assert(!record_map(before).contains_key(p));
                        } else {
                            assert(self.records@[i] == before[i]);
                            assert(self.records@[j] == before[j]);
                        }
                    }
                    lemma_record_at(self.records@, n);
                    assert forall|q: PeerKey| #[trigger]
                        record_map(self.records@).contains_key(q) <==> old(self)@.records.insert(
                            p,
                            self.records@[n]@,
                        ).contains_key(q) by {
                        if record_map(before).contains_key(q) {
                            let k = choose|k: int| 0 <= k < before.len() && (#[trigger] before[k]).peer_id@ == q;
                            assert(self.records@[k] == before[k]);
                        }
                        if record_map(self.records@).contains_key(q) && q != p {
                            let k = choose|k: int|
                                0 <= k < self.records@.len() && (#[trigger] self.records@[k]).peer_id@ == q;
                            assert(before[k] == self.records@[k]);
                        }
                    }
                    assert forall|q: PeerKey| #[trigger]
                        record_map(self.records@).contains_key(q) && q != p implies record_map(
                            self.records@,
                        )[q] == old(self)@.records[q] by {
                        let k = choose|k: int|
                            0 <= k < self.records@.len() && (#[trigger] self.records@[k]).peer_id@ == q;
                        assert(before[k] == self.records@[k]);
                        lemma_record_at(before, k);
                        lemma_record_at(self.records@, k);
                    }
                    assert(record_map(self.records@) =~= old(self)@.records.insert(
                        p,
                        self.records@[n]@,
                    ));
                }
                Some(added)
            },
            Some(i) => {
                proof {
                    lemma_record_at(self.records@, i as int);
                }
                if self.records[i].timestamp.0 < record.timestamp.0 {
                    let added = new_subnets(&record.subnet_ids, &self.records[i].subnet_ids);
                    let ghost before = self.records@;
                    self.records.set(i, record);
                    proof {
                        assert forall|a: int, b: int|
                            0 <= a < b < self.records@.len() implies (#[trigger] self.records@[a]).peer_id@
                            != (#[trigger] self.records@[b]).peer_id@ by {
                            assert(before[a].peer_id@ != before[b].peer_id@);
                        }
                        lemma_record_at(self.records@, i as int);
                        assert forall|q: PeerKey| #[trigger]
                            record_map(self.records@).contains_key(q)
                                <==> record_map(before).contains_key(q) by {
                            if record_map(before).contains_key(q) {
                                let k = choose|k: int|
                                    0 <= k < before.len() && (#[trigger] before[k]).peer_id@ == q;
                                assert(self.records@[k].peer_id@ == q);
                            }
                            if record_map(self.records@).contains_key(q) {
                                let k = choose|k: int|
                                    0 <= k < self.records@.len() && (#[trigger] self.records@[k]).peer_id@
                                        == q;
                                assert(before[k].peer_id@ == q);
                            }
                        }
                        assert forall|q: PeerKey| #[trigger]
                            record_map(self.records@).contains_key(q) && q != p implies record_map(
                                self.records@,
                            )[q] == record_map(before)[q] by {
                            let k = choose|k: int|
                                0 <= k < self.records@.len() && (#[trigger] self.records@[k]).peer_id@ == q;
                            assert(k != i);
                            assert(before[k] == self.records@[k]);
                            lemma_record_at(before, k);
                            lemma_record_at(self.records@, k);
                        }
                        assert(record_map(self.records@) =~= old(self)@.records.insert(
                            p,
                            self.records@[i as int]@,
                        ));
                    }
                    Some(added)
                } else {
                    Some(Vec::new())
                }
            },
        }
    }

    /// The routable peers whose latest record lists subnet `s`, each once.
    pub fn providers_of_subnet(&self, s: &SubnetId) -> (r: Vec<PeerId>)
        requires
            self.wf(),
        ensures
            peer_keys(r@).no_duplicates(),
            forall|p: PeerKey| peer_keys(r@).contains(p) <==> is_provider(self@, p, s@),
    {
        let mut r: Vec<PeerId> = Vec::new();
        let mut i: usize = 0;
        while i < self.records.len()
            invariant
                self.wf(),
                i <= self.records.len(),
                peer_keys(r@).no_duplicates(),
                forall|p: PeerKey|
                    peer_keys(r@).contains(p) <==> exists|k: int|
                        0 <= k < i && (#[trigger] self.records@[k]).peer_id@ == p && is_provider(
                            self@,
                            p,
                            s@,
                        ),
            decreases self.records.len() - i,
        {
            let rec = &self.records[i];
            proof {
                lemma_record_at(self.records@, i as int);
            }
            let ghost old_r = peer_keys(r@);
            let hit = self.is_routable(&rec.peer_id) && contains_subnet(&rec.subnet_ids, s);
            assert(hit == is_provider(self@, rec.peer_id@, s@));
            if hit {
                proof {
                    assert forall|k: int| 0 <= k < old_r.len() implies old_r[k] != rec.peer_id@ by {
                        let q = old_r[k];
                        assert(peer_keys(r@).contains(q));
                        let m = choose|m: int|
                            0 <= m < i && (#[trigger] self.records@[m]).peer_id@ == q && is_provider(
                                self@,
                                q,
                                s@,
                            );
                        assert(self.records@[m].peer_id@ != self.records@[i as int].peer_id@);
                    }
                }
                r.push(rec.peer_id.copy_peer());
                assert(peer_keys(r@) =~= old_r.push(rec.peer_id@));
            } else {
                assert(peer_keys(r@) =~= old_r);
            }
            proof {
                assert forall|p: PeerKey|
                    peer_keys(r@).contains(p) <==> exists|k: int|
                        0 <= k < i + 1 && (#[trigger] self.records@[k]).peer_id@ == p && is_provider(
                            self@,
                            p,
                            s@,
                        ) by {
                    if peer_keys(r@).contains(p) {
                        let j = choose|j: int| 0 <= j < peer_keys(r@).len() && peer_keys(r@)[j] == p;
                        if j < old_r.len() {
                            assert(old_r[j] == p);
                            assert(old_r.contains(p));
                            let k = choose|k: int|
                                0 <= k < i && (#[trigger] self.records@[k]).peer_id@ == p && is_provider(
                                    self@,
                                    p,
                                    s@,
                                );
                            assert(0 <= k < i + 1);
                        } else {
                            assert(self.records@[i as int].peer_id@ == p);
                        }
                    }
                    if exists|k: int|
                        0 <= k < i + 1 && (#[trigger] self.records@[k]).peer_id@ == p && is_provider(
                            self@,
                            p,
                            s@,
                        ) {
                        let k = choose|k: int|
                            0 <= k < i + 1 && (#[trigger] self.records@[k]).peer_id@ == p && is_provider(
                                self@,
                                p,
                                s@,
                            );
                        if k < i {
                            assert(old_r.contains(p));
                            let j = choose|j: int| 0 <= j < old_r.len() && old_r[j] == p;
                            assert(peer_keys(r@)[j] == p);
                        } else {
                            assert(peer_keys(r@)[old_r.len() as int] == p);
                        }
                    }
                }
            }
            i = i + 1;
        }
        proof {
            assert forall|p: PeerKey| peer_keys(r@).contains(p) <==> is_provider(self@, p, s@) by {
                if is_provider(self@, p, s@) {
                    let k = choose|k: int|
                        0 <= k < self.records@.len() && (#[trigger] self.records@[k]).peer_id@ == p;
                    assert(self.records@[k].peer_id@ == p);
                }
            }
        }
        r
    }

    /// Drop every record older than `cutoff`.
    pub fn prune_providers(&mut self, cutoff: Timestamp)
        requires
            old(self).wf(),
        ensures
            final(self).wf(),
            final(self)@.routable == old(self)@.routable,
            final(self)@.records == kept_records(old(self)@.records, cutoff.0),
            forall|p: PeerKey| #[trigger]
                final(self)@.records.contains_key(p) ==> final(self)@.records[p].timestamp >= cutoff.0,
    {
        let ghost m0 = old(self)@.records;
        let mut i: usize = 0;
        while i < self.records.len()
            invariant
                self.wf(),
                i <= self.records.len(),
                self@.routable == old(self)@.routable,
                forall|j: int| 0 <= j < i ==> (#[trigger] self.records@[j]).timestamp.0 >= cutoff.0,
                forall|p: PeerKey| #[trigger]
                    self@.records.contains_key(p) ==> m0.contains_key(p) && self@.records[p]
                        == m0[p],
                forall|p: PeerKey|
                    m0.contains_key(p) && m0[p].timestamp >= cutoff.0 ==> #[trigger] self@.records.contains_key(p),
            decreases self.records.len() - i,
        {
            if self.records[i].timestamp.0 < cutoff.0 {
                let ghost before = self.records@;
                let ghost before_map = self@.records;
                assert(before_map == record_map(before));
                proof {
                    lemma_record_at(before, i as int);
                }
                let _dropped = self.records.swap_remove(i);
                proof {
                    let n = before.len() - 1;
                    assert forall|a: int| 0 <= a < self.records@.len() implies (#[trigger] self.records@[a])
                        == if a == i { before[n] } else { before[a] } by {}
                    assert forall|a: int, b: int|
                        0 <= a < b < self.records@.len() implies (#[trigger] self.records@[a]).peer_id@
                        != (#[trigger] self.records@[b]).peer_id@ by {
                        let x = if a == i { n } else { a };
                        let y = if b == i { n } else { b };
                        assert(self.records@[a] == before[x]);
                        assert(self.records@[b] == before[y]);
                        if x < y {
                            assert(before[x].peer_id@ != before[y].peer_id@);
                        } else {
                            assert(before[y].peer_id@ != before[x].peer_id@);
                        }
                    }
                    assert forall|p: PeerKey| #[trigger]
                        record_map(self.records@).contains_key(p) implies m0.contains_key(p)
                        && record_map(self.records@)[p] == m0[p] by {
                        let k = choose|k: int|
                            0 <= k < self.records@.len() && (#[trigger] self.records@[k]).peer_id@ == p;
                        let x = if k == i { n } else { k };
                        assert(self.records@[k] == before[x]);
                        lemma_record_at(before, x);
                        lemma_record_at(self.records@, k);
                        assert(before_map.contains_key(p));
                    }
                    assert forall|p: PeerKey|
                        m0.contains_key(p) && m0[p].timestamp >= cutoff.0 implies #[trigger] record_map(
                            self.records@,
                        ).contains_key(p) by {
                        assert(before_map.contains_key(p));
                        let k = choose|k: int| 0 <= k < before.len() && (#[trigger] before[k]).peer_id@ == p;
                        lemma_record_at(before, k);
                        assert(k != i);
                        if k == n {
                            assert(self.records@[i as int].peer_id@ == p);
                        } else {
                            assert(self.records@[k].peer_id@ == p);
                        }
                    }
                }
            } else {
                i = i + 1;
            }
        }
        proof {
            assert forall|p: PeerKey| #[trigger]
                self@.records.contains_key(p) implies m0[p].timestamp >= cutoff.0 by {
                let k = choose|k: int|
                    0 <= k < self.records@.len() && (#[trigger] self.records@[k]).peer_id@ == p;
                lemma_record_at(self.records@, k);
            }
            assert(self@.records =~= kept_records(m0, cutoff.0));
        }
    }
}

} // verus!
