//! The canonical byte form of a provider record, which is what a peer signs and
//! gossips: the peer, the timestamp and the number of subnets, then for each
//! subnet its root, the length of its path and the actor ids of the path; every
//! field a little-endian 64-bit word. Equal records have equal forms, and a form
//! decodes to the one record it was made from.
use vstd::bytes::{
    lemma_auto_spec_u64_to_from_le_bytes, spec_u64_from_le_bytes, spec_u64_to_le_bytes,
    u64_from_le_bytes, u64_to_le_bytes,
};
use vstd::prelude::*;

use crate::framing::{decode_fields, fields_bytes, framable, lemma_fields_agree, push_field};
use crate::ids::{PeerId, PeerKey, SubnetId, SubnetKey, Timestamp};
use crate::membership::keys_of;
use crate::provider_cache::ProviderRecord;

verus! {

/// The bytes of a sequence of words, each in little-endian order.
pub open spec fn words_bytes(ws: Seq<u64>) -> Seq<u8>
    decreases ws.len(),
{
    if ws.len() == 0 {
        Seq::empty()
    } else {
        words_bytes(ws.drop_last()) + spec_u64_to_le_bytes(ws.last())
    }
}

/// The words of one subnet: its root, the length of its path, and the path.
pub open spec fn subnet_words(k: SubnetKey) -> Seq<u64> {
    seq![k.0, k.1.len() as u64] + k.1
}

/// The words of a list of subnets, one after another.
pub open spec fn subnets_words(ks: Seq<SubnetKey>) -> Seq<u64>
    decreases ks.len(),
{
    if ks.len() == 0 {
        Seq::empty()
    } else {
        subnets_words(ks.drop_last()) + subnet_words(ks.last())
    }
}

/// The words of a record stamped `timestamp` listing `ks`.
pub open spec fn record_words(timestamp: u64, ks: Seq<SubnetKey>) -> Seq<u64> {
    seq![timestamp, ks.len() as u64] + subnets_words(ks)
}

/// The canonical byte form of a record of the peer with id `peer` stamped
/// `timestamp` listing `ks`: the framed peer id, then the framed words.
pub open spec fn record_bytes(peer: PeerKey, timestamp: u64, ks: Seq<SubnetKey>) -> Seq<u8> {
    fields_bytes(seq![peer, words_bytes(record_words(timestamp, ks))])
}

/// Every count and length in the record's form fits a word.
pub open spec fn record_encodable(peer: PeerKey, timestamp: u64, ks: Seq<SubnetKey>) -> bool {
    &&& encodable(ks)
    &&& framable(seq![peer, words_bytes(record_words(timestamp, ks))])
}

/// Every count in the record fits a word.
pub open spec fn encodable(ks: Seq<SubnetKey>) -> bool {
    &&& ks.len() <= u64::MAX
    &&& forall|i: int| 0 <= i < ks.len() ==> (#[trigger] ks[i]).1.len() <= u64::MAX
}

/// Eight bytes for each word.
proof fn lemma_words_bytes_len(ws: Seq<u64>)
    ensures
        words_bytes(ws).len() == 8 * ws.len(),
    decreases ws.len(),
{
    lemma_auto_spec_u64_to_from_le_bytes();
    if ws.len() > 0 {
        lemma_words_bytes_len(ws.drop_last());
    }
}

/// Different words give different bytes.
proof fn lemma_words_bytes_injective(a: Seq<u64>, c: Seq<u64>)
    requires
        words_bytes(a) == words_bytes(c),
    ensures
        a == c,
    decreases a.len(),
{
    lemma_auto_spec_u64_to_from_le_bytes();
    lemma_words_bytes_len(a);
    lemma_words_bytes_len(c);
    if a.len() > 0 {
        let n = a.len() as int;
        lemma_words_bytes_len(a.drop_last());
        lemma_words_bytes_len(c.drop_last());
        let wa = words_bytes(a);
        assert(wa.subrange(0, 8 * (n - 1)) =~= words_bytes(a.drop_last()));
        assert(wa.subrange(0, 8 * (n - 1)) =~= words_bytes(c.drop_last()));
        assert(wa.subrange(8 * (n - 1), 8 * n) =~= spec_u64_to_le_bytes(a.last()));
        assert(wa.subrange(8 * (n - 1), 8 * n) =~= spec_u64_to_le_bytes(c.last()));
        lemma_words_bytes_injective(a.drop_last(), c.drop_last());
        assert(a =~= a.drop_last().push(a.last()));
        assert(c =~= c.drop_last().push(c.last()));
    } else {
        assert(a =~= c);
    }
}

/// The words of a prefix of the subnets are a prefix of the words of all.
proof fn lemma_subnets_words_prefix(ks: Seq<SubnetKey>, j: int)
    requires
        0 <= j <= ks.len(),
    ensures
        subnets_words(ks.take(j)).len() <= subnets_words(ks).len(),
        subnets_words(ks).subrange(0, subnets_words(ks.take(j)).len() as int) == subnets_words(
            ks.take(j),
        ),
    decreases ks.len(),
{
    if j == ks.len() {
        assert(ks.take(j) =~= ks);
        assert(subnets_words(ks).subrange(0, subnets_words(ks).len() as int) =~= subnets_words(ks));
    } else {
        let shorter = ks.drop_last();
        assert(shorter.take(j) =~= ks.take(j));
        lemma_subnets_words_prefix(shorter, j);
        let whole = subnets_words(ks);
        let len = subnets_words(ks.take(j)).len() as int;
        assert(whole.subrange(0, len) =~= subnets_words(shorter).subrange(0, len));
    }
}

/// Two records with the same words agree on their first `j` subnets.
proof fn lemma_subnets_agree(
    t: u64,
    ks: Seq<SubnetKey>,
    gs: Seq<SubnetKey>,
    j: int,
)
    requires
        ks.len() == gs.len(),
        encodable(ks),
        encodable(gs),
        record_words(t, ks) == record_words(t, gs),
        0 <= j <= ks.len(),
    ensures
        ks.take(j) == gs.take(j),
    decreases j,
{
    if j > 0 {
        lemma_subnets_agree(t, ks, gs, j - 1);
        let ws = record_words(t, ks);
        let done = ks.take(j - 1);
        lemma_subnets_words_prefix(ks, j - 1);
        let pos = 2 + subnets_words(done).len() as int;
        assert(ws =~= seq![t, ks.len() as u64] + subnets_words(ks));
        assert(ws.subrange(0, pos) =~= seq![t, ks.len() as u64] + subnets_words(done));
        lemma_next_subnet(t, ks, j - 1, pos, ws, done);
        lemma_next_subnet(t, gs, j - 1, pos, ws, done);
        assert(ks[j - 1].1 == gs[j - 1].1);
        assert(ks[j - 1] == gs[j - 1]);
        assert(ks.take(j) =~= ks.take(j - 1).push(ks[j - 1]));
        assert(gs.take(j) =~= gs.take(j - 1).push(gs[j - 1]));
    } else {
        assert(ks.take(0) =~= gs.take(0));
    }
}

/// The canonical form of a record determines the record: two records with the
/// same form are the same record. With the contracts of `encode_record` and
/// `decode_record`, decoding the form of a record gives that record back.
pub proof fn law_record_form_determines_record(
    p: PeerKey,
    t: u64,
    ks: Seq<SubnetKey>,
    p2: PeerKey,
    t2: u64,
    ks2: Seq<SubnetKey>,
)
    requires
        record_encodable(p, t, ks),
        record_encodable(p2, t2, ks2),
        record_bytes(p, t, ks) == record_bytes(p2, t2, ks2),
    ensures
        p == p2,
        t == t2,
        ks == ks2,
{
    let f1 = seq![p, words_bytes(record_words(t, ks))];
    let f2 = seq![p2, words_bytes(record_words(t2, ks2))];
    lemma_fields_agree(f1, f2, 2);
    assert(f1.take(2) =~= f1);
    assert(f2.take(2) =~= f2);
    assert(f1[0] == f2[0] && f1[1] == f2[1]);
    lemma_words_bytes_injective(record_words(t, ks), record_words(t2, ks2));
    let ws = record_words(t, ks);
    assert(ws[0] == t && ws[1] == ks.len() as u64);
    assert(record_words(t2, ks2)[1] == ks2.len() as u64);
    lemma_subnets_agree(t, ks, ks2, ks.len() as int);
    assert(ks.take(ks.len() as int) =~= ks);
    assert(ks2.take(ks2.len() as int) =~= ks2);
}

/// Append the bytes of word `x`.
fn push_word(out: &mut Vec<u8>, x: u64)
    ensures
        final(out)@ == old(out)@ + spec_u64_to_le_bytes(x),
{
    let b = u64_to_le_bytes(x);
    let ghost start = out@;
    let mut i: usize = 0;
    while i < b.len()
        invariant
            i <= b.len(),
            b@.len() == 8,
            out@ == start + b@.take(i as int),
        decreases b.len() - i,
    {
        out.push(b[i]);
        i = i + 1;
        assert(out@ =~= start + b@.take(i as int));
    }
    assert(b@.take(8) =~= b@);
}

/// The bytes of a sequence of words.
pub fn encode_words(ws: &Vec<u64>) -> (r: Vec<u8>)
    ensures
        r@ == words_bytes(ws@),
{
    let mut r: Vec<u8> = Vec::new();
    let mut i: usize = 0;
    while i < ws.len()
        invariant
            i <= ws.len(),
            r@ == words_bytes(ws@.take(i as int)),
        decreases ws.len() - i,
    {
        push_word(&mut r, ws[i]);
        proof {
            assert(ws@.take(i + 1).drop_last() =~= ws@.take(i as int));
        }
        i = i + 1;
    }
    assert(ws@.take(ws.len() as int) =~= ws@);
    r
}

/// The words a byte sequence holds; `None` where its length is no multiple of eight.
pub fn decode_words(b: &Vec<u8>) -> (r: Option<Vec<u64>>)
    ensures
        match r {
            Some(ws) => words_bytes(ws@) == b@,
            None => b@.len() % 8 != 0,
        },
{
    if b.len() % 8 != 0 {
        return None;
    }
    let n = b.len() / 8;
    let mut ws: Vec<u64> = Vec::new();
    let mut i: usize = 0;
    proof {
        lemma_auto_spec_u64_to_from_le_bytes();
    }
    while i < n
        invariant
            n * 8 == b@.len(),
            b@.len() <= usize::MAX,
            i <= n,
            ws@.len() == i,
            words_bytes(ws@) == b@.take(8 * i),
        decreases n - i,
    {
        assert(8 * i + 8 <= b@.len()) by (nonlinear_arith)
            requires
                i < n,
                n * 8 == b@.len(),
        ;
        let base: usize = 8 * i;
        let mut chunk: Vec<u8> = Vec::new();
        let mut k: usize = 0;
        while k < 8
            invariant
                base == 8 * i,
                base + 8 <= b@.len(),
                k <= 8,
                chunk@ == b@.subrange(base as int, base + k),
            decreases 8 - k,
        {
            chunk.push(b[base + k]);
            k = k + 1;
            assert(chunk@ =~= b@.subrange(base as int, base + k));
        }
        let x = u64_from_le_bytes(chunk.as_slice());
        let ghost before = ws@;
        ws.push(x);
        proof {
            lemma_auto_spec_u64_to_from_le_bytes();
            assert(spec_u64_to_le_bytes(spec_u64_from_le_bytes(chunk@)) == chunk@);
            assert(ws@.drop_last() =~= before);
            assert(b@.take(8 * (i + 1)) =~= b@.take(8 * i) + b@.subrange(8 * i, 8 * i + 8));
        }
        i = i + 1;
    }
    assert(b@.take(8 * n) =~= b@);
    Some(ws)
}

/// The words of a record.
fn record_word_list(r: &ProviderRecord) -> (ws: Vec<u64>)
    ensures
        ws@ == record_words(r.timestamp.0, keys_of(r.subnet_ids@)),
{
    let ghost ks = keys_of(r.subnet_ids@);
    let mut ws: Vec<u64> = Vec::new();
    ws.push(r.timestamp.0);
    ws.push(r.subnet_ids.len() as u64);
    let ghost head = ws@;
    assert(ks.take(0) =~= Seq::<SubnetKey>::empty());
    let mut i: usize = 0;
    while i < r.subnet_ids.len()
        invariant
            i <= r.subnet_ids.len(),
            ks == keys_of(r.subnet_ids@),
            head == seq![r.timestamp.0, ks.len() as u64],
            ws@ == head + subnets_words(ks.take(i as int)),
        decreases r.subnet_ids.len() - i,
    {
        let s = &r.subnet_ids[i];
        let ghost base = ws@;
        ws.push(s.root);
        ws.push(s.children.len() as u64);
        let ghost mid = ws@;
        let mut c: usize = 0;
        while c < s.children.len()
            invariant
                c <= s.children.len(),
                ws@ == mid + s.children@.take(c as int),
            decreases s.children.len() - c,
        {
            ws.push(s.children[c]);
            c = c + 1;
            assert(ws@ =~= mid + s.children@.take(c as int));
        }
        proof {
            assert(s.children@.take(s.children.len() as int) =~= s.children@);
            assert(ks.take(i + 1).drop_last() =~= ks.take(i as int));
            assert(ks.take(i + 1).last() == s@);
            assert(ws@ =~= base + subnet_words(s@));
            assert(ws@ =~= head + subnets_words(ks.take(i + 1)));
        }
        i = i + 1;
    }
    assert(ks.take(r.subnet_ids.len() as int) =~= ks);
    ws
}

/// The canonical byte form of a record.
pub fn encode_record(r: &ProviderRecord) -> (b: Vec<u8>)
    ensures
        b@ == record_bytes(r.peer_id@, r.timestamp.0, keys_of(r.subnet_ids@)),
{
    let ws = record_word_list(r);
    let words = encode_words(&ws);
    let mut b: Vec<u8> = Vec::new();
    push_field(&mut b, &r.peer_id.bytes);
    push_field(&mut b, &words);
    proof {
        let fs = seq![r.peer_id@, words@];
        reveal_with_fuel(fields_bytes, 3);
        assert(fs.drop_last().drop_last() =~= Seq::<Seq<u8>>::empty());
        assert(fs.drop_last() =~= seq![r.peer_id@]);
        assert(b@ =~= fields_bytes(fs));
    }
    b
}

/// The record of `peer` whose words `ws` are, where they are a record's.
fn parse_words(ws: &Vec<u64>, peer: PeerId) -> (r: Option<ProviderRecord>)
    ensures
        r matches Some(rec) ==> rec.peer_id@ == peer@ && ws@ == record_words(
            rec.timestamp.0,
            keys_of(rec.subnet_ids@),
        ),
        forall|t: u64, ks: Seq<SubnetKey>|
            encodable(ks) && #[trigger] record_words(t, ks) == ws@ ==> (r matches Some(rec)
                && rec.peer_id@ == peer@ && rec.timestamp.0 == t && keys_of(rec.subnet_ids@) == ks),
{
    if ws.len() < 2 {
        return None;
    }
    let timestamp = ws[0];
    let n = ws[1];
    let ghost head = seq![timestamp, n];
    let mut keys: Vec<SubnetId> = Vec::new();
    let mut pos: usize = 2;
    let mut j: u64 = 0;
    assert(ws@.subrange(0, 2) =~= head + subnets_words(Seq::<SubnetKey>::empty()));
    while j < n
        invariant
            2 <= pos <= ws@.len(),
            j <= n,
            keys@.len() == j,
            head == seq![timestamp, n],
            timestamp == ws@[0],
            n == ws@[1],
            ws@.subrange(0, pos as int) == head + subnets_words(keys_of(keys@)),
            forall|t: u64, ks: Seq<SubnetKey>|
                encodable(ks) && #[trigger] record_words(t, ks) == ws@ ==> (t
                    == timestamp && ks.len() == n && keys_of(keys@) == ks.take(j as int)),
        decreases n - j,
    {
        if ws.len() - pos < 2 {
            proof {
                assert forall|t: u64, ks: Seq<SubnetKey>|
                    encodable(ks) && #[trigger] record_words(t, ks) == ws@ implies false by {
                    lemma_next_subnet(t, ks, j as int, pos as int, ws@, keys_of(keys@));
                }
            }
            return None;
        }
        let root = ws[pos];
        let m = ws[pos + 1];
        if m > (ws.len() - pos - 2) as u64 {
            proof {
                assert forall|t: u64, ks: Seq<SubnetKey>|
                    encodable(ks) && #[trigger] record_words(t, ks) == ws@ implies false by {
                    lemma_next_subnet(t, ks, j as int, pos as int, ws@, keys_of(keys@));
                }
            }
            return None;
        }
        let start = pos + 2;
        let end = start + m as usize;
        let mut children: Vec<u64> = Vec::new();
        let mut c: usize = start;
        while c < end
            invariant
                start <= c <= end,
                end <= ws@.len(),
                children@ == ws@.subrange(start as int, c as int),
            decreases end - c,
        {
            children.push(ws[c]);
            c = c + 1;
            assert(children@ =~= ws@.subrange(start as int, c as int));
        }
        let ghost before = keys_of(keys@);
        let key = SubnetId { root, children };
        keys.push(key);
        proof {
            assert(keys_of(keys@) =~= before.push(key@));
            assert(keys_of(keys@).drop_last() =~= before);
            assert(ws@.subrange(0, end as int) =~= ws@.subrange(0, pos as int) + subnet_words(key@));
            assert forall|t: u64, ks: Seq<SubnetKey>|
                encodable(ks) && #[trigger] record_words(t, ks) == ws@ implies (t
                == timestamp && ks.len() == n && keys_of(keys@) == ks.take(j + 1)) by {
                lemma_next_subnet(t, ks, j as int, pos as int, ws@, before);
                assert(ks.take(j + 1) =~= ks.take(j as int).push(ks[j as int]));
            }
        }
        pos = end;
        j = j + 1;
    }
    if pos != ws.len() {
        proof {
            assert forall|t: u64, ks: Seq<SubnetKey>|
                encodable(ks) && #[trigger] record_words(t, ks) == ws@ implies false by {
                assert(ks.take(j as int) =~= ks);
                assert(ws@.subrange(0, pos as int).len() == record_words(t, ks).len());
            }
        }
        return None;
    }
    proof {
        assert(ws@.subrange(0, pos as int) =~= ws@);
        assert(keys@.len() as u64 == n);
    }
    Some(ProviderRecord { peer_id: peer, subnet_ids: keys, timestamp: Timestamp(timestamp) })
}

/// Where a record's words hold the first `j` subnets up to `pos`, the next
/// subnet's words follow there.
proof fn lemma_next_subnet(
    t: u64,
    ks: Seq<SubnetKey>,
    j: int,
    pos: int,
    ws: Seq<u64>,
    done: Seq<SubnetKey>,
)
    requires
        encodable(ks),
        record_words(t, ks) == ws,
        0 <= j < ks.len(),
        done == ks.take(j),
        2 <= pos <= ws.len(),
        ws.subrange(0, pos) == seq![t, ks.len() as u64] + subnets_words(done),
    ensures
        pos + 2 + ks[j].1.len() <= ws.len(),
        ws[pos] == ks[j].0,
        ws[pos + 1] == ks[j].1.len() as u64,
        ws.subrange(pos + 2, pos + 2 + ks[j].1.len()) == ks[j].1,
{
    lemma_subnets_words_prefix(ks, j + 1);
    let all = subnets_words(ks);
    let upto = subnets_words(ks.take(j + 1));
    assert(ks.take(j + 1).drop_last() =~= ks.take(j));
    assert(ks.take(j + 1).last() == ks[j]);
    assert(upto == subnets_words(done) + subnet_words(ks[j]));
    let k = ks[j];
    let base = subnets_words(done).len() as int;
    assert(ws.subrange(0, pos).len() == pos);
    assert(pos == 2 + base);
    assert(ws =~= seq![t, ks.len() as u64] + all);
    assert(all.subrange(0, upto.len() as int) == upto);
    assert(ws[pos] == all[base]);
    assert(all[base] == upto[base]);
    assert(ws[pos + 1] == upto[base + 1]);
    assert forall|c: int| 0 <= c < k.1.len() implies ws[pos + 2 + c] == k.1[c] by {
        assert(ws[pos + 2 + c] == all[base + 2 + c]);
        assert(all[base + 2 + c] == upto[base + 2 + c]);
    }
    assert(ws.subrange(pos + 2, pos + 2 + k.1.len()) =~= k.1);
}

/// Decode a record from its canonical byte form. Exactly the forms of records
/// decode, each to the record it was made from.
pub fn decode_record(b: &Vec<u8>) -> (r: Option<ProviderRecord>)
    ensures
        r matches Some(rec) ==> b@ == record_bytes(rec.peer_id@, rec.timestamp.0, keys_of(rec.subnet_ids@)),
        forall|p: PeerKey, t: u64, ks: Seq<SubnetKey>|
            record_encodable(p, t, ks) && #[trigger] record_bytes(p, t, ks) == b@ ==> (r matches Some(
                rec,
            ) && rec.peer_id@ == p && rec.timestamp.0 == t && keys_of(rec.subnet_ids@) == ks),
{
    let mut fs = match decode_fields(b, 2) {
        Some(fs) => fs,
        None => return None,
    };
    let ghost v = fs@.map_values(|f: Vec<u8>| f@);
    let words = fs.pop().unwrap();
    let peer = fs.pop().unwrap();
    assert(v =~= seq![peer@, words@]);
    let ws = match decode_words(&words) {
        Some(ws) => ws,
        None => {
            proof {
                assert forall|p: PeerKey, t: u64, ks: Seq<SubnetKey>|
                    record_encodable(p, t, ks) && #[trigger] record_bytes(p, t, ks) == b@ implies false by {
                    assert(seq![p, words_bytes(record_words(t, ks))] == v);
                    assert(v[1] == words_bytes(record_words(t, ks)));
                    lemma_words_bytes_len(record_words(t, ks));
                }
            }
            return None;
        },
    };
    proof {
        assert forall|p: PeerKey, t: u64, ks: Seq<SubnetKey>|
            record_encodable(p, t, ks) && #[trigger] record_bytes(p, t, ks) == b@ implies p == peer@
                && record_words(t, ks) == ws@ by {
            assert(seq![p, words_bytes(record_words(t, ks))] == v);
            assert(v[0] == p && v[1] == words_bytes(record_words(t, ks)));
            lemma_words_bytes_injective(record_words(t, ks), ws@);
        }
    }
    parse_words(&ws, PeerId { bytes: peer })
}

} // verus!
