//! Signed provider records as they travel over gossip: a libp2p signed envelope
//! (its protobuf form) whose payload is the canonical form of a provider record.
//! A record is accepted only where the envelope's signature verifies under the
//! signer's key and the record names that very signer as its peer.
use vstd::prelude::*;
use vstd::string::StringExecFns;

use crate::ids::same_bytes;
use crate::membership::keys_of;
use crate::provider_cache::ProviderRecord;
use crate::record::{decode_record, record_bytes, record_encodable};

verus! {

/// Domain that provider-record signatures are separated by.
pub const PROVIDER_RECORD_DOMAIN: &'static str = "ipc-membership";

/// The payload type of provider records: the bytes of `/ipc/provider-record`.
pub open spec fn record_payload_type() -> Seq<u8> {
    seq![47u8, 105, 112, 99, 47, 112, 114, 111, 118, 105, 100, 101, 114, 45, 114, 101, 99, 111, 114, 100]
}

/// The signer's peer id and the payload of the signed envelope whose protobuf
/// form is `bytes`, where it is one, its payload type is `payload_type`, and its
/// signature, separated by `domain`, verifies under the public key it carries.
pub uninterp spec fn opened_envelope(domain: Seq<char>, payload_type: Seq<u8>, bytes: Seq<u8>) -> Option<(Seq<u8>, Seq<u8>)>;

/// Relies on libp2p-core's `SignedEnvelope::from_protobuf_encoding`, which reads
/// an envelope, and `SignedEnvelope::payload_and_signing_key`, which checks its
/// payload type and its signature; the signing key's `to_peer_id` and
/// `PeerId::to_bytes` give the signer's peer id.
#[verifier::external_body]
fn open_envelope(domain: &String, payload_type: &Vec<u8>, bytes: &Vec<u8>) -> (r: Option<(Vec<u8>, Vec<u8>)>)
    ensures
        match r {
            Some((peer, payload)) => opened_envelope(domain@, payload_type@, bytes@) == Some(
                (peer@, payload@),
            ),
            None => opened_envelope(domain@, payload_type@, bytes@) is None,
        },
{
    let envelope = libp2p_core::SignedEnvelope::from_protobuf_encoding(bytes).ok()?;
    let (payload, key) = envelope.payload_and_signing_key(domain.clone(), payload_type).ok()?;
    Some((key.to_peer_id().to_bytes(), payload.to_vec()))
}

/// The payload type of provider records.
pub fn provider_record_payload_type() -> (r: Vec<u8>)
    ensures
        r@ == record_payload_type(),
{
    let r: Vec<u8> = vec![47u8, 105, 112, 99, 47, 112, 114, 111, 118, 105, 100, 101, 114, 45, 114, 101, 99, 111, 114, 100];
    assert(r@ =~= record_payload_type());
    r
}

/// Open a gossiped provider record: `bytes` must be a signed envelope of a
/// provider record whose signature verifies, and the record it carries must
/// name the envelope's signer as its peer. Anything else gives `None`.
pub fn open_provider_record(bytes: &Vec<u8>) -> (r: Option<ProviderRecord>)
    ensures
        match opened_envelope(PROVIDER_RECORD_DOMAIN@, record_payload_type(), bytes@) {
            None => r is None,
            Some((signer, payload)) => {
                &&& r matches Some(rec) ==> rec.peer_id@ == signer && payload == record_bytes(
                    rec.peer_id@,
                    rec.timestamp.0,
                    keys_of(rec.subnet_ids@),
                )
                &&& forall|p: Seq<u8>, t: u64, ks: Seq<crate::ids::SubnetKey>|
                    record_encodable(p, t, ks) && #[trigger] record_bytes(p, t, ks) == payload ==> (
                    p == signer <==> (r matches Some(rec) && rec.timestamp.0 == t && keys_of(
                        rec.subnet_ids@,
                    ) == ks && rec.peer_id@ == p))
            },
        },
{
    let domain = <String as StringExecFns>::from_str(PROVIDER_RECORD_DOMAIN);
    let payload_type = provider_record_payload_type();
    let (signer, payload) = match open_envelope(&domain, &payload_type, bytes) {
        Some(opened) => opened,
        None => return None,
    };
    let rec = match decode_record(&payload) {
        Some(rec) => rec,
        None => return None,
    };
    if !same_bytes(&rec.peer_id.bytes, &signer) {
        return None;
    }
    Some(rec)
}

} // verus!
