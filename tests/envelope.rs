use ipc_agent::envelope::{open_provider_record, provider_record_payload_type, PROVIDER_RECORD_DOMAIN};
use ipc_agent::ids::{PeerId, SubnetId, Timestamp};
use ipc_agent::provider_cache::ProviderRecord;
use ipc_agent::record::encode_record;
use libp2p_core::SignedEnvelope;
use libp2p_identity::Keypair;

fn keypair(seed: u8) -> Keypair {
    Keypair::ed25519_from_bytes([seed; 32]).unwrap()
}

fn peer_of(kp: &Keypair) -> PeerId {
    PeerId { bytes: kp.public().to_peer_id().to_bytes() }
}

fn record(peer: PeerId) -> ProviderRecord {
    ProviderRecord {
        peer_id: peer,
        subnet_ids: vec![SubnetId::new_root(314).child(1001)],
        timestamp: Timestamp(1_700_000_000),
    }
}

fn seal(kp: &Keypair, domain: &str, payload_type: Vec<u8>, payload: Vec<u8>) -> Vec<u8> {
    SignedEnvelope::new(kp, domain.to_string(), payload_type, payload)
        .unwrap()
        .into_protobuf_encoding()
}

fn seal_record(kp: &Keypair, r: &ProviderRecord) -> Vec<u8> {
    seal(kp, PROVIDER_RECORD_DOMAIN, provider_record_payload_type(), encode_record(r))
}

#[test]
fn payload_type_spells_the_record_protocol() {
    assert_eq!(provider_record_payload_type(), b"/ipc/provider-record".to_vec());
}

#[test]
fn signed_record_of_its_signer_opens() {
    let kp = keypair(7);
    let bytes = seal_record(&kp, &record(peer_of(&kp)));
    let opened = open_provider_record(&bytes).unwrap();
    assert_eq!(opened.peer_id, peer_of(&kp));
    assert_eq!(opened.timestamp, Timestamp(1_700_000_000));
    assert_eq!(opened.subnet_ids, record(peer_of(&kp)).subnet_ids);
}

#[test]
fn record_of_another_peer_is_refused() {
    let signer = keypair(7);
    let other = keypair(8);
    let bytes = seal_record(&signer, &record(peer_of(&other)));
    assert!(open_provider_record(&bytes).is_none());
    let bytes = seal_record(&signer, &record(PeerId { bytes: vec![3] }));
    assert!(open_provider_record(&bytes).is_none());
}

#[test]
fn tampered_or_misdirected_envelopes_are_refused() {
    let kp = keypair(7);
    let r = record(peer_of(&kp));
    let mut bytes = seal_record(&kp, &r);
    let last = bytes.len() - 1;
    bytes[last] ^= 1;
    assert!(open_provider_record(&bytes).is_none());
    let wrong_domain = seal(&kp, "other-domain", provider_record_payload_type(), encode_record(&r));
    assert!(open_provider_record(&wrong_domain).is_none());
    let wrong_type = seal(&kp, PROVIDER_RECORD_DOMAIN, b"/other".to_vec(), encode_record(&r));
    assert!(open_provider_record(&wrong_type).is_none());
    let not_a_record = seal(&kp, PROVIDER_RECORD_DOMAIN, provider_record_payload_type(), vec![1, 2, 3]);
    assert!(open_provider_record(&not_a_record).is_none());
    assert!(open_provider_record(&vec![1, 2, 3]).is_none());
}
