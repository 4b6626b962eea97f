use ipc_agent::chain::{
    id_address, parse_address, parse_addresses, AddressError, CIDMap, CidError, ContentId,
    MpoolPushMessage, Network,
};
use ipc_agent::chain::parse_subnet_id;
use ipc_agent::ids::{Address, SubnetId};

const CID_TEXT: &str = "QmYwAPJzv5CZsnA625s3Xf2nemtYgPpHdWEz79ojWnPbdG";

#[test]
fn cid_text_round_trips_through_binary_form() {
    let m = CIDMap { cid: Some(String::from(CID_TEXT)) };
    let c = m.to_content_id().unwrap();
    assert_eq!(c.bytes.len(), 34);
    assert_eq!(c.bytes[0], 0x12);
    assert_eq!(c.bytes[1], 0x20);
    let back = CIDMap::from_content_id(&c);
    assert_eq!(back.cid.as_deref(), Some(CID_TEXT));
}

#[test]
fn cid_wire_form_errors() {
    assert_eq!(CIDMap { cid: None }.to_content_id().unwrap_err(), CidError::NotFound);
    let bad = CIDMap { cid: Some(String::from("not a cid")) };
    assert_eq!(bad.to_content_id().unwrap_err(), CidError::Malformed);
    let junk = ContentId { bytes: vec![0xff] };
    assert!(CIDMap::from_content_id(&junk).cid.is_none());
    assert!(CIDMap::from_optional(&None).cid.is_none());
}

#[test]
fn id_address_text_and_binary_forms_agree() {
    let parsed = parse_address(Network::Mainnet, "f01234").unwrap();
    assert_eq!(parsed.bytes, vec![0x00, 0xd2, 0x09]);
    assert_eq!(parsed, id_address(1234));
    assert_eq!(parse_address(Network::Testnet, "t01234").unwrap(), id_address(1234));
}

#[test]
fn address_of_other_network_is_malformed() {
    assert_eq!(parse_address(Network::Testnet, "f01234").unwrap_err(), AddressError::Malformed);
    assert_eq!(parse_address(Network::Mainnet, "x"), Err(AddressError::Malformed));
}

#[test]
fn address_lists_fail_on_first_bad_entry() {
    let ok = vec![String::from("f01"), String::from("f02")];
    assert_eq!(parse_addresses(Network::Mainnet, &ok).unwrap(), vec![id_address(1), id_address(2)]);
    let bad = vec![String::from("f01"), String::from("garbage")];
    assert!(parse_addresses(Network::Mainnet, &bad).is_err());
}

#[test]
fn new_message_leaves_gas_to_the_node() {
    let m = MpoolPushMessage::new(id_address(1), Address { bytes: vec![0, 2] }, 5, vec![1]);
    assert_eq!(m.value, 0);
    assert_eq!(m.method, 5);
    assert!(m.nonce.is_none() && m.gas_limit.is_none() && m.max_fee.is_none());
}

fn path(s: &str) -> Vec<char> {
    s.chars().collect()
}

#[test]
fn subnet_paths_parse_to_root_and_actor_ids() {
    let root = SubnetId::new_root(314);
    assert_eq!(parse_subnet_id(Network::Mainnet, &path("/r314")), Some(root.clone()));
    assert_eq!(
        parse_subnet_id(Network::Mainnet, &path("/r314/f01001/f02")),
        Some(root.child(1001).child(2))
    );
    assert_eq!(parse_subnet_id(Network::Testnet, &path("/r314/t01001")), Some(root.child(1001)));
}

#[test]
fn malformed_subnet_paths_are_refused() {
    for bad in [
        "",
        "r314",
        "/r",
        "/x314",
        "/r31a",
        "/r314/",
        "/r314/f0x",
        "/r314/t01001",
        "/r18446744073709551616",
    ] {
        assert_eq!(parse_subnet_id(Network::Mainnet, &path(bad)), None, "{}", bad);
    }
    assert_eq!(
        parse_subnet_id(Network::Mainnet, &path("/r18446744073709551615")).map(|s| s.root),
        Some(u64::MAX)
    );
}
