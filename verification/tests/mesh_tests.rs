use chiyocore::channels::{Channel, ChannelKeys};
use chiyocore::command::TextType;
use chiyocore::contacts::{CachedContact, Contact, ContactStorage};
use chiyocore::hash_log::{
    HashLog, HashableChannelMessage, HashableContactMessage, HashableMessage, HashablePacket,
    SeenMessages,
};
use chiyocore::key_cache::SharedKeyCache;
use chiyocore::mesh::{
    companion_handles, direct_message_plan, is_flood, CompanionError, mesh_handler, packet_fate, payload_type, route_type,
    sender_candidates, MeshHandler, PacketFate, PayloadType, RouteType,
};
use chiyocore::messages::SavedMessage;
use chiyocore::protocol::{ChannelMsgRecv, CompanionSer, ContactEnd, ContactMsgRecv, ContactStart};
use chiyocore::signing::{identity_from_seed, SignSession};

fn h(b: u8) -> [u8; 20] {
    [b; 20]
}

#[test]
fn hash_log_reports_new_hashes_once() {
    let mut log: HashLog<2> = HashLog::new();
    assert!(log.push_hash(h(1)));
    assert!(!log.push_hash(h(1)));
    assert!(log.contains_hash(&h(1)));
    assert!(log.push_hash(h(2)));
    assert!(log.push_hash(h(3)));
    // the oldest hash left the full log
    assert!(!log.contains_hash(&h(1)));
    assert!(log.contains_hash(&h(2)));
    assert!(log.contains_hash(&h(3)));
    assert!(log.push_hash(h(1)));
}

#[test]
fn empty_capacity_log_never_remembers() {
    let mut log: HashLog<0> = HashLog::new();
    assert!(log.push_hash(h(1)));
    assert!(log.push_hash(h(1)));
    assert!(!log.contains_hash(&h(1)));
}

#[test]
fn seen_messages_drop_oldest() {
    let mut seen: SeenMessages<2> = SeenMessages::new();
    assert!(seen.push(h(1)));
    assert!(!seen.push(h(1)));
    assert_eq!(seen.unseen(h(1)), None);
    assert_eq!(seen.unseen(h(2)), Some(h(2)));
    seen.make_seen(h(2));
    seen.make_seen(h(3));
    assert_eq!(seen.unseen(h(1)), Some(h(1)));
    assert!(!seen.push(h(3)));
}

#[test]
fn hash_inputs() {
    let data = [b'h', b'i'];
    let ch = HashableChannelMessage { idx: 2, timestamp: 0x01020304, data: &data };
    assert_eq!(ch.hash_input(), vec![1, 2, 4, 3, 2, 1, b'h', b'i']);
    let prefix = [9u8, 8, 7, 6, 5, 4];
    let co = HashableContactMessage { pk_prefix: &prefix, timestamp: 1, data: &data };
    assert_eq!(co.hash_input(), vec![0, 1, 0, 0, 0, 9, 8, 7, 6, 5, 4, b'h', b'i']);
    let payload = [5u8, 6];
    let p = HashablePacket { header: 0x11, payload: &payload };
    assert_eq!(p.hash_input(), vec![0x11, 5, 6]);
}

#[test]
fn saved_messages_trim_text() {
    let channel = Channel::from_keys(4, "c".to_string(), ChannelKeys { hash: 1, secret: [0; 16] });
    let m = SavedMessage::channel_msg(&channel, 300, TextType::PlainText, 7, b"yo\0\0");
    assert_eq!(
        m,
        SavedMessage::Channel(ChannelMsgRecv {
            snr: 0,
            reserved: [0, 0],
            idx: 4,
            path_len: 44,
            text_ty: TextType::PlainText,
            timestamp: 7,
            data: b"yo".to_vec(),
        })
    );
    assert_eq!(m.hash_input(), vec![1, 4, 7, 0, 0, 0, b'y', b'o']);
    assert_eq!(m.companion_serialize()[0], 0x11);

    let mut key = [0u8; 32];
    key[..6].copy_from_slice(&[1, 2, 3, 4, 5, 6]);
    let contact = CachedContact { key, path: None };
    let m = SavedMessage::contact_msg(&contact, 1, TextType::CliData, 9, b"ok\0");
    assert_eq!(
        m,
        SavedMessage::Contact(ContactMsgRecv {
            snr: 0,
            reserved: [0, 0],
            pk_prefix: [1, 2, 3, 4, 5, 6],
            path_len: 1,
            text_ty: TextType::CliData,
            timestamp: 9,
            signature: None,
            data: b"ok".to_vec(),
        })
    );
    assert_eq!(m.hash_input(), vec![0, 9, 0, 0, 0, 1, 2, 3, 4, 5, 6, b'o', b'k']);
}

#[test]
fn headers_decode() {
    assert_eq!(route_type(0x11), RouteType::Flood);
    assert_eq!(route_type(0x02), RouteType::Direct);
    assert!(is_flood(RouteType::TransportFlood));
    assert!(!is_flood(RouteType::TransportDirect));
    assert_eq!(payload_type(0x11), Some(PayloadType::Advert));
    assert_eq!(payload_type(0x09), Some(PayloadType::TxtMsg));
    assert_eq!(payload_type(0x3C), Some(PayloadType::RawCustom));
    assert_eq!(payload_type(0x30), None);
    assert_eq!(mesh_handler(PayloadType::Multipart), MeshHandler::Ignored);
    assert_eq!(mesh_handler(PayloadType::GrpTxt), MeshHandler::GroupText);
    assert!(companion_handles(PayloadType::Path));
    assert!(!companion_handles(PayloadType::Request));
}

#[test]
fn packets_are_handled_once() {
    let mut log: HashLog<32> = HashLog::new();
    assert_eq!(packet_fate(&mut log, h(1), 0x15), PacketFate::Handle(MeshHandler::GroupText));
    assert_eq!(packet_fate(&mut log, h(1), 0x15), PacketFate::Duplicate);
    assert_eq!(packet_fate(&mut log, h(2), 0x30), PacketFate::Undecodable);
    assert_eq!(packet_fate(&mut log, h(2), 0x15), PacketFate::Duplicate);
}

#[test]
fn sender_candidates_cover_the_first_byte_block() {
    let mut store = ContactStorage::new();
    for (a, b) in [(3u8, 1u8), (7, 0), (7, 5), (7, 9), (8, 0)] {
        let mut key = [0u8; 32];
        key[0] = a;
        key[1] = b;
        store.insert_cached(CachedContact { key, path: None });
    }
    assert_eq!(sender_candidates(&store, 7), vec![1, 2, 3]);
    assert_eq!(sender_candidates(&store, 8), vec![4]);
    assert_eq!(sender_candidates(&store, 5), Vec::<usize>::new());
}

fn node_keys(seed: u8) -> ([u8; 32], [u8; 32]) {
    let pair = ed25519_compact::KeyPair::from_seed(ed25519_compact::Seed::new([seed; 32]));
    let x = ed25519_compact::x25519::SecretKey::from_ed25519(&pair.sk).unwrap();
    (*pair.pk, *x)
}

#[test]
fn shared_keys_agree_and_are_cached() {
    let (a_pk, a_sk) = node_keys(1);
    let (b_pk, b_sk) = node_keys(2);
    let mut a_cache = SharedKeyCache::new(a_sk);
    let mut b_cache = SharedKeyCache::new(b_sk);
    let ab = a_cache.get_key(&b_pk).unwrap();
    let ba = b_cache.get_key(&a_pk).unwrap();
    assert_eq!(ab, ba);
    assert_ne!(ab, b_pk);
    assert_eq!(a_cache.get_key(&b_pk), Some(ab));
}

#[test]
fn signing_session_needs_a_start() {
    let pair = ed25519_compact::KeyPair::from_seed(ed25519_compact::Seed::new([4u8; 32]));
    let mut session = SignSession::new();
    assert!(session.sign_data(b"x").is_err());
    assert!(session.sign_finish().is_err());
    let start = session.sign_start(&*pair.sk, [3u8; 16]);
    assert_eq!(start.max_len, 16384);
    assert!(session.sign_data(b"hello ").is_ok());
    assert!(session.sign_data(b"world").is_ok());
    let sig = session.sign_finish().unwrap();
    let signature = ed25519_compact::Signature::new(sig.signature);
    assert!(pair.pk.verify(b"hello world", &signature).is_ok());
    assert!(session.sign_finish().is_err());
}

#[test]
fn identity_comes_from_the_seed() {
    assert!(identity_from_seed(&[0u8; 32]).is_none());
    let pair = ed25519_compact::KeyPair::from_seed(ed25519_compact::Seed::new([4u8; 32]));
    let (sk, name) = identity_from_seed(&[4u8; 32]).unwrap();
    assert_eq!(sk, *pair.sk);
    assert_eq!(name, hex::encode(&pair.pk[..8]));
    assert_eq!(name.len(), 16);
}

#[test]
fn signature_covers_the_gathered_data_under_the_session_key() {
    let (sk, _) = identity_from_seed(&[9u8; 32]).unwrap();
    let pk = ed25519_compact::PublicKey::from_slice(&sk[32..]).unwrap();
    let mut session = SignSession::new();
    session.sign_start(&sk, [1u8; 16]);
    assert!(session.sign_data(b"ab").is_ok());
    assert!(session.sign_data(b"").is_ok());
    assert!(session.sign_data(b"cd").is_ok());
    let sig = ed25519_compact::Signature::new(session.sign_finish().unwrap().signature);
    assert!(pk.verify(b"abcd", &sig).is_ok());
    assert!(pk.verify(b"abc", &sig).is_err());
    let other = ed25519_compact::KeyPair::from_seed(ed25519_compact::Seed::new([8u8; 32]));
    assert!(other.pk.verify(b"abcd", &sig).is_err());
    session.sign_start(&sk, [2u8; 16]);
    session.sign_start(&sk, [3u8; 16]);
    assert!(session.sign_data(b"xy").is_ok());
    let sig = ed25519_compact::Signature::new(session.sign_finish().unwrap().signature);
    assert!(pk.verify(b"xy", &sig).is_ok());
}

fn key_with(a: u8, b: u8) -> [u8; 32] {
    let mut key = [0u8; 32];
    key[0] = a;
    key[1] = b;
    key
}

fn full_contact(key: [u8; 32], name: &str) -> Contact {
    Contact {
        key,
        name: name.to_string(),
        path_to: None,
        flags: 1,
        latitude: 0,
        longitude: 0,
        last_heard: 5,
    }
}

#[test]
fn contact_listing_counts_and_orders_the_cache() {
    let mut store = ContactStorage::new();
    store.insert_cached(CachedContact { key: key_with(9, 0), path: None });
    store.insert_cached(CachedContact { key: key_with(2, 0), path: None });
    let keys = store.listing_keys();
    assert_eq!(keys, vec![key_with(2, 0), key_with(9, 0)]);
    let records = vec![full_contact(key_with(2, 0), "b"), full_contact(key_with(9, 0), "a")];
    let (start, listed, end) = store.contact_listing(records).unwrap();
    assert_eq!(start, ContactStart { contacts: 2 });
    assert_eq!(listed.len(), 2);
    assert_eq!(listed[0].name, "b");
    assert_eq!(listed[1].key, key_with(9, 0));
    assert_eq!(end, ContactEnd { last_mod: 0 });
    let out_of_order = vec![full_contact(key_with(9, 0), "a"), full_contact(key_with(2, 0), "b")];
    assert!(store.contact_listing(out_of_order).is_none());
    assert!(store.contact_listing(vec![full_contact(key_with(2, 0), "b")]).is_none());
}

#[test]
fn empty_contact_listing_is_start_and_end() {
    let store = ContactStorage::new();
    assert!(store.listing_keys().is_empty());
    let (start, listed, end) = store.contact_listing(Vec::new()).unwrap();
    assert_eq!(start.contacts, 0);
    assert!(listed.is_empty());
    assert_eq!(end.last_mod, 0);
}

#[test]
fn direct_message_needs_a_known_contact() {
    let mut store = ContactStorage::new();
    store.insert_cached(CachedContact { key: key_with(4, 1), path: None });
    store.insert_cached(CachedContact { key: key_with(4, 2), path: None });
    let own = [0xAAu8; 32];
    assert_eq!(
        direct_message_plan(&store, &own, &[5, 0], b"hi", None, 10).err(),
        Some(CompanionError::NoKnownContact)
    );
    let plan = direct_message_plan(&store, &own, &[4, 2], b"hi", None, 77).unwrap();
    assert_eq!(plan.contact, 1);
    assert_eq!(plan.timestamp, 77);
    let mut expected = vec![0u8, 77, 0, 0, 0];
    expected.extend([0xAAu8; 6]);
    expected.extend(b"hi");
    assert_eq!(plan.seen_input, expected);
    let first = direct_message_plan(&store, &own, &[4], b"", Some(9), 77).unwrap();
    assert_eq!(first.contact, 0);
    assert_eq!(first.timestamp, 9);
}

#[test]
fn signature_is_the_key_s_signature_with_the_start_noise() {
    let (sk, _) = identity_from_seed(&[6u8; 32]).unwrap();
    let mut session = SignSession::new();
    session.sign_start(&sk, [7u8; 16]);
    assert!(session.sign_data(b"mesh").is_ok());
    assert!(session.sign_data(b"core").is_ok());
    let sig = session.sign_finish().unwrap().signature;
    let expected = ed25519_compact::SecretKey::new(sk)
        .sign(b"meshcore", Some(ed25519_compact::Noise::new([7u8; 16])));
    assert_eq!(sig, *expected);
    let other_noise = ed25519_compact::SecretKey::new(sk)
        .sign(b"meshcore", Some(ed25519_compact::Noise::new([8u8; 16])));
    assert_ne!(sig, *other_noise);
}
