use chiyocore::channels::{Channel, ChannelKeys, ChannelStorage};
use chiyocore::config::{identity_name, CompanionConfig};
use chiyocore::contacts::{
    advert_type, contact_from_advert, AdvertData, CachedContact, Contact, ContactPath, ContactStorage, HAS_NAME, IS_CHAT_NODE,
    IS_REPEATER,
};
use chiyocore::filedb::{Cacheable, CachedFileDb, FileDbKey};
use chiyocore::protocol::{CompanionSer, CustomVars};

fn key_with(first: u8, second: u8) -> [u8; 32] {
    let mut k = [0u8; 32];
    k[0] = first;
    k[1] = second;
    k
}

fn cached(first: u8, second: u8) -> CachedContact {
    CachedContact { key: key_with(first, second), path: None }
}

#[test]
fn advert_types_follow_flag_order() {
    assert_eq!(advert_type(HAS_NAME | IS_CHAT_NODE), 1);
    assert_eq!(advert_type(IS_REPEATER), 2);
    assert_eq!(advert_type(0x03), 1);
    assert_eq!(advert_type(HAS_NAME), 0);
}

#[test]
fn contact_encodes_with_padding() {
    let contact = Contact {
        key: [7u8; 32],
        name: "bob".to_string(),
        path_to: Some(ContactPath { len_header: 2, raw: vec![0xAA, 0xBB] }),
        flags: IS_REPEATER,
        latitude: 1,
        longitude: 2,
        last_heard: 3,
    };
    let out = contact.companion_serialize();
    assert_eq!(out.len(), contact.ser_size());
    assert_eq!(out.len(), 148);
    assert_eq!(out[0], 3);
    assert_eq!(&out[1..33], &[7u8; 32]);
    assert_eq!(&out[33..38], &[2, IS_REPEATER, 2, 0xAA, 0xBB]);
    assert!(out[38..100].iter().all(|b| *b == 0));
    assert_eq!(&out[100..103], b"bob");
    assert_eq!(&out[132..148], &[3, 0, 0, 0, 1, 0, 0, 0, 2, 0, 0, 0, 0, 0, 0, 0]);

    let flood = Contact { path_to: None, ..contact };
    let out = flood.companion_serialize();
    assert_eq!(out[35], 0xFF);
}

#[test]
fn contact_cache_finds_by_prefix() {
    let mut store = ContactStorage::new();
    store.insert_cached(cached(5, 1));
    store.insert_cached(cached(2, 9));
    store.insert_cached(cached(5, 0));
    store.insert_cached(cached(9, 9));
    let keys: Vec<[u8; 32]> = store.hot_cache.iter().map(|c| c.key).collect();
    assert_eq!(keys, vec![key_with(2, 9), key_with(5, 0), key_with(5, 1), key_with(9, 9)]);
    assert_eq!(store.find_idx(&[5]), Some(1));
    assert_eq!(store.find_idx(&[5, 1]), Some(2));
    assert_eq!(store.find_idx(&key_with(5, 1)), Some(2));
    assert_eq!(store.find_idx(&[3]), None);
    assert_eq!(store.find_idx(&[0xFF]), None);
    assert_eq!(store.find_idx(&[]), Some(0));
    assert_eq!(store.fast_get(&[9]).map(|c| c.key), Some(key_with(9, 9)));
}

#[test]
fn contact_cache_replaces_same_key_and_deletes() {
    let mut store = ContactStorage::new();
    store.insert_cached(cached(1, 1));
    store.insert_cached(CachedContact {
        key: key_with(1, 1),
        path: Some(ContactPath { len_header: 1, raw: vec![4] }),
    });
    assert_eq!(store.hot_cache.len(), 1);
    assert_eq!(store.hot_cache[0].path, Some(ContactPath { len_header: 1, raw: vec![4] }));
    assert_eq!(store.delete_cached(&[2]), None);
    assert_eq!(store.delete_cached(&[1]).map(|c| c.key), Some(key_with(1, 1)));
    assert!(store.hot_cache.is_empty());
    assert_eq!(store.find_idx(&[1]), None);
}

#[test]
fn cached_contact_from_full() {
    let contact = Contact {
        key: [1u8; 32],
        name: String::new(),
        path_to: None,
        flags: 0,
        latitude: 0,
        longitude: 0,
        last_heard: 0,
    };
    assert_eq!(CachedContact::from_full(contact), CachedContact { key: [1u8; 32], path: None });
}

#[test]
fn public_channel_is_fixed() {
    let c = Channel::public();
    assert_eq!(c.name, "public");
    assert_eq!(
        c.key,
        [0x8b, 0x33, 0x87, 0xe9, 0xc5, 0xcd, 0xea, 0x6a, 0xc9, 0xe5, 0xed, 0xba, 0xa1, 0x15, 0xcd, 0x72]
    );
    assert_eq!(c.hash, 0x11);
    assert_eq!(c.idx, 0);
}

#[test]
fn hashtag_channel_key_comes_from_its_name() {
    let c = Channel::from_name("#test", 3);
    assert_eq!(
        c.key,
        [156, 216, 252, 242, 42, 71, 51, 59, 89, 29, 150, 162, 184, 72, 183, 63]
    );
    assert_eq!(c.hash, 217);
    assert_eq!(c.idx, 3);
    assert_eq!(c.name, "#test");
}

#[test]
fn channel_keys_round_trip() {
    let keys = ChannelKeys { hash: 4, secret: [8u8; 16] };
    let c = Channel::from_keys(2, "x".to_string(), keys);
    assert_eq!(c.as_keys(), keys);
    assert!(c.same_as(&c.clone()));
    assert!(!c.same_as(&Channel::from_keys(3, "x".to_string(), keys)));
}

#[test]
fn channel_table_lookups() {
    let a = Channel::from_keys(2, "a".to_string(), ChannelKeys { hash: 10, secret: [1; 16] });
    let b = Channel::from_keys(0, "b".to_string(), ChannelKeys { hash: 11, secret: [2; 16] });
    let mut table = ChannelStorage::new();
    assert!(table.needs_store(&a));
    table.apply_insert(a.clone());
    table.apply_insert(b.clone());
    assert!(!table.needs_store(&a));
    assert_eq!(table.get(2), Some(&a));
    assert_eq!(table.get(0), Some(&b));
    assert_eq!(table.get(1), None);
    assert_eq!(table.get_by_hash(11), Some(&b));
    assert_eq!(table.get_by_hash(12), None);
    assert_eq!(table.get_by_name("a"), Some(&a));
    assert_eq!(table.get_by_name("c"), None);
    let renamed = Channel::from_keys(2, "z".to_string(), ChannelKeys { hash: 10, secret: [1; 16] });
    assert!(table.needs_store(&renamed));
    table.apply_insert(renamed.clone());
    assert_eq!(table.get(2), Some(&renamed));
    assert_eq!(table.get_by_name("z"), Some(&renamed));
    assert_eq!(table.get_by_name("a"), None);
    assert_eq!(table.get_by_hash(10), Some(&renamed));
}

#[test]
fn replaced_channel_leaves_no_stale_lookups() {
    let a = Channel::from_keys(0, "a".to_string(), ChannelKeys { hash: 1, secret: [1; 16] });
    let b = Channel::from_keys(0, "b".to_string(), ChannelKeys { hash: 2, secret: [2; 16] });
    let mut table = ChannelStorage::new();
    table.apply_insert(a.clone());
    table.apply_insert(b.clone());
    assert_eq!(table.get_by_name("a"), None);
    assert_eq!(table.get_by_hash(1), None);
    assert_eq!(table.get_by_name("b"), Some(&b));
    assert_eq!(table.get_by_hash(2), Some(&b));
    assert_eq!(table.get(0), Some(&b));
}

#[test]
fn replaced_channel_hands_its_name_to_a_namesake() {
    let first = Channel::from_keys(1, "x".to_string(), ChannelKeys { hash: 5, secret: [1; 16] });
    let second = Channel::from_keys(3, "x".to_string(), ChannelKeys { hash: 5, secret: [2; 16] });
    let other = Channel::from_keys(3, "y".to_string(), ChannelKeys { hash: 6, secret: [3; 16] });
    let mut table = ChannelStorage::new();
    table.apply_insert(first.clone());
    table.apply_insert(second.clone());
    assert_eq!(table.get_by_name("x"), Some(&second));
    table.apply_insert(other.clone());
    assert_eq!(table.get_by_name("x"), Some(&first));
    assert_eq!(table.get_by_hash(5), Some(&first));
    assert_eq!(table.get_by_name("y"), Some(&other));
    assert_eq!(table.get_by_hash(6), Some(&other));
}

#[test]
fn channel_table_from_stored_channels() {
    let a = Channel::from_keys(5, "a".to_string(), ChannelKeys { hash: 7, secret: [1; 16] });
    let b = Channel::from_keys(1, "b".to_string(), ChannelKeys { hash: 7, secret: [2; 16] });
    let table = ChannelStorage::from_channels(vec![a.clone(), b.clone()]);
    assert_eq!(table.get(1), Some(&b));
    assert_eq!(table.get(5), Some(&a));
    // both share hash 7: the index keeps the later slot
    assert_eq!(table.get_by_hash(7), Some(&a));
}

#[test]
fn file_db_keys_name_files() {
    let mut s = String::new();
    7u8.encode(&mut s);
    s.push('/');
    42u8.encode(&mut s);
    s.push('/');
    255u8.encode(&mut s);
    assert_eq!(s, "7/42/255");
    let mut k = [0u8; 32];
    for (i, b) in k.iter_mut().enumerate() {
        *b = i as u8;
    }
    let mut t = String::new();
    k.encode(&mut t);
    assert_eq!(t, "AAECAwQFBgcICQoLDA0ODxAREhMUFRYXGBkaGxwdHh8=");
    assert!(5u8.prefix_matches(&[5, 1]));
    assert!(!5u8.prefix_matches(&[4]));
    assert!(k.prefix_matches(&[0, 1, 2]));
    assert!(!k.prefix_matches(&[1]));
    assert!(3u8.key_before(&4));
    assert!(!k.key_before(&k));
    assert!(k.same_key(&k));
}

#[test]
fn cached_file_db_keeps_order() {
    let mut db: CachedFileDb<Channel> = CachedFileDb::new();
    let c3 = Channel::from_keys(3, "c".to_string(), ChannelKeys { hash: 1, secret: [0; 16] });
    let c1 = Channel::from_keys(1, "a".to_string(), ChannelKeys { hash: 2, secret: [0; 16] });
    db.insert_cached(&c3);
    db.insert_cached(&c1);
    assert_eq!(db.cache.iter().map(|c| c.idx).collect::<Vec<_>>(), vec![1, 3]);
    assert_eq!(db.get_cached(&[3]).map(|c| c.name.clone()), Some("c".to_string()));
    assert!(db.contains(&[1]));
    assert!(!db.contains(&[2]));
    assert!(db.delete_cached(&1));
    assert!(!db.delete_cached(&1));
    assert_eq!(db.cache.len(), 1);
    let contact = Contact {
        key: [9u8; 32],
        name: "n".to_string(),
        path_to: Some(ContactPath { len_header: 1, raw: vec![3] }),
        flags: 0,
        latitude: 0,
        longitude: 0,
        last_heard: 0,
    };
    assert_eq!(
        contact.as_cached(),
        CachedContact { key: [9u8; 32], path: Some(ContactPath { len_header: 1, raw: vec![3] }) }
    );
}

#[test]
fn config_variables() {
    let mut cfg = CompanionConfig::new();
    cfg.set("wifi_ssid", "home");
    cfg.set("wifi_password", "pw");
    cfg.set("other", "x");
    assert_eq!(cfg.wifi_ssid, "home");
    assert_eq!(cfg.wifi_password, "pw");
    let vars = cfg.as_vars();
    let mut expected = CustomVars::new();
    expected.push(b"wifi_ssid".to_vec(), b"home".to_vec());
    expected.push(b"wifi_password".to_vec(), b"pw".to_vec());
    assert_eq!(vars, expected);
    assert_eq!(vars.companion_serialize(), b"\x15wifi_ssid:home,wifi_password:pw".to_vec());
}

#[test]
fn identity_name_is_hex_of_key_head() {
    let mut pk = [0u8; 32];
    pk[..8].copy_from_slice(&[0xab, 0xcd, 0xef, 1, 2, 3, 4, 5]);
    pk[8] = 0xff;
    assert_eq!(identity_name(&pk), "abcdef0102030405");
}

#[test]
fn contact_cache_from_stored_contacts() {
    let store = ContactStorage::from_contacts(vec![cached(4, 0), cached(1, 0), cached(4, 0)]);
    let keys: Vec<[u8; 32]> = store.hot_cache.iter().map(|c| c.key).collect();
    assert_eq!(keys, vec![key_with(1, 0), key_with(4, 0)]);
}

#[test]
fn file_db_cache_from_records() {
    let records = vec![
        Channel::from_keys(9, "n".to_string(), ChannelKeys { hash: 1, secret: [0; 16] }),
        Channel::from_keys(2, "t".to_string(), ChannelKeys { hash: 2, secret: [0; 16] }),
    ];
    let db: CachedFileDb<Channel> = CachedFileDb::from_records(&records);
    assert_eq!(db.cache.iter().map(|c| c.idx).collect::<Vec<_>>(), vec![2, 9]);
}

#[test]
fn adverts_make_contacts() {
    let a = AdvertData { flags: 0x81, latitude: Some(5), longitude: None, name: Some(b"bob".to_vec()) };
    let c = contact_from_advert([2u8; 32], Some(&a), None, 3_500_000).unwrap();
    assert_eq!(c.key, [2u8; 32]);
    assert_eq!(c.name, "bob");
    assert_eq!(c.flags, 0x81);
    assert_eq!(c.latitude, 5);
    assert_eq!(c.longitude, 0);
    assert_eq!(c.last_heard, 3);
    assert!(c.path_to.is_none());
    assert!(contact_from_advert([2u8; 32], None, None, 0).is_none());
    let unnamed = AdvertData { name: None, ..a.clone() };
    assert!(contact_from_advert([2u8; 32], Some(&unnamed), None, 0).is_none());
    let bad = AdvertData { name: Some(vec![0xff, 0xfe]), ..a };
    assert!(contact_from_advert([2u8; 32], Some(&bad), None, 0).is_none());
}

#[test]
fn channel_keys_from_secret_and_info() {
    let keys = ChannelKeys::from_secret([0x11; 16]);
    let named = Channel::from_name("#test", 1);
    assert_eq!(ChannelKeys::from_secret(named.key).hash, named.hash);
    assert_eq!(keys.secret, [0x11; 16]);
    let mut table = ChannelStorage::new();
    table.apply_insert(Channel::from_keys(6, "#x".to_string(), keys));
    let info = table.channel_info(6).unwrap();
    assert_eq!(info.idx, 6);
    assert_eq!(info.name.0, b"#x".to_vec());
    assert_eq!(info.secret, [0x11; 16]);
    assert!(table.channel_info(7).is_err());
}
