//! Contacts: their stored form, their wire encoding for the companion app,
//! and the in-memory cache of contact keys and paths, kept sorted by key.
use vstd::prelude::*;

use crate::lex::{
    compare_bytes, has_prefix, lemma_lex_asymmetric, lemma_lex_total, lemma_lex_transitive,
    lemma_past_prefix_block, lemma_prefix_not_before, lex_lt, starts_with, Lex,
};
use crate::protocol::{padded, push_padded, CompanionSer, ContactEnd, ContactStart, ResponseCodes};
use crate::wire::{le32, lemma_le32_roundtrip, push_slice, push_u32_le, u32_of_le};

verus! {

/// Advert flag: the node is a chat node.
pub const IS_CHAT_NODE: u8 = 0x01;

/// Advert flag: the node is a repeater.
pub const IS_REPEATER: u8 = 0x02;

/// Advert flag: the node is a room server.
pub const IS_ROOM_SERVER: u8 = 0x03;

/// Advert flag: the node is a sensor.
pub const IS_SENSOR: u8 = 0x04;

/// Advert flag: the advert carries a location.
pub const HAS_LOCATION: u8 = 0x10;

/// Advert flag: the advert carries the first feature field.
pub const HAS_FEATURE1: u8 = 0x20;

/// Advert flag: the advert carries the second feature field.
pub const HAS_FEATURE2: u8 = 0x40;

/// Advert flag: the advert carries a name.
pub const HAS_NAME: u8 = 0x80;

/// The flag bits that an advert may carry: every bit but `0x08`.
pub open spec fn valid_flags(flags: u8) -> bool {
    flags & 0x08 == 0
}

/// `flags` holds every bit of `flag`.
pub open spec fn has_flags(flags: u8, flag: u8) -> bool {
    flags & flag == flag
}

/// The advert type reported to the app: chat node, repeater, room server,
/// or none, checked in that order.
pub open spec fn adv_type(flags: u8) -> u8 {
    if has_flags(flags, IS_CHAT_NODE) {
        1
    } else if has_flags(flags, IS_REPEATER) {
        2
    } else if has_flags(flags, IS_ROOM_SERVER) {
        3
    } else {
        0
    }
}

/// The advert type reported to the app for `flags`.
pub fn advert_type(flags: u8) -> (r: u8)
    ensures
        r == adv_type(flags),
{
    if flags & IS_CHAT_NODE == IS_CHAT_NODE {
        1
    } else if flags & IS_REPEATER == IS_REPEATER {
        2
    } else if flags & IS_ROOM_SERVER == IS_ROOM_SERVER {
        3
    } else {
        0
    }
}

/// A route to a contact: its length header byte and its hop hashes.
#[derive(Clone, Debug, PartialEq, Eq)]
pub struct ContactPath {
    pub len_header: u8,
    pub raw: Vec<u8>,
}

/// A contact as stored on flash.
#[derive(Debug)]
pub struct Contact {
    pub key: [u8; 32],
    pub name: String,
    pub path_to: Option<ContactPath>,
    pub flags: u8,
    pub latitude: u32,
    pub longitude: u32,
    pub last_heard: u32,
}

/// The name of a contact, as bytes.
pub open spec fn name_bytes(name: Seq<char>) -> Seq<u8> {
    vstd::utf8::encode_utf8(name)
}

impl CompanionSer for Contact {
    open spec fn spec_encoding(&self) -> Seq<u8> {
        seq![ResponseCodes::Contact.spec_code()] + self.key@ + seq![adv_type(self.flags), self.flags]
            + match self.path_to {
            Some(p) => seq![p.len_header] + padded(p.raw@, 64),
            None => seq![0xFFu8] + padded(Seq::empty(), 64),
        } + padded(name_bytes(self.name@), 32) + le32(self.last_heard) + le32(self.latitude)
            + le32(self.longitude) + le32(0)
    }

    open spec fn spec_size(&self) -> nat {
        1 + 32 + 1 + 1 + 1 + 64 + 32 + 4 + 4 + 4 + 4
    }

    open spec fn spec_well_formed(&self) -> bool {
        &&& valid_flags(self.flags)
        &&& name_bytes(self.name@).len() <= 32
        &&& match self.path_to {
            Some(p) => p.raw@.len() <= 64,
            None => true,
        }
    }

    proof fn lemma_size_matches_encoding(&self) {
    }

    fn ser_size(&self) -> (r: usize) {
        1 + 32 + 1 + 1 + 1 + 64 + 32 + 4 + 4 + 4 + 4
    }

    fn companion_serialize(&self) -> (r: Vec<u8>) {
        let mut out: Vec<u8> = Vec::new();
        out.push(ResponseCodes::Contact.code());
        push_slice(&mut out, self.key.as_slice());
        out.push(advert_type(self.flags));
        out.push(self.flags);
        match &self.path_to {
            Some(path) => {
                out.push(path.len_header);
                push_padded(&mut out, path.raw.as_slice(), 64);
            },
            None => {
                out.push(0xFFu8);
                let empty: Vec<u8> = Vec::new();
                push_padded(&mut out, empty.as_slice(), 64);
            },
        }
        let name = self.name.as_str().as_bytes();
        push_padded(&mut out, name, 32);
        push_u32_le(&mut out, self.last_heard);
        push_u32_le(&mut out, self.latitude);
        push_u32_le(&mut out, self.longitude);
        push_u32_le(&mut out, 0);
        assert(out@ =~= self.spec_encoding());
        out
    }
}

/// The application data of an advert that the node keeps of a contact.
#[derive(Clone, Debug, PartialEq, Eq)]
pub struct AdvertData {
    pub flags: u8,
    pub latitude: Option<u32>,
    pub longitude: Option<u32>,
    pub name: Option<Vec<u8>>,
}

/// The contact an advert makes of its sender, heard at `now_us` over
/// `path_to`: `None` when the advert carries no application data, no name,
/// or a name that is not UTF-8. A missing location counts as zero.
pub fn contact_from_advert(
    public_key: [u8; 32],
    appdata: Option<&AdvertData>,
    path_to: Option<ContactPath>,
    now_us: u64,
) -> (r: Option<Contact>)
    ensures
        r is Some <==> (appdata matches Some(a) && a.name matches Some(n)
            && vstd::utf8::valid_utf8(n@)),
        r matches Some(c) ==> ({
            let a = appdata->Some_0;
            &&& c.key == public_key
            &&& name_bytes(c.name@) == a.name->Some_0@
            &&& c.path_to == path_to
            &&& c.flags == a.flags
            &&& c.latitude == (match a.latitude {
                Some(v) => v,
                None => 0u32,
            })
            &&& c.longitude == (match a.longitude {
                Some(v) => v,
                None => 0u32,
            })
            &&& c.last_heard == (now_us / 1_000_000) as u32
        }),
{
    let a = match appdata {
        Some(a) => a,
        None => {
            return None;
        },
    };
    let raw = match &a.name {
        Some(n) => n,
        None => {
            return None;
        },
    };
    let name = match crate::bytes::utf8_text(raw.as_slice()) {
        Some(s) => s,
        None => {
            return None;
        },
    };
    let latitude = match a.latitude {
        Some(v) => v,
        None => 0,
    };
    let longitude = match a.longitude {
        Some(v) => v,
        None => 0,
    };
    Some(
        Contact {
            key: public_key,
            name: name.to_owned(),
            path_to,
            flags: a.flags,
            latitude,
            longitude,
            last_heard: (now_us / 1_000_000) as u32,
        },
    )
}

/// What the node keeps in memory of a contact: its key and its route.
#[derive(Clone, Debug, PartialEq, Eq)]
pub struct CachedContact {
    pub key: [u8; 32],
    pub path: Option<ContactPath>,
}

impl CachedContact {
    /// The cached part of a stored contact.
    pub fn from_full(contact: Contact) -> (r: CachedContact)
        ensures
            r.key == contact.key,
            r.path == contact.path_to,
    {
        CachedContact { key: contact.key, path: contact.path_to }
    }
}

/// The cache is sorted by key, each key once.
pub open spec fn strictly_sorted(cache: Seq<CachedContact>) -> bool {
    forall|i: int, j: int| 0 <= i < j < cache.len() ==> lex_lt(#[trigger] cache[i].key@, #[trigger] cache[j].key@)
}

/// No two contacts of `s` share a key.
pub open spec fn distinct_keys(s: Seq<CachedContact>) -> bool {
    forall|i: int, j: int| 0 <= i < j < s.len() ==> #[trigger] s[i].key != #[trigger] s[j].key
}

/// Some contact of the cache has key `key`.
pub open spec fn caches_key(cache: Seq<CachedContact>, key: [u8; 32]) -> bool {
    exists|j: int| 0 <= j < cache.len() && cache[j].key == key
}

/// The in-memory contact cache, sorted by key.
#[derive(Debug)]
pub struct ContactStorage {
    pub hot_cache: Vec<CachedContact>,
}

/// The index of the first cached contact whose key starts with `prefix`.
pub open spec fn first_with_prefix(cache: Seq<CachedContact>, prefix: Seq<u8>, i: int) -> bool {
    &&& 0 <= i < cache.len()
    &&& starts_with(cache[i].key@, prefix)
    &&& forall|j: int| 0 <= j < i ==> !starts_with(#[trigger] cache[j].key@, prefix)
}

/// No cached contact's key starts with `prefix`.
pub open spec fn none_with_prefix(cache: Seq<CachedContact>, prefix: Seq<u8>) -> bool {
    forall|j: int| 0 <= j < cache.len() ==> !starts_with(#[trigger] cache[j].key@, prefix)
}

impl ContactStorage {
    /// The cache is sorted by key, each key once.
    pub open spec fn wf(&self) -> bool {
        strictly_sorted(self.hot_cache@)
    }

    /// An empty cache.
    pub fn new() -> (r: ContactStorage)
        ensures
            r.wf(),
            r.hot_cache@.len() == 0,
    {
        ContactStorage { hot_cache: Vec::new() }
    }

    /// The cache of the contacts read from flash, each put where its key
    /// belongs in turn, a later contact replacing an earlier one of the same
    /// key.
    pub fn from_contacts(contacts: Vec<CachedContact>) -> (r: ContactStorage)
        ensures
            r.wf(),
            r.hot_cache@.len() <= contacts@.len(),
            forall|i: int| 0 <= i < contacts@.len() ==> caches_key(r.hot_cache@, #[trigger] contacts@[i].key),
            distinct_keys(contacts@) ==> r.hot_cache@.to_multiset() == contacts@.to_multiset(),
    {
        let ghost all = contacts@;
        let mut store = ContactStorage::new();
        let mut rest = contacts;
        let n = rest.len();
        let mut i: usize = 0;
        assert(all.subrange(0, 0) =~= store.hot_cache@);
        while i < n
            invariant
                n == all.len(),
                all == contacts@,
                i <= n,
                rest@ == all.subrange(i as int, n as int),
                store.wf(),
                store.hot_cache@.len() <= i,
                forall|k: int| 0 <= k < i ==> caches_key(store.hot_cache@, #[trigger] all[k].key),
                distinct_keys(all) ==> store.hot_cache@.to_multiset() == all.subrange(0, i as int).to_multiset(),
            decreases n - i,
        {
            let c = rest.remove(0);
            let ghost before = store.hot_cache@;
            store.insert_cached(c);
            proof {
                assert(all.subrange(i + 1, n as int) =~= all.subrange(i as int, n as int).drop_first());
                assert(all.subrange(0, i + 1) =~= all.subrange(0, i as int).push(c));
                vstd::seq_lib::to_multiset_build(all.subrange(0, i as int), c);
                if distinct_keys(all) {
                    if exists|p: int| 0 <= p < before.len() && before[p].key == c.key && store.hot_cache@ == before.update(p, c) {
                        let p = choose|p: int| 0 <= p < before.len() && before[p].key == c.key && store.hot_cache@ == before.update(p, c);
                        vstd::seq_lib::to_multiset_contains(before, before[p]);
                        vstd::seq_lib::to_multiset_contains(all.subrange(0, i as int), before[p]);
                        let k = choose|k: int| 0 <= k < i && all.subrange(0, i as int)[k] == before[p];
                        assert(all[k].key == all[i as int].key);
                        assert(false);
                    } else {
                        let p = choose|p: int| 0 <= p <= before.len() && (forall|q: int| 0 <= q < before.len() ==> #[trigger] before[q].key != c.key) && store.hot_cache@ == before.insert(p, c);
                        vstd::seq_lib::to_multiset_insert(before, p, c);
                    }
                }
                let after = store.hot_cache@;
                assert forall|k: int| 0 <= k < i + 1 implies caches_key(after, #[trigger] all[k].key) by {
                    if k < i {
                        let j0 = choose|j: int| 0 <= j < before.len() && before[j].key == all[k].key;
                        if exists|p: int| 0 <= p < before.len() && before[p].key == c.key && after == before.update(p, c) {
                            let p = choose|p: int| 0 <= p < before.len() && before[p].key == c.key && after == before.update(p, c);
                            assert(after[j0].key == all[k].key);
                            assert(caches_key(after, all[k].key));
                        } else {
                            let p = choose|p: int| 0 <= p <= before.len() && (forall|q: int| 0 <= q < before.len() ==> #[trigger] before[q].key != c.key) && after == before.insert(p, c);
                            if j0 < p {
                                assert(after[j0] == before[j0]);
                                assert(caches_key(after, all[k].key));
                            } else {
                                assert(after[j0 + 1] == before[j0]);
                                assert(caches_key(after, all[k].key));
                            }
                        }
                    } else {
                        let j = choose|j: int| 0 <= j < after.len() && after[j] == c;
                        assert(after[j].key == all[k].key);
                        assert(caches_key(after, all[k].key));
                    }
                }
            }
            i = i + 1;
        }
        assert forall|k: int| 0 <= k < contacts@.len() implies caches_key(store.hot_cache@, #[trigger] contacts@[k].key) by {
            assert(all[k] == contacts@[k]);
        }
        assert(all.subrange(0, n as int) =~= all);
        store
    }

    /// Binary search for `key`: `Ok` with its index when a contact has
    /// exactly this key, else `Err` with the number of keys before it.
    fn search(&self, key: &[u8]) -> (r: Result<usize, usize>)
        requires
            self.wf(),
        ensures
            r matches Ok(i) ==> i < self.hot_cache@.len() && self.hot_cache@[i as int].key@ == key@,
            r matches Err(i) ==> i <= self.hot_cache@.len() && (forall|j: int|
                0 <= j < i ==> lex_lt(#[trigger] self.hot_cache@[j].key@, key@)) && (forall|j: int|
                i <= j < self.hot_cache@.len() ==> lex_lt(key@, #[trigger] self.hot_cache@[j].key@)),
    {
        let mut lo: usize = 0;
        let mut hi: usize = self.hot_cache.len();
        while lo < hi
            invariant
                self.wf(),
                lo <= hi <= self.hot_cache@.len(),
                forall|j: int| 0 <= j < lo ==> lex_lt(#[trigger] self.hot_cache@[j].key@, key@),
                forall|j: int|
                    hi <= j < self.hot_cache@.len() ==> lex_lt(key@, #[trigger] self.hot_cache@[j].key@),
            decreases hi - lo,
        {
            let mid = lo + (hi - lo) / 2;
            let probe = &self.hot_cache[mid];
            match compare_bytes(probe.key.as_slice(), key) {
                Lex::Equal => {
                    return Ok(mid);
                },
                Lex::Less => {
                    proof {
                        assert forall|j: int| 0 <= j <= mid implies lex_lt(
                            #[trigger] self.hot_cache@[j].key@,
                            key@,
                        ) by {
                            if j < mid {
                                lemma_lex_transitive(
                                    self.hot_cache@[j].key@,
                                    self.hot_cache@[mid as int].key@,
                                    key@,
                                );
                            }
                        }
                    }
                    lo = mid + 1;
                },
                Lex::Greater => {
                    proof {
                        assert forall|j: int| mid <= j < self.hot_cache@.len() implies lex_lt(
                            key@,
                            #[trigger] self.hot_cache@[j].key@,
                        ) by {
                            if j > mid {
                                lemma_lex_transitive(
                                    key@,
                                    self.hot_cache@[mid as int].key@,
                                    self.hot_cache@[j].key@,
                                );
                            }
                        }
                    }
                    hi = mid;
                },
            }
        }
        Err(lo)
    }

    /// The index of the first cached contact whose key starts with
    /// `prefix`, or `None` when no key does.
    pub fn find_idx(&self, prefix: &[u8]) -> (r: Option<usize>)
        requires
            self.wf(),
        ensures
            r matches Some(i) ==> first_with_prefix(self.hot_cache@, prefix@, i as int),
            r is None ==> none_with_prefix(self.hot_cache@, prefix@),
    {
        let cache = &self.hot_cache;
        match self.search(prefix) {
            Ok(idx) => {
                proof {
                    assert(cache@[idx as int].key@.subrange(0, prefix@.len() as int) =~= prefix@);
                    assert forall|j: int| 0 <= j < idx implies !starts_with(
                        #[trigger] cache@[j].key@,
                        prefix@,
                    ) by {
                        if starts_with(cache@[j].key@, prefix@) {
                            lemma_prefix_not_before(cache@[j].key@, prefix@);
                        }
                    }
                }
                Some(idx)
            },
            Err(idx) => {
                if cache.len() == 0 {
                    return None;
                }
                let last = cache.len() - 1;
                let at = if idx < last {
                    idx
                } else {
                    last
                };
                let candidate = &cache[at];
                if has_prefix(candidate.key.as_slice(), prefix) {
                    proof {
                        if at < idx {
                            lemma_prefix_not_before(cache@[at as int].key@, prefix@);
                        }
                        assert forall|j: int| 0 <= j < at implies !starts_with(
                            #[trigger] cache@[j].key@,
                            prefix@,
                        ) by {
                            if starts_with(cache@[j].key@, prefix@) {
                                lemma_prefix_not_before(cache@[j].key@, prefix@);
                            }
                        }
                    }
                    Some(at)
                } else {
                    proof {
                        assert forall|j: int| 0 <= j < cache@.len() implies !starts_with(
                            #[trigger] cache@[j].key@,
                            prefix@,
                        ) by {
                            if starts_with(cache@[j].key@, prefix@) {
                                lemma_prefix_not_before(cache@[j].key@, prefix@);
                                if j >= idx {
                                    let e = cache@[at as int].key@;
                                    lemma_lex_asymmetric(e, prefix@);
                                    lemma_past_prefix_block(e, prefix@, cache@[j].key@);
                                    lemma_lex_asymmetric(e, cache@[j].key@);
                                }
                            }
                        }
                    }
                    None
                }
            },
        }
    }

    /// The cached contact whose key starts with `key`, the first such.
    pub fn fast_get(&self, key: &[u8]) -> (r: Option<&CachedContact>)
        requires
            self.wf(),
        ensures
            r matches Some(c) ==> exists|i: int|
                first_with_prefix(self.hot_cache@, key@, i) && *c == self.hot_cache@[i],
            r is None ==> none_with_prefix(self.hot_cache@, key@),
    {
        match self.find_idx(key) {
            Some(i) => Some(&self.hot_cache[i]),
            None => None,
        }
    }

    /// Puts `contact` in the cache: it replaces the contact of the same key,
    /// or goes where its key belongs in the order.
    pub fn insert_cached(&mut self, contact: CachedContact)
        requires
            old(self).wf(),
        ensures
            final(self).wf(),
            (exists|i: int|
                0 <= i < old(self).hot_cache@.len() && old(self).hot_cache@[i].key == contact.key
                    && final(self).hot_cache@ == old(self).hot_cache@.update(i, contact)) || (
            exists|i: int|
                0 <= i <= old(self).hot_cache@.len() && (forall|j: int|
                    0 <= j < old(self).hot_cache@.len() ==> #[trigger] old(self).hot_cache@[j].key
                        != contact.key) && final(self).hot_cache@ == old(self).hot_cache@.insert(
                    i,
                    contact,
                )),
            exists|i: int|
                0 <= i < final(self).hot_cache@.len() && final(self).hot_cache@[i] == contact,
    {
        let ghost start = self.hot_cache@;
        match self.search(contact.key.as_slice()) {
            Ok(idx) => {
                proof {
                    broadcast use vstd::array::group_array_axioms;

                    assert(start[idx as int].key =~= contact.key);
                }
                self.hot_cache.set(idx, contact);
                proof {
                    assert forall|i: int, j: int|
                        0 <= i < j < self.hot_cache@.len() implies lex_lt(
                        #[trigger] self.hot_cache@[i].key@,
                        #[trigger] self.hot_cache@[j].key@,
                    ) by {
                        assert(lex_lt(start[i].key@, start[j].key@));
                    }
                    assert(self.hot_cache@[idx as int] == contact);
                }
            },
            Err(idx) => {
                proof {
                    assert forall|j: int| 0 <= j < start.len() implies #[trigger] start[j].key
                        != contact.key by {
                        if j < idx {
                            lemma_lex_asymmetric(start[j].key@, contact.key@);
                        } else {
                            lemma_lex_asymmetric(contact.key@, start[j].key@);
                        }
                    }
                }
                self.hot_cache.insert(idx, contact);
                proof {
                    let nv = self.hot_cache@;
                    assert forall|i: int, j: int| 0 <= i < j < nv.len() implies lex_lt(
                        #[trigger] nv[i].key@,
                        #[trigger] nv[j].key@,
                    ) by {
                        if j < idx {
                            assert(lex_lt(start[i].key@, start[j].key@));
                        } else if j == idx {
                        } else if i < idx {
                            lemma_lex_transitive(start[i].key@, contact.key@, start[j - 1].key@);
                        } else if i == idx {
                        } else {
                            assert(lex_lt(start[i - 1].key@, start[j - 1].key@));
                        }
                    }
                    assert(nv[idx as int] == contact);
                }
            },
        }
    }

    /// Removes the first cached contact whose key starts with `key`, if
    /// any, and returns it.
    pub fn delete_cached(&mut self, key: &[u8]) -> (r: Option<CachedContact>)
        requires
            old(self).wf(),
        ensures
            final(self).wf(),
            r is None ==> none_with_prefix(old(self).hot_cache@, key@) && final(self).hot_cache@
                == old(self).hot_cache@,
            r matches Some(c) ==> exists|i: int|
                first_with_prefix(old(self).hot_cache@, key@, i) && c == old(self).hot_cache@[i]
                    && final(self).hot_cache@ == old(self).hot_cache@.remove(i),
    {
        let ghost start = self.hot_cache@;
        match self.find_idx(key) {
            Some(idx) => {
                let c = self.hot_cache.remove(idx);
                proof {
                    let nv = self.hot_cache@;
                    assert forall|i: int, j: int| 0 <= i < j < nv.len() implies lex_lt(
                        #[trigger] nv[i].key@,
                        #[trigger] nv[j].key@,
                    ) by {
                        if j < idx {
                            assert(lex_lt(start[i].key@, start[j].key@));
                        } else if i < idx {
                            assert(lex_lt(start[i].key@, start[j + 1].key@));
                        } else {
                            assert(lex_lt(start[i + 1].key@, start[j + 1].key@));
                        }
                    }
                }
                Some(c)
            },
            None => None,
        }
    }
}

/// The full records `records` are those of the cached contacts, one for each
/// in the cache's order.
pub open spec fn records_of_cache(cache: Seq<CachedContact>, records: Seq<Contact>) -> bool {
    &&& records.len() == cache.len()
    &&& forall|i: int| 0 <= i < cache.len() ==> #[trigger] records[i].key == cache[i].key
}

impl ContactStorage {
    /// The keys of the cached contacts, in the cache's order: the records
    /// to read for a contact listing.
    pub fn listing_keys(&self) -> (r: Vec<[u8; 32]>)
        ensures
            r@.len() == self.hot_cache@.len(),
            forall|i: int| 0 <= i < r@.len() ==> #[trigger] r@[i] == self.hot_cache@[i].key,
    {
        let mut out: Vec<[u8; 32]> = Vec::new();
        let mut i: usize = 0;
        while i < self.hot_cache.len()
            invariant
                i <= self.hot_cache@.len(),
                out@.len() == i,
                forall|j: int| 0 <= j < i ==> #[trigger] out@[j] == self.hot_cache@[j].key,
            decreases self.hot_cache@.len() - i,
        {
            out.push(self.hot_cache[i].key);
            i = i + 1;
        }
        out
    }

    /// The answer to a contact listing: the start, counting the cached
    /// contacts, then `records`, the full record of each cached contact in
    /// the cache's order, then the end. `None` when `records` are not those
    /// records, as when one of them could not be read.
    pub fn contact_listing(&self, records: Vec<Contact>) -> (r: Option<
        (ContactStart, Vec<Contact>, ContactEnd),
    >)
        ensures
            r is Some <==> records_of_cache(self.hot_cache@, records@),
            r matches Some((start, listed, end)) ==> {
                &&& start == ContactStart { contacts: self.hot_cache@.len() as u32 }
                &&& listed@ == records@
                &&& end == ContactEnd { last_mod: 0 }
            },
    {
        if records.len() != self.hot_cache.len() {
            return None;
        }
        let mut i: usize = 0;
        while i < records.len()
            invariant
                i <= records@.len(),
                records@.len() == self.hot_cache@.len(),
                forall|j: int| 0 <= j < i ==> #[trigger] records@[j].key == self.hot_cache@[j].key,
            decreases records@.len() - i,
        {
            match compare_bytes(records[i].key.as_slice(), self.hot_cache[i].key.as_slice()) {
                Lex::Equal => {},
                _ => {
                    return None;
                },
            }
            proof {
                assert(records@[i as int].key@ == self.hot_cache@[i as int].key@);
                assert(records@[i as int].key =~= self.hot_cache@[i as int].key);
            }
            i = i + 1;
        }
        let count = self.hot_cache.len() as u32;
        Some((ContactStart { contacts: count }, records, ContactEnd { last_mod: 0 }))
    }
}

/// A contact put in the cache is found again by its key, and by any prefix
/// of it that no other cached key shares.
pub proof fn lemma_inserted_contact_found(cache: Seq<CachedContact>, contact: CachedContact)
    requires
        strictly_sorted(cache),
        exists|i: int| 0 <= i < cache.len() && cache[i] == contact,
    ensures
        exists|i: int| first_with_prefix(cache, contact.key@, i) && cache[i] == contact,
{
    let i = choose|i: int| 0 <= i < cache.len() && cache[i] == contact;
    assert(cache[i].key@.subrange(0, 32) =~= contact.key@);
    assert forall|j: int| 0 <= j < i implies !starts_with(#[trigger] cache[j].key@, contact.key@) by {
        if starts_with(cache[j].key@, contact.key@) {
            assert(cache[j].key@ =~= cache[j].key@.subrange(0, 32));
            lemma_lex_asymmetric(cache[j].key@, cache[i].key@);
        }
    }
}

/// Where each field of a contact sits in what the app receives: the
/// response code 0x03, the key in bytes 1 to 32, the advert type at byte
/// 33 (1 chat node, 2 repeater, 3 room server, else 0, first match in that
/// order), the flags at byte 34, the path length header at byte 35 (0xFF
/// for a flood route), the path zero-padded to 64 bytes, the name
/// zero-padded to 32 bytes from byte 100, then the time last heard, the
/// latitude and the longitude in bytes 132 to 143, and four zero bytes.
pub proof fn lemma_contact_layout(c: Contact)
    requires
        c.spec_well_formed(),
    ensures
        ({
            let e = c.spec_encoding();
            let raw = match c.path_to {
                Some(p) => p.raw@,
                None => Seq::<u8>::empty(),
            };
            let name = name_bytes(c.name@);
            &&& e.len() == 148
            &&& e[0] == 0x03u8
            &&& e.subrange(1, 33) == c.key@
            &&& e[33] == (if c.flags & 1 == 1 {
                1u8
            } else if c.flags & 2 == 2 {
                2u8
            } else if c.flags & 3 == 3 {
                3u8
            } else {
                0u8
            })
            &&& e[34] == c.flags
            &&& e[35] == match c.path_to {
                Some(p) => p.len_header,
                None => 0xFFu8,
            }
            &&& e.subrange(36, 36 + raw.len() as int) == raw
            &&& (forall|i: int| 36 + raw.len() <= i < 100 ==> e[i] == 0u8)
            &&& e.subrange(100, 100 + name.len() as int) == name
            &&& (forall|i: int| 100 + name.len() <= i < 132 ==> e[i] == 0u8)
            &&& u32_of_le(e.subrange(132, 136)) == c.last_heard
            &&& u32_of_le(e.subrange(136, 140)) == c.latitude
            &&& u32_of_le(e.subrange(140, 144)) == c.longitude
            &&& e.subrange(144, 148) == seq![0u8, 0u8, 0u8, 0u8]
        }),
{
    let e = c.spec_encoding();
    let raw = match c.path_to {
        Some(p) => p.raw@,
        None => Seq::<u8>::empty(),
    };
    let name = name_bytes(c.name@);
    lemma_le32_roundtrip(c.last_heard);
    lemma_le32_roundtrip(c.latitude);
    lemma_le32_roundtrip(c.longitude);
    assert(padded(raw, 64).len() == 64);
    assert(padded(name, 32).len() == 32);
    assert(e.subrange(1, 33) =~= c.key@);
    assert(e.subrange(36, 100) =~= padded(raw, 64));
    assert(e.subrange(100, 132) =~= padded(name, 32));
    assert(e.subrange(36, 36 + raw.len() as int) =~= raw);
    assert(e.subrange(100, 100 + name.len() as int) =~= name);
    assert forall|i: int| 36 + raw.len() <= i < 100 implies e[i] == 0u8 by {
        assert(e[i] == e.subrange(36, 100)[i - 36]);
    }
    assert forall|i: int| 100 + name.len() <= i < 132 implies e[i] == 0u8 by {
        assert(e[i] == e.subrange(100, 132)[i - 100]);
    }
    assert(e.subrange(132, 136) =~= le32(c.last_heard));
    assert(e.subrange(136, 140) =~= le32(c.latitude));
    assert(e.subrange(140, 144) =~= le32(c.longitude));
    assert(e.subrange(144, 148) =~= le32(0));
    assert(le32(0) =~= seq![0u8, 0u8, 0u8, 0u8]);
}

} // verus!
