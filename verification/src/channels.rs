//! Group channels: their keys, how a channel is derived from its name, and
//! the in-memory channel table with its lookups by slot, hash and name.
use vstd::prelude::*;

use litemap::LiteMap;
use sha2::Digest;

use crate::protocol::{ChannelInfo, ErrResponse, NullPaddedSlice};
use crate::wire::push_slice;

verus! {

#[verifier::external_type_specification]
#[verifier::external_body]
#[verifier::reject_recursive_types(K)]
#[verifier::reject_recursive_types(V)]
#[verifier::reject_recursive_types(S)]
pub struct ExLiteMap<K: ?Sized, V: ?Sized, S>(LiteMap<K, V, S>);

/// What a channel-hash index holds: channel hash to channel slot.
pub uninterp spec fn hash_index_of(m: LiteMap<u8, u8>) -> Map<u8, u8>;

/// What a channel-name index holds: channel name to channel slot.
pub uninterp spec fn name_index_of(m: LiteMap<String, u8>) -> Map<Seq<char>, u8>;

/// `LiteMap::new_vec`: an empty hash index.
#[verifier::external_body]
fn new_hash_index() -> (r: LiteMap<u8, u8>)
    ensures
        hash_index_of(r).dom() == Set::<u8>::empty(),
{
    LiteMap::new_vec()
}

/// `LiteMap::new_vec`: an empty name index.
#[verifier::external_body]
fn new_name_index() -> (r: LiteMap<String, u8>)
    ensures
        name_index_of(r).dom() == Set::<Seq<char>>::empty(),
{
    LiteMap::new_vec()
}

/// `LiteMap::insert` on a hash index: maps `key` to `value`, replacing
/// any value it had.
#[verifier::external_body]
fn hash_index_insert(m: &mut LiteMap<u8, u8>, key: u8, value: u8)
    ensures
        hash_index_of(*final(m)) == hash_index_of(*old(m)).insert(key, value),
{
    m.insert(key, value);
}

/// `LiteMap::insert` on a name index: maps `key` to `value`, replacing
/// any value it had.
#[verifier::external_body]
fn name_index_insert(m: &mut LiteMap<String, u8>, key: String, value: u8)
    ensures
        name_index_of(*final(m)) == name_index_of(*old(m)).insert(key@, value),
{
    m.insert(key, value);
}

/// `LiteMap::remove` on a hash index: drops `key` and what it maps to.
#[verifier::external_body]
fn hash_index_remove(m: &mut LiteMap<u8, u8>, key: u8)
    ensures
        hash_index_of(*final(m)) == hash_index_of(*old(m)).remove(key),
{
    m.remove(&key);
}

/// `LiteMap::remove` on a name index: drops `key` and what it maps to.
#[verifier::external_body]
fn name_index_remove(m: &mut LiteMap<String, u8>, key: &str)
    ensures
        name_index_of(*final(m)) == name_index_of(*old(m)).remove(key@),
{
    m.remove(key);
}

/// `LiteMap::get` on a hash index: the value `key` maps to, if any.
#[verifier::external_body]
fn hash_index_get(m: &LiteMap<u8, u8>, key: u8) -> (r: Option<u8>)
    ensures
        r == hash_index_of(*m).get(key),
{
    m.get(&key).copied()
}

/// `LiteMap::get` on a name index: the value `key` maps to, if any.
#[verifier::external_body]
fn name_index_get(m: &LiteMap<String, u8>, key: &str) -> (r: Option<u8>)
    ensures
        r == name_index_of(*m).get(key@),
{
    m.get(key).copied()
}

/// `sha2::Sha256::digest(data)`, the SHA-256 digest of `data`.
pub uninterp spec fn sha256_of(data: Seq<u8>) -> Seq<u8>;

/// `sha2::Sha256::digest`: the 32-byte SHA-256 digest of `data`. Trusted:
/// the result is only named, a function of the bytes.
#[verifier::external_body]
fn sha256(data: &[u8]) -> (r: [u8; 32])
    ensures
        r@ == sha256_of(data@),
{
    sha2::Sha256::digest(data).into()
}

/// The keys of a channel as the mesh layer uses them.
#[derive(Clone, Copy, Debug, PartialEq, Eq)]
pub struct ChannelKeys {
    pub hash: u8,
    pub secret: [u8; 16],
}

impl ChannelKeys {
    /// The keys of a channel with secret `secret`: its hash is the first
    /// byte of the SHA-256 of the secret.
    pub fn from_secret(secret: [u8; 16]) -> (r: ChannelKeys)
        ensures
            r.secret == secret,
            r.hash == sha256_of(secret@)[0],
    {
        let digest = sha256(secret.as_slice());
        ChannelKeys { hash: digest[0], secret }
    }
}

/// A stored channel, with its name, secret key, key hash and slot.
#[derive(Clone, Debug, PartialEq, Eq)]
pub struct Channel {
    pub name: String,
    pub key: [u8; 16],
    pub hash: u8,
    pub idx: u8,
}

/// The public channel's name.
pub open spec fn public_name() -> Seq<char> {
    seq!['p', 'u', 'b', 'l', 'i', 'c']
}

/// The public channel's secret key.
pub open spec fn public_key() -> Seq<u8> {
    seq![
        0x8bu8, 0x33, 0x87, 0xe9, 0xc5, 0xcd, 0xea, 0x6a, 0xc9, 0xe5, 0xed, 0xba, 0xa1, 0x15, 0xcd,
        0x72,
    ]
}

/// Two channels have the same name, key, hash and slot.
pub open spec fn same_channel(a: Channel, b: Channel) -> bool {
    a.name@ == b.name@ && a.key == b.key && a.hash == b.hash && a.idx == b.idx
}

impl Channel {
    /// The public channel, in slot 0.
    pub fn public() -> (r: Channel)
        ensures
            r.name@ == public_name(),
            r.key@ == public_key(),
            r.hash == 0x11,
            r.idx == 0,
    {
        let key: [u8; 16] = [
            0x8bu8, 0x33, 0x87, 0xe9, 0xc5, 0xcd, 0xea, 0x6a, 0xc9, 0xe5, 0xed, 0xba, 0xa1, 0x15,
            0xcd, 0x72,
        ];
        assert(key@ =~= public_key());
        let name = "public";
        proof {
            reveal_strlit("public");
        }
        assert(name@ =~= public_name());
        Channel { name: name.to_owned(), key, hash: 0x11, idx: 0 }
    }

    /// The channel named `name` in slot `idx`: its key is the first half of
    /// the SHA-256 of the name, its hash the first byte of the SHA-256 of the
    /// key.
    pub fn from_name(name: &str, idx: u8) -> (r: Channel)
        ensures
            r.name@ == name@,
            r.key@ == sha256_of(vstd::utf8::encode_utf8(name@)).subrange(0, 16),
            r.hash == sha256_of(r.key@)[0],
            r.idx == idx,
    {
        let digest = sha256(name.as_bytes());
        let mut key: [u8; 16] = [0u8; 16];
        let mut i: usize = 0;
        while i < 16
            invariant
                i <= 16,
                digest@ == sha256_of(vstd::utf8::encode_utf8(name@)),
                forall|j: int| 0 <= j < i ==> key@[j] == digest@[j],
            decreases 16 - i,
        {
            key[i] = digest[i];
            i = i + 1;
        }
        assert(key@ =~= sha256_of(vstd::utf8::encode_utf8(name@)).subrange(0, 16));
        let digest_of_key = sha256(key.as_slice());
        Channel { name: name.to_owned(), key, hash: digest_of_key[0], idx }
    }

    /// The channel's keys.
    pub fn as_keys(&self) -> (r: ChannelKeys)
        ensures
            r.hash == self.hash,
            r.secret == self.key,
    {
        ChannelKeys { hash: self.hash, secret: self.key }
    }

    /// The channel named `name` in slot `idx` with the keys `keys`.
    pub fn from_keys(idx: u8, name: String, keys: ChannelKeys) -> (r: Channel)
        ensures
            r.name == name,
            r.key == keys.secret,
            r.hash == keys.hash,
            r.idx == idx,
    {
        Channel { name, key: keys.secret, hash: keys.hash, idx }
    }

    /// Whether two channels have the same name, key, hash and slot.
    pub fn same_as(&self, other: &Channel) -> (r: bool)
        ensures
            r == same_channel(*self, *other),
    {
        self.idx == other.idx && self.hash == other.hash && same_key(&self.key, &other.key)
            && self.name == other.name
    }
}

/// Whether two channel keys are the same.
fn same_key(a: &[u8; 16], b: &[u8; 16]) -> (r: bool)
    ensures
        r <==> *a == *b,
{
    let mut i: usize = 0;
    while i < 16
        invariant
            i <= 16,
            forall|j: int| 0 <= j < i ==> a@[j] == b@[j],
        decreases 16 - i,
    {
        if a[i] != b[i] {
            return false;
        }
        i = i + 1;
    }
    proof {
        broadcast use vstd::array::group_array_axioms;

        assert(*a =~= *b);
    }
    true
}

/// The table is sorted by slot, each slot once.
pub open spec fn sorted_by_slot(cache: Seq<Channel>) -> bool {
    forall|i: int, j: int| 0 <= i < j < cache.len() ==> #[trigger] cache[i].idx < #[trigger] cache[j].idx
}

/// The position at which a channel of slot `idx` goes in a table sorted by
/// slot that has none: after every lower slot, before every higher one.
pub open spec fn slot_position(cache: Seq<Channel>, idx: u8) -> int {
    choose|i: int| #[trigger] splits_at(cache, idx, i)
}

/// Every slot before position `i` is lower than `idx`, every slot from `i`
/// on is higher.
pub open spec fn splits_at(cache: Seq<Channel>, idx: u8, i: int) -> bool {
    &&& 0 <= i <= cache.len()
    &&& forall|j: int| 0 <= j < i ==> #[trigger] cache[j].idx < idx
    &&& forall|j: int| i <= j < cache.len() ==> #[trigger] cache[j].idx > idx
}

/// The table with `c` put in its slot: replacing the channel of that slot,
/// or inserted where its slot belongs.
pub open spec fn put_in_slot(cache: Seq<Channel>, c: Channel) -> Seq<Channel> {
    if exists|i: int| 0 <= i < cache.len() && #[trigger] cache[i].idx == c.idx {
        cache.update(choose|i: int| 0 <= i < cache.len() && #[trigger] cache[i].idx == c.idx, c)
    } else {
        cache.insert(slot_position(cache, c.idx), c)
    }
}

/// The table built by putting each of `channels` in its slot, in order.
pub open spec fn slots_of(channels: Seq<Channel>) -> Seq<Channel>
    decreases channels.len(),
{
    if channels.len() == 0 {
        Seq::empty()
    } else {
        put_in_slot(slots_of(channels.drop_last()), channels.last())
    }
}

/// The hash index built from a table, each channel in order.
pub open spec fn hash_map_of(cache: Seq<Channel>) -> Map<u8, u8>
    decreases cache.len(),
{
    if cache.len() == 0 {
        Map::empty()
    } else {
        hash_map_of(cache.drop_last()).insert(cache.last().hash, cache.last().idx)
    }
}

/// The name index built from a table, each channel in order.
pub open spec fn name_map_of(cache: Seq<Channel>) -> Map<Seq<char>, u8>
    decreases cache.len(),
{
    if cache.len() == 0 {
        Map::empty()
    } else {
        name_map_of(cache.drop_last()).insert(cache.last().name@, cache.last().idx)
    }
}

/// The channel of slot `idx` in a table sorted by slot, if any.
pub open spec fn in_slot(cache: Seq<Channel>, idx: u8) -> Option<Channel> {
    if exists|i: int| 0 <= i < cache.len() && #[trigger] cache[i].idx == idx {
        Some(cache[choose|i: int| 0 <= i < cache.len() && #[trigger] cache[i].idx == idx])
    } else {
        None
    }
}

/// A lookup gave the channel `expect`, or nothing when `expect` is `None`.
pub open spec fn found(r: Option<&Channel>, expect: Option<Channel>) -> bool {
    match r {
        Some(c) => expect == Some(*c),
        None => expect is None,
    }
}

/// What the hash index keys a channel by.
pub open spec fn hash_key() -> spec_fn(Channel) -> u8 {
    |c: Channel| c.hash
}

/// What the name index keys a channel by.
pub open spec fn name_key() -> spec_fn(Channel) -> Seq<char> {
    |c: Channel| c.name@
}

/// An index `m` of the table `cache` by `key` is sound and complete: each
/// key it holds leads to a slot whose channel has that key, and the key of
/// every channel of the table is in it.
#[verifier::opaque]
pub open spec fn index_ok<K>(cache: Seq<Channel>, m: Map<K, u8>, key: spec_fn(Channel) -> K) -> bool {
    &&& forall|k: K| #[trigger]
        m.contains_key(k) ==> exists|i: int|
            0 <= i < cache.len() && cache[i].idx == m[k] && key(cache[i]) == k
    &&& forall|i: int| 0 <= i < cache.len() ==> m.contains_key(key(#[trigger] cache[i]))
}

/// Position `i` holds the first channel of `cache`, outside slot `skip`,
/// whose key is `k`.
pub open spec fn first_other<K>(
    cache: Seq<Channel>,
    k: K,
    skip: u8,
    key: spec_fn(Channel) -> K,
    i: int,
) -> bool {
    &&& 0 <= i < cache.len()
    &&& key(cache[i]) == k
    &&& cache[i].idx != skip
    &&& forall|j: int| 0 <= j < i ==> !(key(#[trigger] cache[j]) == k && cache[j].idx != skip)
}

/// The slot of the first channel of `cache`, outside slot `skip`, whose key
/// is `k`, if any.
pub open spec fn other_slot<K>(cache: Seq<Channel>, k: K, skip: u8, key: spec_fn(Channel) -> K) -> Option<
    u8,
> {
    if exists|i: int| first_other(cache, k, skip, key, i) {
        Some(cache[choose|i: int| first_other(cache, k, skip, key, i)].idx)
    } else {
        None
    }
}

/// The index `m` of the table `cache` by `key` once `c` is put in its
/// slot: where `c` replaces a channel whose key led to that slot, the key
/// now leads to the first other channel with that key, or is dropped when
/// there is none; then `c`'s key leads to `c`'s slot.
pub open spec fn index_after<K>(
    cache: Seq<Channel>,
    m: Map<K, u8>,
    c: Channel,
    key: spec_fn(Channel) -> K,
) -> Map<K, u8> {
    let kept = match in_slot(cache, c.idx) {
        Some(o) => if m.contains_key(key(o)) && m[key(o)] == c.idx {
            match other_slot(cache, key(o), c.idx, key) {
                Some(s) => m.insert(key(o), s),
                None => m.remove(key(o)),
            }
        } else {
            m
        },
        None => m,
    };
    kept.insert(key(c), c.idx)
}

/// The channel table: channels sorted by slot, with indexes from key hash
/// and from name to slot.
pub struct ChannelStorage {
    by_hash: LiteMap<u8, u8>,
    by_name: LiteMap<String, u8>,
    cache: Vec<Channel>,
}

impl ChannelStorage {
    /// The channels, sorted by slot.
    pub closed spec fn spec_cache(&self) -> Seq<Channel> {
        self.cache@
    }

    /// The index from key hash to slot.
    pub closed spec fn spec_by_hash(&self) -> Map<u8, u8> {
        hash_index_of(self.by_hash)
    }

    /// The index from name to slot.
    pub closed spec fn spec_by_name(&self) -> Map<Seq<char>, u8> {
        name_index_of(self.by_name)
    }

    /// The channels are sorted by slot, each slot once, and both indexes
    /// lead exactly to the channels of the table with the hash or name.
    pub open spec fn wf(&self) -> bool {
        &&& sorted_by_slot(self.spec_cache())
        &&& index_ok(self.spec_cache(), self.spec_by_hash(), hash_key())
        &&& index_ok(self.spec_cache(), self.spec_by_name(), name_key())
    }

    /// An empty table.
    pub fn new() -> (r: ChannelStorage)
        ensures
            r.wf(),
            r.spec_cache().len() == 0,
            r.spec_by_hash().dom() == Set::<u8>::empty(),
            r.spec_by_name().dom() == Set::<Seq<char>>::empty(),
    {
        let r = ChannelStorage { by_hash: new_hash_index(), by_name: new_name_index(), cache: Vec::new() };
        proof {
            reveal(index_ok);
            assert(forall|k: u8| !r.spec_by_hash().contains_key(k));
            assert(forall|k: Seq<char>| !r.spec_by_name().contains_key(k));
        }
        r
    }

    /// Binary search for slot `idx`: `Ok` with its position when a channel
    /// has it, else `Err` with the position where it belongs.
    fn search(&self, idx: u8) -> (r: Result<usize, usize>)
        requires
            sorted_by_slot(self.cache@),
        ensures
            r matches Ok(i) ==> i < self.cache@.len() && self.cache@[i as int].idx == idx,
            r matches Err(i) ==> i <= self.cache@.len() && (forall|j: int|
                0 <= j < i ==> #[trigger] self.cache@[j].idx < idx) && (forall|j: int|
                i <= j < self.cache@.len() ==> #[trigger] self.cache@[j].idx > idx),
    {
        let mut lo: usize = 0;
        let mut hi: usize = self.cache.len();
        while lo < hi
            invariant
                sorted_by_slot(self.cache@),
                lo <= hi <= self.cache@.len(),
                forall|j: int| 0 <= j < lo ==> #[trigger] self.cache@[j].idx < idx,
                forall|j: int| hi <= j < self.cache@.len() ==> #[trigger] self.cache@[j].idx > idx,
            decreases hi - lo,
        {
            let mid = lo + (hi - lo) / 2;
            let probe = self.cache[mid].idx;
            if probe == idx {
                return Ok(mid);
            } else if probe < idx {
                proof {
                    assert forall|j: int| 0 <= j <= mid implies #[trigger] self.cache@[j].idx
                        < idx by {
                        if j < mid {
                            assert(self.cache@[j].idx < self.cache@[mid as int].idx);
                        }
                    }
                }
                lo = mid + 1;
            } else {
                proof {
                    assert forall|j: int| mid <= j < self.cache@.len() implies #[trigger] self.cache@[j].idx
                        > idx by {
                        if j > mid {
                            assert(self.cache@[mid as int].idx < self.cache@[j].idx);
                        }
                    }
                }
                hi = mid;
            }
        }
        Err(lo)
    }

    /// The channel in slot `idx`, if any.
    pub fn get(&self, idx: u8) -> (r: Option<&Channel>)
        requires
            self.wf(),
        ensures
            found(r, in_slot(self.spec_cache(), idx)),
    {
        match self.search(idx) {
            Ok(i) => {
                proof {
                    let k = choose|k: int| 0 <= k < self.cache@.len() && #[trigger] self.cache@[k].idx == idx;
                    if k != i {
                        if k < i {
                            assert(self.cache@[k].idx < self.cache@[i as int].idx);
                        } else {
                            assert(self.cache@[i as int].idx < self.cache@[k].idx);
                        }
                    }
                }
                Some(&self.cache[i])
            },
            Err(_) => None,
        }
    }

    /// The channel whose key hash is `hash`, through the hash index.
    pub fn get_by_hash(&self, hash: u8) -> (r: Option<&Channel>)
        requires
            self.wf(),
        ensures
            found(
                r,
                match self.spec_by_hash().get(hash) {
                    Some(i) => in_slot(self.spec_cache(), i),
                    None => None,
                },
            ),
            r matches Some(c) ==> c.hash == hash,
            r is None <==> forall|i: int|
                0 <= i < self.spec_cache().len() ==> #[trigger] self.spec_cache()[i].hash != hash,
    {
        proof {
            reveal(index_ok);
            lemma_index_lookup(self.cache@, hash_index_of(self.by_hash), hash_key(), hash);
        }
        match hash_index_get(&self.by_hash, hash) {
            Some(i) => self.get(i),
            None => None,
        }
    }

    /// The channel named `name`, through the name index.
    pub fn get_by_name(&self, name: &str) -> (r: Option<&Channel>)
        requires
            self.wf(),
        ensures
            found(
                r,
                match self.spec_by_name().get(name@) {
                    Some(i) => in_slot(self.spec_cache(), i),
                    None => None,
                },
            ),
            r matches Some(c) ==> c.name@ == name@,
            r is None <==> forall|i: int|
                0 <= i < self.spec_cache().len() ==> #[trigger] self.spec_cache()[i].name@ != name@,
    {
        proof {
            reveal(index_ok);
            lemma_index_lookup(self.cache@, name_index_of(self.by_name), name_key(), name@);
        }
        match name_index_get(&self.by_name, name) {
            Some(i) => self.get(i),
            None => None,
        }
    }

    /// What the app is told of slot `idx`: the channel's slot, name and
    /// secret, or an error when the slot is empty.
    pub fn channel_info(&self, idx: u8) -> (r: Result<ChannelInfo, ErrResponse>)
        requires
            self.wf(),
            in_slot(self.spec_cache(), idx) matches Some(c) ==> vstd::utf8::encode_utf8(c.name@).len()
                <= 32,
        ensures
            in_slot(self.spec_cache(), idx) is None ==> r == Err::<ChannelInfo, ErrResponse>(
                ErrResponse { code: None },
            ),
            in_slot(self.spec_cache(), idx) matches Some(c) ==> (r matches Ok(info) && info.idx
                == idx && info.name.0@ == vstd::utf8::encode_utf8(c.name@) && info.secret == c.key),
    {
        match self.get(idx) {
            Some(channel) => {
                let mut name: Vec<u8> = Vec::new();
                push_slice(&mut name, channel.name.as_str().as_bytes());
                Ok(ChannelInfo { idx, name: NullPaddedSlice::<32>::from(name), secret: channel.key })
            },
            None => Err(ErrResponse { code: None }),
        }
    }

    /// Whether `channel` must be written to flash: unless the table holds
    /// the very same channel in its slot.
    pub fn needs_store(&self, channel: &Channel) -> (r: bool)
        requires
            self.wf(),
        ensures
            r <==> !(in_slot(self.spec_cache(), channel.idx) matches Some(c) && same_channel(c, *channel)),
    {
        match self.get(channel.idx) {
            Some(existing) => !channel.same_as(existing),
            None => true,
        }
    }

    /// Records `channel` in the table and both indexes, once it is stored.
    /// Where it replaces the channel of its slot, that channel's hash and
    /// name no longer lead to the slot: each leads to the first other
    /// channel with that hash or name, or is dropped when there is none.
    /// The channel is then found by its slot, its hash and its name.
    pub fn apply_insert(&mut self, channel: Channel)
        requires
            old(self).wf(),
        ensures
            final(self).wf(),
            final(self).spec_cache() == put_in_slot(old(self).spec_cache(), channel),
            final(self).spec_by_hash() == index_after(
                old(self).spec_cache(),
                old(self).spec_by_hash(),
                channel,
                hash_key(),
            ),
            final(self).spec_by_name() == index_after(
                old(self).spec_cache(),
                old(self).spec_by_name(),
                channel,
                name_key(),
            ),
            in_slot(final(self).spec_cache(), channel.idx) == Some(channel),
            final(self).spec_by_hash().get(channel.hash) == Some(channel.idx),
            final(self).spec_by_name().get(channel.name@) == Some(channel.idx),
    {
        let ghost c0 = self.cache@;
        let ghost h0 = hash_index_of(self.by_hash);
        let ghost n0 = name_index_of(self.by_name);
        let previous: Option<(u8, String)> = match self.get(channel.idx) {
            Some(o) => Some((o.hash, o.name.clone())),
            None => None,
        };
        if let Some((old_hash, old_name)) = previous {
            proof {
                let o = in_slot(c0, channel.idx)->Some_0;
                assert(o.hash == old_hash && o.name@ == old_name@);
                assert((hash_key())(o) == old_hash);
                assert((name_key())(o) == old_name@);
            }
            let leads_here = match hash_index_get(&self.by_hash, old_hash) {
                Some(s) => s == channel.idx,
                None => false,
            };
            if leads_here {
                match self.other_hash_slot(old_hash, channel.idx) {
                    Some(s) => hash_index_insert(&mut self.by_hash, old_hash, s),
                    None => hash_index_remove(&mut self.by_hash, old_hash),
                }
            }
            let name_leads_here = match name_index_get(&self.by_name, old_name.as_str()) {
                Some(s) => s == channel.idx,
                None => false,
            };
            if name_leads_here {
                match self.other_name_slot(&old_name, channel.idx) {
                    Some(s) => name_index_insert(&mut self.by_name, old_name, s),
                    None => name_index_remove(&mut self.by_name, old_name.as_str()),
                }
            }
        }
        hash_index_insert(&mut self.by_hash, channel.hash, channel.idx);
        name_index_insert(&mut self.by_name, channel.name.clone(), channel.idx);
        proof {
            assert((hash_key())(channel) == channel.hash);
            assert((name_key())(channel) == channel.name@);
            assert(hash_index_of(self.by_hash) =~= index_after(c0, h0, channel, hash_key()));
            assert(name_index_of(self.by_name) =~= index_after(c0, n0, channel, name_key()));
        }
        self.put(channel);
        proof {
            lemma_stored_channel_found(c0, h0, n0, channel);
            lemma_index_after_ok(c0, h0, channel, hash_key());
            lemma_index_after_ok(c0, n0, channel, name_key());
        }
    }

    /// The slot of the first channel, outside slot `skip`, whose hash is
    /// `hash`, if any.
    fn other_hash_slot(&self, hash: u8, skip: u8) -> (r: Option<u8>)
        ensures
            r == other_slot(self.cache@, hash, skip, hash_key()),
    {
        let ghost key = hash_key();
        let mut i: usize = 0;
        while i < self.cache.len()
            invariant
                i <= self.cache@.len(),
                key == hash_key(),
                forall|j: int| 0 <= j < i ==> !(key(#[trigger] self.cache@[j]) == hash && self.cache@[j].idx != skip),
            decreases self.cache@.len() - i,
        {
            if self.cache[i].hash == hash && self.cache[i].idx != skip {
                proof {
                    assert(first_other(self.cache@, hash, skip, key, i as int));
                    lemma_first_other_unique(self.cache@, hash, skip, key, i as int);
                }
                return Some(self.cache[i].idx);
            }
            i = i + 1;
        }
        proof {
            assert forall|j: int| !first_other(self.cache@, hash, skip, key, j) by {
                if 0 <= j < self.cache@.len() {
                    assert(!(key(self.cache@[j]) == hash && self.cache@[j].idx != skip));
                }
            }
        }
        None
    }

    /// The slot of the first channel, outside slot `skip`, named `name`, if
    /// any.
    fn other_name_slot(&self, name: &String, skip: u8) -> (r: Option<u8>)
        ensures
            r == other_slot(self.cache@, name@, skip, name_key()),
    {
        let ghost key = name_key();
        let mut i: usize = 0;
        while i < self.cache.len()
            invariant
                i <= self.cache@.len(),
                key == name_key(),
                forall|j: int| 0 <= j < i ==> !(key(#[trigger] self.cache@[j]) == name@ && self.cache@[j].idx != skip),
            decreases self.cache@.len() - i,
        {
            if self.cache[i].name == *name && self.cache[i].idx != skip {
                proof {
                    assert(first_other(self.cache@, name@, skip, key, i as int));
                    lemma_first_other_unique(self.cache@, name@, skip, key, i as int);
                }
                return Some(self.cache[i].idx);
            }
            i = i + 1;
        }
        proof {
            assert forall|j: int| !first_other(self.cache@, name@, skip, key, j) by {
                if 0 <= j < self.cache@.len() {
                    assert(!(key(self.cache@[j]) == name@ && self.cache@[j].idx != skip));
                }
            }
        }
        None
    }

    /// Puts `channel` in its slot of the table.
    fn put(&mut self, channel: Channel)
        requires
            sorted_by_slot(old(self).cache@),
        ensures
            sorted_by_slot(final(self).cache@),
            final(self).cache@ == put_in_slot(old(self).cache@, channel),
            final(self).by_hash == old(self).by_hash,
            final(self).by_name == old(self).by_name,
    {
        let ghost start = self.cache@;
        match self.search(channel.idx) {
            Ok(i) => {
                proof {
                    let k = choose|k: int| 0 <= k < start.len() && #[trigger] start[k].idx == channel.idx;
                    if k != i {
                        if k < i {
                            assert(start[k].idx < start[i as int].idx);
                        } else {
                            assert(start[i as int].idx < start[k].idx);
                        }
                    }
                }
                self.cache.set(i, channel);
                proof {
                    assert forall|a: int, b: int| 0 <= a < b < self.cache@.len() implies #[trigger] self.cache@[a].idx
                        < #[trigger] self.cache@[b].idx by {
                        assert(start[a].idx < start[b].idx);
                    }
                }
            },
            Err(i) => {
                proof {
                    assert(!exists|k: int| 0 <= k < start.len() && #[trigger] start[k].idx == channel.idx);
                    assert(splits_at(start, channel.idx, i as int));
                    let p = slot_position(start, channel.idx);
                    if p != i {
                        if p < i {
                            assert(start[p].idx < channel.idx);
                        } else {
                            assert(start[i as int].idx > channel.idx);
                        }
                    }
                }
                self.cache.insert(i, channel);
                proof {
                    let nv = self.cache@;
                    assert forall|a: int, b: int| 0 <= a < b < nv.len() implies #[trigger] nv[a].idx
                        < #[trigger] nv[b].idx by {
                        if b < i {
                            assert(start[a].idx < start[b].idx);
                        } else if b == i {
                        } else if a < i {
                        } else if a == i {
                        } else {
                            assert(start[a - 1].idx < start[b - 1].idx);
                        }
                    }
                }
            },
        }
    }

    /// The table of the channels read from flash: each put in its slot in
    /// turn, then both indexes built from the table in slot order.
    pub fn from_channels(channels: Vec<Channel>) -> (r: ChannelStorage)
        ensures
            r.wf(),
            r.spec_cache() == slots_of(channels@),
            r.spec_by_hash() == hash_map_of(r.spec_cache()),
            r.spec_by_name() == name_map_of(r.spec_cache()),
    {
        let mut table = ChannelStorage::new();
        let mut channels = channels;
        let ghost all = channels@;
        let mut taken: Vec<Channel> = Vec::new();
        let mut i: usize = 0;
        let n = channels.len();
        proof {
            assert(all.subrange(0, 0) =~= Seq::<Channel>::empty());
        }
        while i < n
            invariant
                n == all.len(),
                i <= n,
                sorted_by_slot(table.cache@),
                table.cache@ == slots_of(all.subrange(0, i as int)),
                channels@ == all.subrange(i as int, n as int),
            decreases n - i,
        {
            let c = channels.remove(0);
            proof {
                assert(all.subrange(0, i + 1).drop_last() =~= all.subrange(0, i as int));
                assert(all.subrange(i + 1, n as int) =~= all.subrange(i as int, n as int).drop_first());
            }
            table.put(c);
            i = i + 1;
        }
        assert(all.subrange(0, n as int) =~= all);
        let mut by_hash = new_hash_index();
        let mut by_name = new_name_index();
        let mut k: usize = 0;
        proof {
            assert(table.cache@.subrange(0, 0) =~= Seq::<Channel>::empty());
        }
        while k < table.cache.len()
            invariant
                k <= table.cache@.len(),
                hash_index_of(by_hash) == hash_map_of(table.cache@.subrange(0, k as int)),
                name_index_of(by_name) == name_map_of(table.cache@.subrange(0, k as int)),
            decreases table.cache@.len() - k,
        {
            let c = &table.cache[k];
            hash_index_insert(&mut by_hash, c.hash, c.idx);
            name_index_insert(&mut by_name, c.name.clone(), c.idx);
            proof {
                assert(table.cache@.subrange(0, k + 1).drop_last() =~= table.cache@.subrange(0, k as int));
            }
            k = k + 1;
        }
        assert(table.cache@.subrange(0, table.cache@.len() as int) =~= table.cache@);
        proof {
            lemma_hash_map_ok(table.cache@);
            lemma_name_map_ok(table.cache@);
        }
        ChannelStorage { by_hash, by_name, cache: table.cache }
    }
}

/// A channel put in its slot is found there, by its slot and, through the
/// indexes that record it, by its hash and by its name; every other slot
/// keeps its channel.
pub proof fn lemma_stored_channel_found(
    cache: Seq<Channel>,
    by_hash: Map<u8, u8>,
    by_name: Map<Seq<char>, u8>,
    c: Channel,
)
    requires
        sorted_by_slot(cache),
    ensures
        ({
            let after = put_in_slot(cache, c);
            &&& in_slot(after, c.idx) == Some(c)
            &&& by_hash.insert(c.hash, c.idx).get(c.hash) == Some(c.idx)
            &&& by_name.insert(c.name@, c.idx).get(c.name@) == Some(c.idx)
            &&& forall|k: u8| k != c.idx ==> #[trigger] in_slot(after, k) == in_slot(cache, k)
        }),
{
    let after = put_in_slot(cache, c);
    if exists|i: int| 0 <= i < cache.len() && #[trigger] cache[i].idx == c.idx {
        let i = choose|i: int| 0 <= i < cache.len() && #[trigger] cache[i].idx == c.idx;
        assert(after[i] == c);
        assert(sorted_by_slot(after)) by {
            assert forall|a: int, b: int| 0 <= a < b < after.len() implies #[trigger] after[a].idx
                < #[trigger] after[b].idx by {
                assert(cache[a].idx < cache[b].idx);
            }
        }
        lemma_in_slot_unique(after, c.idx, i);
        assert forall|k: u8| k != c.idx implies #[trigger] in_slot(after, k) == in_slot(cache, k) by {
            if exists|j: int| 0 <= j < cache.len() && #[trigger] cache[j].idx == k {
                let j = choose|j: int| 0 <= j < cache.len() && #[trigger] cache[j].idx == k;
                lemma_in_slot_unique(cache, k, j);
                assert(after[j] == cache[j]);
                lemma_in_slot_unique(after, k, j);
            } else {
                assert forall|j: int| 0 <= j < after.len() implies #[trigger] after[j].idx != k by {
                    if j != i {
                        assert(after[j] == cache[j]);
                    }
                }
            }
        }
    } else {
        let p = slot_position(cache, c.idx);
        lemma_slot_position(cache, c.idx);
        assert(after[p] == c);
        assert(sorted_by_slot(after)) by {
            assert forall|a: int, b: int| 0 <= a < b < after.len() implies #[trigger] after[a].idx
                < #[trigger] after[b].idx by {
                if b < p {
                    assert(cache[a].idx < cache[b].idx);
                } else if b == p {
                } else if a < p {
                } else if a == p {
                } else {
                    assert(cache[a - 1].idx < cache[b - 1].idx);
                }
            }
        }
        lemma_in_slot_unique(after, c.idx, p);
        assert forall|k: u8| k != c.idx implies #[trigger] in_slot(after, k) == in_slot(cache, k) by {
            if exists|j: int| 0 <= j < cache.len() && #[trigger] cache[j].idx == k {
                let j = choose|j: int| 0 <= j < cache.len() && #[trigger] cache[j].idx == k;
                lemma_in_slot_unique(cache, k, j);
                if j < p {
                    assert(after[j] == cache[j]);
                    lemma_in_slot_unique(after, k, j);
                } else {
                    assert(after[j + 1] == cache[j]);
                    lemma_in_slot_unique(after, k, j + 1);
                }
            } else {
                assert forall|j: int| 0 <= j < after.len() implies #[trigger] after[j].idx != k by {
                    if j < p {
                        assert(after[j] == cache[j]);
                    } else if j > p {
                        assert(after[j] == cache[j - 1]);
                    }
                }
            }
        }
    }
}

/// In a table sorted by slot, the channel at position `i` is the one of its
/// slot.
proof fn lemma_in_slot_unique(cache: Seq<Channel>, k: u8, i: int)
    requires
        sorted_by_slot(cache),
        0 <= i < cache.len(),
        cache[i].idx == k,
    ensures
        in_slot(cache, k) == Some(cache[i]),
{
    let j = choose|j: int| 0 <= j < cache.len() && #[trigger] cache[j].idx == k;
    if j < i {
        assert(cache[j].idx < cache[i].idx);
    } else if j > i {
        assert(cache[i].idx < cache[j].idx);
    }
}

/// A slot that no channel of a sorted table has splits the table.
proof fn lemma_slot_position(cache: Seq<Channel>, k: u8)
    requires
        sorted_by_slot(cache),
        !exists|i: int| 0 <= i < cache.len() && #[trigger] cache[i].idx == k,
    ensures
        splits_at(cache, k, slot_position(cache, k)),
{
    let w = lemma_split_exists(cache, k, 0);
    assert(splits_at(cache, k, w));
}

/// Walking a sorted table from position `p`, past slots lower than `k`,
/// reaches the position where the slots turn higher.
proof fn lemma_split_exists(cache: Seq<Channel>, k: u8, p: int) -> (w: int)
    requires
        sorted_by_slot(cache),
        !exists|i: int| 0 <= i < cache.len() && #[trigger] cache[i].idx == k,
        0 <= p <= cache.len(),
        forall|j: int| 0 <= j < p ==> #[trigger] cache[j].idx < k,
    ensures
        splits_at(cache, k, w),
    decreases cache.len() - p,
{
    if p == cache.len() {
        p
    } else if cache[p].idx > k {
        assert forall|j: int| p <= j < cache.len() implies #[trigger] cache[j].idx > k by {
            if j > p {
                assert(cache[p].idx < cache[j].idx);
            }
        }
        p
    } else {
        assert(cache[p].idx != k);
        lemma_split_exists(cache, k, p + 1)
    }
}

/// The first channel outside a slot with a given key is one only.
proof fn lemma_first_other_unique<K>(
    cache: Seq<Channel>,
    k: K,
    skip: u8,
    key: spec_fn(Channel) -> K,
    i: int,
)
    requires
        first_other(cache, k, skip, key, i),
    ensures
        other_slot(cache, k, skip, key) == Some(cache[i].idx),
{
    let w = choose|w: int| first_other(cache, k, skip, key, w);
    assert(first_other(cache, k, skip, key, w));
    if w < i {
        assert(!(key(cache[w]) == k && cache[w].idx != skip));
    } else if w > i {
        assert(!(key(cache[i]) == k && cache[i].idx != skip));
    }
}

/// The hash index built from a table leads exactly to its channels.
proof fn lemma_hash_map_ok(cache: Seq<Channel>)
    ensures
        index_ok(cache, hash_map_of(cache), hash_key()),
    decreases cache.len(),
{
    reveal(index_ok);
    let key = hash_key();
    if cache.len() > 0 {
        let prev = cache.drop_last();
        lemma_hash_map_ok(prev);
        let m = hash_map_of(cache);
        let n = cache.len() - 1;
        assert(key(cache[n]) == cache[n].hash);
        assert forall|k: u8| #[trigger] m.contains_key(k) implies exists|i: int|
            0 <= i < cache.len() && cache[i].idx == m[k] && key(cache[i]) == k by {
            if k == cache.last().hash {
                assert(cache[n].idx == m[k] && key(cache[n]) == k);
            } else {
                assert(hash_map_of(prev).contains_key(k));
                let i = choose|i: int|
                    0 <= i < prev.len() && prev[i].idx == hash_map_of(prev)[k] && key(prev[i]) == k;
                assert(cache[i] == prev[i]);
            }
        }
        assert forall|i: int| 0 <= i < cache.len() implies m.contains_key(key(#[trigger] cache[i])) by {
            if i < n {
                assert(cache[i] == prev[i]);
                assert(hash_map_of(prev).contains_key(key(prev[i])));
            }
        }
    }
}

/// The name index built from a table leads exactly to its channels.
proof fn lemma_name_map_ok(cache: Seq<Channel>)
    ensures
        index_ok(cache, name_map_of(cache), name_key()),
    decreases cache.len(),
{
    reveal(index_ok);
    let key = name_key();
    if cache.len() > 0 {
        let prev = cache.drop_last();
        lemma_name_map_ok(prev);
        let m = name_map_of(cache);
        let n = cache.len() - 1;
        assert(key(cache[n]) == cache[n].name@);
        assert forall|k: Seq<char>| #[trigger] m.contains_key(k) implies exists|i: int|
            0 <= i < cache.len() && cache[i].idx == m[k] && key(cache[i]) == k by {
            if k == cache.last().name@ {
                assert(cache[n].idx == m[k] && key(cache[n]) == k);
            } else {
                assert(name_map_of(prev).contains_key(k));
                let i = choose|i: int|
                    0 <= i < prev.len() && prev[i].idx == name_map_of(prev)[k] && key(prev[i]) == k;
                assert(cache[i] == prev[i]);
            }
        }
        assert forall|i: int| 0 <= i < cache.len() implies m.contains_key(key(#[trigger] cache[i])) by {
            if i < n {
                assert(cache[i] == prev[i]);
                assert(name_map_of(prev).contains_key(key(prev[i])));
            }
        }
    }
}

/// Putting a channel in its slot, with an index updated as `index_after`
/// says, keeps the index leading exactly to the table's channels.
pub proof fn lemma_index_after_ok<K>(
    cache: Seq<Channel>,
    m: Map<K, u8>,
    c: Channel,
    key: spec_fn(Channel) -> K,
)
    requires
        sorted_by_slot(cache),
        index_ok(cache, m, key),
    ensures
        index_ok(put_in_slot(cache, c), index_after(cache, m, c, key), key),
{
    reveal(index_ok);
    let after = put_in_slot(cache, c);
    let m2 = index_after(cache, m, c, key);
    lemma_stored_channel_found(cache, Map::empty(), Map::empty(), c);
    if exists|q: int| 0 <= q < cache.len() && #[trigger] cache[q].idx == c.idx {
        let q = choose|q: int| 0 <= q < cache.len() && #[trigger] cache[q].idx == c.idx;
        lemma_in_slot_unique(cache, c.idx, q);
        let o = cache[q];
        assert(after == cache.update(q, c));
        let ko = key(o);
        let replaced = m.contains_key(ko) && m[ko] == c.idx;
        assert forall|k: K| #[trigger] m2.contains_key(k) implies exists|i: int|
            0 <= i < after.len() && after[i].idx == m2[k] && key(after[i]) == k by {
            if k == key(c) {
                assert(after[q].idx == m2[k] && key(after[q]) == k);
            } else if replaced && k == ko {
                match other_slot(cache, ko, c.idx, key) {
                    Some(s) => {
                        let j = choose|j: int| first_other(cache, ko, c.idx, key, j);
                        assert(j != q);
                        assert(after[j] == cache[j]);
                        assert(after[j].idx == m2[k] && key(after[j]) == k);
                    },
                    None => {},
                }
            } else {
                assert(m.contains_key(k));
                assert(m2[k] == m[k]);
                let i = choose|i: int| 0 <= i < cache.len() && cache[i].idx == m[k] && key(cache[i]) == k;
                if i == q {
                    assert(k == ko);
                    assert(false);
                }
                assert(after[i] == cache[i]);
            }
        }
        assert forall|i: int| 0 <= i < after.len() implies m2.contains_key(key(#[trigger] after[i])) by {
            if i != q {
                assert(after[i] == cache[i]);
                let k = key(cache[i]);
                assert(m.contains_key(key(cache[i])));
                if k != key(c) && replaced && k == ko {
                    assert(cache[i].idx != c.idx) by {
                        if cache[i].idx == c.idx {
                            lemma_in_slot_unique(cache, c.idx, i);
                        }
                    }
                    lemma_first_exists(cache, ko, c.idx, key, i);
                }
            }
        }
    } else {
        let p = slot_position(cache, c.idx);
        lemma_slot_position(cache, c.idx);
        assert(after == cache.insert(p, c));
        assert(in_slot(cache, c.idx) is None);
        assert(m2 == m.insert(key(c), c.idx));
        assert forall|k: K| #[trigger] m2.contains_key(k) implies exists|i: int|
            0 <= i < after.len() && after[i].idx == m2[k] && key(after[i]) == k by {
            if k == key(c) {
                assert(after[p].idx == m2[k] && key(after[p]) == k);
            } else {
                assert(m.contains_key(k));
                let i = choose|i: int| 0 <= i < cache.len() && cache[i].idx == m[k] && key(cache[i]) == k;
                if i < p {
                    assert(after[i] == cache[i]);
                } else {
                    assert(after[i + 1] == cache[i]);
                }
            }
        }
        assert forall|i: int| 0 <= i < after.len() implies m2.contains_key(key(#[trigger] after[i])) by {
            if i < p {
                assert(after[i] == cache[i]);
                assert(m.contains_key(key(cache[i])));
            } else if i > p {
                assert(after[i] == cache[i - 1]);
                assert(m.contains_key(key(cache[i - 1])));
            }
        }
    }
}

/// A channel outside a slot with a given key gives a first such channel.
proof fn lemma_first_exists<K>(cache: Seq<Channel>, k: K, skip: u8, key: spec_fn(Channel) -> K, i: int)
    requires
        0 <= i < cache.len(),
        key(cache[i]) == k,
        cache[i].idx != skip,
    ensures
        exists|w: int| first_other(cache, k, skip, key, w),
    decreases i,
{
    if exists|j: int| 0 <= j < i && key(#[trigger] cache[j]) == k && cache[j].idx != skip {
        let j = choose|j: int| 0 <= j < i && key(#[trigger] cache[j]) == k && cache[j].idx != skip;
        lemma_first_exists(cache, k, skip, key, j);
    } else {
        assert(first_other(cache, k, skip, key, i));
    }
}

/// In a table sorted by slot with a sound and complete index, a key leads
/// to a channel with that key, and leads nowhere exactly when no channel has
/// it.
proof fn lemma_index_lookup<K>(cache: Seq<Channel>, m: Map<K, u8>, key: spec_fn(Channel) -> K, k: K)
    requires
        sorted_by_slot(cache),
        index_ok(cache, m, key),
    ensures
        m.contains_key(k) ==> (in_slot(cache, m[k]) matches Some(c) && key(c) == k),
        !m.contains_key(k) <==> forall|i: int| 0 <= i < cache.len() ==> key(#[trigger] cache[i]) != k,
{
    reveal(index_ok);
    if m.contains_key(k) {
        let i = choose|i: int| 0 <= i < cache.len() && cache[i].idx == m[k] && key(cache[i]) == k;
        lemma_in_slot_unique(cache, m[k], i);
    }
}

/// What is put in the table is found again: in the table that
/// `apply_insert(c)` leaves, the lookups by slot, by hash and by name, as
/// `get`, `get_by_hash` and `get_by_name` state them, all give `c`.
pub proof fn lemma_inserted_channel_lookups(t: ChannelStorage, c: Channel)
    requires
        t.wf(),
        in_slot(t.spec_cache(), c.idx) == Some(c),
        t.spec_by_hash().get(c.hash) == Some(c.idx),
        t.spec_by_name().get(c.name@) == Some(c.idx),
    ensures
        in_slot(t.spec_cache(), c.idx) == Some(c),
        (match t.spec_by_hash().get(c.hash) {
            Some(i) => in_slot(t.spec_cache(), i),
            None => None,
        }) == Some(c),
        (match t.spec_by_name().get(c.name@) {
            Some(i) => in_slot(t.spec_cache(), i),
            None => None,
        }) == Some(c),
{
}

} // verus!
