//! The file-backed record stores of the first firmware generation: keys,
//! file names derived from them, and the in-memory cache of records kept
//! sorted by key.
use vstd::prelude::*;

use base64::Engine;

use crate::channels::{same_channel, Channel};
use crate::contacts::{CachedContact, Contact, ContactPath};
use crate::lex::{compare_bytes, has_prefix, lex_lt, starts_with, Lex};
use crate::wire::push_slice;

verus! {

/// `String::push`: appends the character `c`.
#[verifier::external_body]
pub(crate) fn push_char(out: &mut String, c: char)
    ensures
        final(out)@ == old(out)@.push(c),
{
    out.push(c);
}

/// `base64::prelude::BASE64_URL_SAFE.encode_string(data, out)`: the padded
/// URL-safe base64 text of `data`.
pub uninterp spec fn b64_url_of(data: Seq<u8>) -> Seq<char>;

/// `base64::Engine::encode_string` with the padded URL-safe alphabet:
/// appends the base64 text of `data` to `out`. Trusted: the text is only
/// named, a function of the bytes.
#[verifier::external_body]
fn b64_url_encode_into(data: &[u8], out: &mut String)
    ensures
        final(out)@ == old(out)@ + b64_url_of(data@),
{
    base64::prelude::BASE64_URL_SAFE.encode_string(data, out);
}

/// The decimal digit character for `d`.
pub open spec fn digit_char(d: u8) -> char {
    (48 + d) as char
}

/// The decimal text of a byte, without leading zeros.
pub open spec fn decimal(x: u8) -> Seq<char> {
    if x >= 100 {
        seq![digit_char(x / 100), digit_char((x / 10) % 10), digit_char(x % 10)]
    } else if x >= 10 {
        seq![digit_char(x / 10), digit_char(x % 10)]
    } else {
        seq![digit_char(x)]
    }
}

/// The digit character for `d`.
fn digit(d: u8) -> (r: char)
    requires
        d < 10,
    ensures
        r == digit_char(d),
{
    (48u8 + d) as char
}

/// A key of a record store: it names the record's file, orders the cache,
/// and answers prefix lookups.
pub trait FileDbKey: Copy {
    /// The key's bytes, by which keys are ordered.
    spec fn spec_key_bytes(&self) -> Seq<u8>;

    /// The text the key's file is named by.
    spec fn spec_file_name(&self) -> Seq<char>;

    /// The prefixes this key can be looked up by.
    spec fn accepts_prefix(prefix: Seq<u8>) -> bool;

    /// Whether the key is found by `prefix`.
    spec fn spec_prefix_matches(&self, prefix: Seq<u8>) -> bool;

    /// Appends the key's file name to `out`.
    fn encode(&self, out: &mut String)
        ensures
            final(out)@ == old(out)@ + self.spec_file_name(),
    ;

    /// Whether the key is found by `prefix`.
    fn prefix_matches(&self, prefix: &[u8]) -> (r: bool)
        requires
            Self::accepts_prefix(prefix@),
        ensures
            r == self.spec_prefix_matches(prefix@),
    ;

    /// Whether the key comes strictly before `other`.
    fn key_before(&self, other: &Self) -> (r: bool)
        ensures
            r == lex_lt(self.spec_key_bytes(), other.spec_key_bytes()),
    ;

    /// Whether the key is `other`.
    fn same_key(&self, other: &Self) -> (r: bool)
        ensures
            r <==> *self == *other,
    ;
}

/// A slot number: its file is named by its decimal text, and it is found by
/// the first byte of a prefix.
impl FileDbKey for u8 {
    open spec fn spec_key_bytes(&self) -> Seq<u8> {
        seq![*self]
    }

    open spec fn spec_file_name(&self) -> Seq<char> {
        decimal(*self)
    }

    open spec fn accepts_prefix(prefix: Seq<u8>) -> bool {
        prefix.len() >= 1
    }

    open spec fn spec_prefix_matches(&self, prefix: Seq<u8>) -> bool {
        *self == prefix[0]
    }

    fn encode(&self, out: &mut String) {
        let x = *self;
        if x >= 100 {
            push_char(out, digit(x / 100));
            push_char(out, digit((x / 10) % 10));
            push_char(out, digit(x % 10));
        } else if x >= 10 {
            push_char(out, digit(x / 10));
            push_char(out, digit(x % 10));
        } else {
            push_char(out, digit(x));
        }
        assert(out@ =~= old(out)@ + decimal(x));
    }

    fn prefix_matches(&self, prefix: &[u8]) -> (r: bool) {
        *self == prefix[0]
    }

    fn key_before(&self, other: &Self) -> (r: bool) {
        proof {
            assert(seq![*self].drop_first() =~= Seq::<u8>::empty());
            assert(seq![*other].drop_first() =~= Seq::<u8>::empty());
            reveal_with_fuel(lex_lt, 2);
        }
        *self < *other
    }

    fn same_key(&self, other: &Self) -> (r: bool) {
        *self == *other
    }
}

/// A public key: its file is named by its URL-safe base64 text, and it is
/// found by any prefix of its bytes.
impl<const N: usize> FileDbKey for [u8; N] {
    open spec fn spec_key_bytes(&self) -> Seq<u8> {
        self@
    }

    open spec fn spec_file_name(&self) -> Seq<char> {
        b64_url_of(self@)
    }

    open spec fn accepts_prefix(prefix: Seq<u8>) -> bool {
        true
    }

    open spec fn spec_prefix_matches(&self, prefix: Seq<u8>) -> bool {
        starts_with(self@, prefix)
    }

    fn encode(&self, out: &mut String) {
        b64_url_encode_into(self.as_slice(), out);
    }

    fn prefix_matches(&self, prefix: &[u8]) -> (r: bool) {
        has_prefix(self.as_slice(), prefix)
    }

    fn key_before(&self, other: &Self) -> (r: bool) {
        match compare_bytes(self.as_slice(), other.as_slice()) {
            Lex::Less => true,
            _ => false,
        }
    }

    fn same_key(&self, other: &Self) -> (r: bool) {
        let r = match compare_bytes(self.as_slice(), other.as_slice()) {
            Lex::Equal => true,
            _ => false,
        };
        proof {
            broadcast use vstd::array::group_array_axioms;

            if r {
                assert(*self =~= *other);
            }
        }
        r
    }
}

/// What the cache keeps of a record.
pub trait CachedVersion<K: FileDbKey> {
    /// The record's key.
    spec fn spec_key(&self) -> K;

    /// The record's key.
    fn key(&self) -> (r: &K)
        ensures
            *r == self.spec_key(),
    ;
}

/// A record of a store, with its key and its cached form.
pub trait Cacheable {
    type Key: FileDbKey;

    type Cached: CachedVersion<Self::Key>;

    /// The record's key.
    spec fn spec_key(&self) -> Self::Key;

    /// `c` is a cached form of the record.
    spec fn is_cached_form(&self, c: Self::Cached) -> bool;

    /// The record's key.
    fn key(&self) -> (r: &Self::Key)
        ensures
            *r == self.spec_key(),
    ;

    /// The record's cached form, with the record's key.
    fn as_cached(&self) -> (r: Self::Cached)
        ensures
            self.is_cached_form(r),
            r.spec_key() == self.spec_key(),
    ;
}

/// The keys of a cache are in order, equal keys side by side.
pub open spec fn sorted_by_key<K: FileDbKey, C: CachedVersion<K>>(cache: Seq<C>) -> bool {
    forall|i: int, j: int|
        0 <= i < j < cache.len() ==> !lex_lt(
            #[trigger] cache[j].spec_key().spec_key_bytes(),
            #[trigger] cache[i].spec_key().spec_key_bytes(),
        )
}

/// Some cached record has key `key`.
pub open spec fn holds_key<T: Cacheable>(cache: Seq<T::Cached>, key: T::Key) -> bool {
    exists|j: int| 0 <= j < cache.len() && cache[j].spec_key() == key
}

/// The in-memory cache of a record store, sorted by key.
pub struct CachedFileDb<T: Cacheable> {
    pub cache: Vec<T::Cached>,
}

impl<T: Cacheable> CachedFileDb<T> {
    /// The cache is sorted by key.
    pub open spec fn wf(&self) -> bool {
        sorted_by_key::<T::Key, T::Cached>(self.cache@)
    }

    /// An empty cache.
    pub fn new() -> (r: Self)
        ensures
            r.wf(),
            r.cache@.len() == 0,
    {
        CachedFileDb { cache: Vec::new() }
    }

    /// The cache of the records read from the store: their cached forms,
    /// sorted by key.
    pub fn from_records(records: &Vec<T>) -> (r: Self)
        ensures
            r.wf(),
            r.cache@.len() == records@.len(),
            forall|i: int|
                0 <= i < records@.len() ==> holds_key::<T>(r.cache@, #[trigger] records@[i].spec_key()),
    {
        let mut db = CachedFileDb::<T>::new();
        let mut i: usize = 0;
        while i < records.len()
            invariant
                i <= records@.len(),
                db.wf(),
                db.cache@.len() == i,
                forall|k: int| 0 <= k < i ==> holds_key::<T>(db.cache@, #[trigger] records@[k].spec_key()),
            decreases records@.len() - i,
        {
            let ghost before = db.cache@;
            db.insert_cached(&records[i]);
            proof {
                let after = db.cache@;
                let c = choose|c: T::Cached|
                    records@[i as int].is_cached_form(c) && c.spec_key() == records@[i as int].spec_key()
                        && after.to_multiset() == before.to_multiset().insert(c);
                assert forall|k: int| 0 <= k < i + 1 implies holds_key::<T>(after, #[trigger] records@[k].spec_key()) by {
                    if k < i {
                        let j = choose|j: int| 0 <= j < before.len() && before[j].spec_key() == records@[k].spec_key();
                        vstd::seq_lib::to_multiset_contains(before, before[j]);
                        vstd::seq_lib::to_multiset_contains(after, before[j]);
                        let j2 = choose|j2: int| 0 <= j2 < after.len() && after[j2] == before[j];
                        assert(after[j2].spec_key() == records@[k].spec_key());
                    } else {
                        vstd::seq_lib::to_multiset_contains(after, c);
                        let j2 = choose|j2: int| 0 <= j2 < after.len() && after[j2] == c;
                        assert(after[j2].spec_key() == records@[k].spec_key());
                    }
                }
            }
            i = i + 1;
        }
        db
    }

    /// The first cached record whose key is found by `prefix`.
    pub fn get_cached(&self, prefix: &[u8]) -> (r: Option<&T::Cached>)
        requires
            T::Key::accepts_prefix(prefix@),
        ensures
            r matches Some(c) ==> exists|i: int|
                0 <= i < self.cache@.len() && self.cache@[i] == *c
                    && c.spec_key().spec_prefix_matches(prefix@) && forall|j: int|
                    0 <= j < i ==> !(#[trigger] self.cache@[j]).spec_key().spec_prefix_matches(
                        prefix@,
                    ),
            r is None ==> forall|j: int|
                0 <= j < self.cache@.len() ==> !(#[trigger] self.cache@[j]).spec_key().spec_prefix_matches(
                    prefix@,
                ),
    {
        let mut i: usize = 0;
        while i < self.cache.len()
            invariant
                T::Key::accepts_prefix(prefix@),
                i <= self.cache@.len(),
                forall|j: int|
                    0 <= j < i ==> !(#[trigger] self.cache@[j]).spec_key().spec_prefix_matches(
                        prefix@,
                    ),
            decreases self.cache@.len() - i,
        {
            let c = &self.cache[i];
            if c.key().prefix_matches(prefix) {
                return Some(c);
            }
            i = i + 1;
        }
        None
    }

    /// Whether some cached record's key is found by `prefix`.
    pub fn contains(&self, prefix: &[u8]) -> (r: bool)
        requires
            T::Key::accepts_prefix(prefix@),
        ensures
            r <==> exists|i: int|
                0 <= i < self.cache@.len() && (#[trigger] self.cache@[i]).spec_key().spec_prefix_matches(
                    prefix@,
                ),
    {
        match self.get_cached(prefix) {
            Some(_) => true,
            None => false,
        }
    }

    /// Adds the cached form of `entry` where its key belongs in the order,
    /// once the record is stored.
    pub fn insert_cached(&mut self, entry: &T)
        requires
            old(self).wf(),
        ensures
            final(self).wf(),
            exists|c: T::Cached|
                entry.is_cached_form(c) && c.spec_key() == entry.spec_key()
                    && final(self).cache@.to_multiset() == old(self).cache@.to_multiset().insert(c),
            final(self).cache@.len() == old(self).cache@.len() + 1,
    {
        let c = entry.as_cached();
        let ghost start = self.cache@;
        let mut pos: usize = 0;
        while pos < self.cache.len()
            invariant_except_break
                self.cache@ == start,
                pos <= start.len(),
                forall|j: int|
                    0 <= j < pos ==> !lex_lt(
                        c.spec_key().spec_key_bytes(),
                        #[trigger] start[j].spec_key().spec_key_bytes(),
                    ),
            ensures
                self.cache@ == start,
                pos <= start.len(),
                forall|j: int|
                    0 <= j < pos ==> !lex_lt(
                        c.spec_key().spec_key_bytes(),
                        #[trigger] start[j].spec_key().spec_key_bytes(),
                    ),
                pos < start.len() ==> lex_lt(
                    c.spec_key().spec_key_bytes(),
                    start[pos as int].spec_key().spec_key_bytes(),
                ),
            decreases start.len() - pos,
        {
            if c.key().key_before(self.cache[pos].key()) {
                break;
            }
            pos = pos + 1;
        }
        proof {
            assert forall|j: int| pos <= j < start.len() implies lex_lt(
                c.spec_key().spec_key_bytes(),
                #[trigger] start[j].spec_key().spec_key_bytes(),
            ) by {
                if j > pos {
                    let a = c.spec_key().spec_key_bytes();
                    let b = start[pos as int].spec_key().spec_key_bytes();
                    let d = start[j].spec_key().spec_key_bytes();
                    assert(!lex_lt(d, b));
                    if !lex_lt(a, d) {
                        if b == d {
                        } else {
                            crate::lex::lemma_lex_total(b, d);
                            crate::lex::lemma_lex_transitive(a, b, d);
                        }
                    }
                }
            }
            vstd::seq_lib::to_multiset_insert(start, pos as int, c);
        }
        self.cache.insert(pos, c);
        proof {
            let nv = self.cache@;
            assert forall|i: int, j: int| 0 <= i < j < nv.len() implies !lex_lt(
                #[trigger] nv[j].spec_key().spec_key_bytes(),
                #[trigger] nv[i].spec_key().spec_key_bytes(),
            ) by {
                if j < pos {
                    assert(!lex_lt(start[j].spec_key().spec_key_bytes(), start[i].spec_key().spec_key_bytes()));
                } else if j == pos {
                } else if i < pos {
                    let a = start[i].spec_key().spec_key_bytes();
                    let d = start[j - 1].spec_key().spec_key_bytes();
                    let m = c.spec_key().spec_key_bytes();
                    crate::lex::lemma_lex_asymmetric(m, d);
                    if lex_lt(d, a) {
                        if m == a {
                        } else {
                            crate::lex::lemma_lex_total(m, a);
                            crate::lex::lemma_lex_transitive(d, a, m);
                        }
                    }
                } else if i == pos {
                    crate::lex::lemma_lex_asymmetric(
                        c.spec_key().spec_key_bytes(),
                        start[j - 1].spec_key().spec_key_bytes(),
                    );
                } else {
                    assert(!lex_lt(
                        start[j - 1].spec_key().spec_key_bytes(),
                        start[i - 1].spec_key().spec_key_bytes(),
                    ));
                }
            }
        }
    }

    /// Removes the first cached record whose key is `key`, if any, once the
    /// record's file is removed.
    pub fn delete_cached(&mut self, key: &T::Key) -> (r: bool)
        requires
            old(self).wf(),
        ensures
            final(self).wf(),
            !r ==> final(self).cache@ == old(self).cache@ && forall|j: int|
                0 <= j < old(self).cache@.len() ==> (#[trigger] old(self).cache@[j]).spec_key() != *key,
            r ==> exists|i: int|
                0 <= i < old(self).cache@.len() && old(self).cache@[i].spec_key() == *key
                    && (forall|j: int| 0 <= j < i ==> (#[trigger] old(self).cache@[j]).spec_key() != *key)
                    && final(self).cache@ == old(self).cache@.remove(i),
    {
        let ghost start = self.cache@;
        let mut i: usize = 0;
        while i < self.cache.len()
            invariant
                self.cache@ == start,
                start == old(self).cache@,
                sorted_by_key::<T::Key, T::Cached>(start),
                i <= start.len(),
                forall|j: int| 0 <= j < i ==> (#[trigger] start[j]).spec_key() != *key,
            decreases start.len() - i,
        {
            if self.cache[i].key().same_key(key) {
                assert(start[i as int].spec_key() == *key);
                self.cache.remove(i);
                assert(self.cache@ == start.remove(i as int));
                proof {
                    let nv = self.cache@;
                    assert forall|a: int, b: int| 0 <= a < b < nv.len() implies !lex_lt(
                        #[trigger] nv[b].spec_key().spec_key_bytes(),
                        #[trigger] nv[a].spec_key().spec_key_bytes(),
                    ) by {
                        if b < i {
                            assert(!lex_lt(start[b].spec_key().spec_key_bytes(), start[a].spec_key().spec_key_bytes()));
                        } else if a < i {
                            assert(!lex_lt(start[b + 1].spec_key().spec_key_bytes(), start[a].spec_key().spec_key_bytes()));
                        } else {
                            assert(!lex_lt(start[b + 1].spec_key().spec_key_bytes(), start[a + 1].spec_key().spec_key_bytes()));
                        }
                    }
                }
                return true;
            }
            i = i + 1;
        }
        false
    }
}

impl CachedVersion<u8> for Channel {
    open spec fn spec_key(&self) -> u8 {
        self.idx
    }

    fn key(&self) -> (r: &u8) {
        &self.idx
    }
}

/// Channels are stored by slot and cached whole.
impl Cacheable for Channel {
    type Key = u8;

    type Cached = Channel;

    open spec fn spec_key(&self) -> u8 {
        self.idx
    }

    open spec fn is_cached_form(&self, c: Channel) -> bool {
        same_channel(*self, c)
    }

    fn key(&self) -> (r: &u8) {
        &self.idx
    }

    fn as_cached(&self) -> (r: Channel) {
        Channel { name: self.name.clone(), key: self.key, hash: self.hash, idx: self.idx }
    }
}

impl CachedVersion<[u8; 32]> for CachedContact {
    open spec fn spec_key(&self) -> [u8; 32] {
        self.key
    }

    fn key(&self) -> (r: &[u8; 32]) {
        &self.key
    }
}

/// Two routes have the same header and hops.
pub open spec fn same_path(a: Option<ContactPath>, b: Option<ContactPath>) -> bool {
    match (a, b) {
        (Some(x), Some(y)) => x.len_header == y.len_header && x.raw@ == y.raw@,
        (None, None) => true,
        _ => false,
    }
}

/// A copy of a route.
fn copy_path(p: &Option<ContactPath>) -> (r: Option<ContactPath>)
    ensures
        same_path(*p, r),
{
    match p {
        Some(x) => {
            let mut raw: Vec<u8> = Vec::new();
            push_slice(&mut raw, x.raw.as_slice());
            Some(ContactPath { len_header: x.len_header, raw })
        },
        None => None,
    }
}

/// Contacts are stored by public key and cached as their key and route.
impl Cacheable for Contact {
    type Key = [u8; 32];

    type Cached = CachedContact;

    open spec fn spec_key(&self) -> [u8; 32] {
        self.key
    }

    open spec fn is_cached_form(&self, c: CachedContact) -> bool {
        c.key == self.key && same_path(self.path_to, c.path)
    }

    fn key(&self) -> (r: &[u8; 32]) {
        &self.key
    }

    fn as_cached(&self) -> (r: CachedContact) {
        CachedContact { key: self.key, path: copy_path(&self.path_to) }
    }
}

} // verus!
