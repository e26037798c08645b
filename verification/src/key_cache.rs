//! The cache of secrets shared with contacts: each is the X25519 exchange
//! of the node's secret key with the contact's key, computed once.
use vstd::prelude::*;

use litemap::LiteMap;

verus! {

/// `ed25519_compact::x25519::PublicKey::from_ed25519`: the X25519 key of an
/// Ed25519 public key, or `None` when it is not a valid point.
pub uninterp spec fn x25519_of(ed_pk: Seq<u8>) -> Option<Seq<u8>>;

/// `ed25519_compact::x25519::PublicKey::dh`: the exchange of a public key
/// with a secret key, or `None` when the result is the identity point.
pub uninterp spec fn x25519_dh_of(pk: Seq<u8>, sk: Seq<u8>) -> Option<Seq<u8>>;

/// What a shared-key cache holds: contact key to shared secret.
pub uninterp spec fn shared_cache_of(m: LiteMap<[u8; 32], [u8; 32]>) -> Map<[u8; 32], [u8; 32]>;

/// `ed25519_compact::x25519::PublicKey::from_ed25519`: converts a contact's
/// Ed25519 key. Trusted: the result is only named, a function of the key.
#[verifier::external_body]
pub(crate) fn x25519_public(ed_pk: &[u8; 32]) -> (r: Option<[u8; 32]>)
    ensures
        match r {
            Some(k) => x25519_of(ed_pk@) == Some(k@),
            None => x25519_of(ed_pk@) is None,
        },
{
    match ed25519_compact::x25519::PublicKey::from_ed25519(&ed25519_compact::PublicKey::new(*ed_pk)) {
        Ok(k) => Some(*k),
        Err(_) => None,
    }
}

/// `ed25519_compact::x25519::PublicKey::dh`: the shared secret of `pk` and
/// `sk`. Trusted: the result is only named, a function of both keys.
#[verifier::external_body]
fn x25519_dh(pk: &[u8; 32], sk: &[u8; 32]) -> (r: Option<[u8; 32]>)
    ensures
        match r {
            Some(k) => x25519_dh_of(pk@, sk@) == Some(k@),
            None => x25519_dh_of(pk@, sk@) is None,
        },
{
    let pk = ed25519_compact::x25519::PublicKey::new(*pk);
    match pk.dh(&ed25519_compact::x25519::SecretKey::new(*sk)) {
        Ok(s) => Some(*s),
        Err(_) => None,
    }
}

/// `LiteMap::new_vec`: an empty cache.
#[verifier::external_body]
fn new_shared_cache() -> (r: LiteMap<[u8; 32], [u8; 32]>)
    ensures
        shared_cache_of(r).dom() == Set::<[u8; 32]>::empty(),
{
    LiteMap::new_vec()
}

/// `LiteMap::get` on the cache: the secret cached for `key`, if any.
#[verifier::external_body]
fn shared_cache_get(m: &LiteMap<[u8; 32], [u8; 32]>, key: &[u8; 32]) -> (r: Option<[u8; 32]>)
    ensures
        r == shared_cache_of(*m).get(*key),
{
    m.get(key).copied()
}

/// `LiteMap::insert` on the cache: caches `value` for `key`.
#[verifier::external_body]
fn shared_cache_insert(m: &mut LiteMap<[u8; 32], [u8; 32]>, key: [u8; 32], value: [u8; 32])
    ensures
        shared_cache_of(*final(m)) == shared_cache_of(*old(m)).insert(key, value),
{
    m.insert(key, value);
}

/// The secret shared between the node's secret key `sk` and a contact's
/// key, if the contact's key is usable.
pub open spec fn shared_of(contact: Seq<u8>, sk: Seq<u8>) -> Option<Seq<u8>> {
    match x25519_of(contact) {
        Some(x) => x25519_dh_of(x, sk),
        None => None,
    }
}

/// Secrets shared with contacts, computed once per contact.
pub struct SharedKeyCache {
    self_key: [u8; 32],
    cache: LiteMap<[u8; 32], [u8; 32]>,
}

impl SharedKeyCache {
    /// The node's secret key.
    pub closed spec fn spec_self_key(&self) -> [u8; 32] {
        self.self_key
    }

    /// What the cache holds.
    pub closed spec fn spec_cache(&self) -> Map<[u8; 32], [u8; 32]> {
        shared_cache_of(self.cache)
    }

    /// Every cached secret is the one shared with its contact.
    pub closed spec fn wf(&self) -> bool {
        forall|k: [u8; 32]|
            #[trigger] shared_cache_of(self.cache).contains_key(k) ==> shared_of(k@, self.self_key@)
                == Some(shared_cache_of(self.cache)[k]@)
    }

    /// An empty cache for the node's X25519 secret key `self_key`.
    pub fn new(self_key: [u8; 32]) -> (r: SharedKeyCache)
        ensures
            r.wf(),
            r.spec_self_key() == self_key,
            r.spec_cache().dom() == Set::<[u8; 32]>::empty(),
    {
        SharedKeyCache { self_key, cache: new_shared_cache() }
    }

    /// The secret shared with the contact whose key is `contact`: from the
    /// cache when it holds it, else computed and cached. `None` when the
    /// contact's key is not usable for the exchange.
    pub fn get_key(&mut self, contact: &[u8; 32]) -> (r: Option<[u8; 32]>)
        requires
            old(self).wf(),
        ensures
            final(self).wf(),
            final(self).spec_self_key() == old(self).spec_self_key(),
            match r {
                Some(k) => shared_of(contact@, old(self).spec_self_key()@) == Some(k@),
                None => shared_of(contact@, old(self).spec_self_key()@) is None,
            },
    {
        if let Some(k) = shared_cache_get(&self.cache, contact) {
            assert(shared_cache_of(self.cache).contains_key(*contact));
            return Some(k);
        }
        let x = match x25519_public(contact) {
            Some(x) => x,
            None => {
                return None;
            },
        };
        let shared = match x25519_dh(&x, &self.self_key) {
            Some(s) => s,
            None => {
                return None;
            },
        };
        shared_cache_insert(&mut self.cache, *contact, shared);
        proof {
            assert forall|k: [u8; 32]| #[trigger] shared_cache_of(self.cache).contains_key(k) implies shared_of(
                k@,
                self.self_key@,
            ) == Some(shared_cache_of(self.cache)[k]@) by {
                if k != *contact {
                    assert(shared_cache_of(old(self).cache).contains_key(k));
                }
            }
        }
        Some(shared)
    }
}

/// Asking twice gives the same secret: what `get_key` returns depends on
/// the contact and the node's key alone, never on what was cached.
pub proof fn lemma_shared_key_stable(
    contact: [u8; 32],
    sk: [u8; 32],
    first: Option<[u8; 32]>,
    second: Option<[u8; 32]>,
)
    requires
        match first {
            Some(k) => shared_of(contact@, sk@) == Some(k@),
            None => shared_of(contact@, sk@) is None,
        },
        match second {
            Some(k) => shared_of(contact@, sk@) == Some(k@),
            None => shared_of(contact@, sk@) is None,
        },
    ensures
        first == second,
{
    broadcast use vstd::array::group_array_axioms;

    match (first, second) {
        (Some(a), Some(b)) => {
            assert(a@ == b@);
            assert(a =~= b);
        },
        _ => {},
    }
}

} // verus!
