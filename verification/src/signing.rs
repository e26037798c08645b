//! The companion app's signature of data sent in chunks: it starts a
//! signature, sends the data, then asks for the signature, which the node
//! makes over everything gathered since the start. The node's identity key
//! is made here too, from a seed.
use vstd::prelude::*;

use ed25519_compact::{KeyPair, Noise, SecretKey, Seed};

use crate::config::{hex_lower, identity_name};
use crate::key_cache::{x25519_of, x25519_public};
use crate::protocol::{ErrResponse, OkResponse, SignStart, SignatureResponse};

verus! {

/// `ed25519_compact::KeyPair::from_seed`: the public key of the pair that a
/// seed gives.
pub uninterp spec fn ed25519_public_of(seed: Seq<u8>) -> Seq<u8>;

/// `ed25519_compact::SecretKey::sign` with noise: the signature that the
/// secret key `sk` with the noise `noise` gives the message `msg`.
pub uninterp spec fn ed25519_sign_of(sk: Seq<u8>, noise: Seq<u8>, msg: Seq<u8>) -> Seq<u8>;

/// A seed of 32 zero bytes, which no key pair is made from.
pub open spec fn zero_seed(seed: Seq<u8>) -> bool {
    forall|i: int| 0 <= i < seed.len() ==> seed[i] == 0u8
}

/// A secret key whose second half is the public key of its first half, as
/// a key pair made from a seed holds it.
pub open spec fn consistent_secret_key(sk: Seq<u8>) -> bool {
    &&& sk.len() == 64
    &&& sk.subrange(32, 64) == ed25519_public_of(sk.subrange(0, 32))
}

/// `ed25519_compact::KeyPair::try_from_seed`: the secret key of the pair
/// made from `seed` (the seed, then its public key), or `None` for the
/// all-zero seed, which the crate refuses.
#[verifier::external_body]
fn key_pair_from_seed(seed: &[u8; 32]) -> (r: Option<[u8; 64]>)
    ensures
        r is None <==> zero_seed(seed@),
        r matches Some(sk) ==> sk@.subrange(0, 32) == seed@ && sk@.subrange(32, 64)
            == ed25519_public_of(seed@),
{
    match KeyPair::try_from_seed(Seed::new(*seed)) {
        Ok(pair) => Some(*pair.sk),
        Err(_) => None,
    }
}

/// `ed25519_compact::SecretKey::sign` with `Some(noise)`: the signature of
/// `msg` under `sk`. Trusted: the crate computes it from the key, the noise
/// and the message alone (its nonce is the SHA-512 of the noise, the
/// expanded key and the message), so the result is named as a function of
/// the three.
#[verifier::external_body]
fn sign_message(sk: &[u8; 64], noise: &[u8; 16], msg: &[u8]) -> (r: [u8; 64])
    ensures
        r@ == ed25519_sign_of(sk@, noise@, msg@),
{
    *SecretKey::new(*sk).sign(msg, Some(Noise::new(*noise)))
}

/// The secret key of the node made from `seed`, with the name it gets:
/// `None` for the all-zero seed, and for a seed whose public key has no
/// X25519 counterpart, so that the node could not exchange keys with it.
pub fn identity_from_seed(seed: &[u8; 32]) -> (r: Option<([u8; 64], String)>)
    ensures
        r is Some <==> (!zero_seed(seed@) && x25519_of(ed25519_public_of(seed@)) is Some),
        r matches Some((sk, name)) ==> {
            &&& sk@ == seed@ + ed25519_public_of(seed@)
            &&& consistent_secret_key(sk@)
            &&& name@ == hex_lower(ed25519_public_of(seed@).subrange(0, 8))
        },
{
    let sk = match key_pair_from_seed(seed) {
        Some(sk) => sk,
        None => return None,
    };
    let mut pk: [u8; 32] = [0u8; 32];
    let mut i: usize = 0;
    while i < 32
        invariant
            i <= 32,
            forall|j: int| 0 <= j < i ==> pk@[j] == sk@[32 + j],
        decreases 32 - i,
    {
        pk[i] = sk[32 + i];
        i = i + 1;
    }
    assert(pk@ =~= sk@.subrange(32, 64));
    assert(sk@ =~= seed@ + ed25519_public_of(seed@));
    assert(sk@.subrange(0, 32) =~= seed@);
    if x25519_public(&pk).is_none() {
        return None;
    }
    let name = identity_name(&pk);
    Some((sk, name))
}

/// One call of `SignSession::sign_data` with the chunk `data`, from the
/// session `before` to the session `after`, as that call's contract states
/// it.
pub open spec fn data_step(before: SignSession, data: Seq<u8>, after: SignSession) -> bool {
    &&& after.is_active() == before.is_active()
    &&& after.key() == before.key()
    &&& after.noise() == before.noise()
    &&& before.is_active() ==> after.absorbed() == before.absorbed() + data
    &&& !before.is_active() ==> after.absorbed() == before.absorbed()
}

/// The chunks of `chunks`, one after the other.
pub open spec fn joined(chunks: Seq<Seq<u8>>) -> Seq<u8>
    decreases chunks.len(),
{
    if chunks.len() == 0 {
        Seq::empty()
    } else {
        joined(chunks.drop_last()) + chunks.last()
    }
}

/// A signature covers what was sent since its start: after `sign_start`
/// with the key `sk` and the noise `noise`, a run of `sign_data` calls
/// leaves the session active under `sk` and `noise` with every chunk
/// gathered in order, which is the message that `sign_finish` then signs. `states[i]` is the session before the chunk
/// `chunks[i]` is sent.
pub proof fn lemma_signature_covers_chunks(
    states: Seq<SignSession>,
    chunks: Seq<Seq<u8>>,
    sk: Seq<u8>,
    noise: Seq<u8>,
)
    requires
        states.len() == chunks.len() + 1,
        states[0].is_active(),
        states[0].key() == sk,
        states[0].noise() == noise,
        states[0].absorbed() == Seq::<u8>::empty(),
        forall|i: int| 0 <= i < chunks.len() ==> data_step(states[i], #[trigger] chunks[i], states[i + 1]),
    ensures
        states.last().is_active(),
        states.last().key() == sk,
        states.last().noise() == noise,
        states.last().absorbed() == joined(chunks),
    decreases chunks.len(),
{
    if chunks.len() > 0 {
        let n = chunks.len() - 1;
        let s2 = states.drop_last();
        let c2 = chunks.drop_last();
        assert forall|i: int| 0 <= i < c2.len() implies data_step(s2[i], #[trigger] c2[i], s2[i + 1]) by {
            assert(data_step(states[i], chunks[i], states[i + 1]));
        }
        lemma_signature_covers_chunks(s2, c2, sk, noise);
        assert(data_step(states[n], chunks[n], states[n + 1]));
    } else {
        assert(Seq::<u8>::empty() =~= joined(chunks));
    }
}

/// The longest message the app may have signed, in bytes.
pub const MAX_SIGNED_LEN: u32 = 16384;

/// A signature being gathered: the key, the noise, and the message so far.
struct Pending {
    sk: [u8; 64],
    noise: [u8; 16],
    message: Vec<u8>,
}

/// A signature in progress, if any.
pub struct SignSession {
    state: Option<Pending>,
}

impl SignSession {
    /// Whether a signature is in progress.
    pub closed spec fn is_active(&self) -> bool {
        self.state is Some
    }

    /// The secret key the signature in progress is made with.
    pub closed spec fn key(&self) -> Seq<u8> {
        match self.state {
            Some(p) => p.sk@,
            None => Seq::empty(),
        }
    }

    /// The noise the signature in progress is made with.
    pub closed spec fn noise(&self) -> Seq<u8> {
        match self.state {
            Some(p) => p.noise@,
            None => Seq::empty(),
        }
    }

    /// The message gathered so far for the signature in progress.
    pub closed spec fn absorbed(&self) -> Seq<u8> {
        match self.state {
            Some(p) => p.message@,
            None => Seq::empty(),
        }
    }

    /// No signature in progress.
    pub fn new() -> (r: SignSession)
        ensures
            !r.is_active(),
    {
        SignSession { state: None }
    }

    /// Starts a signature with the secret key `sk` and the random `noise`,
    /// dropping any signature in progress, and tells the app how much it may
    /// sign.
    pub fn sign_start(&mut self, sk: &[u8; 64], noise: [u8; 16]) -> (r: SignStart)
        ensures
            final(self).is_active(),
            final(self).key() == sk@,
            final(self).noise() == noise@,
            final(self).absorbed() == Seq::<u8>::empty(),
            r == (SignStart { reserved: 0, max_len: MAX_SIGNED_LEN }),
    {
        self.state = Some(Pending { sk: *sk, noise, message: Vec::new() });
        SignStart { reserved: 0, max_len: MAX_SIGNED_LEN }
    }

    /// Adds `data` to the signature in progress; fails, changing nothing,
    /// when none is.
    pub fn sign_data(&mut self, data: &[u8]) -> (r: Result<OkResponse, ErrResponse>)
        ensures
            final(self).is_active() == old(self).is_active(),
            final(self).key() == old(self).key(),
            final(self).noise() == old(self).noise(),
            old(self).is_active() ==> final(self).absorbed() == old(self).absorbed() + data@,
            !old(self).is_active() ==> final(self).absorbed() == old(self).absorbed(),
            data_step(*old(self), data@, *final(self)),
            old(self).is_active() ==> r == Ok::<OkResponse, ErrResponse>(OkResponse { code: None }),
            !old(self).is_active() ==> r == Err::<OkResponse, ErrResponse>(
                ErrResponse { code: None },
            ),
    {
        match &mut self.state {
            Some(pending) => {
                let ghost before = pending.message@;
                let ghost key = pending.sk;
                let ghost noise = pending.noise;
                let mut i: usize = 0;
                while i < data.len()
                    invariant
                        i <= data@.len(),
                        pending.message@ == before + data@.subrange(0, i as int),
                        pending.sk == key,
                        pending.noise == noise,
                    decreases data@.len() - i,
                {
                    pending.message.push(data[i]);
                    i = i + 1;
                    assert(pending.message@ =~= before + data@.subrange(0, i as int));
                }
                assert(data@.subrange(0, data@.len() as int) =~= data@);
                Ok(OkResponse { code: None })
            },
            None => Err(ErrResponse { code: None }),
        }
    }

    /// Ends the signature in progress and returns it; fails when none is.
    /// Either way no signature is in progress afterwards. The signature is
    /// the one the session's key and noise give the message gathered since
    /// the start.
    pub fn sign_finish(&mut self) -> (r: Result<SignatureResponse, ErrResponse>)
        ensures
            !final(self).is_active(),
            old(self).is_active() <==> r is Ok,
            !old(self).is_active() ==> r == Err::<SignatureResponse, ErrResponse>(
                ErrResponse { code: None },
            ),
            r matches Ok(s) ==> s.signature@ == ed25519_sign_of(
                old(self).key(),
                old(self).noise(),
                old(self).absorbed(),
            ),
    {
        match self.state.take() {
            Some(pending) => {
                let signature = sign_message(&pending.sk, &pending.noise, pending.message.as_slice());
                Ok(SignatureResponse { signature })
            },
            None => Err(ErrResponse { code: None }),
        }
    }
}

} // verus!
