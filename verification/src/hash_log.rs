//! Logs of recently seen message hashes, used to drop packets and messages
//! that arrive twice, and the bytes each kind of message is hashed over.
//!
//! The hash itself is the node's SHA-1 accelerator; this module decides
//! what is hashed and what a hash that was already seen means.
use vstd::prelude::*;

use crate::wire::{le32, push_slice, push_u32_le};

verus! {

/// A 20-byte message hash.
pub type MessageHash = [u8; 20];

/// Whether two hashes are the same.
fn same_hash(a: &MessageHash, b: &MessageHash) -> (r: bool)
    ensures
        r <==> *a == *b,
{
    let mut i: usize = 0;
    while i < 20
        invariant
            i <= 20,
            forall|j: int| 0 <= j < i ==> a@[j] == b@[j],
        decreases 20 - i,
    {
        if a[i] != b[i] {
            return false;
        }
        i = i + 1;
    }
    proof {
        broadcast use vstd::array::group_array_axioms;

        assert(*a =~= *b);
    }
    true
}

/// Whether `log` holds `h`.
fn holds(log: &Vec<MessageHash>, h: &MessageHash) -> (r: bool)
    ensures
        r <==> log@.contains(*h),
{
    let mut i: usize = 0;
    while i < log.len()
        invariant
            i <= log@.len(),
            forall|j: int| 0 <= j < i ==> log@[j] != *h,
        decreases log@.len() - i,
    {
        if same_hash(&log[i], h) {
            assert(log@[i as int] == *h);
            return true;
        }
        i = i + 1;
    }
    false
}

/// The first `cap` entries of `s`, or all of them when there are fewer.
pub open spec fn keep_first(s: Seq<MessageHash>, cap: nat) -> Seq<MessageHash> {
    if s.len() <= cap {
        s
    } else {
        s.take(cap as int)
    }
}

/// The last `cap` entries of `s`, or all of them when there are fewer.
pub open spec fn keep_last(s: Seq<MessageHash>, cap: nat) -> Seq<MessageHash> {
    if s.len() <= cap {
        s
    } else {
        s.skip(s.len() - cap)
    }
}

/// The hashes of the last `CAPACITY` distinct packets or messages, newest
/// first.
#[derive(Debug)]
pub struct HashLog<const CAPACITY: usize> {
    log: Vec<MessageHash>,
}

impl<const CAPACITY: usize> View for HashLog<CAPACITY> {
    type V = Seq<MessageHash>;

    closed spec fn view(&self) -> Seq<MessageHash> {
        self.log@
    }
}

impl<const CAPACITY: usize> HashLog<CAPACITY> {
    /// The log never holds more than `CAPACITY` hashes.
    pub closed spec fn wf(&self) -> bool {
        self.log@.len() <= CAPACITY
    }

    /// An empty log.
    pub fn new() -> (r: Self)
        ensures
            r.wf(),
            r@ == Seq::<MessageHash>::empty(),
    {
        HashLog { log: Vec::new() }
    }

    /// Whether `hash` is among the logged hashes.
    pub fn contains_hash(&self, hash: &MessageHash) -> (r: bool)
        ensures
            r <==> self@.contains(*hash),
    {
        holds(&self.log, hash)
    }

    /// Logs `hash` and returns `true` when it is new; returns `false` and
    /// leaves the log as it was when it was already logged. A new hash goes
    /// in front; when the log is full, the oldest hash leaves it.
    pub fn push_hash(&mut self, hash: MessageHash) -> (r: bool)
        requires
            old(self).wf(),
        ensures
            final(self).wf(),
            r <==> !old(self)@.contains(hash),
            r ==> final(self)@ == keep_first(seq![hash] + old(self)@, CAPACITY as nat),
            !r ==> final(self)@ == old(self)@,
    {
        if holds(&self.log, &hash) {
            return false;
        }
        let ghost start = self.log@;
        if self.log.len() >= CAPACITY && self.log.len() > 0 {
            self.log.pop();
        }
        if self.log.len() < CAPACITY {
            self.log.insert(0, hash);
        }
        proof {
            if start.len() < CAPACITY {
                assert(self.log@ =~= seq![hash] + start);
            } else if CAPACITY > 0 {
                assert(self.log@ =~= (seq![hash] + start).take(CAPACITY as int));
            } else {
                assert(self.log@ =~= (seq![hash] + start).take(0));
            }
        }
        true
    }
}

/// Logging a new hash makes it seen: once pushed, a hash is reported as
/// logged, and pushing it again is refused, as long as the log has room
/// for one hash.
pub proof fn lemma_pushed_hash_is_seen(log: Seq<MessageHash>, hash: MessageHash, cap: nat)
    requires
        cap > 0,
        log.len() <= cap,
    ensures
        keep_first(seq![hash] + log, cap).contains(hash),
        keep_first(seq![hash] + log, cap).len() <= cap,
{
    assert(keep_first(seq![hash] + log, cap)[0] == hash);
}

/// The hashes of recently stored messages, oldest first, as the message
/// store keeps them.
#[derive(Debug)]
pub struct SeenMessages<const CAPACITY: usize> {
    seen: Vec<MessageHash>,
}

impl<const CAPACITY: usize> View for SeenMessages<CAPACITY> {
    type V = Seq<MessageHash>;

    closed spec fn view(&self) -> Seq<MessageHash> {
        self.seen@
    }
}

impl<const CAPACITY: usize> SeenMessages<CAPACITY> {
    /// The log never holds more than `CAPACITY` hashes.
    pub closed spec fn wf(&self) -> bool {
        self.seen@.len() <= CAPACITY
    }

    /// An empty log.
    pub fn new() -> (r: Self)
        ensures
            r.wf(),
            r@ == Seq::<MessageHash>::empty(),
    {
        SeenMessages { seen: Vec::new() }
    }

    /// The hash to log for a message, or `None` when it was seen already.
    pub fn unseen(&self, hash: MessageHash) -> (r: Option<MessageHash>)
        ensures
            self@.contains(hash) ==> r is None,
            !self@.contains(hash) ==> r == Some(hash),
    {
        if holds(&self.seen, &hash) {
            None
        } else {
            Some(hash)
        }
    }

    /// Appends `hash`, whether or not it was seen before; when the log is
    /// full, the oldest hash leaves it.
    pub fn make_seen(&mut self, hash: MessageHash)
        requires
            old(self).wf(),
        ensures
            final(self).wf(),
            final(self)@ == keep_last(old(self)@.push(hash), CAPACITY as nat),
    {
        let ghost start = self.seen@;
        if self.seen.len() >= CAPACITY && self.seen.len() > 0 {
            self.seen.remove(0);
        }
        if self.seen.len() < CAPACITY {
            self.seen.push(hash);
        }
        proof {
            if start.len() < CAPACITY {
                assert(self.seen@ =~= start.push(hash));
            } else if CAPACITY > 0 {
                assert(self.seen@ =~= start.push(hash).skip(start.push(hash).len() - CAPACITY));
            } else {
                assert(self.seen@ =~= start.push(hash).skip(start.push(hash).len() - 0));
            }
        }
    }

    /// Logs `hash` and returns `true` when it is new, so that the message
    /// is stored; returns `false` and leaves the log as it was when it was
    /// seen already.
    pub fn push(&mut self, hash: MessageHash) -> (r: bool)
        requires
            old(self).wf(),
        ensures
            final(self).wf(),
            r <==> !old(self)@.contains(hash),
            r ==> final(self)@ == keep_last(old(self)@.push(hash), CAPACITY as nat),
            !r ==> final(self)@ == old(self)@,
    {
        match self.unseen(hash) {
            Some(h) => {
                self.make_seen(h);
                true
            },
            None => false,
        }
    }
}

/// A message stored once is refused the second time, as long as the log
/// has room for one hash.
pub proof fn lemma_seen_message_is_refused(seen: Seq<MessageHash>, hash: MessageHash, cap: nat)
    requires
        cap > 0,
        seen.len() <= cap,
    ensures
        keep_last(seen.push(hash), cap).contains(hash),
        keep_last(seen.push(hash), cap).len() <= cap,
{
    let s = keep_last(seen.push(hash), cap);
    assert(s[s.len() - 1] == hash);
}

/// The bytes hashed for a channel message: a `1`, the channel slot, the
/// timestamp (little-endian), then the text.
pub open spec fn channel_hash_input(idx: u8, timestamp: u32, data: Seq<u8>) -> Seq<u8> {
    seq![1u8, idx] + le32(timestamp) + data
}

/// The bytes hashed for a direct message: a `0`, the timestamp
/// (little-endian), the sender's key prefix, then the text.
pub open spec fn contact_hash_input(pk_prefix: Seq<u8>, timestamp: u32, data: Seq<u8>) -> Seq<u8> {
    seq![0u8] + le32(timestamp) + pk_prefix + data
}

/// The bytes hashed for a packet: its header byte, then its payload.
pub open spec fn packet_hash_input(header: u8, payload: Seq<u8>) -> Seq<u8> {
    seq![header] + payload
}

/// Something that is logged by the hash of some of its bytes.
pub trait HashableMessage {
    /// The bytes this message is hashed over.
    spec fn spec_hash_input(&self) -> Seq<u8>;

    /// The bytes this message is hashed over.
    fn hash_input(&self) -> (r: Vec<u8>)
        ensures
            r@ == self.spec_hash_input(),
    ;
}

/// A channel message, as it is hashed.
pub struct HashableChannelMessage<'a> {
    pub idx: u8,
    pub timestamp: u32,
    pub data: &'a [u8],
}

impl<'a> HashableMessage for HashableChannelMessage<'a> {
    open spec fn spec_hash_input(&self) -> Seq<u8> {
        channel_hash_input(self.idx, self.timestamp, self.data@)
    }

    fn hash_input(&self) -> (r: Vec<u8>) {
        let mut out: Vec<u8> = Vec::new();
        out.push(1u8);
        out.push(self.idx);
        push_u32_le(&mut out, self.timestamp);
        push_slice(&mut out, self.data);
        assert(out@ =~= channel_hash_input(self.idx, self.timestamp, self.data@));
        out
    }
}

/// A direct message, as it is hashed.
pub struct HashableContactMessage<'a> {
    pub pk_prefix: &'a [u8; 6],
    pub timestamp: u32,
    pub data: &'a [u8],
}

impl<'a> HashableMessage for HashableContactMessage<'a> {
    open spec fn spec_hash_input(&self) -> Seq<u8> {
        contact_hash_input(self.pk_prefix@, self.timestamp, self.data@)
    }

    fn hash_input(&self) -> (r: Vec<u8>) {
        let mut out: Vec<u8> = Vec::new();
        out.push(0u8);
        push_u32_le(&mut out, self.timestamp);
        push_slice(&mut out, self.pk_prefix.as_slice());
        push_slice(&mut out, self.data);
        assert(out@ =~= contact_hash_input(self.pk_prefix@, self.timestamp, self.data@));
        out
    }
}

/// A packet, as it is hashed: its header byte and its payload.
pub struct HashablePacket<'a> {
    pub header: u8,
    pub payload: &'a [u8],
}

impl<'a> HashableMessage for HashablePacket<'a> {
    open spec fn spec_hash_input(&self) -> Seq<u8> {
        packet_hash_input(self.header, self.payload@)
    }

    fn hash_input(&self) -> (r: Vec<u8>) {
        let mut out: Vec<u8> = Vec::new();
        out.push(self.header);
        push_slice(&mut out, self.payload);
        assert(out@ =~= packet_hash_input(self.header, self.payload@));
        out
    }
}

} // verus!
