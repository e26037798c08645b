//! Keys and directory records of the flash key-value store.
//!
//! Every file is stored under a `FileKey`: the hash of its directory's name
//! and the hash of its own name. Each directory keeps one index record, a
//! `Directory`, listing the little-endian bytes of its files' name hashes in
//! ascending byte order.
use vstd::prelude::*;

use crate::wire::{
    le16, le32, push_u16_le, push_u32_le, read_array, read_u16_le, read_u32_le, u16_of_le, u32_of_le,
    write_prefix,
};

verus! {

/// The seed of every name hash in the store.
pub const HASH_SEED: u32 = 10011001;

/// `xxhash_rust::xxh32::xxh32(data, seed)`, the 32-bit xxHash of `data`.
pub uninterp spec fn xxh32_of(data: Seq<u8>, seed: u32) -> u32;

/// `xxhash_rust::xxh32::xxh32`: the 32-bit xxHash of `data` under `seed`.
/// Trusted: the result is only named, a function of the bytes and the seed.
#[verifier::external_body]
fn xxh32(data: &[u8], seed: u32) -> (r: u32)
    ensures
        r == xxh32_of(data@, seed),
{
    xxhash_rust::xxh32::xxh32(data, seed)
}

/// `xxhash_rust::const_xxh32::xxh32(data, seed)`, the compile-time variant of
/// the 32-bit xxHash.
pub uninterp spec fn const_xxh32_of(data: Seq<u8>, seed: u32) -> u32;

/// `xxhash_rust::const_xxh32::xxh32`: the 32-bit xxHash of `data` under
/// `seed`, as the `const fn` computes it. Trusted: the result is only named,
/// a function of the bytes and the seed.
#[verifier::external_body]
fn const_xxh32(data: &[u8], seed: u32) -> (r: u32)
    ensures
        r == const_xxh32_of(data@, seed),
{
    xxhash_rust::const_xxh32::xxh32(data, seed)
}

/// Why a record could not be written or read.
#[derive(Clone, Copy, Debug, PartialEq, Eq, Structural)]
pub enum SerializationError {
    BufferTooSmall,
}

/// The hash of a directory's name.
#[derive(Clone, Copy, Debug, PartialEq, Eq, Structural)]
pub struct DirKey(pub u32);

/// A file's directory hash and name hash.
#[derive(Clone, Copy, Debug, PartialEq, Eq, Structural)]
pub struct FileKey(pub u32, pub u32);

impl DirKey {
    /// The directory named `key`.
    pub fn const_new(key: &[u8]) -> (r: DirKey)
        ensures
            r.0 == const_xxh32_of(key@, HASH_SEED),
    {
        DirKey(const_xxh32(key, HASH_SEED))
    }

    /// The file named `key` in this directory.
    pub fn file(&self, key: &[u8]) -> (r: FileKey)
        ensures
            r.0 == self.0,
            r.1 == xxh32_of(key@, HASH_SEED),
    {
        FileKey(self.0, xxh32(key, HASH_SEED))
    }
}

/// The name under which each directory's index record is stored.
pub open spec fn dir_index_name() -> Seq<u8> {
    seq![
        95u8, 67, 72, 73, 89, 79, 95, 73, 78, 84, 69, 82, 78, 65, 76, 95, 68, 73, 82, 73, 78, 68, 69,
        88,
    ]
}

/// The name hash of every directory's index record.
pub fn dir_index_hash() -> (r: u32)
    ensures
        r == const_xxh32_of(dir_index_name(), HASH_SEED),
{
    let name: [u8; 24] = [
        95u8, 67, 72, 73, 89, 79, 95, 73, 78, 84, 69, 82, 78, 65, 76, 95, 68, 73, 82, 73, 78, 68, 69,
        88,
    ];
    assert(name@ =~= dir_index_name());
    const_xxh32(name.as_slice(), HASH_SEED)
}

/// The key of the index record of directory `dir`.
pub fn index_key(dir: DirKey) -> (r: FileKey)
    ensures
        r.0 == dir.0,
        r.1 == const_xxh32_of(dir_index_name(), HASH_SEED),
{
    FileKey(dir.0, dir_index_hash())
}

/// The name of the directory shared by the whole node.
pub open spec fn global_dir_name() -> Seq<u8> {
    seq![99u8, 104, 105, 121, 111, 103, 108, 111, 98, 97, 108]
}

/// The directory shared by the whole node.
pub fn global_dir() -> (r: DirKey)
    ensures
        r.0 == const_xxh32_of(global_dir_name(), HASH_SEED),
{
    let name: [u8; 11] = [99u8, 104, 105, 121, 111, 103, 108, 111, 98, 97, 108];
    assert(name@ =~= global_dir_name());
    DirKey::const_new(name.as_slice())
}

impl FileKey {
    /// The stored form of a key: both hashes, little-endian.
    pub open spec fn spec_bytes(self) -> Seq<u8> {
        le32(self.0) + le32(self.1)
    }

    /// Writes the key at the start of `buffer` and returns its length, or
    /// fails when `buffer` is shorter than a key.
    pub fn serialize_into(&self, buffer: &mut [u8]) -> (r: Result<usize, SerializationError>)
        ensures
            old(buffer)@.len() < 8 ==> r == Err::<usize, SerializationError>(
                SerializationError::BufferTooSmall,
            ) && final(buffer)@ == old(buffer)@,
            old(buffer)@.len() >= 8 ==> r == Ok::<usize, SerializationError>(8usize)
                && final(buffer)@ == self.spec_bytes() + old(buffer)@.subrange(
                8,
                old(buffer)@.len() as int,
            ),
    {
        if buffer.len() < 8 {
            return Err(SerializationError::BufferTooSmall);
        }
        let a = self.0;
        let b = self.1;
        buffer[0] = (a % 256) as u8;
        buffer[1] = ((a / 256) % 256) as u8;
        buffer[2] = ((a / 65536) % 256) as u8;
        buffer[3] = (a / 16777216) as u8;
        buffer[4] = (b % 256) as u8;
        buffer[5] = ((b / 256) % 256) as u8;
        buffer[6] = ((b / 65536) % 256) as u8;
        buffer[7] = (b / 16777216) as u8;
        assert(buffer@ =~= self.spec_bytes() + old(buffer)@.subrange(8, old(buffer)@.len() as int));
        Ok(8)
    }

    /// Reads a key from the start of `buffer`, with the number of bytes it
    /// took, or fails when `buffer` is shorter than a key.
    pub fn deserialize_from(buffer: &[u8]) -> (r: Result<(FileKey, usize), SerializationError>)
        ensures
            buffer@.len() < 8 ==> r == Err::<(FileKey, usize), SerializationError>(
                SerializationError::BufferTooSmall,
            ),
            buffer@.len() >= 8 ==> r == Ok::<(FileKey, usize), SerializationError>(
                (
                    FileKey(
                        u32_of_le(buffer@.subrange(0, 4)),
                        u32_of_le(buffer@.subrange(4, 8)),
                    ),
                    8usize,
                ),
            ),
    {
        if buffer.len() < 8 {
            return Err(SerializationError::BufferTooSmall);
        }
        Ok((FileKey(read_u32_le(buffer, 0), read_u32_le(buffer, 4)), 8))
    }

    /// The stored length of a key, whatever the buffer holds.
    pub fn get_len(_buffer: &[u8]) -> (r: Result<usize, SerializationError>)
        ensures
            r == Ok::<usize, SerializationError>(8usize),
    {
        Ok(8)
    }
}

/// A key read back from its stored form is the key that was stored.
pub proof fn lemma_file_key_roundtrip(k: FileKey)
    ensures
        k.spec_bytes().len() == 8,
        FileKey(
            u32_of_le(k.spec_bytes().subrange(0, 4)),
            u32_of_le(k.spec_bytes().subrange(4, 8)),
        ) == k,
{
    crate::wire::lemma_le32_roundtrip(k.0);
    crate::wire::lemma_le32_roundtrip(k.1);
    assert(k.spec_bytes().subrange(0, 4) =~= le32(k.0));
    assert(k.spec_bytes().subrange(4, 8) =~= le32(k.1));
}

/// The four bytes under which a file of a directory is listed: its name
/// hash, little-endian.
pub fn entry_of(key: &FileKey) -> (r: [u8; 4])
    ensures
        r@ == le32(key.1),
{
    let x = key.1;
    let r: [u8; 4] = [
        (x % 256) as u8,
        ((x / 256) % 256) as u8,
        ((x / 65536) % 256) as u8,
        (x / 16777216) as u8,
    ];
    assert(r@ =~= le32(x));
    r
}

/// The rank of an entry in a directory's order: its bytes read as one
/// big-endian number, which is comparing them byte by byte.
pub open spec fn entry_rank(e: [u8; 4]) -> int {
    e[0] * 16777216 + e[1] * 65536 + e[2] * 256 + e[3]
}

/// The order of a directory's entries.
pub open spec fn entry_order() -> spec_fn([u8; 4], [u8; 4]) -> bool {
    |a: [u8; 4], b: [u8; 4]| entry_rank(a) <= entry_rank(b)
}

/// Two entries of the same rank are the same entry.
pub proof fn lemma_entry_rank_injective(a: [u8; 4], b: [u8; 4])
    requires
        entry_rank(a) == entry_rank(b),
    ensures
        a == b,
{
    broadcast use vstd::array::group_array_axioms;

    let (a0, a1, a2, a3) = (a[0] as int, a[1] as int, a[2] as int, a[3] as int);
    let (b0, b1, b2, b3) = (b[0] as int, b[1] as int, b[2] as int, b[3] as int);
    assert(a0 == b0 && a1 == b1 && a2 == b2 && a3 == b3) by (nonlinear_arith)
        requires
            0 <= a0 < 256,
            0 <= a1 < 256,
            0 <= a2 < 256,
            0 <= a3 < 256,
            0 <= b0 < 256,
            0 <= b1 < 256,
            0 <= b2 < 256,
            0 <= b3 < 256,
            a0 * 16777216 + a1 * 65536 + a2 * 256 + a3 == b0 * 16777216 + b1 * 65536 + b2 * 256
                + b3,
    ;
    assert(a =~= b);
}

/// The order of a directory's entries is a total order.
pub proof fn lemma_entry_order_total()
    ensures
        vstd::relations::total_ordering(entry_order()),
{
    assert forall|a: [u8; 4], b: [u8; 4]|
        #[trigger] entry_order()(a, b) && #[trigger] entry_order()(b, a) implies a == b by {
        lemma_entry_rank_injective(a, b);
    }
}

/// Rank of an entry, computed.
fn rank_of(e: &[u8; 4]) -> (r: u32)
    ensures
        r == entry_rank(*e),
{
    (e[0] as u32) * 16777216 + (e[1] as u32) * 65536 + (e[2] as u32) * 256 + (e[3] as u32)
}

/// The bytes of a list of entries, one after the other.
pub open spec fn entry_bytes(entries: Seq<[u8; 4]>) -> Seq<u8>
    decreases entries.len(),
{
    if entries.len() == 0 {
        Seq::empty()
    } else {
        entry_bytes(entries.drop_last()) + entries.last()@
    }
}

/// The bytes of `n` entries are `4 * n` bytes, entry `i` at `4 * i`.
pub proof fn lemma_entry_bytes(entries: Seq<[u8; 4]>)
    ensures
        entry_bytes(entries).len() == 4 * entries.len(),
        forall|i: int|
            0 <= i < entries.len() ==> #[trigger] entry_bytes(entries).subrange(4 * i, 4 * i + 4)
                == entries[i]@,
    decreases entries.len(),
{
    if entries.len() > 0 {
        let init = entries.drop_last();
        lemma_entry_bytes(init);
        assert forall|i: int| 0 <= i < entries.len() implies #[trigger] entry_bytes(
            entries,
        ).subrange(4 * i, 4 * i + 4) == entries[i]@ by {
            if i < init.len() {
                assert(entry_bytes(entries).subrange(4 * i, 4 * i + 4) =~= entry_bytes(
                    init,
                ).subrange(4 * i, 4 * i + 4));
            } else {
                assert(entry_bytes(entries).subrange(4 * i, 4 * i + 4) =~= entries.last()@);
            }
        }
    }
}

/// Four-byte groups of `b`, in order.
pub open spec fn chunks4(b: Seq<u8>) -> Seq<Seq<u8>> {
    Seq::new(b.len() / 4, |i: int| b.subrange(4 * i, 4 * i + 4))
}

/// The bytes of each entry.
pub open spec fn entry_views(entries: Seq<[u8; 4]>) -> Seq<Seq<u8>> {
    entries.map_values(|e: [u8; 4]| e@)
}

/// The number of entry bytes that a stored count of `len` entries covers:
/// `len * 4`, in 16-bit arithmetic.
pub open spec fn stored_entries_len(len: u16) -> int {
    (len * 4) % 65536
}

/// The index record of one directory: how many files it lists, which
/// directory it is, and the name hash bytes of its files.
#[derive(Clone, Debug, PartialEq, Eq)]
pub struct Directory {
    pub len: u16,
    pub dir_key: DirKey,
    pub entries: Vec<[u8; 4]>,
}

impl Directory {
    /// The stored form: the count, the directory hash and the entries.
    pub open spec fn spec_bytes(&self) -> Seq<u8> {
        le16(self.len) + le32(self.dir_key.0) + entry_bytes(self.entries@)
    }

    /// A record whose count is the number of its entries, small enough that
    /// the count of entry bytes fits in 16 bits.
    pub open spec fn is_consistent(&self) -> bool {
        self.entries@.len() == self.len as nat && self.len < 16384
    }

    /// Whether the directory lists the file `key`.
    pub fn contains(&self, key: &FileKey) -> (r: bool)
        ensures
            r <==> exists|i: int| 0 <= i < self.entries@.len() && #[trigger] self.entries@[i]@ == le32(key.1),
    {
        let k = entry_of(key);
        let mut i: usize = 0;
        while i < self.entries.len()
            invariant
                i <= self.entries@.len(),
                k@ == le32(key.1),
                forall|j: int| 0 <= j < i ==> #[trigger] self.entries@[j]@ != le32(key.1),
            decreases self.entries@.len() - i,
        {
            let e = self.entries[i];
            if e[0] == k[0] && e[1] == k[1] && e[2] == k[2] && e[3] == k[3] {
                assert(e@ =~= k@);
                return true;
            }
            assert(e@[0] != k@[0] || e@[1] != k@[1] || e@[2] != k@[2] || e@[3] != k@[3]);
            i = i + 1;
        }
        false
    }

    /// Writes the record at the start of `buffer` and returns its length, or
    /// fails when `buffer` is shorter than the record.
    pub fn serialize_into(&self, buffer: &mut [u8]) -> (r: Result<usize, SerializationError>)
        requires
            6 + 4 * self.entries@.len() <= usize::MAX,
        ensures
            old(buffer)@.len() < 6 + 4 * self.entries@.len() ==> r == Err::<
                usize,
                SerializationError,
            >(SerializationError::BufferTooSmall) && final(buffer)@ == old(buffer)@,
            old(buffer)@.len() >= 6 + 4 * self.entries@.len() ==> r == Ok::<
                usize,
                SerializationError,
            >((6 + 4 * self.entries@.len()) as usize) && final(buffer)@ == self.spec_bytes()
                + old(buffer)@.subrange(6 + 4 * self.entries@.len() as int, old(buffer)@.len() as int),
    {
        if buffer.len() < 6 + self.entries.len() * 4 {
            return Err(SerializationError::BufferTooSmall);
        }
        let mut out: Vec<u8> = Vec::new();
        push_u16_le(&mut out, self.len);
        push_u32_le(&mut out, self.dir_key.0);
        let mut i: usize = 0;
        while i < self.entries.len()
            invariant
                i <= self.entries@.len(),
                out@ == le16(self.len) + le32(self.dir_key.0) + entry_bytes(
                    self.entries@.subrange(0, i as int),
                ),
            decreases self.entries@.len() - i,
        {
            let e = self.entries[i];
            out.push(e[0]);
            out.push(e[1]);
            out.push(e[2]);
            out.push(e[3]);
            proof {
                let prev = self.entries@.subrange(0, i as int);
                let next = self.entries@.subrange(0, i + 1);
                assert(next.drop_last() =~= prev);
                assert(out@ =~= le16(self.len) + le32(self.dir_key.0) + entry_bytes(next));
            }
            i = i + 1;
        }
        proof {
            assert(self.entries@.subrange(0, self.entries@.len() as int) =~= self.entries@);
            lemma_entry_bytes(self.entries@);
        }
        write_prefix(buffer, out.as_slice());
        Ok(out.len())
    }

    /// Reads a record from the start of `buffer`, with the number of bytes
    /// it took, or fails when `buffer` is shorter than its header or than
    /// the entries its count announces.
    pub fn deserialize_from(buffer: &[u8]) -> (r: Result<(Directory, usize), SerializationError>)
        ensures
            buffer@.len() < 6 ==> r is Err,
            buffer@.len() >= 6 ==> {
                let len = u16_of_le(buffer@.subrange(0, 2));
                let n = stored_entries_len(len);
                if buffer@.len() < 6 + n {
                    r is Err
                } else {
                    r is Ok && r->Ok_0.1 == 6 + n && r->Ok_0.0.len == len && r->Ok_0.0.dir_key
                        == DirKey(u32_of_le(buffer@.subrange(2, 6))) && entry_views(
                        r->Ok_0.0.entries@,
                    ) == chunks4(buffer@.subrange(6, 6 + n))
                }
            },
            r matches Err(e) ==> e == SerializationError::BufferTooSmall,
    {
        if buffer.len() < 6 {
            return Err(SerializationError::BufferTooSmall);
        }
        let len = read_u16_le(buffer, 0);
        let dir_key = read_u32_le(buffer, 2);
        let bytes_len = len.wrapping_mul(4) as usize;
        assert(bytes_len == stored_entries_len(len)) by {
            assert(len.wrapping_mul(4) == (len * 4) % 65536);
        }
        if buffer.len() < 6 + bytes_len {
            return Err(SerializationError::BufferTooSmall);
        }
        let ghost body = buffer@.subrange(6, 6 + bytes_len);
        let count = bytes_len / 4;
        let mut entries: Vec<[u8; 4]> = Vec::new();
        let mut i: usize = 0;
        while i < count
            invariant
                i <= count,
                count == bytes_len / 4,
                6 + bytes_len <= buffer@.len(),
                body == buffer@.subrange(6, 6 + bytes_len),
                entries@.len() == i,
                forall|j: int|
                    0 <= j < i ==> #[trigger] entries@[j]@ == body.subrange(4 * j, 4 * j + 4),
            decreases count - i,
        {
            let e: [u8; 4] = read_array(buffer, 6 + 4 * i);
            assert(e@ =~= body.subrange(4 * i, 4 * i + 4));
            entries.push(e);
            i = i + 1;
        }
        assert(entry_views(entries@) =~= chunks4(body));
        Ok((Directory { len, dir_key: DirKey(dir_key), entries }, 6 + bytes_len))
    }
}

/// A consistent directory record reads back as the record that was
/// written: the same count, directory and entries, and exactly the bytes
/// that were written are consumed.
pub proof fn lemma_directory_roundtrip(d: Directory, rest: Seq<u8>)
    requires
        d.is_consistent(),
    ensures
        ({
            let b = d.spec_bytes() + rest;
            let n = stored_entries_len(d.len);
            &&& b.len() >= 6 + n
            &&& n == 4 * d.entries@.len()
            &&& u16_of_le(b.subrange(0, 2)) == d.len
            &&& DirKey(u32_of_le(b.subrange(2, 6))) == d.dir_key
            &&& chunks4(b.subrange(6, 6 + n)) == entry_views(d.entries@)
            &&& d.spec_bytes().len() == 6 + n
        }),
{
    let b = d.spec_bytes() + rest;
    let n = stored_entries_len(d.len);
    lemma_entry_bytes(d.entries@);
    crate::wire::lemma_le16_roundtrip(d.len);
    crate::wire::lemma_le32_roundtrip(d.dir_key.0);
    assert(n == 4 * d.len);
    assert(b.subrange(0, 2) =~= le16(d.len));
    assert(b.subrange(2, 6) =~= le32(d.dir_key.0));
    assert(b.subrange(6, 6 + n) =~= entry_bytes(d.entries@));
    assert forall|i: int| 0 <= i < d.entries@.len() implies #[trigger] chunks4(
        b.subrange(6, 6 + n),
    )[i] == entry_views(d.entries@)[i] by {
        assert(chunks4(b.subrange(6, 6 + n))[i] == entry_bytes(d.entries@).subrange(4 * i, 4 * i + 4));
    }
    assert(chunks4(b.subrange(6, 6 + n)) =~= entry_views(d.entries@));
}

/// Inserts `e` into the sorted list `v`, after every entry of lower or
/// equal rank.
fn insert_sorted(v: &mut Vec<[u8; 4]>, e: [u8; 4])
    requires
        vstd::relations::sorted_by(old(v)@, entry_order()),
    ensures
        vstd::relations::sorted_by(final(v)@, entry_order()),
        final(v)@.to_multiset() == old(v)@.to_multiset().insert(e),
        final(v)@.len() == old(v)@.len() + 1,
{
    let ghost start = v@;
    let r = rank_of(&e);
    let mut pos: usize = 0;
    while pos < v.len()
        invariant_except_break
            r == entry_rank(e),
            pos <= v@.len(),
            v@ == start,
            forall|j: int| 0 <= j < pos ==> entry_rank(#[trigger] v@[j]) <= entry_rank(e),
        ensures
            pos <= v@.len(),
            v@ == start,
            forall|j: int| 0 <= j < pos ==> entry_rank(#[trigger] v@[j]) <= entry_rank(e),
            pos < v@.len() ==> entry_rank(v@[pos as int]) > entry_rank(e),
        decreases v@.len() - pos,
    {
        let cur = v[pos];
        if rank_of(&cur) > r {
            break;
        }
        pos = pos + 1;
    }
    proof {
        assert forall|j: int| pos <= j < start.len() implies entry_rank(#[trigger] start[j])
            > entry_rank(e) by {
            if j > pos {
                assert(entry_order()(start[pos as int], start[j]));
            }
        }
        vstd::seq_lib::to_multiset_insert(start, pos as int, e);
    }
    v.insert(pos, e);
    proof {
        let nv = v@;
        assert forall|i: int, j: int| 0 <= i < j < nv.len() implies #[trigger] entry_order()(
            nv[i],
            nv[j],
        ) by {
            if j < pos {
                assert(entry_order()(start[i], start[j]));
            } else if j == pos {
            } else if i < pos {
            } else if i == pos {
            } else {
                assert(entry_order()(start[i - 1], start[j - 1]));
            }
        }
    }
}

/// The entries of `src` with `extra` added, in the directory's order.
fn sorted_with(src: &Vec<[u8; 4]>, extra: [u8; 4]) -> (r: Vec<[u8; 4]>)
    ensures
        r@ == src@.push(extra).sort_by(entry_order()),
{
    let mut out: Vec<[u8; 4]> = Vec::new();
    let mut i: usize = 0;
    assert(src@.subrange(0, 0) =~= out@);
    while i < src.len()
        invariant
            i <= src@.len(),
            vstd::relations::sorted_by(out@, entry_order()),
            out@.to_multiset() == src@.subrange(0, i as int).to_multiset(),
        decreases src@.len() - i,
    {
        insert_sorted(&mut out, src[i]);
        proof {
            assert(src@.subrange(0, i + 1) =~= src@.subrange(0, i as int).push(src@[i as int]));
            vstd::seq_lib::to_multiset_build(src@.subrange(0, i as int), src@[i as int]);
        }
        i = i + 1;
    }
    insert_sorted(&mut out, extra);
    proof {
        assert(src@.subrange(0, src@.len() as int) =~= src@);
        vstd::seq_lib::to_multiset_build(src@, extra);
        lemma_entry_order_total();
        src@.push(extra).lemma_sort_by_ensures(entry_order());
        vstd::seq_lib::lemma_sorted_unique(out@, src@.push(extra).sort_by(entry_order()), entry_order());
    }
    out
}

/// The index record to store when file `key` is written to directory `dir`,
/// given the record stored so far: a new record listing only `key` when
/// there is none, nothing when the record already lists `key`, and else the
/// record with `key` added, all entries in the directory's order.
pub fn index_after_set(existing: Option<&Directory>, dir: DirKey, key: FileKey) -> (r: Option<
    Directory,
>)
    requires
        existing matches Some(d) ==> d.entries@.len() < usize::MAX,
    ensures
        existing is None ==> (r matches Some(nd) && nd.len == 1 && nd.dir_key == dir
            && nd.entries@.len() == 1 && nd.entries@[0]@ == le32(key.1)),
        existing matches Some(d) ==> {
            if exists|i: int| 0 <= i < d.entries@.len() && #[trigger] d.entries@[i]@ == le32(key.1) {
                r is None
            } else {
                r matches Some(nd) && nd.dir_key == dir && nd.len == (d.entries@.len() + 1) as u16
                    && exists|e: [u8; 4]| e@ == le32(key.1) && nd.entries@ == d.entries@.push(e).sort_by(entry_order())
            }
        },
{
    let e = entry_of(&key);
    match existing {
        None => {
            let mut entries: Vec<[u8; 4]> = Vec::new();
            entries.push(e);
            Some(Directory { len: 1, dir_key: dir, entries })
        },
        Some(d) => {
            if d.contains(&key) {
                None
            } else {
                let entries = sorted_with(&d.entries, e);
                let n = d.entries.len() + 1;
                Some(Directory { len: n as u16, dir_key: dir, entries })
            }
        },
    }
}

/// The entries of `v` but the one at `i`.
fn without(v: &Vec<[u8; 4]>, i: usize) -> (r: Vec<[u8; 4]>)
    requires
        i < v@.len(),
    ensures
        r@ == v@.remove(i as int),
{
    let mut out: Vec<[u8; 4]> = Vec::new();
    let mut j: usize = 0;
    while j < v.len()
        invariant
            i < v@.len(),
            j <= v@.len(),
            j <= i ==> out@ == v@.subrange(0, j as int),
            j > i ==> out@ == v@.subrange(0, i as int) + v@.subrange(i + 1, j as int),
        decreases v@.len() - j,
    {
        if j != i {
            out.push(v[j]);
        }
        proof {
            if j < i {
                assert(out@ =~= v@.subrange(0, j + 1));
            } else if j == i {
                assert(out@ =~= v@.subrange(0, i as int) + v@.subrange(i + 1, j + 1));
            } else {
                assert(out@ =~= v@.subrange(0, i as int) + v@.subrange(i + 1, j + 1));
            }
        }
        j = j + 1;
    }
    assert(out@ =~= v@.remove(i as int));
    out
}

/// The index record to store when file `key` is deleted, given the record
/// stored for its directory: nothing when there is no record or it does not
/// list `key`, and else the record without the first entry for `key`,
/// labelled with the directory of `key`.
pub fn index_after_delete(existing: Option<&Directory>, key: FileKey) -> (r: Option<Directory>)
    ensures
        existing is None ==> r is None,
        existing matches Some(d) ==> {
            if exists|i: int| 0 <= i < d.entries@.len() && #[trigger] d.entries@[i]@ == le32(key.1) {
                r matches Some(nd) && nd.dir_key == DirKey(key.0) && nd.len == (d.entries@.len()
                    - 1) as u16 && exists|i: int|
                    0 <= i < d.entries@.len() && #[trigger] d.entries@[i]@ == le32(key.1) && (forall|
                        j: int,
                    | 0 <= j < i ==> d.entries@[j]@ != le32(key.1)) && nd.entries@ == d.entries@.remove(i)
            } else {
                r is None
            }
        },
{
    match existing {
        None => None,
        Some(d) => {
            let k = entry_of(&key);
            let mut i: usize = 0;
            while i < d.entries.len()
                invariant
                    existing == Some(d),
                    i <= d.entries@.len(),
                    k@ == le32(key.1),
                    forall|j: int| 0 <= j < i ==> #[trigger] d.entries@[j]@ != le32(key.1),
                decreases d.entries@.len() - i,
            {
                let e = d.entries[i];
                if e[0] == k[0] && e[1] == k[1] && e[2] == k[2] && e[3] == k[3] {
                    assert(e@ =~= k@);
                    let entries = without(&d.entries, i);
                    let n = entries.len();
                    return Some(Directory { len: n as u16, dir_key: DirKey(key.0), entries });
                }
                assert(e@[0] != k@[0] || e@[1] != k@[1] || e@[2] != k@[2] || e@[3] != k@[3]);
                i = i + 1;
            }
            None
        },
    }
}

/// The files of one directory, listed in the order of its index record,
/// handed out one by one.
#[derive(Debug)]
pub struct DirectoryEntries {
    cursor: usize,
    key: DirKey,
    len: usize,
    entries: Vec<[u8; 4]>,
}

impl DirectoryEntries {
    /// The listing of directory `key` from its index record: as many files
    /// as the record counts.
    pub fn new(key: DirKey, dir: Directory) -> (r: DirectoryEntries)
        ensures
            r.wf(),
            r.spec_cursor() == 0,
            r.spec_key() == key,
            r.spec_len() == dir.len as nat,
            r.spec_entries() == dir.entries@,
    {
        DirectoryEntries { cursor: 0, key, len: dir.len as usize, entries: dir.entries }
    }

    /// How many files were handed out so far.
    pub closed spec fn spec_cursor(&self) -> nat {
        self.cursor as nat
    }

    /// The directory listed.
    pub closed spec fn spec_key(&self) -> DirKey {
        self.key
    }

    /// How many files the listing holds.
    pub closed spec fn spec_len(&self) -> nat {
        self.len as nat
    }

    /// The entries of the index record.
    pub closed spec fn spec_entries(&self) -> Seq<[u8; 4]> {
        self.entries@
    }

    /// The listing never hands out more files than it counts.
    pub closed spec fn wf(&self) -> bool {
        self.cursor <= self.len
    }

    /// The next file, if the listing counts one, is among the record's
    /// entries.
    pub open spec fn next_is_listed(&self) -> bool {
        self.spec_cursor() < self.spec_len() ==> self.spec_cursor() < self.spec_entries().len()
    }

    /// How many files the listing holds.
    pub fn len(&self) -> (r: usize)
        ensures
            r == self.spec_len(),
    {
        self.len
    }

    /// The next file of the listing, or `None` once all were handed out.
    pub fn next(&mut self) -> (r: Option<FileKey>)
        requires
            old(self).wf(),
            old(self).next_is_listed(),
        ensures
            final(self).wf(),
            final(self).spec_key() == old(self).spec_key(),
            final(self).spec_len() == old(self).spec_len(),
            final(self).spec_entries() == old(self).spec_entries(),
            old(self).spec_cursor() >= old(self).spec_len() ==> r is None && final(self).spec_cursor()
                == old(self).spec_cursor(),
            old(self).spec_cursor() < old(self).spec_len() ==> r == Some(
                FileKey(
                    old(self).spec_key().0,
                    u32_of_le(old(self).spec_entries()[old(self).spec_cursor() as int]@),
                ),
            ) && final(self).spec_cursor() == old(self).spec_cursor() + 1,
            next_step(*old(self), r, *final(self)),
    {
        if self.cursor >= self.len {
            None
        } else {
            let e = self.entries[self.cursor];
            let name = (e[0] as u32) + 256 * (e[1] as u32) + 65536 * (e[2] as u32) + 16777216 * (
            e[3] as u32);
            let entry = FileKey(self.key.0, name);
            self.cursor = self.cursor + 1;
            Some(entry)
        }
    }
}

/// One call of `DirectoryEntries::next`, from the listing `before` to the
/// listing `after`, giving `r`: what that call's contract states.
pub open spec fn next_step(
    before: DirectoryEntries,
    r: Option<FileKey>,
    after: DirectoryEntries,
) -> bool {
    &&& after.wf()
    &&& after.spec_key() == before.spec_key()
    &&& after.spec_len() == before.spec_len()
    &&& after.spec_entries() == before.spec_entries()
    &&& before.spec_cursor() >= before.spec_len() ==> r is None && after.spec_cursor()
        == before.spec_cursor()
    &&& before.spec_cursor() < before.spec_len() ==> r == Some(
        FileKey(before.spec_key().0, u32_of_le(before.spec_entries()[before.spec_cursor() as int]@)),
    ) && after.spec_cursor() == before.spec_cursor() + 1
}

/// A listing counts its files truly: started at its first file, with a
/// record that lists at least as many entries as it counts, a run of calls
/// of `next` gives a file for each of the first `len()` calls and `None`
/// for every call after them, and `len()` stays the same throughout.
/// `states[i]` is the listing before call `i`, `results[i]` what it gave.
pub proof fn lemma_listing_count(states: Seq<DirectoryEntries>, results: Seq<Option<FileKey>>)
    requires
        states.len() == results.len() + 1,
        states[0].wf(),
        states[0].spec_cursor() == 0,
        states[0].spec_len() <= states[0].spec_entries().len(),
        forall|i: int| 0 <= i < results.len() ==> next_step(states[i], #[trigger] results[i], states[i + 1]),
    ensures
        forall|i: int| 0 <= i < results.len() ==> (#[trigger] results[i] is Some <==> i < states[0].spec_len()),
        forall|i: int| 0 <= i < states.len() ==> #[trigger] states[i].spec_len() == states[0].spec_len(),
        forall|i: int| 0 <= i < results.len() ==> states[i].next_is_listed() && #[trigger] states[i].wf(),
{
    lemma_listing_cursor(states, results, results.len() as int);
    assert forall|i: int| 0 <= i < results.len() implies (#[trigger] results[i] is Some <==> i
        < states[0].spec_len()) by {
        assert(next_step(states[i], results[i], states[i + 1]));
    }
    assert forall|i: int| 0 <= i < results.len() implies states[i].next_is_listed()
        && #[trigger] states[i].wf() by {
        if i > 0 {
            assert(next_step(states[i - 1], results[i - 1], states[i]));
        }
    }
}

/// Where a run of `next` calls stands: after `i` calls the listing has
/// handed out `i` files, or all it counts.
proof fn lemma_listing_cursor(states: Seq<DirectoryEntries>, results: Seq<Option<FileKey>>, k: int)
    requires
        states.len() == results.len() + 1,
        0 <= k < states.len(),
        states[0].spec_cursor() == 0,
        forall|i: int| 0 <= i < results.len() ==> next_step(states[i], #[trigger] results[i], states[i + 1]),
    ensures
        forall|i: int| 0 <= i <= k ==> #[trigger] states[i].spec_cursor() == if i < states[0].spec_len() { i } else { states[0].spec_len() as int },
        forall|i: int| 0 <= i <= k ==> #[trigger] states[i].spec_len() == states[0].spec_len(),
        forall|i: int| 0 <= i <= k ==> #[trigger] states[i].spec_entries() == states[0].spec_entries(),
    decreases k,
{
    if k > 0 {
        lemma_listing_cursor(states, results, k - 1);
        assert(next_step(states[k - 1], results[k - 1], states[k]));
    }
}

/// Where the file store's partition lies in flash.
#[derive(Clone, Copy, Debug, PartialEq, Eq)]
pub struct FsPartition {
    pub partition_size: usize,
    pub partition_offset: usize,
}

/// Why a flash access was refused.
#[derive(Clone, Copy, Debug, PartialEq, Eq, Structural)]
pub enum FlashAccessError {
    OutOfBounds,
}

impl FsPartition {
    /// The partition's end fits in an address.
    pub open spec fn wf(&self) -> bool {
        self.partition_offset + self.partition_size <= usize::MAX
    }

    /// Whether `address` lies in the partition, its end included.
    pub fn in_range(&self, address: usize) -> (r: bool)
        requires
            self.wf(),
        ensures
            r <==> self.partition_offset <= address <= self.partition_offset + self.partition_size,
    {
        address >= self.partition_offset && address <= (self.partition_offset + self.partition_size)
    }

    /// The flash address of partition offset `offset`, if it lies in the
    /// partition.
    pub fn map_offset(&self, offset: usize) -> (r: Option<usize>)
        requires
            self.wf(),
            self.partition_offset + offset <= usize::MAX,
        ensures
            offset <= self.partition_size ==> r == Some((self.partition_offset + offset) as usize),
            offset > self.partition_size ==> r is None,
    {
        let mapped = self.partition_offset + offset;
        if self.in_range(mapped) {
            Some(mapped)
        } else {
            None
        }
    }

    /// The partition's size in bytes.
    pub fn size(&self) -> (r: usize)
        ensures
            r == self.partition_size,
    {
        self.partition_size
    }

    /// The flash address at which `len` bytes at partition offset `offset`
    /// are read or written, or `OutOfBounds` when they do not lie in the
    /// partition.
    pub fn access_range(&self, offset: u32, len: usize) -> (r: Result<usize, FlashAccessError>)
        requires
            self.wf(),
            self.partition_offset + offset + len <= usize::MAX,
        ensures
            offset + len <= self.partition_size ==> r == Ok::<usize, FlashAccessError>(
                (self.partition_offset + offset) as usize,
            ),
            offset + len > self.partition_size ==> r == Err::<usize, FlashAccessError>(
                FlashAccessError::OutOfBounds,
            ),
    {
        let mapped = match self.map_offset(offset as usize) {
            Some(m) => m,
            None => {
                return Err(FlashAccessError::OutOfBounds);
            },
        };
        if !self.in_range(mapped + len) {
            return Err(FlashAccessError::OutOfBounds);
        }
        Ok(mapped)
    }

    /// The flash addresses between which partition offsets `from` to `to`
    /// are erased, or `OutOfBounds` when either does not lie in the
    /// partition.
    pub fn erase_range(&self, from: u32, to: u32) -> (r: Result<(usize, usize), FlashAccessError>)
        requires
            self.wf(),
            self.partition_offset + from <= usize::MAX,
            self.partition_offset + to <= usize::MAX,
        ensures
            from <= self.partition_size && to <= self.partition_size ==> r == Ok::<
                (usize, usize),
                FlashAccessError,
            >(((self.partition_offset + from) as usize, (self.partition_offset + to) as usize)),
            from > self.partition_size || to > self.partition_size ==> r == Err::<
                (usize, usize),
                FlashAccessError,
            >(FlashAccessError::OutOfBounds),
    {
        let start = match self.map_offset(from as usize) {
            Some(m) => m,
            None => {
                return Err(FlashAccessError::OutOfBounds);
            },
        };
        let end = match self.map_offset(to as usize) {
            Some(m) => m,
            None => {
                return Err(FlashAccessError::OutOfBounds);
            },
        };
        Ok((start, end))
    }
}

/// After a file is written to a directory, the directory's record lists it,
/// with every entry it listed before, in the directory's order.
pub proof fn lemma_set_lists_file(entries: Seq<[u8; 4]>, e: [u8; 4])
    ensures
        ({
            let after = entries.push(e).sort_by(entry_order());
            &&& vstd::relations::sorted_by(after, entry_order())
            &&& after.contains(e)
            &&& forall|x: [u8; 4]| entries.contains(x) ==> after.contains(x)
            &&& after.len() == entries.len() + 1
        }),
{
    lemma_entry_order_total();
    let all = entries.push(e);
    all.lemma_sort_by_ensures(entry_order());
    let after = all.sort_by(entry_order());
    assert(all[all.len() - 1] == e);
    vstd::seq_lib::to_multiset_build(entries, e);
    assert forall|x: [u8; 4]| entries.contains(x) implies after.contains(x) by {
        let i = choose|i: int| 0 <= i < entries.len() && entries[i] == x;
        assert(all[i] == x);
        vstd::seq_lib::to_multiset_contains(all, x);
        vstd::seq_lib::to_multiset_contains(after, x);
    }
    vstd::seq_lib::to_multiset_contains(all, e);
    vstd::seq_lib::to_multiset_contains(after, e);
    vstd::seq_lib::to_multiset_len(all);
    vstd::seq_lib::to_multiset_len(after);
}

/// Deleting a file keeps a directory's entries in order.
pub proof fn lemma_delete_keeps_order(entries: Seq<[u8; 4]>, i: int)
    requires
        vstd::relations::sorted_by(entries, entry_order()),
        0 <= i < entries.len(),
    ensures
        vstd::relations::sorted_by(entries.remove(i), entry_order()),
{
    let r = entries.remove(i);
    assert forall|a: int, b: int| 0 <= a < b < r.len() implies #[trigger] entry_order()(r[a], r[b]) by {
        if b < i {
            assert(entry_order()(entries[a], entries[b]));
        } else if a < i {
            assert(entry_order()(entries[a], entries[b + 1]));
        } else {
            assert(entry_order()(entries[a + 1], entries[b + 1]));
        }
    }
}

/// Why the flash driver refused an access.
#[derive(Clone, Copy, Debug, PartialEq, Eq, Structural)]
pub enum FlashErrorKind {
    IoError,
    IoTimeout,
    CantUnlock,
    NotAligned,
    OutOfBounds,
    OtherCoreRunning,
    Other,
}

/// The file-system error a flash error is reported as.
#[derive(Clone, Copy, Debug, PartialEq, Eq, Structural)]
pub enum FsErrorKind {
    Io,
    Invalid,
}

/// The file-system error for a flash error: failures of the device are
/// input/output errors, bad requests are invalid ones.
pub fn fs_error_of(err: FlashErrorKind) -> (r: FsErrorKind)
    ensures
        r == FsErrorKind::Io <==> (err == FlashErrorKind::IoError || err == FlashErrorKind::IoTimeout
            || err == FlashErrorKind::CantUnlock || err == FlashErrorKind::OtherCoreRunning),
{
    match err {
        FlashErrorKind::IoError => FsErrorKind::Io,
        FlashErrorKind::IoTimeout => FsErrorKind::Io,
        FlashErrorKind::CantUnlock => FsErrorKind::Io,
        FlashErrorKind::NotAligned => FsErrorKind::Invalid,
        FlashErrorKind::OutOfBounds => FsErrorKind::Invalid,
        FlashErrorKind::OtherCoreRunning => FsErrorKind::Io,
        FlashErrorKind::Other => FsErrorKind::Invalid,
    }
}

} // verus!
