//! The record of fingerprints of the passwords that were already issued.

use crate::history::{
    all_hashes, decode, decoded, encode, encoded, entries_of, header_bytes, header_value,
    inserted, lemma_inserted_contains, unique, PasswordHash,
};
use vstd::prelude::*;
use vstd::utf8::encode_utf8;

verus! {

/// The BLAKE3 digest of a byte string, as its 32 bytes.
pub uninterp spec fn blake3_hash(input: Seq<u8>) -> Seq<u8>;

/// The fingerprint of a password: the digest of its UTF-8 bytes.
pub open spec fn fingerprint(password: Seq<char>) -> Seq<u8> {
    blake3_hash(encode_utf8(password))
}

/// The entries that a backing file's bytes restore: those it records, each
/// once, or none where the bytes cannot be decoded.
pub open spec fn recovered(bytes: Seq<u8>) -> Seq<Seq<u8>> {
    match decoded(bytes) {
        Some(entries) => unique(entries),
        None => Seq::empty(),
    }
}

/// Calls `blake3::hash` and copies the 32 bytes of the `Hash` it returns.
/// Not proved: that the bytes are the BLAKE3 digest of `input`, a function of
/// the input alone.
#[verifier::external_body]
fn hash_bytes(input: &[u8]) -> (hash: PasswordHash)
    ensures
        hash@ == blake3_hash(input@),
{
    *blake3::hash(input).as_bytes()
}

/// Whether two fingerprints hold the same bytes.
fn same_hash(a: &PasswordHash, b: &PasswordHash) -> (r: bool)
    ensures
        r == (a@ == b@),
{
    let mut i: usize = 0;
    while i < 32
        invariant
            i <= 32,
            forall|k: int| 0 <= k < i ==> a@[k] == b@[k],
        decreases 32 - i,
    {
        if a[i] != b[i] {
            return false;
        }
        i += 1;
    }
    assert(a@ =~= b@);
    true
}

/// The fingerprints of the passwords issued so far, in the order in which
/// they were first recorded.
pub struct StorageManager {
    hashes: Vec<PasswordHash>,
}

impl View for StorageManager {
    type V = Set<Seq<u8>>;

    /// The set of recorded fingerprints.
    open spec fn view(&self) -> Set<Seq<u8>> {
        self.entries().to_set()
    }
}

impl StorageManager {
    /// The recorded fingerprints in order.
    pub closed spec fn entries(&self) -> Seq<Seq<u8>> {
        entries_of(self.hashes@)
    }

    /// No fingerprint is recorded twice, each has 32 bytes, and their number
    /// fits the count that starts the backing file.
    pub open spec fn wf(&self) -> bool {
        &&& self.entries().no_duplicates()
        &&& all_hashes(self.entries())
        &&& self.entries().len() <= u64::MAX
    }

    /// Whether `hash` is among the recorded fingerprints.
    pub fn contains_hash(&self, hash: &PasswordHash) -> (r: bool)
        ensures
            r == self.entries().contains(hash@),
    {
        let mut i: usize = 0;
        while i < self.hashes.len()
            invariant
                i <= self.hashes.len(),
                forall|k: int| 0 <= k < i ==> self.entries()[k] != hash@,
            decreases self.hashes.len() - i,
        {
            if same_hash(&self.hashes[i], hash) {
                assert(self.entries()[i as int] == hash@);
                return true;
            }
            i += 1;
        }
        false
    }

    /// Records `hash` unless it is already there.
    pub fn insert_hash(&mut self, hash: PasswordHash)
        requires
            old(self).wf(),
        ensures
            final(self).wf(),
            final(self).entries() == inserted(old(self).entries(), hash@),
    {
        if !self.contains_hash(&hash) {
            self.hashes.push(hash);
            let count: usize = self.hashes.len();
            assert(self.entries() =~= old(self).entries().push(hash@));
        }
    }

    /// Starts from what the backing file held: `stored` is its content, or
    /// `None` where it could not be read. Content that cannot be decoded
    /// gives an empty record.
    pub fn new(stored: Option<Vec<u8>>) -> (store: Self)
        ensures
            store.wf(),
            store.entries() == match stored {
                Some(bytes) => recovered(bytes@),
                None => Seq::empty(),
            },
    {
        let mut store = StorageManager { hashes: Vec::new() };
        assert(store.entries() =~= Seq::empty());
        let bytes = match stored {
            Some(bytes) => bytes,
            None => { return store; },
        };
        let hashes = match decode(bytes.as_slice()) {
            Some(hashes) => hashes,
            None => { return store; },
        };
        let ghost read = entries_of(hashes@);
        let mut i: usize = 0;
        while i < hashes.len()
            invariant
                i <= hashes.len(),
                read == entries_of(hashes@),
                store.wf(),
                store.entries() == unique(read.take(i as int)),
            decreases hashes.len() - i,
        {
            assert(read.take(i + 1).drop_last() =~= read.take(i as int));
            store.insert_hash(hashes[i]);
            i += 1;
        }
        assert(read.take(i as int) =~= read);
        store
    }

    /// Whether the fingerprint of `password` is already recorded.
    pub fn is_duplicate(&self, password: &str) -> (r: bool)
        ensures
            r == self.entries().contains(fingerprint(password@)),
            r == self@.contains(fingerprint(password@)),
    {
        let hash = hash_bytes(password.as_bytes());
        self.contains_hash(&hash)
    }

    /// Records the fingerprint of `password` and returns the bytes that the
    /// backing file must now hold: the whole record, not an addition to it.
    pub fn store_password(&mut self, password: &str) -> (file: Vec<u8>)
        requires
            old(self).wf(),
        ensures
            final(self).wf(),
            final(self).entries() == inserted(old(self).entries(), fingerprint(password@)),
            final(self)@ == old(self)@.insert(fingerprint(password@)),
            file@ == encoded(final(self).entries()),
    {
        let hash = hash_bytes(password.as_bytes());
        self.insert_hash(hash);
        proof {
            assert forall|other: Seq<u8>|
                self@.contains(other) <==> old(self)@.insert(fingerprint(password@)).contains(
                    other,
                ) by {
                lemma_inserted_contains(old(self).entries(), fingerprint(password@), other);
            }
            assert(self@ =~= old(self)@.insert(fingerprint(password@)));
        }
        self.file_bytes()
    }

    /// The bytes that record the fingerprints held now.
    pub fn file_bytes(&self) -> (file: Vec<u8>)
        ensures
            file@ == encoded(self.entries()),
    {
        encode(&self.hashes)
    }

    /// Records the fingerprint of `candidate` if it is new, and then returns
    /// the bytes that the backing file must now hold. A candidate that was
    /// issued before changes nothing and gives `None`.
    pub fn store_if_new(&mut self, candidate: &str) -> (file: Option<Vec<u8>>)
        requires
            old(self).wf(),
        ensures
            final(self).wf(),
            file is None <==> old(self).entries().contains(fingerprint(candidate@)),
            file is None ==> final(self).entries() == old(self).entries(),
            file is Some ==> final(self).entries() == old(self).entries().push(
                fingerprint(candidate@),
            ) && file->0@ == encoded(final(self).entries()),
    {
        if self.is_duplicate(candidate) {
            None
        } else {
            Some(self.store_password(candidate))
        }
    }
}

/// Eight bytes written for a count read back as that count.
pub proof fn lemma_header_round_trip(n: nat)
    requires
        n <= u64::MAX,
    ensures
        header_bytes(n).len() == 8,
        header_value(header_bytes(n)) == n,
{
    let n1 = n / 0x100;
    let n2 = n1 / 0x100;
    let n3 = n2 / 0x100;
    let n4 = n3 / 0x100;
    let n5 = n4 / 0x100;
    let n6 = n5 / 0x100;
    let n7 = n6 / 0x100;
    assert(n1 < 0x100_0000_0000_0000);
    assert(n2 < 0x1_0000_0000_0000);
    assert(n3 < 0x100_0000_0000);
    assert(n4 < 0x1_0000_0000);
    assert(n5 < 0x100_0000);
    assert(n6 < 0x1_0000);
    assert(n7 < 0x100);
    assert(n7 % 0x100 == n7);
    assert(n6 == n7 * 0x100 + n6 % 0x100);
    assert(n5 == n6 * 0x100 + n5 % 0x100);
    assert(n4 == n5 * 0x100 + n4 % 0x100);
    assert(n3 == n4 * 0x100 + n3 % 0x100);
    assert(n2 == n3 * 0x100 + n2 % 0x100);
    assert(n1 == n2 * 0x100 + n1 % 0x100);
    assert(n == n1 * 0x100 + n % 0x100);
}

/// What was written is read back: the bytes that record a sequence of
/// distinct fingerprints decode to that sequence, and a record opened from
/// them holds the same fingerprints in the same order.
pub proof fn lemma_written_is_restored(entries: Seq<Seq<u8>>)
    requires
        all_hashes(entries),
        entries.no_duplicates(),
        entries.len() <= u64::MAX,
    ensures
        decoded(encoded(entries)) == Some(entries),
        recovered(encoded(entries)) == entries,
        recovered(encoded(entries)).to_set() == entries.to_set(),
{
    let bytes = encoded(entries);
    lemma_header_round_trip(entries.len());
    assert(bytes.subrange(0, 8) =~= header_bytes(entries.len()));
    assert(decoded(bytes) is Some);
    let back = decoded(bytes)->0;
    assert(back.len() == entries.len());
    assert forall|i: int| 0 <= i < entries.len() implies back[i] == entries[i] by {
        assert(entries[i].len() == 32);
        assert forall|j: int| 0 <= j < 32 implies back[i][j] == entries[i][j] by {
            assert(bytes[8 + 32 * i + j] == entries[(32 * i + j) / 32][(32 * i + j) % 32]);
        }
        assert(back[i] =~= entries[i]);
    }
    assert(back =~= entries);
    lemma_unique_of_distinct(entries);
}

/// Leaving out repetitions changes nothing where there are none.
pub proof fn lemma_unique_of_distinct(entries: Seq<Seq<u8>>)
    requires
        entries.no_duplicates(),
    ensures
        unique(entries) == entries,
    decreases entries.len(),
{
    if entries.len() > 0 {
        let front = entries.drop_last();
        lemma_unique_of_distinct(front);
        if front.contains(entries.last()) {
            let i = choose|i: int| 0 <= i < front.len() && front[i] == entries.last();
            assert(entries[i] == entries[entries.len() - 1]);
        }
        assert(front.push(entries.last()) =~= entries);
    } else {
        assert(entries =~= Seq::empty());
    }
}

/// A record that is written out and opened again holds the same
/// fingerprints.
pub proof fn lemma_reopened_is_same(store: StorageManager)
    requires
        store.wf(),
    ensures
        recovered(encoded(store.entries())) == store.entries(),
        recovered(encoded(store.entries())).to_set() == store@,
{
    lemma_written_is_restored(store.entries());
}

/// Bytes that are no count followed by whole fingerprints restore nothing:
/// fewer than eight bytes, or a rest that is no multiple of 32.
pub proof fn lemma_ragged_bytes_restore_nothing(bytes: Seq<u8>)
    requires
        bytes.len() < 8 || (bytes.len() - 8) % 32 != 0,
    ensures
        decoded(bytes) is None,
        recovered(bytes) == Seq::<Seq<u8>>::empty(),
{
}

/// A fingerprint is recorded once it was stored, and where it was new
/// before, it is the one fingerprint that was added.
pub proof fn lemma_stored_is_recorded(entries: Seq<Seq<u8>>, hash: Seq<u8>)
    ensures
        inserted(entries, hash).contains(hash),
        inserted(entries, hash).to_set() == entries.to_set().insert(hash),
        !entries.contains(hash) ==> inserted(entries, hash) == entries.push(hash),
{
    lemma_inserted_contains(entries, hash, hash);
    assert forall|other: Seq<u8>|
        inserted(entries, hash).to_set().contains(other) <==> entries.to_set().insert(
            hash,
        ).contains(other) by {
        lemma_inserted_contains(entries, hash, other);
    }
    assert(inserted(entries, hash).to_set() =~= entries.to_set().insert(hash));
}

/// Storing a fingerprint a second time changes nothing.
pub proof fn lemma_stored_twice_is_stored_once(entries: Seq<Seq<u8>>, hash: Seq<u8>)
    ensures
        inserted(inserted(entries, hash), hash) == inserted(entries, hash),
{
    lemma_inserted_contains(entries, hash, hash);
}

} // verus!
