//! The byte layout of the fingerprint history: an eight-byte little-endian
//! count, followed by that many 32-byte fingerprints.

use vstd::prelude::*;

verus! {

/// A 256-bit fingerprint of a password.
pub type PasswordHash = [u8; 32];

/// The fingerprints held by a sequence of arrays, each as its bytes.
pub open spec fn entries_of(hashes: Seq<PasswordHash>) -> Seq<Seq<u8>> {
    Seq::new(hashes.len(), |i: int| hashes[i]@)
}

/// The eight little-endian bytes of a count.
pub open spec fn header_bytes(n: nat) -> Seq<u8> {
    let n1 = n / 0x100;
    let n2 = n1 / 0x100;
    let n3 = n2 / 0x100;
    let n4 = n3 / 0x100;
    let n5 = n4 / 0x100;
    let n6 = n5 / 0x100;
    let n7 = n6 / 0x100;
    seq![
        (n % 0x100) as u8,
        (n1 % 0x100) as u8,
        (n2 % 0x100) as u8,
        (n3 % 0x100) as u8,
        (n4 % 0x100) as u8,
        (n5 % 0x100) as u8,
        (n6 % 0x100) as u8,
        (n7 % 0x100) as u8,
    ]
}

/// The count that eight little-endian bytes stand for.
pub open spec fn header_value(h: Seq<u8>) -> nat
    recommends
        h.len() == 8,
{
    (h[0] as nat) + (h[1] as nat) * 0x100 + (h[2] as nat) * 0x1_0000 + (h[3] as nat) * 0x100_0000
        + (h[4] as nat) * 0x1_0000_0000 + (h[5] as nat) * 0x100_0000_0000 + (h[6] as nat)
        * 0x1_0000_0000_0000 + (h[7] as nat) * 0x100_0000_0000_0000
}

/// Every entry is a fingerprint of 32 bytes.
pub open spec fn all_hashes(entries: Seq<Seq<u8>>) -> bool {
    forall|i: int| 0 <= i < entries.len() ==> (#[trigger] entries[i]).len() == 32
}

/// The bytes that record `entries`: the count, then each entry in order.
pub open spec fn encoded(entries: Seq<Seq<u8>>) -> Seq<u8> {
    header_bytes(entries.len()) + Seq::new(32 * entries.len(), |k: int| entries[k / 32][k % 32])
}

/// The entries that `bytes` record, in the order of the file; `None` where the
/// bytes are not a count followed by exactly that many fingerprints.
pub open spec fn decoded(bytes: Seq<u8>) -> Option<Seq<Seq<u8>>> {
    if bytes.len() >= 8 && bytes.len() - 8 == 32 * header_value(bytes.subrange(0, 8)) {
        Some(
            Seq::new(
                header_value(bytes.subrange(0, 8)),
                |i: int| bytes.subrange(8 + 32 * i, 40 + 32 * i),
            ),
        )
    } else {
        None
    }
}

/// `entries` with `hash` recorded: appended where it is new, unchanged where
/// it is already there.
pub open spec fn inserted(entries: Seq<Seq<u8>>, hash: Seq<u8>) -> Seq<Seq<u8>> {
    if entries.contains(hash) {
        entries
    } else {
        entries.push(hash)
    }
}

/// `entries` with every repetition of an earlier entry left out.
pub open spec fn unique(entries: Seq<Seq<u8>>) -> Seq<Seq<u8>>
    decreases entries.len(),
{
    if entries.len() == 0 {
        Seq::empty()
    } else {
        inserted(unique(entries.drop_last()), entries.last())
    }
}

/// What `inserted` holds: what was there, and `hash`.
pub proof fn lemma_inserted_contains(entries: Seq<Seq<u8>>, hash: Seq<u8>, other: Seq<u8>)
    ensures
        inserted(entries, hash).contains(other) <==> (entries.contains(other) || other == hash),
{
    let grown = entries.push(hash);
    if entries.contains(other) {
        let i = choose|i: int| 0 <= i < entries.len() && entries[i] == other;
        assert(grown[i] == other);
    }
    assert(grown[entries.len() as int] == hash);
    if grown.contains(other) {
        let i = choose|i: int| 0 <= i < grown.len() && grown[i] == other;
        if i < entries.len() {
            assert(entries[i] == other);
        }
    }
}

/// Leaving out repetitions leaves no entry twice and loses none.
pub proof fn lemma_unique_is_same_set(entries: Seq<Seq<u8>>)
    ensures
        unique(entries).no_duplicates(),
        unique(entries).to_set() == entries.to_set(),
        all_hashes(entries) ==> all_hashes(unique(entries)),
        unique(entries).len() <= entries.len(),
    decreases entries.len(),
{
    if entries.len() > 0 {
        let front = entries.drop_last();
        let last = entries.last();
        lemma_unique_is_same_set(front);
        assert(front.push(last) =~= entries);
        assert forall|other: Seq<u8>|
            unique(entries).to_set().contains(other) <==> entries.to_set().contains(other) by {
            lemma_inserted_contains(unique(front), last, other);
            assert(front.to_set().contains(other) <==> unique(front).to_set().contains(other));
            if entries.contains(other) {
                let i = choose|i: int| 0 <= i < entries.len() && entries[i] == other;
                if i < front.len() {
                    assert(front[i] == other);
                }
            }
            if front.contains(other) {
                let i = choose|i: int| 0 <= i < front.len() && front[i] == other;
                assert(entries[i] == other);
            }
            assert(entries[entries.len() - 1] == last);
        }
        assert(unique(entries).to_set() =~= entries.to_set());
    } else {
        assert(unique(entries).to_set() =~= entries.to_set());
    }
}

/// Writes a count as its eight little-endian bytes.
fn push_header(out: &mut Vec<u8>, n: u64)
    ensures
        final(out)@ == old(out)@ + header_bytes(n as nat),
{
    let n1: u64 = n / 0x100;
    let n2: u64 = n1 / 0x100;
    let n3: u64 = n2 / 0x100;
    let n4: u64 = n3 / 0x100;
    let n5: u64 = n4 / 0x100;
    let n6: u64 = n5 / 0x100;
    let n7: u64 = n6 / 0x100;
    out.push((n % 0x100) as u8);
    out.push((n1 % 0x100) as u8);
    out.push((n2 % 0x100) as u8);
    out.push((n3 % 0x100) as u8);
    out.push((n4 % 0x100) as u8);
    out.push((n5 % 0x100) as u8);
    out.push((n6 % 0x100) as u8);
    out.push((n7 % 0x100) as u8);
    assert(out@ =~= old(out)@ + header_bytes(n as nat));
}

/// Reads the count from the first eight bytes.
fn read_header(bytes: &[u8]) -> (n: u64)
    requires
        bytes@.len() >= 8,
    ensures
        n == header_value(bytes@.subrange(0, 8)),
{
    let b0: u64 = bytes[0] as u64;
    let b1: u64 = bytes[1] as u64;
    let b2: u64 = bytes[2] as u64;
    let b3: u64 = bytes[3] as u64;
    let b4: u64 = bytes[4] as u64;
    let b5: u64 = bytes[5] as u64;
    let b6: u64 = bytes[6] as u64;
    let b7: u64 = bytes[7] as u64;
    b0 + b1 * 0x100 + b2 * 0x1_0000 + b3 * 0x100_0000 + b4 * 0x1_0000_0000 + b5 * 0x100_0000_0000
        + b6 * 0x1_0000_0000_0000 + b7 * 0x100_0000_0000_0000
}

/// Serializes the fingerprints in order behind their count.
pub fn encode(hashes: &Vec<PasswordHash>) -> (out: Vec<u8>)
    ensures
        out@ == encoded(entries_of(hashes@)),
{
    let mut out: Vec<u8> = Vec::new();
    push_header(&mut out, hashes.len() as u64);
    let ghost entries = entries_of(hashes@);
    let mut i: usize = 0;
    while i < hashes.len()
        invariant
            i <= hashes.len(),
            entries == entries_of(hashes@),
            out@ == header_bytes(hashes.len() as nat) + Seq::new(
                32 * (i as nat),
                |k: int| entries[k / 32][k % 32],
            ),
        decreases hashes.len() - i,
    {
        out.extend_from_slice(hashes[i].as_slice());
        assert(out@ =~= header_bytes(hashes.len() as nat) + Seq::new(
            32 * ((i + 1) as nat),
            |k: int| entries[k / 32][k % 32],
        ));
        i += 1;
    }
    out
}

/// Copies the 32 bytes at `start` into a fingerprint.
fn read_hash(bytes: &[u8], start: usize) -> (hash: PasswordHash)
    requires
        start + 32 <= bytes@.len(),
    ensures
        hash@ == bytes@.subrange(start as int, start + 32),
{
    let len: usize = bytes.len();
    let mut hash: PasswordHash = [0u8; 32];
    let mut j: usize = 0;
    while j < 32
        invariant
            j <= 32,
            start + 32 <= len == bytes@.len(),
            forall|k: int| 0 <= k < j ==> hash@[k] == bytes@[start + k],
        decreases 32 - j,
    {
        hash[j] = bytes[start + j];
        j += 1;
    }
    assert(hash@ =~= bytes@.subrange(start as int, start + 32));
    hash
}

/// Parses a recorded history. Succeeds exactly on a count followed by that
/// many fingerprints and nothing else.
pub fn decode(bytes: &[u8]) -> (r: Option<Vec<PasswordHash>>)
    ensures
        match r {
            Some(hashes) => decoded(bytes@) == Some(entries_of(hashes@)),
            None => decoded(bytes@) is None,
        },
{
    if bytes.len() < 8 {
        return None;
    }
    let count: u64 = read_header(bytes);
    let body: usize = bytes.len() - 8;
    if body % 32 != 0 || (body / 32) as u64 != count {
        return None;
    }
    let n: usize = body / 32;
    let mut hashes: Vec<PasswordHash> = Vec::new();
    let mut i: usize = 0;
    while i < n
        invariant
            i <= n,
            bytes@.len() == 8 + 32 * n <= usize::MAX,
            hashes@.len() == i,
            forall|j: int| 0 <= j < i ==> (#[trigger] hashes@[j])@ == bytes@.subrange(8 + 32 * j, 40 + 32 * j),
        decreases n - i,
    {
        let hash = read_hash(bytes, 8 + 32 * i);
        hashes.push(hash);
        i += 1;
    }
    assert(entries_of(hashes@) =~= decoded(bytes@).unwrap());
    Some(hashes)
}

} // verus!
