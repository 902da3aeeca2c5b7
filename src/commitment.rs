//! The content commitment: a file is cut into 64-byte chunks (the last one may
//! be shorter) and the ordered trie root of that chunk sequence, hashed with
//! Keccak-256, is compared with the 32-byte root recorded on chain.

use vstd::prelude::*;

verus! {

/// Length of every chunk but the last.
pub const CHUNK_SIZE: usize = 64;

/// Number of chunks of a file of `n` bytes.
pub open spec fn chunk_count(n: nat) -> nat {
    ((n + 63) / 64) as nat
}

/// End (exclusive) of chunk `i` in a file of `n` bytes.
pub open spec fn chunk_end(n: nat, i: int) -> int {
    if 64 * i + 64 <= n {
        64 * i + 64
    } else {
        n as int
    }
}

/// The file cut into consecutive chunks of 64 bytes, the last possibly shorter.
pub open spec fn chunks_of(file: Seq<u8>) -> Seq<Seq<u8>> {
    Seq::new(chunk_count(file.len()), |i: int| file.subrange(64 * i, chunk_end(file.len(), i)))
}

/// The ordered Keccak-256 trie root of a sequence of values.
pub uninterp spec fn trie_root_of(chunks: Seq<Seq<u8>>) -> Seq<u8>;

/// The commitment of a file.
pub open spec fn commitment_of(file: Seq<u8>) -> Seq<u8> {
    trie_root_of(chunks_of(file))
}

/// Relies on `triehash::ordered_trie_root` with `keccak_hasher::KeccakHasher`:
/// the 32-byte root of the values in their order, a function of the values alone.
#[verifier::external_body]
fn ordered_root(chunks: &Vec<Vec<u8>>) -> (r: [u8; 32])
    ensures
        r@ == trie_root_of(chunks@.map_values(|c: Vec<u8>| c@)),
{
    triehash::ordered_trie_root::<keccak_hasher::KeccakHasher, _>(chunks)
}

/// Cuts a file into its chunks.
pub fn file_chunks(file: &Vec<u8>) -> (r: Vec<Vec<u8>>)
    ensures
        r@.map_values(|c: Vec<u8>| c@) == chunks_of(file@),
{
    let n = file.len();
    let mut out: Vec<Vec<u8>> = Vec::new();
    let mut start: usize = 0;
    while start < n
        invariant
            n == file@.len(),
            start as int == (if 64 * out@.len() <= n { 64 * out@.len() as int } else { n as int }),
            out@.len() <= chunk_count(n as nat),
            start < n ==> out@.len() < chunk_count(n as nat),
            start >= n ==> out@.len() == chunk_count(n as nat),
            forall|k: int|
                0 <= k < out@.len() ==> #[trigger] out@[k]@ == file@.subrange(
                    64 * k,
                    chunk_end(n as nat, k),
                ),
        decreases n - start,
    {
        let end: usize = if n - start >= CHUNK_SIZE {
            start + CHUNK_SIZE
        } else {
            n
        };
        let mut chunk: Vec<u8> = Vec::new();
        let mut j: usize = start;
        while j < end
            invariant
                start <= j <= end <= n,
                n == file@.len(),
                chunk@ == file@.subrange(start as int, j as int),
            decreases end - j,
        {
            chunk.push(file[j]);
            j = j + 1;
            assert(chunk@ =~= file@.subrange(start as int, j as int));
        }
        proof {
            assert(end == chunk_end(n as nat, out@.len() as int));
        }
        out.push(chunk);
        start = end;
        proof {
            assert(chunk_count(n as nat) == (n + 63) / 64);
        }
    }
    assert(out@.map_values(|c: Vec<u8>| c@) =~= chunks_of(file@));
    out
}

/// The commitment of a file, as the chain records it.
pub fn commitment(file: &Vec<u8>) -> (r: [u8; 32])
    ensures
        r@ == commitment_of(file@),
{
    let chunks = file_chunks(file);
    ordered_root(&chunks)
}

/// Whether two roots are the same bytes.
pub fn same_root(a: &[u8; 32], b: &[u8; 32]) -> (r: bool)
    ensures
        r == (a@ == b@),
{
    let mut i: usize = 0;
    while i < 32
        invariant
            i <= 32,
            a@.len() == 32,
            b@.len() == 32,
            forall|k: int| 0 <= k < i ==> a@[k] == b@[k],
        decreases 32 - i,
    {
        if a[i] != b[i] {
            return false;
        }
        i = i + 1;
    }
    assert(a@ =~= b@);
    true
}

/// Whether the file's commitment equals the root recorded on chain.
pub fn check_merkle_root(file: &Vec<u8>, merkle_root_on_chain: &[u8; 32]) -> (r: bool)
    ensures
        r == (commitment_of(file@) == merkle_root_on_chain@),
{
    let root = commitment(file);
    same_root(&root, merkle_root_on_chain)
}

} // verus!
