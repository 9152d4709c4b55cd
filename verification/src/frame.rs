//! Checksums and sizes of the committed file.

use sha2::Digest;
use vstd::prelude::*;

use crate::error::ChainError;
use crate::file::ChainFile;

verus! {

/// The number of bytes in the checksum with which a file begins.
pub const CHECKSUM_LEN: usize = 32;

/// The SHA-256 digest of data, as `sha2::Sha256` computes it.
pub uninterp spec fn sha256_of(data: Seq<u8>) -> Seq<u8>;

/// Hash data with `sha2::Sha256::digest`.
///
/// What is claimed: the digest depends on the data alone, and has 32 bytes.
#[verifier::external_body]
fn sha256(data: &[u8]) -> (res: Vec<u8>)
    ensures
        res@ == sha256_of(data@),
        res@.len() == CHECKSUM_LEN,
{
    sha2::Sha256::digest(data).to_vec()
}

/// The bytes of a stream which arrives in chunks.
pub open spec fn flat(chunks: Seq<Vec<u8>>) -> Seq<u8>
    decreases chunks.len(),
{
    if chunks.len() == 0 {
        Seq::empty()
    } else {
        flat(chunks.drop_last()) + chunks.last()@
    }
}

/// The sum of the lengths of chunks.
pub open spec fn total(lengths: Seq<usize>) -> nat
    decreases lengths.len(),
{
    if lengths.len() == 0 {
        0
    } else {
        total(lengths.drop_last()) + lengths.last() as nat
    }
}

/// A file with the given payload: the checksum of the payload, then the payload.
pub open spec fn framed(payload: Seq<u8>) -> Seq<u8> {
    sha256_of(payload) + payload
}

/// The payload of a file: what follows the checksum.
pub open spec fn payload_of(bytes: Seq<u8>) -> Seq<u8> {
    bytes.skip(CHECKSUM_LEN as int)
}

/// Whether a file begins with the checksum of its payload.
pub open spec fn intact(bytes: Seq<u8>) -> bool {
    &&& bytes.len() >= CHECKSUM_LEN
    &&& bytes.take(CHECKSUM_LEN as int) == sha256_of(payload_of(bytes))
}

/// What becomes of a file which was read from storage, given what was decoded of it: it has to hold
/// a whole checksum, to be decoded, and to be intact, in this order.
pub open spec fn accepted(bytes: Seq<u8>, decoded: Result<ChainFile, ChainError>) -> Result<
    ChainFile,
    ChainError,
> {
    if bytes.len() < CHECKSUM_LEN {
        Err(ChainError::UnexpectedEof)
    } else if decoded is Err {
        decoded
    } else if !intact(bytes) {
        Err(ChainError::FileChecksum)
    } else {
        decoded
    }
}

/// More chunks make a longer sum.
proof fn lemma_total_monotonic(lengths: Seq<usize>, n: int)
    requires
        0 <= n <= lengths.len(),
    ensures
        total(lengths.take(n)) <= total(lengths),
    decreases lengths.len(),
{
    if n < lengths.len() {
        lemma_total_monotonic(lengths.drop_last(), n);
        assert(lengths.drop_last().take(n) =~= lengths.take(n));
    } else {
        assert(lengths.take(n) =~= lengths);
    }
}

/// More chunks make a longer stream.
proof fn lemma_flat_monotonic(chunks: Seq<Vec<u8>>, n: int)
    requires
        0 <= n <= chunks.len(),
    ensures
        flat(chunks.take(n)).len() <= flat(chunks).len(),
    decreases chunks.len(),
{
    if n < chunks.len() {
        lemma_flat_monotonic(chunks.drop_last(), n);
        assert(chunks.drop_last().take(n) =~= chunks.take(n));
    } else {
        assert(chunks.take(n) =~= chunks);
    }
}

/// A framed payload is intact.
proof fn lemma_framed_is_intact(payload: Seq<u8>)
    requires
        sha256_of(payload).len() == CHECKSUM_LEN,
    ensures
        intact(framed(payload)),
        payload_of(framed(payload)) == payload,
{
    assert(payload_of(framed(payload)) =~= payload);
    assert(framed(payload).take(CHECKSUM_LEN as int) =~= sha256_of(payload));
}

/// Append bytes to a buffer.
fn extend(buffer: &mut Vec<u8>, bytes: &[u8])
    ensures
        final(buffer)@ == old(buffer)@ + bytes@,
{
    let ghost before = buffer@;
    let mut i: usize = 0;
    while i < bytes.len()
        invariant
            i <= bytes@.len(),
            buffer@ == before + bytes@.take(i as int),
        decreases bytes@.len() - i,
    {
        buffer.push(bytes[i]);
        assert(buffer@ =~= before + bytes@.take(i + 1));
        i += 1;
    }
    assert(bytes@.take(bytes@.len() as int) =~= bytes@);
}

impl ChainFile {
    /// The payload of an encoded file, if the file is long enough to have one.
    pub fn payload(bytes: &Vec<u8>) -> (res: Result<Vec<u8>, ChainError>)
        ensures
            match res {
                Ok(payload) => bytes@.len() >= CHECKSUM_LEN && payload@ == payload_of(bytes@),
                Err(e) => bytes@.len() < CHECKSUM_LEN && e == ChainError::UnexpectedEof,
            },
    {
        if bytes.len() < CHECKSUM_LEN {
            return Err(ChainError::UnexpectedEof);
        }
        let mut payload: Vec<u8> = Vec::new();
        let mut i: usize = CHECKSUM_LEN;
        while i < bytes.len()
            invariant
                CHECKSUM_LEN <= i <= bytes@.len(),
                payload@ == bytes@.subrange(CHECKSUM_LEN as int, i as int),
            decreases bytes@.len() - i,
        {
            payload.push(bytes[i]);
            assert(payload@ =~= bytes@.subrange(CHECKSUM_LEN as int, i + 1));
            i += 1;
        }
        assert(payload@ =~= payload_of(bytes@));
        Ok(payload)
    }

    /// Accept a file which was read from storage.
    ///
    /// The `decoded` file is what the codec made of the payload. A file which is too short, which
    /// cannot be decoded or which does not have the checksum it begins with is refused, in this
    /// order.
    pub fn load(bytes: &Vec<u8>, decoded: Result<ChainFile, ChainError>) -> (res: Result<
        ChainFile,
        ChainError,
    >)
        ensures
            res == accepted(bytes@, decoded),
    {
        let payload = match Self::payload(bytes) {
            Ok(payload) => payload,
            Err(e) => { return Err(e); },
        };
        let file = match decoded {
            Ok(file) => file,
            Err(e) => { return Err(e); },
        };
        let digest = sha256(payload.as_slice());
        let mut i: usize = 0;
        while i < CHECKSUM_LEN
            invariant
                i <= CHECKSUM_LEN <= bytes@.len(),
                decoded is Ok,
                digest@.len() == CHECKSUM_LEN,
                digest@ == sha256_of(payload_of(bytes@)),
                forall|k: int| 0 <= k < i ==> digest@[k] == bytes@[k],
            decreases CHECKSUM_LEN - i,
        {
            if digest[i] != bytes[i] {
                assert(bytes@.take(CHECKSUM_LEN as int)[i as int] != digest@[i as int]);
                return Err(ChainError::FileChecksum);
            }
            i += 1;
        }
        assert(bytes@.take(CHECKSUM_LEN as int) =~= digest@);
        Ok(file)
    }

    /// The bytes of a file and their number, given the encoded payload in chunks.
    ///
    /// What is saved is intact, and has the payload which was saved.
    pub fn save(chunks: &Vec<Vec<u8>>) -> (res: Result<(Vec<u8>, u64), ChainError>)
        ensures
            match res {
                Ok((bytes, size)) => {
                    &&& bytes@ == framed(flat(chunks@))
                    &&& intact(bytes@)
                    &&& payload_of(bytes@) == flat(chunks@)
                    &&& size == CHECKSUM_LEN + flat(chunks@).len()
                },
                Err(e) => {
                    &&& e == ChainError::SizeOverflow
                    &&& CHECKSUM_LEN + flat(chunks@).len() > u64::MAX
                },
            },
    {
        let mut payload: Vec<u8> = Vec::new();
        let mut size: u64 = 32;
        let mut i: usize = 0;
        assert(chunks@.take(0) =~= Seq::empty());
        while i < chunks.len()
            invariant
                i <= chunks@.len(),
                payload@ == flat(chunks@.take(i as int)),
                size == CHECKSUM_LEN + payload@.len(),
            decreases chunks@.len() - i,
        {
            proof {
                assert(chunks@.take(i + 1).drop_last() =~= chunks@.take(i as int));
                lemma_flat_monotonic(chunks@, i + 1);
            }
            match size.checked_add(chunks[i].len() as u64) {
                Some(sum) => {
                    size = sum;
                },
                None => {
                    return Err(ChainError::SizeOverflow);
                },
            }
            extend(&mut payload, chunks[i].as_slice());
            i += 1;
        }
        assert(chunks@.take(chunks@.len() as int) =~= chunks@);
        let mut bytes = sha256(payload.as_slice());
        proof {
            lemma_framed_is_intact(payload@);
        }
        extend(&mut bytes, payload.as_slice());
        Ok((bytes, size))
    }

    /// The size of a file, given the lengths of the chunks of its encoded payload.
    pub fn size(lengths: &Vec<usize>) -> (res: Result<usize, ChainError>)
        ensures
            match res {
                Ok(size) => size == CHECKSUM_LEN + total(lengths@),
                Err(e) => {
                    &&& e == ChainError::SizeOverflow
                    &&& CHECKSUM_LEN + total(lengths@) > usize::MAX
                },
            },
    {
        let mut size: usize = CHECKSUM_LEN;
        let mut i: usize = 0;
        assert(lengths@.take(0) =~= Seq::empty());
        while i < lengths.len()
            invariant
                i <= lengths@.len(),
                size == CHECKSUM_LEN + total(lengths@.take(i as int)),
            decreases lengths@.len() - i,
        {
            proof {
                assert(lengths@.take(i + 1).drop_last() =~= lengths@.take(i as int));
                lemma_total_monotonic(lengths@, i + 1);
            }
            match size.checked_add(lengths[i]) {
                Some(sum) => {
                    size = sum;
                },
                None => {
                    return Err(ChainError::SizeOverflow);
                },
            }
            i += 1;
        }
        assert(lengths@.take(lengths@.len() as int) =~= lengths@);
        Ok(size)
    }
}

/// A file whose payload no longer has the checksum it was saved with is not intact, and neither
/// is a file whose checksum was changed.
pub proof fn law_changed_files_are_not_intact(payload: Seq<u8>, checksum: Seq<u8>)
    requires
        checksum.len() == CHECKSUM_LEN,
        checksum != sha256_of(payload),
    ensures
        !intact(checksum + payload),
{
    let bytes = checksum + payload;
    assert(payload_of(bytes) =~= payload);
    assert(bytes.take(CHECKSUM_LEN as int) =~= checksum);
}

} // verus!
