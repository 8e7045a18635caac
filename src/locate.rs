//! Finding and checking the starter record at the end of a package.

use crate::format::{lemma_starter_fields, StarterInfo, SIGNATURE_SIZE, STARTER_INFO_SIZE, WRAPPE_FORMAT};
use crate::text::same_bytes;
use vstd::array::{array_as_slice, array_fill_for_copy_types};
use vstd::prelude::*;

verus! {

/// The signature that opens a starter record: "PE3DATA\0".
pub open spec fn signature() -> Seq<u8> {
    seq![0x50u8, 0x45u8, 0x33u8, 0x44u8, 0x41u8, 0x54u8, 0x41u8, 0x00u8]
}

/// First half of the signature. The signature is kept in two halves so that
/// a runner's own image does not hold it whole, where the search for the
/// last signature could find it.
pub const SIGNATURE_HEAD: [u8; 4] = [0x50u8, 0x45u8, 0x33u8, 0x44u8];

/// Second half of the signature.
pub const SIGNATURE_TAIL: [u8; 4] = [0x41u8, 0x54u8, 0x41u8, 0x00u8];

/// The signature as a field, put together from its halves.
pub fn signature_bytes() -> (r: [u8; SIGNATURE_SIZE])
    ensures
        r@ == signature(),
{
    let head = SIGNATURE_HEAD;
    let tail = SIGNATURE_TAIL;
    let mut r: [u8; SIGNATURE_SIZE] = array_fill_for_copy_types(0u8);
    let mut i: usize = 0;
    while i < 4
        invariant
            i <= 4,
            r@.len() == SIGNATURE_SIZE,
            head@ == signature().subrange(0, 4),
            tail@ == signature().subrange(4, 8),
            forall|k: int| 0 <= k < i ==> r@[k] == head@[k] && r@[k + 4] == tail@[k],
        decreases 4 - i,
    {
        r[i] = head[i];
        r[i + 4] = tail[i];
        i = i + 1;
    }
    assert(r@ =~= signature());
    r
}

/// `needle` stands in `haystack` at `p`.
#[verifier::opaque]
pub open spec fn occurs_at(haystack: Seq<u8>, needle: Seq<u8>, p: int) -> bool {
    0 <= p && p + needle.len() <= haystack.len() && haystack.subrange(p, p + needle.len())
        == needle
}

/// Relies on memchr's `memmem::rfind`: the index of the last occurrence of
/// `needle` in `haystack`, `None` where there is none.
#[verifier::external_body]
fn rfind(haystack: &[u8], needle: &[u8]) -> (r: Option<usize>)
    ensures
        r matches Some(p) ==> occurs_at(haystack@, needle@, p as int) && forall|q: int|
            p < q ==> !occurs_at(haystack@, needle@, q),
        r is None ==> forall|q: int| !occurs_at(haystack@, needle@, q),
{
    memchr::memmem::rfind(haystack, needle)
}

/// Why a package's starter record cannot be used.
#[derive(Clone, Copy, Debug, PartialEq, Eq, Structural)]
pub enum StartError {
    /// The image is shorter than a starter record.
    TooSmall,
    /// The signature is nowhere in the image.
    NoSignature,
    /// The last signature leaves no room for a whole record after it.
    Truncated,
    /// The record's format byte is not this runner's.
    FormatMismatch,
}

/// Where the last signature of `image` stands.
pub open spec fn last_signature(image: Seq<u8>) -> int {
    choose|p: int|
        occurs_at(image, signature(), p) && forall|q: int|
            p < q ==> !occurs_at(image, signature(), q)
}

/// Where the starter record of `image` begins: at the tail where the
/// signature stands there, else at the last occurrence of the signature.
pub open spec fn starter_position(image: Seq<u8>) -> Result<usize, StartError> {
    if image.len() < STARTER_INFO_SIZE {
        Err(StartError::TooSmall)
    } else if occurs_at(image, signature(), image.len() - STARTER_INFO_SIZE) {
        Ok((image.len() - STARTER_INFO_SIZE) as usize)
    } else if exists|p: int|
        occurs_at(image, signature(), p) && forall|q: int|
            p < q ==> !occurs_at(image, signature(), q) {
        if last_signature(image) + STARTER_INFO_SIZE > image.len() {
            Err(StartError::Truncated)
        } else {
            Ok(last_signature(image) as usize)
        }
    } else {
        Err(StartError::NoSignature)
    }
}

/// Finds the starter record of `image`.
pub fn locate_starter_info(image: &[u8]) -> (r: Result<usize, StartError>)
    ensures
        r == starter_position(image@),
        r matches Ok(p) ==> p + STARTER_INFO_SIZE <= image@.len(),
{
    let len = image.len();
    if len < STARTER_INFO_SIZE {
        return Err(StartError::TooSmall);
    }
    let sig = signature_bytes();
    let tail = len - STARTER_INFO_SIZE;
    if same_bytes(&image[tail..tail + SIGNATURE_SIZE], array_as_slice(&sig)) {
        proof { reveal(occurs_at); }
        return Ok(tail);
    }
    proof { reveal(occurs_at); }
    match rfind(image, array_as_slice(&sig)) {
        Some(p) => {
            proof {
                let l = last_signature(image@);
                assert(occurs_at(image@, signature(), p as int));
                if l != p {
                    if l < p {
                        assert(!occurs_at(image@, signature(), p as int));
                    } else {
                        assert(!occurs_at(image@, signature(), l));
                    }
                }
            }
            if p > tail {
                Err(StartError::Truncated)
            } else {
                Ok(p)
            }
        },
        None => Err(StartError::NoSignature),
    }
}

/// Reads and checks the starter record of `image`. A record whose format
/// byte is not this runner's is refused.
pub fn starter_info(image: &[u8]) -> (r: Result<(usize, StarterInfo), StartError>)
    ensures
        match starter_position(image@) {
            Err(e) => r == Err::<(usize, StarterInfo), StartError>(e),
            Ok(p) => {
                let b = image@.subrange(p as int, p + STARTER_INFO_SIZE);
                if b[32] != WRAPPE_FORMAT {
                    r == Err::<(usize, StarterInfo), StartError>(StartError::FormatMismatch)
                } else {
                    r matches Ok((q, info)) && q == p && info.encode() == b && info.signature@
                        == signature() && info.wrappe_format == WRAPPE_FORMAT
                }
            },
        },
{
    let n = image.len();
    let located = locate_starter_info(image);
    let p = match located {
        Ok(p) => p,
        Err(e) => {
            return Err(e);
        },
    };
    assert(p + STARTER_INFO_SIZE <= image@.len());
    let info = StarterInfo::from_bytes(&image[p..p + STARTER_INFO_SIZE]);
    proof {
        lemma_starter_fields(info);
        lemma_starter_signature(image@, p);
        assert(image@.subrange(p as int, p + STARTER_INFO_SIZE).subrange(0, 8) =~= image@.subrange(
            p as int,
            p + 8,
        ));
    }
    if info.wrappe_format != WRAPPE_FORMAT {
        return Err(StartError::FormatMismatch);
    }
    Ok((p, info))
}

/// A starter record is found only where the signature stands.
pub proof fn lemma_starter_signature(image: Seq<u8>, p: usize)
    requires
        image.len() <= usize::MAX,
        starter_position(image) == Ok::<usize, StartError>(p),
    ensures
        p + STARTER_INFO_SIZE <= image.len(),
        image.subrange(p as int, p + 8) == signature(),
{
    reveal(occurs_at);
    if occurs_at(image, signature(), image.len() - STARTER_INFO_SIZE) {
        assert(occurs_at(image, signature(), p as int));
    } else {
        assert(occurs_at(image, signature(), last_signature(image)));
        assert(occurs_at(image, signature(), p as int));
    }
}

} // verus!
