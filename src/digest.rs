//! The content hash of a song folder: SHA-1 over the declaration file
//! followed by every beatmap file, written as lower-case hex.
use vstd::prelude::*;
use vstd::utf8::*;
use crate::text::utf8_text;

verus! {

/// The SHA-1 digest of `data`, as sha1 computes it.
pub uninterp spec fn sha1_digest(data: Seq<u8>) -> Seq<u8>;

/// Relies on sha1's `Digest::digest` for `Sha1`: the digest of the bytes, 20
/// bytes long (its output size is `U20`).
#[verifier::external_body]
fn sha1_of(data: &[u8]) -> (r: Vec<u8>)
    ensures
        r@ == sha1_digest(data@),
        r@.len() == 20,
{
    <sha1::Sha1 as sha1::Digest>::digest(data).to_vec()
}

pub open spec fn hex_digits() -> Seq<char> {
    seq!['0', '1', '2', '3', '4', '5', '6', '7', '8', '9', 'a', 'b', 'c', 'd', 'e', 'f']
}

/// Each byte written as two lower-case hex digits, high digit first.
pub open spec fn hex_text(b: Seq<u8>) -> Seq<char>
    decreases b.len(),
{
    if b.len() == 0 {
        seq![]
    } else {
        hex_text(b.drop_last()) + seq![
            hex_digits()[b.last() as int / 16],
            hex_digits()[b.last() as int % 16],
        ]
    }
}

/// Relies on hex::encode: two lower-case hex digits per byte, in order.
#[verifier::external_body]
fn hex_encode(data: &[u8]) -> (r: String)
    ensures
        r@ == hex_text(data@),
{
    hex::encode(data)
}

/// The bytes `parts` hold, one part after another.
pub open spec fn joined(parts: Seq<Seq<u8>>) -> Seq<u8>
    decreases parts.len(),
{
    if parts.len() == 0 {
        seq![]
    } else {
        joined(parts.drop_last()) + parts.last()
    }
}

pub open spec fn byte_views(files: Seq<Vec<u8>>) -> Seq<Seq<u8>> {
    files.map_values(|f: Vec<u8>| f@)
}

/// Every file of a song folder reads as UTF-8 text.
pub open spec fn all_text(declaration: Seq<u8>, files: Seq<Seq<u8>>) -> bool {
    valid_utf8(declaration) && forall|i: int| 0 <= i < files.len() ==> valid_utf8(#[trigger] files[i])
}

/// The bytes the content hash is taken over.
pub open spec fn hash_input(declaration: Seq<u8>, files: Seq<Seq<u8>>) -> Seq<u8> {
    declaration + joined(files)
}

/// The content hash of a folder whose declaration file holds `declaration`
/// and whose beatmap files hold `files`, in declaration order.
pub open spec fn level_hash_of(declaration: Seq<u8>, files: Seq<Seq<u8>>) -> Seq<char> {
    hex_text(sha1_digest(hash_input(declaration, files)))
}

proof fn lemma_hex_len(b: Seq<u8>)
    ensures
        hex_text(b).len() == 2 * b.len(),
    decreases b.len(),
{
    if b.len() > 0 {
        lemma_hex_len(b.drop_last());
    }
}

/// The declaration bytes followed by every beatmap file, or `None` where one
/// of them is not UTF-8 text (such a folder is no valid song).
pub fn content_bytes(declaration: &[u8], beatmap_files: &Vec<Vec<u8>>) -> (r: Option<Vec<u8>>)
    ensures
        r is Some <==> all_text(declaration@, byte_views(beatmap_files@)),
        r matches Some(b) ==> b@ == hash_input(declaration@, byte_views(beatmap_files@)),
{
    if utf8_text(declaration).is_none() {
        return None;
    }
    let mut out: Vec<u8> = Vec::new();
    out.extend_from_slice(declaration);
    assert(out@ =~= declaration@);
    let ghost files = byte_views(beatmap_files@);
    let mut i: usize = 0;
    while i < beatmap_files.len()
        invariant
            0 <= i <= beatmap_files@.len(),
            files == byte_views(beatmap_files@),
            valid_utf8(declaration@),
            forall|k: int| 0 <= k < i ==> valid_utf8(#[trigger] files[k]),
            out@ == declaration@ + joined(files.subrange(0, i as int)),
        decreases beatmap_files@.len() - i,
    {
        let f = &beatmap_files[i];
        if utf8_text(f.as_slice()).is_none() {
            assert(!valid_utf8(files[i as int]));
            return None;
        }
        let ghost prev = out@;
        out.extend_from_slice(f.as_slice());
        assert(files.subrange(0, i + 1).drop_last() =~= files.subrange(0, i as int));
        assert(out@ =~= prev + f@);
        i = i + 1;
    }
    assert(files.subrange(0, i as int) =~= files);
    Some(out)
}

/// A SHA-1 digest written as lower-case hex.
pub fn digest_hex(digest: &[u8]) -> (r: String)
    ensures
        r@ == hex_text(digest@),
        r@.len() == 2 * digest@.len(),
{
    proof { lemma_hex_len(digest@); }
    hex_encode(digest)
}

/// The content hash of a song folder: 40 lower-case hex digits of the SHA-1
/// digest of the declaration file followed by the beatmap files. `None` where
/// a file is not UTF-8 text.
pub fn content_hash(declaration: &[u8], beatmap_files: &Vec<Vec<u8>>) -> (r: Option<String>)
    ensures
        r is Some <==> all_text(declaration@, byte_views(beatmap_files@)),
        r matches Some(h) ==> h@ == level_hash_of(declaration@, byte_views(beatmap_files@))
            && h@.len() == 40,
{
    match content_bytes(declaration, beatmap_files) {
        Some(bytes) => {
            let digest = sha1_of(bytes.as_slice());
            Some(digest_hex(digest.as_slice()))
        },
        None => None,
    }
}

/// The content hash depends on the folder's bytes alone: two folders whose
/// declaration and beatmap files hold the same bytes get the same hash,
/// whichever worker computes it and whenever.
pub proof fn lemma_content_hash_deterministic(
    declaration1: Seq<u8>,
    files1: Seq<Seq<u8>>,
    declaration2: Seq<u8>,
    files2: Seq<Seq<u8>>,
)
    requires
        declaration1 == declaration2,
        files1 == files2,
    ensures
        level_hash_of(declaration1, files1) == level_hash_of(declaration2, files2),
{
}

} // verus!
