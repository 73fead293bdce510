//! Change detection for files: the digest of a file's content, kept with its
//! size and modification time. Content above a size limit is not digested.

use sha2::{Digest, Sha256};
use vstd::prelude::*;
use vstd::string::StringSliceAdditionalSpecFns;

verus! {

/// What is recorded of a file to tell whether it has changed.
#[derive(Debug)]
pub struct FileHashInfo {
    pub hash: String,
    pub modified_time: u64,
    pub file_size: u64,
}

impl Clone for FileHashInfo {
    fn clone(&self) -> (r: Self)
        ensures
            r == *self,
    {
        FileHashInfo {
            hash: self.hash.clone(),
            modified_time: self.modified_time,
            file_size: self.file_size,
        }
    }
}

/// The largest file size, in bytes, whose content is digested.
pub const MAX_HASHED_SIZE: u64 = 10485760;

/// What stands in place of the digest of a file above the limit.
pub open spec fn large_file_mark() -> Seq<char> {
    "large_file"@
}

/// The SHA-256 digest of `data`, written as lower-case hexadecimal digits.
pub uninterp spec fn sha256_hex(data: Seq<u8>) -> Seq<char>;

/// Calls `Sha256::digest` of the `sha2` crate and writes the 32 bytes it
/// returns by the `LowerHex` formatting of `generic-array`, two digits a
/// byte. Trusted: the result is the named digest of the bytes given, and is
/// 64 characters long.
#[verifier::external_body]
fn sha256_hex_digest(data: &[u8]) -> (r: String)
    ensures
        r@ == sha256_hex(data@),
        r@.len() == 64,
{
    format!("{:x}", Sha256::digest(data))
}

/// The hash recorded for a file: the mark for a large file where
/// `file_size` is above the limit, else the digest of `content`.
pub open spec fn recorded_hash(content: Seq<u8>, file_size: u64) -> Seq<char> {
    if file_size > MAX_HASHED_SIZE {
        large_file_mark()
    } else {
        sha256_hex(content)
    }
}

/// Whether the content of a file of this size is digested, and so has to be
/// read.
pub fn needs_content(file_size: u64) -> (r: bool)
    ensures
        r == (file_size <= MAX_HASHED_SIZE),
{
    file_size <= MAX_HASHED_SIZE
}

/// The record for a file whose content has the given digest: the digest is
/// recorded where `file_size` is within the limit, the mark for a large file
/// where it is not.
pub fn record_digest(digest: String, modified_time: u64, file_size: u64) -> (r: FileHashInfo)
    ensures
        r.hash@ == if file_size > MAX_HASHED_SIZE {
            large_file_mark()
        } else {
            digest@
        },
        r.modified_time == modified_time,
        r.file_size == file_size,
{
    if file_size > MAX_HASHED_SIZE {
        FileHashInfo { hash: "large_file".to_owned(), modified_time, file_size }
    } else {
        FileHashInfo { hash: digest, modified_time, file_size }
    }
}

/// The record for a file of the given size and modification time. The
/// content is looked at only where the size is within the limit.
pub fn calculate_file_hash(content: &str, modified_time: u64, file_size: u64) -> (r:
    FileHashInfo)
    ensures
        r.hash@ == recorded_hash(content.spec_bytes(), file_size),
        r.modified_time == modified_time,
        r.file_size == file_size,
        r.hash@ == large_file_mark() <==> file_size > MAX_HASHED_SIZE,
{
    proof {
        reveal_strlit("large_file");
    }
    let digest = if needs_content(file_size) {
        sha256_hex_digest(content.as_bytes())
    } else {
        String::new()
    };
    record_digest(digest, modified_time, file_size)
}

} // verus!
