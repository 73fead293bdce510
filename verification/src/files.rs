//! The rules that decide whether a file may be read or written: a size
//! limit for reading, and the two accepted extensions.

use crate::digest::MAX_HASHED_SIZE;
use vstd::prelude::*;

verus! {

/// Why a file is not read or written.
#[derive(Debug, Clone, Copy, PartialEq, Eq, Structural)]
pub enum FileRefusal {
    /// The file is larger than the limit for reading.
    TooLarge,
    /// The file has an extension other than the accepted ones.
    UnsupportedType,
}

/// The largest file size, in bytes, that is read.
pub const MAX_READ_SIZE: u64 = MAX_HASHED_SIZE;

/// Whether a lower-cased extension is one of the accepted ones.
pub open spec fn is_supported_extension(extension: Seq<char>) -> bool {
    extension == "md"@ || extension == "txt"@
}

/// Whether a path with this extension, lower-cased, is accepted: one without
/// an extension always is.
pub open spec fn extension_allowed(extension: Option<Seq<char>>) -> bool {
    match extension {
        Some(e) => is_supported_extension(e),
        None => true,
    }
}

/// The contents of an optional string.
pub open spec fn option_view(s: Option<&str>) -> Option<Seq<char>> {
    match s {
        Some(e) => Some(e@),
        None => None,
    }
}

/// Decides whether a file with the given lower-cased extension may be
/// written.
pub fn check_writable(extension: Option<&str>) -> (r: Result<(), FileRefusal>)
    ensures
        r == if extension_allowed(option_view(extension)) {
            Ok::<(), FileRefusal>(())
        } else {
            Err::<(), FileRefusal>(FileRefusal::UnsupportedType)
        },
{
    match extension {
        Some(e) => {
            let given = e.to_owned();
            if given == "md".to_owned() || given == "txt".to_owned() {
                Ok(())
            } else {
                Err(FileRefusal::UnsupportedType)
            }
        },
        None => Ok(()),
    }
}

/// Decides whether a file of the given size and lower-cased extension may be
/// read. The size is judged first.
pub fn check_readable(file_size: u64, extension: Option<&str>) -> (r: Result<(), FileRefusal>)
    ensures
        r == if file_size > MAX_READ_SIZE {
            Err::<(), FileRefusal>(FileRefusal::TooLarge)
        } else if extension_allowed(option_view(extension)) {
            Ok::<(), FileRefusal>(())
        } else {
            Err::<(), FileRefusal>(FileRefusal::UnsupportedType)
        },
{
    if file_size > MAX_READ_SIZE {
        Err(FileRefusal::TooLarge)
    } else {
        check_writable(extension)
    }
}

impl FileRefusal {
    /// The refusal in words.
    pub fn message(&self) -> (r: String)
        ensures
            r@ == match *self {
                FileRefusal::TooLarge => "File too large (max 10MB)"@,
                FileRefusal::UnsupportedType =>
                    "Unsupported file type. Only .md and .txt files are supported"@,
            },
    {
        match self {
            FileRefusal::TooLarge => "File too large (max 10MB)".to_owned(),
            FileRefusal::UnsupportedType =>
                "Unsupported file type. Only .md and .txt files are supported".to_owned(),
        }
    }
}

} // verus!
