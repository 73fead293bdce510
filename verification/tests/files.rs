use md_variables::files::{check_readable, check_writable, FileRefusal, MAX_READ_SIZE};
use md_variables::digest::needs_content;

#[test]
fn accepted_extensions_may_be_written() {
    assert_eq!(check_writable(Some("md")), Ok(()));
    assert_eq!(check_writable(Some("txt")), Ok(()));
    assert_eq!(check_writable(None), Ok(()));
}

#[test]
fn other_extensions_are_refused() {
    assert_eq!(check_writable(Some("exe")), Err(FileRefusal::UnsupportedType));
    assert_eq!(check_writable(Some("")), Err(FileRefusal::UnsupportedType));
    assert_eq!(check_writable(Some("MD")), Err(FileRefusal::UnsupportedType));
    assert_eq!(check_writable(Some("markdown")), Err(FileRefusal::UnsupportedType));
}

#[test]
fn size_is_judged_before_the_extension() {
    assert_eq!(MAX_READ_SIZE, 10 * 1024 * 1024);
    assert_eq!(check_readable(MAX_READ_SIZE, Some("md")), Ok(()));
    assert_eq!(check_readable(0, None), Ok(()));
    assert_eq!(check_readable(MAX_READ_SIZE + 1, Some("md")), Err(FileRefusal::TooLarge));
    assert_eq!(check_readable(MAX_READ_SIZE + 1, Some("exe")), Err(FileRefusal::TooLarge));
    assert_eq!(check_readable(1, Some("exe")), Err(FileRefusal::UnsupportedType));
}

#[test]
fn refusals_are_worded() {
    assert_eq!(FileRefusal::TooLarge.message(), "File too large (max 10MB)");
    assert_eq!(
        FileRefusal::UnsupportedType.message(),
        "Unsupported file type. Only .md and .txt files are supported"
    );
}

#[test]
fn content_is_needed_up_to_the_limit() {
    assert!(needs_content(0));
    assert!(needs_content(10 * 1024 * 1024));
    assert!(!needs_content(10 * 1024 * 1024 + 1));
    assert!(!needs_content(u64::MAX));
}
