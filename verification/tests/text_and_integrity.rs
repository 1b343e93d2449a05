use vn_core::integrity::{
    assembled_integrity_ok, digest_matches_hex, payload_integrity_accepts, sha1_digest,
};
use vn_core::status::DownloadStatus;
use vn_core::text::{range_header_value, str_contains, str_eq_ignore_ascii_case, u64_to_string};

#[test]
fn status_names() {
    assert_eq!(DownloadStatus::Pending.as_str(), "pending");
    assert_eq!(DownloadStatus::Downloading.as_str(), "downloading");
    assert_eq!(DownloadStatus::Paused.as_str(), "paused");
    assert_eq!(DownloadStatus::Completed.as_str(), "completed");
    assert_eq!(DownloadStatus::Failed.as_str(), "failed");
    assert_eq!(DownloadStatus::Cancelled.as_str(), "cancelled");
}

#[test]
fn status_activity() {
    assert!(DownloadStatus::Pending.is_active());
    assert!(DownloadStatus::Downloading.is_active());
    assert!(DownloadStatus::Paused.is_active());
    assert!(!DownloadStatus::Completed.is_active());
    assert!(!DownloadStatus::Failed.is_active());
    assert!(!DownloadStatus::Cancelled.is_active());
    assert!(DownloadStatus::Completed.is_terminal());
    assert!(DownloadStatus::Failed.is_terminal());
    assert!(DownloadStatus::Cancelled.is_terminal());
    assert!(!DownloadStatus::Paused.is_terminal());
}

#[test]
fn contains_finds_substrings() {
    assert!(str_contains("https://b/mirror2", "mirror2"));
    assert!(str_contains("abc", ""));
    assert!(str_contains("", ""));
    assert!(!str_contains("", "a"));
    assert!(!str_contains("https://b/mirror2", "mirror3"));
    assert!(str_contains("aaab", "aab"));
}

#[test]
fn case_insensitive_compare() {
    assert!(str_eq_ignore_ascii_case("DeadBEEF", "deadbeef"));
    assert!(str_eq_ignore_ascii_case("", ""));
    assert!(!str_eq_ignore_ascii_case("dead", "deadbeef"));
    assert!(!str_eq_ignore_ascii_case("deadbeee", "deadbeef"));
}

#[test]
fn decimal_spelling() {
    assert_eq!(u64_to_string(0), "0");
    assert_eq!(u64_to_string(7), "7");
    assert_eq!(u64_to_string(10), "10");
    assert_eq!(u64_to_string(99), "99");
    assert_eq!(u64_to_string(1_048_576), "1048576");
    assert_eq!(u64_to_string(u64::MAX), "18446744073709551615");
}

#[test]
fn range_header_spelling() {
    assert_eq!(range_header_value(0, 1_048_575), "bytes=0-1048575");
    assert_eq!(range_header_value(1_048_576, 2_097_151), "bytes=1048576-2097151");
    assert_eq!(range_header_value(0, 0), "bytes=0-0");
}

#[test]
fn sha1_digest_known_values() {
    // SHA-1 of "abc" and of the empty input are fixed by the algorithm.
    let abc = sha1_digest(b"abc");
    assert_eq!(abc.len(), 20);
    assert!(digest_matches_hex(&abc, "a9993e364706816aba3e25717850c26c9cd0d89d"));
    assert!(digest_matches_hex(&abc, "A9993E364706816ABA3E25717850C26C9CD0D89D"));
    assert!(!digest_matches_hex(&abc, "a9993e364706816aba3e25717850c26c9cd0d89e"));
    assert!(!digest_matches_hex(&abc, "a9993e"));
    let empty = sha1_digest(b"");
    assert!(digest_matches_hex(&empty, "da39a3ee5e6b4b0d3255bfef95601890afd80709"));
    // The digest is not the input handed back.
    assert_ne!(abc.as_slice(), b"abc".as_slice());
}

#[test]
fn payload_gate() {
    let expected = Some("a9993e364706816aba3e25717850c26c9cd0d89d".to_string());
    assert!(payload_integrity_accepts(b"abc", &expected));
    assert!(!payload_integrity_accepts(b"abd", &expected));
    assert!(payload_integrity_accepts(b"anything", &None));
}

#[test]
fn assembled_gate_is_case_insensitive() {
    let expected = Some("DEADBEEF".to_string());
    assert!(assembled_integrity_ok("deadbeef", &expected));
    assert!(!assembled_integrity_ok("deadbee0", &expected));
    assert!(assembled_integrity_ok("whatever", &None));
}
