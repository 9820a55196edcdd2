use mirror_sync::url::{path, LocalPath};
use mirror_sync::verify::{classify, hash_file, verify, verify_file, verify_url, CorruptedReason};
use mirror_sync::Sha1;

fn digest(hex: &str) -> Sha1 {
    Sha1::from_hex(hex).unwrap()
}

fn lp(v: &[&str]) -> LocalPath {
    LocalPath::new(v.iter().map(|s| s.to_string()).collect()).unwrap()
}

const ABC: &str = "a9993e364706816aba3e25717850c26c9cd0d89d";
const EMPTY: &str = "da39a3ee5e6b4b0d3255bfef95601890afd80709";

#[test]
fn hash_of_known_inputs() {
    assert_eq!(hash_file(b"abc"), digest(ABC));
    assert_eq!(hash_file(b""), digest(EMPTY));
}

#[test]
fn verify_file_states() {
    assert_eq!(verify_file(Some(b"abc"), &digest(ABC)), CorruptedReason::Intact);
    assert_eq!(verify_file(None, &digest(ABC)), CorruptedReason::Missing);
    assert_eq!(verify_file(Some(b"abd"), &digest(ABC)), CorruptedReason::Corrupted);
}

#[test]
fn classify_states() {
    assert_eq!(classify(&Some(digest(ABC)), &digest(ABC)), CorruptedReason::Intact);
    assert_eq!(classify(&None, &digest(ABC)), CorruptedReason::Missing);
    assert_eq!(classify(&Some(digest(EMPTY)), &digest(ABC)), CorruptedReason::Corrupted);
}

#[test]
fn verify_reports_only_failures_in_order() {
    let files = vec![
        (lp(&["h", "ok"]), digest(ABC)),
        (lp(&["h", "gone"]), digest(ABC)),
        (lp(&["h", "bad"]), digest(ABC)),
    ];
    let observed = vec![Some(digest(ABC)), None, Some(digest(EMPTY))];
    let r = verify(&files, &observed);
    assert_eq!(r.len(), 2);
    assert_eq!(r[0].0.display(), "h/gone");
    assert_eq!(r[0].1, CorruptedReason::Missing);
    assert_eq!(r[1].0.display(), "h/bad");
    assert_eq!(r[1].1, CorruptedReason::Corrupted);
}

#[test]
fn converged_mirror_verifies_clean() {
    let files = vec![(lp(&["h", "a"]), hash_file(b"abc")), (lp(&["h", "b"]), hash_file(b""))];
    let observed = vec![Some(hash_file(b"abc")), Some(hash_file(b""))];
    assert!(verify(&files, &observed).is_empty());
    assert!(verify(&vec![], &vec![]).is_empty());
}

#[test]
fn absent_file_is_missing_not_corrupted() {
    let files = vec![(lp(&["h", "a"]), digest(ABC))];
    let r = verify(&files, &vec![None]);
    assert_eq!(r.len(), 1);
    assert_eq!(r[0].1, CorruptedReason::Missing);
}

#[test]
fn different_bytes_are_corrupted() {
    let files = vec![(lp(&["h", "a"]), hash_file(b"expected"))];
    let r = verify(&files, &vec![Some(hash_file(b"other"))]);
    assert_eq!(r.len(), 1);
    assert_eq!(r[0].1, CorruptedReason::Corrupted);
}

#[test]
fn verify_url_maps_addresses_to_paths() {
    let urls = vec![("https://h/x/y".to_string(), digest(ABC)), ("https://h/z".to_string(), digest(ABC))];
    let r = verify_url(&urls, &vec![None, Some(digest(ABC))]).unwrap();
    assert_eq!(r.len(), 1);
    assert_eq!(r[0].0.components().clone(), path("https://h/x/y").unwrap().components().clone());
    assert_eq!(r[0].1, CorruptedReason::Missing);
}

#[test]
fn verify_url_rejects_malformed_address() {
    let urls = vec![("https://h:21/x".to_string(), digest(ABC))];
    assert!(verify_url(&urls, &vec![None]).is_err());
}

#[test]
fn sha1_from_hex() {
    let h = Sha1::from_hex("DEADBEEF00000000000000000000000000000001").unwrap();
    assert_eq!(h.0[0], 0xde);
    assert_eq!(h.0[3], 0xef);
    assert_eq!(h.0[19], 1);
    assert!(Sha1::from_hex("deadbeef").is_none());
    assert!(Sha1::from_hex("zz00000000000000000000000000000000000000").is_none());
    assert!(Sha1::from_hex("a9993e364706816aba3e25717850c26c9cd0d89").is_none());
    assert!(digest(ABC).same_as(&digest(ABC)));
    assert!(!digest(ABC).same_as(&digest(EMPTY)));
}
