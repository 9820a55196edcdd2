use mirror_sync::aria2::{gen_list, gen_list_item};
use mirror_sync::reconcile::{ReconcileError, Reconciler, Step, MAX_PASSES};
use mirror_sync::url::{path, LocalPath};
use mirror_sync::verify::{hash_file, verify, verify_url, CorruptedReason};

fn lp(v: &[&str]) -> LocalPath {
    LocalPath::new(v.iter().map(|s| s.to_string()).collect()).unwrap()
}

#[test]
fn list_item_format() {
    assert_eq!(gen_list_item("https://h/a%20b", &lp(&["h", "a b"])), "https://h/a%20b\n\tout=h/a b\n");
}

#[test]
fn list_of_batch() {
    let items = vec![("https://h/a".to_string(), lp(&["h", "a"])), ("https://h/b/c".to_string(), lp(&["h", "b", "c"]))];
    assert_eq!(gen_list(&items), "https://h/a\n\tout=h/a\nhttps://h/b/c\n\tout=h/b/c\n");
    assert_eq!(gen_list(&vec![]), "");
}

#[test]
fn clean_first_pass_is_done() {
    let mut r = Reconciler::new();
    assert!(matches!(r.evaluate(&vec![]), Ok(Step::Done)));
    assert_eq!(r.pass_count(), 1);
}

#[test]
fn report_with_intact_entry_is_refused() {
    let mut r = Reconciler::new();
    let report = vec![(lp(&["h", "a"]), CorruptedReason::Intact)];
    assert!(matches!(r.evaluate(&report), Err(ReconcileError::UnexpectedOutcome)));
}

#[test]
fn fetch_splits_corrupted_and_missing() {
    let mut r = Reconciler::new();
    let report = vec![
        (lp(&["h", "a"]), CorruptedReason::Missing),
        (lp(&["h", "b c"]), CorruptedReason::Corrupted),
    ];
    match r.evaluate(&report) {
        Ok(Step::Fetch { corrupted, missing }) => {
            assert_eq!(corrupted.len(), 1);
            assert_eq!(corrupted[0].0, "https://h/b%20c");
            assert_eq!(missing.len(), 1);
            assert_eq!(missing[0].0, "https://h/a");
            assert_eq!(missing[0].1.display(), "h/a");
        },
        _ => panic!("expected a fetch"),
    }
}

#[test]
fn scenario_missing_file_fetched_then_done() {
    let addr = "https://h/dir/a.bin";
    let p = path(addr).unwrap();
    let hash = hash_file(b"payload");
    let files = vec![(p.duplicate(), hash)];
    let mut r = Reconciler::new();
    assert!(r.can_verify());
    let first = verify(&files, &vec![None]);
    assert_eq!(first.len(), 1);
    assert_eq!(first[0].1, CorruptedReason::Missing);
    match r.evaluate(&first) {
        Ok(Step::Fetch { corrupted, missing }) => {
            assert!(corrupted.is_empty());
            assert_eq!(missing.len(), 1);
            assert_eq!(missing[0].0, addr);
            assert_eq!(missing[0].1.components().clone(), p.components().clone());
        },
        _ => panic!("expected a fetch"),
    }
    assert!(r.can_verify());
    let second = verify(&files, &vec![Some(hash_file(b"payload"))]);
    assert!(second.is_empty());
    assert!(matches!(r.evaluate(&second), Ok(Step::Done)));
    assert_eq!(r.pass_count(), 2);
}

#[test]
fn scenario_broken_mirror_exhausts() {
    let p = path("https://h/dir/a.bin").unwrap();
    let files = vec![(p, hash_file(b"payload"))];
    let wrong = vec![Some(hash_file(b"garbage"))];
    let mut r = Reconciler::new();
    let first = verify(&files, &wrong);
    assert!(matches!(r.evaluate(&first), Ok(Step::Fetch { .. })));
    let second = verify(&files, &wrong);
    assert_eq!(second.len(), 1);
    assert_eq!(second[0].1, CorruptedReason::Corrupted);
    match r.evaluate(&second) {
        Ok(Step::Exhausted { corrupted_count, missing_count }) => {
            assert_eq!(corrupted_count, 1);
            assert_eq!(missing_count, 0);
        },
        _ => panic!("expected exhaustion"),
    }
    assert_eq!(r.pass_count(), MAX_PASSES);
    assert!(!r.can_verify());
}

#[test]
fn verify_url_on_other_scheme_converged_is_clean() {
    let urls = vec![("http://a/b".to_string(), hash_file(b"x"))];
    assert!(verify_url(&urls, &vec![Some(hash_file(b"x"))]).unwrap().is_empty());
}
