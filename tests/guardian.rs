use config_guardian::baseline::{load_baseline, BaselineRead, GuardError};
use config_guardian::compare::{compare, DriftKind, DriftRecord};
use config_guardian::fingerprint::{
    compute_fingerprints, content_digest, DirEntryRead, FileFingerprint, ScanWarning,
};
use config_guardian::monitor::{Monitor, MonitorAction, MonitorEvent, DEBOUNCE_INTERVAL_MS};
use config_guardian::operations::{compare_with_snapshot, is_valid_directory};

const HELLO: &str = "2cf24dba5fb0a30e26e83b2ac5b9e29e1b161e5c1fa7425e73043362938b9824";
const WORLD: &str = "486ea46224d1bb4fb680f34f7c9ad96a8f24ec88be73ea8e5a6c65260e9cb8a7";
const EMPTY: &str = "e3b0c44298fc1c149afbf4c8996fb92427ae41e4649b934ca495991b7852b855";

fn file(path: &str, content: &str) -> DirEntryRead {
    DirEntryRead::File { path: path.to_string(), content: content.as_bytes().to_vec() }
}

fn fp(path: &str, digest: &str) -> FileFingerprint {
    FileFingerprint { path: path.to_string(), digest: digest.to_string() }
}

fn lines(records: &[DriftRecord]) -> Vec<String> {
    records.iter().map(|r| r.describe()).collect()
}

fn snapshot(entries: &Vec<DirEntryRead>) -> Vec<FileFingerprint> {
    compute_fingerprints(entries).fingerprints
}

#[test]
fn digest_of_known_contents() {
    assert_eq!(content_digest(&b"hello".to_vec()), HELLO);
    assert_eq!(content_digest(&b"world".to_vec()), WORLD);
    assert_eq!(content_digest(&Vec::new()), EMPTY);
}

#[test]
fn digest_is_deterministic() {
    let c = b"some configuration\nkey = value\n".to_vec();
    let first = content_digest(&c);
    let second = content_digest(&c);
    assert_eq!(first, second);
    assert_eq!(first.len(), 64);
    assert_ne!(first, content_digest(&b"some configuration\nkey = other\n".to_vec()));
}

#[test]
fn snapshot_of_two_files_has_no_drift_against_itself() {
    let entries = vec![file("dir/a.txt", "hello"), file("dir/b.txt", "world")];
    let report = compute_fingerprints(&entries);
    assert_eq!(report.fingerprints.len(), 2);
    assert_eq!(report.fingerprints[0].path, "dir/a.txt");
    assert_eq!(report.fingerprints[0].digest, HELLO);
    assert_eq!(report.fingerprints[1].path, "dir/b.txt");
    assert_eq!(report.fingerprints[1].digest, WORLD);
    assert_ne!(report.fingerprints[0].digest, report.fingerprints[1].digest);
    assert!(report.warnings.is_empty());
    assert!(!report.empty_directory);
    assert!(compare(&report.fingerprints, &report.fingerprints).is_empty());
}

#[test]
fn modified_file_is_reported_changed() {
    let baseline = snapshot(&vec![file("a.txt", "hello"), file("b.txt", "world")]);
    let current = snapshot(&vec![file("a.txt", "HELLO"), file("b.txt", "world")]);
    let drifts = compare(&baseline, &current);
    assert_eq!(lines(&drifts), vec!["Changed: a.txt".to_string()]);
    assert_eq!(drifts[0].kind, DriftKind::Changed);
}

#[test]
fn deleted_and_new_files_are_reported() {
    let baseline = snapshot(&vec![file("a.txt", "hello"), file("b.txt", "world")]);
    let current = snapshot(&vec![file("a.txt", "hello"), file("c.txt", "new")]);
    let drifts = compare(&baseline, &current);
    assert_eq!(lines(&drifts), vec!["New: c.txt".to_string(), "Deleted: b.txt".to_string()]);
}

#[test]
fn report_orders_current_entries_then_deleted_ones() {
    let baseline = vec![fp("x", HELLO), fp("y", WORLD), fp("z", EMPTY)];
    let current = vec![fp("w", EMPTY), fp("z", HELLO), fp("y", WORLD)];
    let drifts = compare(&baseline, &current);
    assert_eq!(
        lines(&drifts),
        vec!["New: w".to_string(), "Changed: z".to_string(), "Deleted: x".to_string()]
    );
}

#[test]
fn comparison_ignores_order() {
    let baseline = vec![fp("a", HELLO), fp("b", WORLD)];
    let current = vec![fp("b", WORLD), fp("a", HELLO)];
    assert!(compare(&baseline, &current).is_empty());
}

#[test]
fn empty_collections_have_no_drift() {
    assert!(compare(&Vec::new(), &Vec::new()).is_empty());
    let only = vec![fp("a", HELLO)];
    assert_eq!(lines(&compare(&Vec::new(), &only)), vec!["New: a".to_string()]);
    assert_eq!(lines(&compare(&only, &Vec::new())), vec!["Deleted: a".to_string()]);
}

#[test]
fn unreadable_entries_become_warnings() {
    let entries = vec![
        file("a", "1"),
        DirEntryRead::Unreadable { message: "denied".to_string() },
        DirEntryRead::NotAFile,
        file("b", "2"),
        DirEntryRead::UnreadableFile { path: "c".to_string(), message: "io".to_string() },
        file("d", "3"),
    ];
    let report = compute_fingerprints(&entries);
    assert_eq!(report.fingerprints.len(), 3);
    assert_eq!(report.warnings.len(), 2);
    assert!(report.warnings[0] == ScanWarning::UnreadableEntry { message: "denied".to_string() });
    assert!(
        report.warnings[1]
            == ScanWarning::UnreadableFile { path: "c".to_string(), message: "io".to_string() }
    );
    assert!(!report.empty_directory);
}

#[test]
fn directory_without_regular_files_is_flagged_empty() {
    let report = compute_fingerprints(&Vec::new());
    assert!(report.empty_directory);
    assert!(report.fingerprints.is_empty());
    let report = compute_fingerprints(&vec![DirEntryRead::NotAFile]);
    assert!(report.empty_directory);
}

#[test]
fn compare_without_baseline_fails_missing() {
    let entries = vec![file("a.txt", "hello")];
    let r = compare_with_snapshot(BaselineRead::Missing, &entries);
    assert!(matches!(r, Err(GuardError::BaselineMissing)));
    assert!(GuardError::BaselineMissing.describe().contains("snapshot"));
}

#[test]
fn compare_cycle_reports_drift() {
    let baseline = snapshot(&vec![file("a.txt", "hello"), file("b.txt", "world")]);
    let entries = vec![file("a.txt", "HELLO"), file("b.txt", "world")];
    let outcome = compare_with_snapshot(BaselineRead::Parsed(baseline), &entries).ok().unwrap();
    assert_eq!(lines(&outcome.drifts), vec!["Changed: a.txt".to_string()]);
    assert_eq!(outcome.scan.fingerprints.len(), 2);
}

#[test]
fn unparsable_baseline_is_corrupt() {
    let r = load_baseline(BaselineRead::Unparsable);
    assert!(matches!(r, Err(GuardError::BaselineCorrupt)));
}

#[test]
fn baseline_with_duplicate_paths_is_corrupt() {
    let r = load_baseline(BaselineRead::Parsed(vec![fp("a", HELLO), fp("a", WORLD)]));
    assert!(matches!(r, Err(GuardError::BaselineCorrupt)));
}

#[test]
fn baseline_with_malformed_digest_is_corrupt() {
    let r = load_baseline(BaselineRead::Parsed(vec![fp("a", "abc")]));
    assert!(matches!(r, Err(GuardError::BaselineCorrupt)));
    let upper = HELLO.to_uppercase();
    let r = load_baseline(BaselineRead::Parsed(vec![fp("a", &upper)]));
    assert!(matches!(r, Err(GuardError::BaselineCorrupt)));
}

#[test]
fn saved_snapshot_loads_unchanged() {
    let saved = snapshot(&vec![file("a.txt", "hello"), file("b.txt", "world")]);
    let copy: Vec<FileFingerprint> = saved.iter().map(|f| fp(&f.path, &f.digest)).collect();
    let loaded = load_baseline(BaselineRead::Parsed(copy)).ok().unwrap();
    assert_eq!(loaded.len(), saved.len());
    for (l, s) in loaded.iter().zip(saved.iter()) {
        assert_eq!(l.path, s.path);
        assert_eq!(l.digest, s.digest);
    }
}

#[test]
fn burst_of_events_triggers_one_comparison() {
    let mut m = Monitor::new(DEBOUNCE_INTERVAL_MS);
    assert_eq!(DEBOUNCE_INTERVAL_MS, 2000);
    let mut compares = 0;
    for k in 0..5u64 {
        if m.step(MonitorEvent::Change { at_ms: 10_000 + 200 * k }) == MonitorAction::Compare {
            compares += 1;
        }
    }
    assert_eq!(compares, 1);
}

#[test]
fn comparison_runs_again_after_the_interval() {
    let mut m = Monitor::new(2000);
    assert_eq!(m.step(MonitorEvent::Change { at_ms: 0 }), MonitorAction::Compare);
    m.record_comparison(500);
    assert_eq!(m.step(MonitorEvent::Change { at_ms: 2400 }), MonitorAction::Suppress);
    assert_eq!(m.step(MonitorEvent::Change { at_ms: 2500 }), MonitorAction::Compare);
    assert_eq!(m.last_comparison_ms, Some(2500));
}

#[test]
fn watch_errors_are_reported_and_closure_stops() {
    let mut m = Monitor::new(2000);
    assert_eq!(m.step(MonitorEvent::WatchError), MonitorAction::ReportWatchError);
    assert_eq!(m.last_comparison_ms, None);
    assert_eq!(m.step(MonitorEvent::ChannelClosed), MonitorAction::Stop);
}

#[test]
fn directory_validity() {
    assert!(!is_valid_directory(""));
    assert!(is_valid_directory("."));
    assert!(!is_valid_directory("./no/such/directory/here"));
}

#[test]
fn error_messages_are_descriptive() {
    assert_eq!(GuardError::BaselineMissing.describe(), "No baseline found. Run 'snapshot' first.");
    assert_eq!(GuardError::InvalidDirectory.describe(), "Provided path is not a valid directory.");
    assert_eq!(GuardError::BaselineCorrupt.describe(), "The baseline record is corrupt.");
}

#[test]
fn corrupt_baseline_stops_the_compare_cycle() {
    let entries = vec![file("a.txt", "hello")];
    let r = compare_with_snapshot(BaselineRead::Unparsable, &entries);
    assert!(matches!(r, Err(GuardError::BaselineCorrupt)));
    let r = compare_with_snapshot(BaselineRead::Parsed(vec![fp("a.txt", "xyz")]), &entries);
    assert!(matches!(r, Err(GuardError::BaselineCorrupt)));
}
