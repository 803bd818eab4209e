use mtime_travel::codec::parse_store;
use mtime_travel::hashing::content_hash_hex;
use mtime_travel::ignore::{pattern_is_valid, IgnoreSpec};
use mtime_travel::record::{FileRecord, RecordStore};
use mtime_travel::restore::{restore_decision, CurrentContent, RestoreAction, RestoreEngine};
use mtime_travel::save::SaveSession;
use mtime_travel::strutil::path_within;

fn record(mtime: i64, mtime_nano: u32, hash: &str) -> FileRecord {
    FileRecord {
        mtime,
        mtime_nano,
        hash: hash.to_string(),
    }
}

fn record_for(mtime: i64, mtime_nano: u32, content: &[u8]) -> FileRecord {
    FileRecord {
        mtime,
        mtime_nano,
        hash: content_hash_hex(content),
    }
}

#[test]
fn hash_known_values() {
    assert_eq!(
        content_hash_hex(b""),
        "E3B0C44298FC1C149AFBF4C8996FB92427AE41E4649B934CA495991B7852B855"
    );
    assert_eq!(
        content_hash_hex(b"abc"),
        "BA7816BF8F01CFEA414140DE5DAE2223B00361A396177A9CB410FF61F20015AD"
    );
}

#[test]
fn hash_deterministic() {
    let a = content_hash_hex(b"some file content\n");
    let b = content_hash_hex(b"some file content\n");
    assert_eq!(a, b);
    assert_eq!(a.len(), 64);
    let c = content_hash_hex(b"other content\n");
    assert_ne!(a, c);
}

#[test]
fn serialize_empty_store() {
    let store = RecordStore::new();
    assert_eq!(store.to_text(), "{}");
}

#[test]
fn serialize_one_entry() {
    let mut store = RecordStore::new();
    store.insert("/a/b.txt".to_string(), record(100, 5, "AB"));
    assert_eq!(
        store.to_text(),
        "{\n  \"/a/b.txt\": {\n    \"mtime\": 100,\n    \"mtime_nano\": 5,\n    \"hash\": \"AB\"\n  }\n}"
    );
}

#[test]
fn serialize_negative_mtime() {
    let mut store = RecordStore::new();
    store.insert("/f".to_string(), record(-5, 0, "00"));
    assert_eq!(
        store.to_text(),
        "{\n  \"/f\": {\n    \"mtime\": -5,\n    \"mtime_nano\": 0,\n    \"hash\": \"00\"\n  }\n}"
    );
}

#[test]
fn serialize_orders_keys() {
    let mut store = RecordStore::new();
    store.insert("/d/z.txt".to_string(), record(3, 0, "CC"));
    store.insert("/d/a.txt".to_string(), record(1, 0, "AA"));
    store.insert("/d/m.txt".to_string(), record(2, 0, "BB"));
    assert_eq!(store.len(), 3);
    assert_eq!(store.entry_at(0).path, "/d/a.txt");
    assert_eq!(store.entry_at(1).path, "/d/m.txt");
    assert_eq!(store.entry_at(2).path, "/d/z.txt");
}

#[test]
fn insert_replaces_same_path() {
    let mut store = RecordStore::new();
    store.insert("/d/a.txt".to_string(), record(1, 0, "AA"));
    store.insert("/d/a.txt".to_string(), record(9, 7, "BB"));
    assert_eq!(store.len(), 1);
    assert_eq!(store.entry_at(0).record.mtime, 9);
    assert_eq!(store.entry_at(0).record.hash, "BB");
}

#[test]
fn parse_round_trips_serialized_store() {
    let mut store = RecordStore::new();
    store.insert("/d/a.txt".to_string(), record(1700000000, 123456789, "AA"));
    store.insert("/d/b.txt".to_string(), record(-42, 0, "BB"));
    let text = store.to_text();
    let parsed = parse_store(&text).expect("canonical text parses");
    assert_eq!(parsed.len(), 2);
    assert_eq!(parsed.entry_at(0).path, "/d/a.txt");
    assert_eq!(parsed.entry_at(0).record.mtime, 1700000000);
    assert_eq!(parsed.entry_at(0).record.mtime_nano, 123456789);
    assert_eq!(parsed.entry_at(0).record.hash, "AA");
    assert_eq!(parsed.entry_at(1).record.mtime, -42);
    assert_eq!(parsed.to_text(), text);
}

#[test]
fn parse_round_trips_empty_store() {
    let parsed = parse_store("{}").expect("empty store parses");
    assert_eq!(parsed.len(), 0);
    assert_eq!(parsed.to_text(), "{}");
}

#[test]
fn parse_round_trips_escaped_path() {
    let mut store = RecordStore::new();
    store.insert("/odd/na\"me\\file\n.txt".to_string(), record(7, 0, "AB"));
    let text = store.to_text();
    assert!(text.contains("\\\""));
    assert!(text.contains("\\\\"));
    assert!(text.contains("\\n"));
    let parsed = parse_store(&text).expect("escaped path round-trips");
    assert_eq!(parsed.entry_at(0).path, "/odd/na\"me\\file\n.txt");
    assert_eq!(parsed.to_text(), text);
}

#[test]
fn parse_round_trips_extreme_mtimes() {
    let mut store = RecordStore::new();
    store.insert("/max".to_string(), record(i64::MAX, 999999999, "AA"));
    store.insert("/min".to_string(), record(i64::MIN, 0, "BB"));
    let text = store.to_text();
    let parsed = parse_store(&text).expect("extreme values round-trip");
    assert_eq!(parsed.entry_at(0).record.mtime, i64::MAX);
    assert_eq!(parsed.entry_at(1).record.mtime, i64::MIN);
    assert_eq!(parsed.to_text(), text);
}

#[test]
fn parse_rejects_malformed_text() {
    assert!(parse_store("").is_none());
    assert!(parse_store("{").is_none());
    assert!(parse_store("[]").is_none());
    assert!(parse_store("{\n}").is_none());
    assert!(parse_store("not a store").is_none());
    assert!(parse_store("{}x").is_none());
    assert!(parse_store("{\n  \"/f\": {\n    \"mtime\": 1,\n    \"mtime_nano\": 0,\n    \"hash\": \"AA\"\n  }\n}trailing").is_none());
    assert!(parse_store("{\n  \"/f\\q\": {\n    \"mtime\": 1,\n    \"mtime_nano\": 0,\n    \"hash\": \"AA\"\n  }\n}").is_none());
    assert!(parse_store("{\n  \"/f\": {\n    \"mtime\": \n  }\n}").is_none());
}

#[test]
fn parse_rejects_non_canonical_text() {
    // Valid-looking content, but not in the canonical shape the save pass
    // writes: compact spacing, unsorted keys, out-of-range nanoseconds.
    assert!(parse_store("{\"a\": {\"mtime\": 1, \"mtime_nano\": 0, \"hash\": \"AA\"}}").is_none());
    let unsorted = "{\n  \"/d/b\": {\n    \"mtime\": 1,\n    \"mtime_nano\": 0,\n    \"hash\": \"AA\"\n  },\n  \"/d/a\": {\n    \"mtime\": 2,\n    \"mtime_nano\": 0,\n    \"hash\": \"BB\"\n  }\n}";
    assert!(parse_store(unsorted).is_none());
    let bad_nano = "{\n  \"/f\": {\n    \"mtime\": 1,\n    \"mtime_nano\": 1000000000,\n    \"hash\": \"AA\"\n  }\n}";
    assert!(parse_store(bad_nano).is_none());
    let leading_zero = "{\n  \"/f\": {\n    \"mtime\": 01,\n    \"mtime_nano\": 0,\n    \"hash\": \"AA\"\n  }\n}";
    assert!(parse_store(leading_zero).is_none());
}

#[test]
fn pattern_validity() {
    assert!(pattern_is_valid(".*\\.json"));
    assert!(!pattern_is_valid("("));
}

#[test]
fn patterns_exclude_matching_paths() {
    let ig = IgnoreSpec::Patterns(vec![".*\\.json".to_string()]);
    assert!(ig.excludes("/d/store.json"));
    assert!(!ig.excludes("/d/a.txt"));
    let none = IgnoreSpec::Nothing;
    assert!(!none.excludes("/d/store.json"));
}

#[test]
fn invalid_pattern_excludes_nothing() {
    let ig = IgnoreSpec::Patterns(vec!["(".to_string()]);
    assert!(!ig.excludes("/d/a.txt"));
    let mixed = IgnoreSpec::Patterns(vec!["(".to_string(), ".*\\.json".to_string()]);
    assert!(mixed.excludes("/d/a.json"));
    assert!(!mixed.excludes("/d/a.txt"));
}

#[test]
fn prefix_containment_is_by_segment() {
    assert!(path_within("/a/b", "/a/b"));
    assert!(path_within("/a/b", "/a/b/c.txt"));
    assert!(!path_within("/a/b", "/a/bc.txt"));
    assert!(!path_within("/a/b", "/a"));
    let ig = IgnoreSpec::Prefixes(vec!["/a/b".to_string()]);
    assert!(ig.excludes("/a/b/deep/file.txt"));
    assert!(!ig.excludes("/a/other.txt"));
}

#[test]
fn prefix_base_may_end_in_separator() {
    assert!(path_within("/", "/"));
    assert!(path_within("/", "/a"));
    assert!(path_within("/", "/a/b.txt"));
    assert!(path_within("/a/b/", "/a/b/c.txt"));
    assert!(path_within("/a/b/", "/a/b/"));
    assert!(!path_within("/a/b/", "/a/bc.txt"));
    let root = IgnoreSpec::Prefixes(vec!["/".to_string()]);
    assert!(root.excludes("/anything/at/all"));
}

fn offer_tree(session: &mut SaveSession, files: &[(&str, i64, &[u8])]) {
    for (path, mtime, content) in files {
        session.offer_file((*path).to_string(), *mtime, 0, content);
    }
}

const TREE: &[(&str, i64, &[u8])] = &[
    ("/d/a.txt", 10, b"aaa"),
    ("/d/b.txt", 20, b"bbb"),
    ("/d/nested/nested_a.txt", 30, b"na"),
    ("/d/nested/nested_b.txt", 40, b"nb"),
    ("/d/meta.json", 50, b"{}"),
];

#[test]
fn ignore_patterns_filter_save() {
    // With the json pattern, exactly the four non-json files are recorded.
    let mut session = SaveSession::new(IgnoreSpec::Patterns(vec![".*\\.json".to_string()]));
    offer_tree(&mut session, TREE);
    assert_eq!(session.saved_count(), 4);
}

#[test]
fn more_patterns_never_increase_count() {
    let mut one = SaveSession::new(IgnoreSpec::Patterns(vec![".*\\.json".to_string()]));
    offer_tree(&mut one, TREE);
    let mut two = SaveSession::new(IgnoreSpec::Patterns(vec![
        ".*\\.json".to_string(),
        ".*a\\.txt".to_string(),
    ]));
    offer_tree(&mut two, TREE);
    assert_eq!(one.saved_count(), 4);
    assert_eq!(two.saved_count(), 2);
    assert!(two.saved_count() <= one.saved_count());
}

#[test]
fn saving_twice_is_byte_identical() {
    let ignore = vec![".*\\.json".to_string()];
    let mut first = SaveSession::new(IgnoreSpec::Patterns(ignore.clone()));
    offer_tree(&mut first, TREE);
    let mut second = SaveSession::new(IgnoreSpec::Patterns(ignore));
    offer_tree(&mut second, TREE);
    assert_eq!(first.to_text(), second.to_text());
}

#[test]
fn restore_skips_changed_content() {
    let rec = record_for(100, 0, b"original");
    let same = restore_decision(&rec, &CurrentContent::Bytes(b"original".to_vec()), false);
    assert!(matches!(
        same,
        RestoreAction::SetTime {
            mtime: 100,
            mtime_nano: 0
        }
    ));
    let changed = restore_decision(&rec, &CurrentContent::Bytes(b"edited".to_vec()), false);
    assert!(matches!(changed, RestoreAction::SkipMismatch));
}

#[test]
fn force_mode_restores_despite_mismatch() {
    let rec = record_for(100, 7, b"original");
    let forced = restore_decision(&rec, &CurrentContent::Bytes(b"edited".to_vec()), true);
    assert!(matches!(
        forced,
        RestoreAction::SetTime {
            mtime: 100,
            mtime_nano: 7
        }
    ));
}

#[test]
fn restore_skips_missing_and_unreadable() {
    let rec = record_for(100, 0, b"x");
    assert!(matches!(
        restore_decision(&rec, &CurrentContent::Missing, false),
        RestoreAction::SkipMissing
    ));
    assert!(matches!(
        restore_decision(&rec, &CurrentContent::Missing, true),
        RestoreAction::SkipMissing
    ));
    assert!(matches!(
        restore_decision(&rec, &CurrentContent::Unreadable, false),
        RestoreAction::SkipUnreadable
    ));
}

#[test]
fn missing_entry_does_not_disturb_others() {
    let mut store = RecordStore::new();
    store.insert("/d/gone.txt".to_string(), record_for(1, 0, b"gone"));
    store.insert("/d/kept.txt".to_string(), record_for(2, 0, b"kept"));
    let mut engine = RestoreEngine::new(store, false);
    while !engine.finished() {
        let current = if engine.next_path() == "/d/gone.txt" {
            CurrentContent::Missing
        } else {
            CurrentContent::Bytes(b"kept".to_vec())
        };
        let action = engine.decide(&current);
        let applied = matches!(action, RestoreAction::SetTime { .. });
        engine.advance(applied);
    }
    assert_eq!(engine.restored_count(), 1);
}

#[test]
fn scenario_ignored_subdir_then_restore() {
    // Directory with a.txt, b.txt and sub/c.txt; the pattern matches the
    // subdirectory, so the store holds exactly the two top files. After
    // the tree's times are disturbed but content kept, a restore writes
    // both saved times back and counts both.
    let mut session = SaveSession::new(IgnoreSpec::Patterns(vec![".*/sub/.*".to_string()]));
    session.offer_file("/d/a.txt".to_string(), 111, 0, b"content a");
    session.offer_file("/d/b.txt".to_string(), 222, 0, b"content b");
    session.offer_file("/d/sub/c.txt".to_string(), 333, 0, b"content c");
    assert_eq!(session.saved_count(), 2);
    let text = session.to_text();

    let store = parse_store(&text).expect("saved store parses");
    assert_eq!(store.entry_at(0).path, "/d/a.txt");
    assert_eq!(store.entry_at(1).path, "/d/b.txt");
    let mut engine = RestoreEngine::new(store, false);
    let mut set_times: Vec<(String, i64)> = Vec::new();
    while !engine.finished() {
        let current = if engine.next_path() == "/d/a.txt" {
            CurrentContent::Bytes(b"content a".to_vec())
        } else {
            CurrentContent::Bytes(b"content b".to_vec())
        };
        let path = engine.next_path().clone();
        let action = engine.decide(&current);
        let applied = match action {
            RestoreAction::SetTime { mtime, .. } => {
                set_times.push((path, mtime));
                true
            }
            _ => false,
        };
        engine.advance(applied);
    }
    assert_eq!(engine.restored_count(), 2);
    assert_eq!(set_times[0], ("/d/a.txt".to_string(), 111));
    assert_eq!(set_times[1], ("/d/b.txt".to_string(), 222));
}

#[test]
fn excluded_file_is_not_recorded() {
    let mut session = SaveSession::new(IgnoreSpec::Patterns(vec![".*\\.json".to_string()]));
    assert!(!session.offer_file("/d/x.json".to_string(), 1, 0, b"{}"));
    assert!(session.offer_file("/d/x.txt".to_string(), 1, 0, b"t"));
    assert_eq!(session.saved_count(), 1);
    assert!(session.should_visit("/d/x.txt"));
    assert!(!session.should_visit("/d/x.json"));
}
