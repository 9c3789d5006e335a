use job_mailer::history::{
    build_history_entry, created_at_from_elapsed, delete_history_entry, new_history_entry,
    record_history_entry, sort_history_newest_first, AppendHistoryInput, HistoryEntry,
    MAX_HISTORY_ENTRIES,
};

fn entry(id: &str, created_at: i64) -> HistoryEntry {
    HistoryEntry {
        id: id.to_string(),
        created_at,
        subject: format!("subject {}", id),
        body: String::new(),
        jd_text: String::new(),
        strategy_path: None,
        strategy_md: String::new(),
    }
}

fn ids(entries: &[HistoryEntry]) -> Vec<&str> {
    entries.iter().map(|e| e.id.as_str()).collect()
}

fn input() -> AppendHistoryInput {
    AppendHistoryInput {
        subject: "  申请实习  ".to_string(),
        body: " body kept ".to_string(),
        jd_text: "j".repeat(100_001),
        strategy_path: Some("/tmp/plan.md".to_string()),
        strategy_md: "short".to_string(),
    }
}

#[test]
fn entry_fields() {
    let e = build_history_entry("id-1".to_string(), 1_700_000_000_000, input());
    assert_eq!(e.id, "id-1");
    assert_eq!(e.created_at, 1_700_000_000_000);
    assert_eq!(e.subject, "申请实习");
    assert_eq!(e.body, " body kept ");
    assert_eq!(e.jd_text.chars().count(), 100_000);
    assert!(e.jd_text.ends_with('…'));
    assert_eq!(e.strategy_path.as_deref(), Some("/tmp/plan.md"));
    assert_eq!(e.strategy_md, "short");
}

#[test]
fn new_entries_get_uuid_identifiers() {
    let a = new_history_entry(5, input());
    let b = new_history_entry(5, input());
    for e in [&a, &b] {
        let chars: Vec<char> = e.id.chars().collect();
        assert_eq!(chars.len(), 36);
        for (i, c) in chars.iter().enumerate() {
            if [8, 13, 18, 23].contains(&i) {
                assert_eq!(*c, '-');
            } else {
                assert!(c.is_ascii_digit() || ('a'..='f').contains(c), "{}", e.id);
            }
        }
        assert_eq!(chars[14], '4');
        assert!(['8', '9', 'a', 'b'].contains(&chars[19]), "{}", e.id);
    }
    assert_ne!(a.id, b.id);
    assert_eq!(a.created_at, 5);
    assert_eq!(a.subject, "申请实习");
}

#[test]
fn clock_readings() {
    assert_eq!(created_at_from_elapsed(Some(1_700_000_000_123)), 1_700_000_000_123);
    assert_eq!(created_at_from_elapsed(None), 0);
    assert_eq!(created_at_from_elapsed(Some(u128::MAX)), -1);
}

#[test]
fn recording_puts_newest_first_and_caps() {
    let mut entries = Vec::new();
    for i in 0..60 {
        record_history_entry(&mut entries, entry(&format!("e{}", i), i));
        assert!(entries.len() <= MAX_HISTORY_ENTRIES);
        assert_eq!(entries[0].id, format!("e{}", i));
    }
    assert_eq!(entries.len(), 50);
    assert_eq!(entries[49].id, "e10");
}

#[test]
fn deleting_removes_every_match() {
    let mut entries = vec![entry("a", 1), entry("b", 2), entry("a", 3), entry("c", 4)];
    delete_history_entry(&mut entries, &"a".to_string());
    assert_eq!(ids(&entries), vec!["b", "c"]);
    delete_history_entry(&mut entries, &"a".to_string());
    assert_eq!(ids(&entries), vec!["b", "c"]);
    delete_history_entry(&mut entries, &"zz".to_string());
    assert_eq!(ids(&entries), vec!["b", "c"]);
}

#[test]
fn listing_is_newest_first_and_stable() {
    let entries = vec![
        entry("old", 1),
        entry("new1", 9),
        entry("mid", 5),
        entry("new2", 9),
        entry("mid2", 5),
    ];
    let sorted = sort_history_newest_first(entries);
    assert_eq!(ids(&sorted), vec!["new1", "new2", "mid", "mid2", "old"]);
}

#[test]
fn listing_matches_std_stable_sort() {
    let mut entries = Vec::new();
    for i in 0..40i64 {
        entries.push(entry(&format!("e{}", i), (i * 7919) % 13));
    }
    let mut expected: Vec<String> = {
        let mut copy: Vec<(i64, String)> = entries.iter().map(|e| (e.created_at, e.id.clone())).collect();
        copy.sort_by(|a, b| b.0.cmp(&a.0));
        copy.into_iter().map(|(_, id)| id).collect()
    };
    let sorted = sort_history_newest_first(entries);
    let got: Vec<String> = sorted.iter().map(|e| e.id.clone()).collect();
    assert_eq!(got, std::mem::take(&mut expected));
}

#[test]
fn listing_a_listed_history_changes_nothing() {
    let entries = vec![entry("c", 9), entry("a", 5), entry("b", 5), entry("z", -3)];
    let sorted = sort_history_newest_first(entries);
    assert_eq!(ids(&sorted), vec!["c", "a", "b", "z"]);
    let again = sort_history_newest_first(sorted);
    assert_eq!(ids(&again), vec!["c", "a", "b", "z"]);
}

#[test]
fn recording_then_deleting_leaves_the_rest() {
    let mut entries = vec![entry("a", 1), entry("b", 2)];
    record_history_entry(&mut entries, entry("n", 3));
    assert_eq!(ids(&entries), vec!["n", "a", "b"]);
    delete_history_entry(&mut entries, &"n".to_string());
    assert_eq!(ids(&entries), vec!["a", "b"]);
}
