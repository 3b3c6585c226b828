use nightstation_verify::ckey::Ckey;
use nightstation_verify::identity::{IdentityStore, IdentityStoreError};
use nightstation_verify::status::{StatusStore, VerificationRecord};
use nightstation_verify::whitelist::WhitelistStore;

#[test]
fn identity_insert_then_lookup_returns_inserted_value() {
    let mut store = IdentityStore::new();
    let ck = Ckey::new("Foo_Bar-1");
    assert!(store.insert(7, &ck));
    let got = store.lookup_ckey(7).expect("mapping must exist");
    assert_eq!(got.as_str(), "foobar1");
}

#[test]
fn identity_reinsert_of_identical_ckey_reports_no_change() {
    let mut store = IdentityStore::new();
    let ck = Ckey::new("foobar1");
    assert!(store.insert(7, &ck));
    // An identical ckey is a no-op write, so nothing needs persisting.
    assert!(!store.insert(7, &Ckey::new("FOO_bar_1")));
    // A different ckey is an effective write again.
    assert!(store.insert(7, &Ckey::new("other")));
    assert_eq!(store.lookup_ckey(7).unwrap().as_str(), "other");
    assert_eq!(store.len(), 1);
}

#[test]
fn identity_remove_reports_presence() {
    let mut store = IdentityStore::new();
    store.insert(1, &Ckey::new("a1"));
    assert!(store.remove(1));
    assert!(!store.remove(1));
    assert!(store.lookup_ckey(1).is_none());
}

#[test]
fn identity_reverse_lookup_finds_first_by_insertion_order() {
    let mut store = IdentityStore::new();
    store.insert(5, &Ckey::new("shared"));
    store.insert(3, &Ckey::new("shared"));
    store.insert(9, &Ckey::new("lone"));
    assert_eq!(store.lookup_identity(&Ckey::new("shared")), Some(5));
    assert_eq!(store.lookup_identity(&Ckey::new("lone")), Some(9));
    assert_eq!(store.lookup_identity(&Ckey::new("absent")), None);
}

#[test]
fn identity_durable_form_round_trips() {
    let mut store = IdentityStore::new();
    store.insert(1, &Ckey::new("alpha1"));
    store.insert(2, &Ckey::new("beta2"));
    let text = store.render_text().expect("serialization must succeed");
    let mut reloaded = IdentityStore::new();
    reloaded.insert(9, &Ckey::new("stale"));
    reloaded.load_text(&text).expect("parse must succeed");
    assert_eq!(reloaded.len(), 2);
    assert_eq!(reloaded.lookup_ckey(1).unwrap().as_str(), "alpha1");
    assert_eq!(reloaded.lookup_ckey(2).unwrap().as_str(), "beta2");
    assert!(reloaded.lookup_ckey(9).is_none());
}

#[test]
fn identity_malformed_durable_text_preserves_state() {
    let mut store = IdentityStore::new();
    store.insert(1, &Ckey::new("kept"));
    let result = store.load_text("this is not a structured map");
    assert!(matches!(result, Err(IdentityStoreError::ParseFailure(_))));
    assert_eq!(store.lookup_ckey(1).unwrap().as_str(), "kept");
}

#[test]
fn whitelist_second_insert_reports_no_change_and_lists_once() {
    let mut wl = WhitelistStore::new();
    let ck = Ckey::new("somekey9");
    assert!(wl.insert(&ck));
    assert!(!wl.insert(&ck));
    let listed = wl.list();
    assert_eq!(listed.iter().filter(|e| e.as_str() == "somekey9").count(), 1);
    assert_eq!(listed.len(), 1);
}

#[test]
fn whitelist_remove_reports_membership() {
    let mut wl = WhitelistStore::new();
    wl.insert(&Ckey::new("one1"));
    wl.insert(&Ckey::new("two2"));
    assert!(wl.remove(&Ckey::new("one1")));
    assert!(!wl.remove(&Ckey::new("one1")));
    assert_eq!(wl.list(), vec!["two2".to_string()]);
}

#[test]
fn whitelist_ingests_lines_like_the_durable_file() {
    let mut wl = WhitelistStore::new();
    assert!(!wl.ingest_line("# a comment"));
    assert!(!wl.ingest_line("   "));
    assert!(!wl.ingest_line(""));
    assert!(wl.ingest_line("  alpha1  "));
    assert!(!wl.ingest_line("alpha1"));
    // The comment marker only counts on the first character of the raw
    // line; after leading whitespace it is an ordinary entry.
    assert!(wl.ingest_line(" #odd"));
    assert_eq!(wl.list(), vec!["alpha1".to_string(), "#odd".to_string()]);
}

#[test]
fn whitelist_from_lines_builds_the_set() {
    let lines = vec![
        "# header".to_string(),
        "alpha1".to_string(),
        "".to_string(),
        " beta2 ".to_string(),
        "alpha1".to_string(),
    ];
    let wl = WhitelistStore::from_lines(&lines);
    assert_eq!(wl.list(), vec!["alpha1".to_string(), "beta2".to_string()]);
}

#[test]
fn whitelist_render_writes_warning_then_entries() {
    let mut wl = WhitelistStore::new();
    wl.insert(&Ckey::new("alpha1"));
    wl.insert(&Ckey::new("beta2"));
    let text = wl.render();
    assert_eq!(
        text,
        "# This file is autogenerated\n# Any modifications will be lost\nalpha1\nbeta2\n"
    );
}

#[test]
fn whitelist_durable_form_round_trips() {
    let mut wl = WhitelistStore::new();
    wl.insert(&Ckey::new("alpha1"));
    wl.insert(&Ckey::new("beta2"));
    let reloaded = WhitelistStore::from_text(&wl.render());
    assert_eq!(reloaded.list(), wl.list());
}

#[test]
fn whitelist_from_text_splits_on_line_breaks() {
    let wl = WhitelistStore::from_text("# note\r\nalpha1\r\n\r\n beta2\ngamma3");
    assert_eq!(
        wl.list(),
        vec!["alpha1".to_string(), "beta2".to_string(), "gamma3".to_string()]
    );
    assert_eq!(WhitelistStore::from_text("").list().len(), 0);
}

#[test]
fn status_store_primitives() {
    let mut store = StatusStore::new();
    assert!(store.get_status(4).is_none());
    assert!(store.set_status(4, VerificationRecord::Greeted { message_ref: 10 }));
    // Writing the same record again changes nothing observable.
    assert!(!store.set_status(4, VerificationRecord::Greeted { message_ref: 10 }));
    assert!(store.set_status(4, VerificationRecord::Greeted { message_ref: 11 }));
    match store.get_status(4) {
        Some(VerificationRecord::Greeted { message_ref }) => assert_eq!(message_ref, 11),
        other => panic!("unexpected record: {:?}", other.is_some()),
    }
    assert!(store.remove(4));
    assert!(!store.remove(4));
}

#[test]
fn status_store_pending_equality_looks_at_answers() {
    let mut store = StatusStore::new();
    let rec = VerificationRecord::Pending {
        answers: vec!["a".to_string()],
        next_index: 1,
    };
    assert!(store.set_status(8, rec));
    let same = VerificationRecord::Pending {
        answers: vec!["a".to_string()],
        next_index: 1,
    };
    assert!(!store.set_status(8, same));
    let different = VerificationRecord::Pending {
        answers: vec!["b".to_string()],
        next_index: 1,
    };
    assert!(store.set_status(8, different));
}

#[test]
fn status_store_from_pairs_keeps_the_later_entry() {
    let pairs = vec![
        (1u64, VerificationRecord::Verified),
        (2u64, VerificationRecord::Rejected),
        (1u64, VerificationRecord::Rejected),
    ];
    let store = StatusStore::from_pairs(&pairs);
    assert!(matches!(store.get_status(1), Some(VerificationRecord::Rejected)));
    assert!(matches!(store.get_status(2), Some(VerificationRecord::Rejected)));
    assert_eq!(store.len(), 2);
}
