use tuff_brg::lightweight::{MeaningDb, Verifier};

fn pairs(items: &[(&str, &str)]) -> Vec<(String, String)> {
    items.iter().map(|(t, m)| (t.to_string(), m.to_string())).collect()
}

#[test]
fn meaning_for_finds_each_tag() {
    let db = MeaningDb::new(pairs(&[
        ("prime-minister", "Sanae Takaichi"),
        ("shigeru-ishiba", "Former Candidate"),
        ("japan-leader", "Takaichi"),
    ]));
    assert_eq!(db.meaning_for("prime-minister"), Some("Sanae Takaichi"));
    assert_eq!(db.meaning_for("shigeru-ishiba"), Some("Former Candidate"));
    assert_eq!(db.meaning_for("japan-leader"), Some("Takaichi"));
    assert_eq!(db.meaning_for("unknown"), None);
    assert_eq!(db.meaning_for(""), None);
    assert_eq!(db.meaning_for("prime-ministe"), None);
    assert_eq!(db.meaning_for("prime-minister "), None);
    assert_eq!(db.meaning_for("Prime-minister"), None);
}

#[test]
fn later_pair_for_a_tag_wins() {
    let db = MeaningDb::new(pairs(&[("a", "first"), ("b", "x"), ("a", "second")]));
    assert_eq!(db.meaning_for("a"), Some("second"));
    assert_eq!(db.meaning_for("b"), Some("x"));
}

#[test]
fn empty_database_has_no_meanings() {
    let db = MeaningDb::new(Vec::new());
    assert_eq!(db.meaning_for("a"), None);
}

#[test]
fn insert_replaces_and_adds() {
    let mut db = MeaningDb::new(pairs(&[("a", "1")]));
    db.insert("a".to_string(), "2".to_string());
    db.insert("b".to_string(), "3".to_string());
    assert_eq!(db.meaning_for("a"), Some("2"));
    assert_eq!(db.meaning_for("b"), Some("3"));
}

#[test]
fn merge_prefers_the_merged_pairs() {
    let mut db = MeaningDb::new(pairs(&[("a", "file"), ("b", "file")]));
    db.merge(&pairs(&[("b", "env"), ("c", "env")]));
    assert_eq!(db.meaning_for("a"), Some("file"));
    assert_eq!(db.meaning_for("b"), Some("env"));
    assert_eq!(db.meaning_for("c"), Some("env"));
}

#[test]
fn clone_keeps_the_meanings() {
    let db = MeaningDb::new(pairs(&[("a", "1"), ("b", "2")]));
    let copy = db.clone();
    assert_eq!(copy.meaning_for("a"), Some("1"));
    assert_eq!(copy.meaning_for("b"), Some("2"));
}

#[test]
fn live_fire_hallucination_is_refused() {
    let verifier = Verifier::new(MeaningDb::new(pairs(&[("prime-minister", "Sanae Takaichi")])));
    assert!(!verifier.verify_or_disconnect("prime-minister", "The prime minister is Shigeru Ishiba."));
    assert!(verifier.verify_or_disconnect("prime-minister", "The prime minister is Sanae Takaichi."));
}

#[test]
fn payload_equal_to_the_meaning_passes() {
    let verifier = Verifier::new(MeaningDb::new(pairs(&[("t", "exact text")])));
    assert!(verifier.verify_or_disconnect("t", "exact text"));
    assert!(!verifier.verify_or_disconnect("t", "exact tex"));
    assert!(!verifier.verify_or_disconnect("t", ""));
}

#[test]
fn unknown_tag_always_passes() {
    let verifier = Verifier::new(MeaningDb::new(pairs(&[("t", "m")])));
    assert!(verifier.verify_or_disconnect("other", ""));
    assert!(verifier.verify_or_disconnect("other", "anything"));
}

#[test]
fn empty_meaning_is_in_every_payload() {
    let verifier = Verifier::new(MeaningDb::new(pairs(&[("t", "")])));
    assert!(verifier.verify_or_disconnect("t", ""));
    assert!(verifier.verify_or_disconnect("t", "x"));
}

#[test]
fn meaning_is_found_among_multibyte_text() {
    let verifier = Verifier::new(MeaningDb::new(pairs(&[("首相", "高市早苗")])));
    assert!(verifier.verify_or_disconnect("首相", "現在の首相は高市早苗です"));
    assert!(!verifier.verify_or_disconnect("首相", "現在の首相は石破茂です"));
}
