use tuff_brg::formats::{parse_lightweight_records, LightweightWalRecord};
use tuff_brg::history::{lightweight_history_entries, lightweight_op_id, lightweight_topic_id};
use tuff_brg::pending::{propose_fact, take_pending, PendingFact};

#[test]
fn op_ids_are_zero_padded() {
    assert_eq!(lightweight_op_id(0), "lw_00000000");
    assert_eq!(lightweight_op_id(7), "lw_00000007");
    assert_eq!(lightweight_op_id(123), "lw_00000123");
    assert_eq!(lightweight_op_id(99_999_999), "lw_99999999");
    assert_eq!(lightweight_op_id(123_456_789), "lw_123456789");
    for n in [0usize, 1, 9, 10, 11, 99, 100, 4096, 12_345_678, usize::MAX] {
        assert_eq!(lightweight_op_id(n), format!("lw_{n:08}"));
    }
}

#[test]
fn distinct_positions_give_distinct_op_ids() {
    let ids: Vec<String> = (0..200).map(lightweight_op_id).collect();
    for i in 0..ids.len() {
        for j in (i + 1)..ids.len() {
            assert_ne!(ids[i], ids[j]);
        }
    }
}

#[test]
fn topic_ids_name_the_tag() {
    assert_eq!(lightweight_topic_id("prime-minister"), "lw:prime-minister");
    assert_eq!(lightweight_topic_id(""), "lw:");
}

#[test]
fn history_entries_follow_the_records() {
    let records = parse_lightweight_records("a\tone\th1\nb\ttwo\th2\n");
    let entries = lightweight_history_entries(&records);
    assert_eq!(entries.len(), 2);
    assert_eq!(entries[0].topic_id, "lw:a");
    assert_eq!(entries[0].op_id, "lw_00000000");
    assert_eq!(entries[0].value, "one");
    assert_eq!(entries[1].topic_id, "lw:b");
    assert_eq!(entries[1].op_id, "lw_00000001");
    assert_eq!(entries[1].value, "two");
    let none: Vec<LightweightWalRecord> = Vec::new();
    assert!(lightweight_history_entries(&none).is_empty());
}

#[test]
fn proposals_are_trimmed() {
    let p = propose_fact("  prime-minister ", "\tSanae Takaichi\n", "id1".to_string(), "2024".to_string())
        .expect("a proposal with tag and value");
    assert_eq!(p.tag, "prime-minister");
    assert_eq!(p.value, "Sanae Takaichi");
    assert_eq!(p.id, "id1");
    assert_eq!(p.created_at, "2024");
}

#[test]
fn blank_proposals_are_dropped() {
    assert!(propose_fact("", "v", "i".to_string(), "t".to_string()).is_none());
    assert!(propose_fact("t", "   ", "i".to_string(), "t".to_string()).is_none());
    assert!(propose_fact(" \n", "\u{3000}", "i".to_string(), "t".to_string()).is_none());
}

fn fact(id: &str, tag: &str) -> PendingFact {
    PendingFact { id: id.to_string(), tag: tag.to_string(), value: "v".to_string(), created_at: "t".to_string() }
}

#[test]
fn approving_takes_the_first_fact_with_the_id() {
    let mut items = vec![fact("1", "a"), fact("2", "b"), fact("2", "c"), fact("3", "d")];
    let got = take_pending(&mut items, "2").expect("id 2 is pending");
    assert_eq!(got.tag, "b");
    let left: Vec<&str> = items.iter().map(|f| f.tag.as_str()).collect();
    assert_eq!(left, vec!["a", "c", "d"]);
}

#[test]
fn approving_an_unknown_id_changes_nothing() {
    let mut items = vec![fact("1", "a"), fact("2", "b")];
    assert!(take_pending(&mut items, "9").is_none());
    assert_eq!(items.len(), 2);
    assert_eq!(items[0].tag, "a");
    assert_eq!(items[1].tag, "b");
    let mut empty: Vec<PendingFact> = Vec::new();
    assert!(take_pending(&mut empty, "1").is_none());
}

#[test]
fn proposed_fact_is_approved() {
    let mut items = vec![fact("1", "a")];
    items.push(propose_fact("tag", "value", "new".to_string(), "now".to_string()).unwrap());
    let got = take_pending(&mut items, "new").unwrap();
    assert_eq!(got.tag, "tag");
    assert_eq!(got.value, "value");
    assert_eq!(items.len(), 1);
    assert_eq!(items[0].id, "1");
}
