use tuff_brg::formats::{
    fast_path_enabled, meaning_line, parse_lightweight_records, parse_meaning_db,
    parse_meaning_env_pairs,
};

fn owned(items: &[(&str, &str)]) -> Vec<(String, String)> {
    items.iter().map(|(t, m)| (t.to_string(), m.to_string())).collect()
}

#[test]
fn env_pairs_are_read_in_order() {
    let got = parse_meaning_env_pairs("prime-minister=Sanae Takaichi;japan-leader=Takaichi");
    assert_eq!(got, owned(&[("prime-minister", "Sanae Takaichi"), ("japan-leader", "Takaichi")]));
}

#[test]
fn env_pairs_are_trimmed_and_bad_items_left_out() {
    let got = parse_meaning_env_pairs(" a = b ;no-equals;=x;y=;  ;e=f=g;;h=\ti\t");
    assert_eq!(got, owned(&[("a", "b"), ("e", "f=g"), ("h", "i")]));
}

#[test]
fn empty_env_gives_no_pairs() {
    assert!(parse_meaning_env_pairs("").is_empty());
    assert!(parse_meaning_env_pairs(";;;").is_empty());
}

#[test]
fn meaning_db_readme_example() {
    let text = "prime-minister=Sanae Takaichi\nshigeru-ishiba=Former Candidate\njapan-leader=Takaichi\n";
    assert_eq!(
        parse_meaning_db(text),
        owned(&[
            ("prime-minister", "Sanae Takaichi"),
            ("shigeru-ishiba", "Former Candidate"),
            ("japan-leader", "Takaichi"),
        ])
    );
}

#[test]
fn meaning_db_skips_comments_and_blank_lines() {
    let text = "# anchor facts\n\n   \n  # indented comment\nk = v \r\nbad line\nx=#not a comment\nlast=no newline";
    assert_eq!(
        parse_meaning_db(text),
        owned(&[("k", "v"), ("x", "#not a comment"), ("last", "no newline")])
    );
}

#[test]
fn meaning_line_is_tag_equals_value() {
    assert_eq!(meaning_line("prime-minister", "Sanae Takaichi"), "prime-minister=Sanae Takaichi\n");
    assert_eq!(meaning_line("", ""), "=\n");
}

#[test]
fn appended_meaning_line_reads_back() {
    let mut text = String::from("a=1\n# c\n");
    text.push_str(&meaning_line("tag", "the value"));
    assert_eq!(parse_meaning_db(&text), owned(&[("a", "1"), ("tag", "the value")]));
    let fresh = meaning_line("only", "one");
    assert_eq!(parse_meaning_db(&fresh), owned(&[("only", "one")]));
}

#[test]
fn wal_records_need_three_fields() {
    let text = "tag1\tmeaning one\tsha1\nno tabs\ntag2\tonly two\n\tempty tag\tsha\ntag3\t  \tsha\n  tag4  \t  m4  \t\r\n";
    let recs = parse_lightweight_records(text);
    let got: Vec<(String, String)> = recs.into_iter().map(|r| (r.tag, r.meaning)).collect();
    assert_eq!(got, owned(&[("tag1", "meaning one"), ("tag4", "m4")]));
}

#[test]
fn wal_digest_may_hold_tabs() {
    let recs = parse_lightweight_records("t\tm\ta\tb\tc");
    assert_eq!(recs.len(), 1);
    assert_eq!(recs[0].tag, "t");
    assert_eq!(recs[0].meaning, "m");
}

#[test]
fn empty_wal_has_no_records() {
    assert!(parse_lightweight_records("").is_empty());
    assert!(parse_lightweight_records("\n\n").is_empty());
}

#[test]
fn fast_path_setting() {
    assert!(fast_path_enabled(None));
    assert!(!fast_path_enabled(Some("0")));
    assert!(!fast_path_enabled(Some(" 0\n")));
    assert!(fast_path_enabled(Some("1")));
    assert!(fast_path_enabled(Some("00")));
    assert!(fast_path_enabled(Some("")));
    assert!(fast_path_enabled(Some("off")));
}
