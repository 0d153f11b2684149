//! The text formats of the fast path: meanings given in the environment
//! (`tag=meaning;tag=meaning`), the meaning database file (one `tag=meaning`
//! per line, `#` starting a comment line), and the lightweight log, whose
//! lines read `tag<TAB>meaning<TAB>digest`.

use crate::lightweight::{pair_view, pairs_view};
use crate::text::{
    is_white_space, lemma_lines_append, lemma_lines_single, lemma_split_once_at, lemma_trim_keeps,
    lemma_trimmed_ends, lemma_split_on_item, lemma_split_on_no_sep, lemma_trim_empty_iff_blank,
    lemma_trim_start_skips, lemma_trim_strips, trim_end, trim_start, strip_cr, chars_of, first_at, line_ranges, lines, push_char, ranges_view, ranges_within, split_on,
    split_once, split_once_range, split_ranges, string_of, trim, trim_range,
};
use vstd::prelude::*;
use vstd::string::StringExecFns;

verus! {

/// A pair of strings as texts, where there is one.
pub open spec fn opt_pair_view(o: Option<(String, String)>) -> Option<(Seq<char>, Seq<char>)> {
    match o {
        Some(p) => Some(pair_view(p)),
        None => None,
    }
}

/// The (tag, meaning) pair that `item` names: the trimmed texts before and
/// after its first `=`, where there is one and neither is empty.
pub open spec fn meaning_pair(item: Seq<char>) -> Option<(Seq<char>, Seq<char>)> {
    match split_once(item, '=') {
        Some((t, m)) => if trim(t).len() > 0 && trim(m).len() > 0 {
            Some((trim(t), trim(m)))
        } else {
            None
        },
        None => None,
    }
}

/// The pair that `v[lo..hi]` names.
fn meaning_pair_in(v: &Vec<char>, lo: usize, hi: usize) -> (r: Option<(String, String)>)
    requires
        lo <= hi <= v.len(),
    ensures
        opt_pair_view(r) == meaning_pair(v@.subrange(lo as int, hi as int)),
{
    match split_once_range(v, lo, hi, '=') {
        Some((t, m)) => {
            let (ta, tb) = trim_range(v, t.0, t.1);
            let (ma, mb) = trim_range(v, m.0, m.1);
            if ta < tb && ma < mb {
                Some((string_of(v, ta, tb), string_of(v, ma, mb)))
            } else {
                None
            }
        },
        None => None,
    }
}

/// The meanings given in the environment: the pairs that the `;`-separated
/// items of `raw` name, in order.
pub open spec fn env_meaning_pairs(raw: Seq<char>) -> Seq<(Seq<char>, Seq<char>)> {
    split_on(raw, ';').filter_map(|item: Seq<char>| meaning_pair(item))
}

/// Reads meanings written as `tag=meaning;tag=meaning`: items without `=`,
/// or with an empty tag or meaning once trimmed, are left out.
pub fn parse_meaning_env_pairs(raw: &str) -> (pairs: Vec<(String, String)>)
    ensures
        pairs_view(pairs@) == env_meaning_pairs(raw@),
{
    let v = chars_of(raw);
    let items = split_ranges(&v, 0, v.len(), ';');
    assert(v@.subrange(0, v.len() as int) =~= v@);
    let ghost segs = split_on(v@, ';');
    let ghost f = |item: Seq<char>| meaning_pair(item);
    let n = items.len();
    let mut out: Vec<(String, String)> = Vec::new();
    let mut k: usize = 0;
    assert(segs.take(0).filter_map(f) =~= Seq::<(Seq<char>, Seq<char>)>::empty());
    while k < n
        invariant
            n == items.len(),
            k <= n,
            ranges_within(items@, 0, v.len() as int),
            ranges_view(v@, items@) == segs,
            segs == split_on(v@, ';'),
            f == (|item: Seq<char>| meaning_pair(item)),
            pairs_view(out@) == segs.take(k as int).filter_map(f),
        decreases n - k,
    {
        let (a, b) = items[k];
        assert(segs[k as int] == v@.subrange(a as int, b as int));
        proof {
            segs.lemma_filter_map_take_succ(f, k as int);
        }
        let ghost before = out@;
        match meaning_pair_in(&v, a, b) {
            Some(p) => {
                out.push(p);
                assert(pairs_view(out@) =~= pairs_view(before).push(pair_view(p)));
            },
            None => {},
        }
        k = k + 1;
    }
    assert(segs.take(n as int) =~= segs);
    out
}

/// The entry that a line of the meaning database holds: none for a blank
/// line or a comment line (`#` first after trimming), else the pair it names.
pub open spec fn meaning_db_entry(line: Seq<char>) -> Option<(Seq<char>, Seq<char>)> {
    let t = trim(line);
    if t.len() == 0 || t[0] == '#' {
        None
    } else {
        meaning_pair(t)
    }
}

/// The entries of a meaning database file, in order.
pub open spec fn meaning_db_pairs(text: Seq<char>) -> Seq<(Seq<char>, Seq<char>)> {
    lines(text).filter_map(|line: Seq<char>| meaning_db_entry(line))
}

/// Reads a meaning database file: one `tag=meaning` per line; blank lines,
/// comment lines and lines that name no pair are left out.
pub fn parse_meaning_db(text: &str) -> (pairs: Vec<(String, String)>)
    ensures
        pairs_view(pairs@) == meaning_db_pairs(text@),
{
    let v = chars_of(text);
    let ls = line_ranges(&v);
    let ghost segs = lines(v@);
    let ghost f = |line: Seq<char>| meaning_db_entry(line);
    let n = ls.len();
    let mut out: Vec<(String, String)> = Vec::new();
    let mut k: usize = 0;
    assert(segs.take(0).filter_map(f) =~= Seq::<(Seq<char>, Seq<char>)>::empty());
    while k < n
        invariant
            n == ls.len(),
            k <= n,
            ranges_within(ls@, 0, v.len() as int),
            ranges_view(v@, ls@) == segs,
            segs == lines(v@),
            f == (|line: Seq<char>| meaning_db_entry(line)),
            pairs_view(out@) == segs.take(k as int).filter_map(f),
        decreases n - k,
    {
        let (a, b) = ls[k];
        assert(segs[k as int] == v@.subrange(a as int, b as int));
        proof {
            segs.lemma_filter_map_take_succ(f, k as int);
        }
        let ghost before = out@;
        let (c, d) = trim_range(&v, a, b);
        assert(v@.subrange(c as int, d as int) == trim(segs[k as int]));
        if c < d && v[c] != '#' {
            match meaning_pair_in(&v, c, d) {
                Some(p) => {
                    out.push(p);
                    assert(pairs_view(out@) =~= pairs_view(before).push(pair_view(p)));
                },
                None => {},
            }
        }
        k = k + 1;
    }
    assert(segs.take(n as int) =~= segs);
    out
}

/// The line that records `tag` with `value` in the meaning database.
pub open spec fn meaning_line_text(tag: Seq<char>, value: Seq<char>) -> Seq<char> {
    tag + seq!['='] + value + seq!['\n']
}

/// The line `tag=value` and its line feed, as appended to the meaning database.
pub fn meaning_line(tag: &str, value: &str) -> (line: String)
    ensures
        line@ == meaning_line_text(tag@, value@),
{
    let mut line = String::new();
    line.append(tag);
    push_char(&mut line, '=');
    line.append(value);
    push_char(&mut line, '\n');
    assert(line@ =~= meaning_line_text(tag@, value@));
    line
}

/// Whether the fast path is on, given the setting that turns it off: on
/// where there is no setting, and where the setting, trimmed, is not `0`.
pub fn fast_path_enabled(setting: Option<&str>) -> (on: bool)
    ensures
        on == match setting {
            Some(s) => trim(s@) != seq!['0'],
            None => true,
        },
{
    match setting {
        Some(s) => {
            let v = chars_of(s);
            let (a, b) = trim_range(&v, 0, v.len());
            assert(v@.subrange(0, v.len() as int) =~= v@);
            if b - a == 1 && v[a] == '0' {
                assert(v@.subrange(a as int, b as int) =~= seq!['0']);
                false
            } else {
                assert(v@.subrange(a as int, b as int).len() != 1 || v@.subrange(a as int, b as int)[0] != '0');
                true
            }
        },
        None => true,
    }
}

/// One record of the lightweight log: a tag and its meaning.
#[derive(Debug, Clone)]
pub struct LightweightWalRecord {
    pub tag: String,
    pub meaning: String,
}

impl View for LightweightWalRecord {
    type V = (Seq<char>, Seq<char>);

    open spec fn view(&self) -> (Seq<char>, Seq<char>) {
        (self.tag@, self.meaning@)
    }
}

/// Records as (tag, meaning) texts.
pub open spec fn records_view(r: Seq<LightweightWalRecord>) -> Seq<(Seq<char>, Seq<char>)> {
    r.map_values(|x: LightweightWalRecord| x@)
}

/// The record that a log line holds: its first two tab-separated fields,
/// trimmed, where a third field follows and neither of the two is empty.
pub open spec fn wal_record(line: Seq<char>) -> Option<(Seq<char>, Seq<char>)> {
    match split_once(line, '\t') {
        Some((a, rest)) => match split_once(rest, '\t') {
            Some((b, _)) => if trim(a).len() > 0 && trim(b).len() > 0 {
                Some((trim(a), trim(b)))
            } else {
                None
            },
            None => None,
        },
        None => None,
    }
}

/// The records of a lightweight log, in order.
pub open spec fn wal_records(text: Seq<char>) -> Seq<(Seq<char>, Seq<char>)> {
    lines(text).filter_map(|line: Seq<char>| wal_record(line))
}

/// The record that `v[lo..hi]` holds.
fn wal_record_in(v: &Vec<char>, lo: usize, hi: usize) -> (r: Option<LightweightWalRecord>)
    requires
        lo <= hi <= v.len(),
    ensures
        match r {
            Some(x) => wal_record(v@.subrange(lo as int, hi as int)) == Some(x@),
            None => wal_record(v@.subrange(lo as int, hi as int)) is None,
        },
{
    match split_once_range(v, lo, hi, '\t') {
        Some((a, rest)) => match split_once_range(v, rest.0, rest.1, '\t') {
            Some((b, _)) => {
                let (ta, tb) = trim_range(v, a.0, a.1);
                let (ma, mb) = trim_range(v, b.0, b.1);
                if ta < tb && ma < mb {
                    Some(
                        LightweightWalRecord {
                            tag: string_of(v, ta, tb),
                            meaning: string_of(v, ma, mb),
                        },
                    )
                } else {
                    None
                }
            },
            None => None,
        },
        None => None,
    }
}

/// Reads the lightweight log: one record per line that holds a tag, a tab,
/// a meaning, a tab and a digest; other lines are left out.
pub fn parse_lightweight_records(text: &str) -> (records: Vec<LightweightWalRecord>)
    ensures
        records_view(records@) == wal_records(text@),
{
    let v = chars_of(text);
    let ls = line_ranges(&v);
    let ghost segs = lines(v@);
    let ghost f = |line: Seq<char>| wal_record(line);
    let n = ls.len();
    let mut out: Vec<LightweightWalRecord> = Vec::new();
    let mut k: usize = 0;
    assert(segs.take(0).filter_map(f) =~= Seq::<(Seq<char>, Seq<char>)>::empty());
    while k < n
        invariant
            n == ls.len(),
            k <= n,
            ranges_within(ls@, 0, v.len() as int),
            ranges_view(v@, ls@) == segs,
            segs == lines(v@),
            f == (|line: Seq<char>| wal_record(line)),
            records_view(out@) == segs.take(k as int).filter_map(f),
        decreases n - k,
    {
        let (a, b) = ls[k];
        assert(segs[k as int] == v@.subrange(a as int, b as int));
        proof {
            segs.lemma_filter_map_take_succ(f, k as int);
        }
        let ghost before = out@;
        match wal_record_in(&v, a, b) {
            Some(r) => {
                out.push(r);
                assert(records_view(out@) =~= records_view(before).push(r@));
            },
            None => {},
        }
        k = k + 1;
    }
    assert(segs.take(n as int) =~= segs);
    out
}

/// `filter_map` of two lists joined is the two results joined.
pub proof fn lemma_filter_map_append<A, B>(a: Seq<A>, b: Seq<A>, f: spec_fn(A) -> Option<B>)
    ensures
        (a + b).filter_map(f) == a.filter_map(f) + b.filter_map(f),
    decreases b.len(),
{
    if b.len() == 0 {
        assert(a + b =~= a);
        assert(b.filter_map(f) =~= Seq::<B>::empty());
        assert(a.filter_map(f) + b.filter_map(f) =~= a.filter_map(f));
    } else {
        lemma_filter_map_append(a, b.drop_last(), f);
        assert((a + b).drop_last() =~= a + b.drop_last());
        assert((a + b).last() == b.last());
        match f(b.last()) {
            Some(x) => {
                assert((a.filter_map(f) + b.drop_last().filter_map(f)) + seq![x] =~= a.filter_map(f)
                    + (b.drop_last().filter_map(f) + seq![x]));
            },
            None => {},
        }
    }
}

/// A fact written to the meaning database is read back: where the database
/// text ends its last line (or is empty), appending the line for a tag and a
/// value (both trimmed and not empty, the tag without `=` and not starting a
/// comment, neither holding a line feed) adds exactly that pair to what the
/// database holds, after all it held before.
pub proof fn lemma_meaning_line_read_back(text: Seq<char>, tag: Seq<char>, value: Seq<char>)
    requires
        text.len() == 0 || text.last() == '\n',
        tag.len() > 0,
        value.len() > 0,
        trim(tag) == tag,
        trim(value) == value,
        tag[0] != '#',
        forall|i: int| 0 <= i < tag.len() ==> tag[i] != '=' && tag[i] != '\n',
        forall|i: int| 0 <= i < value.len() ==> value[i] != '\n',
    ensures
        meaning_db_pairs(text + meaning_line_text(tag, value)) == meaning_db_pairs(text).push(
            (tag, value),
        ),
{
    let x = tag + seq!['='] + value;
    let line = meaning_line_text(tag, value);
    assert(line =~= x + seq!['\n']);
    lemma_trimmed_ends(tag);
    lemma_trimmed_ends(value);
    assert forall|i: int| 0 <= i < x.len() implies x[i] != '\n' by {
        if i < tag.len() {
        } else if i > tag.len() {
            assert(x[i] == value[i - tag.len() - 1]);
        }
    }
    lemma_lines_append(text, line);
    lemma_lines_single(x);
    assert(x.last() == value.last());
    assert(is_white_space('\r'));
    assert(strip_cr(x) == x);
    assert(x[0] == tag[0]);
    lemma_trim_keeps(x);
    assert(first_at(x, '=', tag.len() as int));
    lemma_split_once_at(x, '=', tag.len() as int);
    assert(x.take(tag.len() as int) =~= tag);
    assert(x.skip(tag.len() as int + 1) =~= value);
    assert(meaning_db_entry(x) == Some((tag, value)));
    let f = |l: Seq<char>| meaning_db_entry(l);
    lemma_filter_map_append(lines(text), lines(line), f);
    let one = seq![x];
    assert(lines(line) == one);
    assert(one.drop_last() =~= Seq::<Seq<char>>::empty());
    assert(one.last() == x);
    assert(f(x) == Some((tag, value)));
    assert(one.drop_last().filter_map(f) =~= Seq::<(Seq<char>, Seq<char>)>::empty());
    assert(one.filter_map(f) =~= seq![(tag, value)]);
}

/// A log line written as a tag, a tab, a meaning, a tab and a digest (the
/// tag and the meaning trimmed, not empty and without tabs) reads back as the
/// record of that tag and meaning.
pub proof fn lemma_wal_line_read_back(tag: Seq<char>, meaning: Seq<char>, digest: Seq<char>)
    requires
        tag.len() > 0,
        meaning.len() > 0,
        trim(tag) == tag,
        trim(meaning) == meaning,
        forall|i: int| 0 <= i < tag.len() ==> tag[i] != '\t',
        forall|i: int| 0 <= i < meaning.len() ==> meaning[i] != '\t',
    ensures
        wal_record(tag + seq!['\t'] + meaning + seq!['\t'] + digest) == Some((tag, meaning)),
{
    let line = tag + seq!['\t'] + meaning + seq!['\t'] + digest;
    let rest = meaning + seq!['\t'] + digest;
    assert(first_at(line, '\t', tag.len() as int));
    lemma_split_once_at(line, '\t', tag.len() as int);
    assert(line.take(tag.len() as int) =~= tag);
    assert(line.skip(tag.len() as int + 1) =~= rest);
    assert(first_at(rest, '\t', meaning.len() as int));
    lemma_split_once_at(rest, '\t', meaning.len() as int);
    assert(rest.take(meaning.len() as int) =~= meaning);
}

/// Trimming the end leaves a beginning of the text.
proof fn lemma_trim_end_prefix(x: Seq<char>)
    ensures
        trim_end(x).len() <= x.len(),
        trim_end(x) == x.take(trim_end(x).len() as int),
    decreases x.len(),
{
    if x.len() > 0 && is_white_space(x.last()) {
        lemma_trim_end_prefix(x.drop_last());
        assert(x.drop_last().take(trim_end(x).len() as int) =~= x.take(trim_end(x).len() as int));
    } else {
        assert(x.take(x.len() as int) =~= x);
    }
}

/// A line that holds `#` after white space is a comment: its trim starts
/// with `#`.
proof fn lemma_comment_trim(pre: Seq<char>, rest: Seq<char>)
    requires
        forall|i: int| 0 <= i < pre.len() ==> is_white_space(pre[i]),
    ensures
        trim(pre + seq!['#'] + rest).len() > 0,
        trim(pre + seq!['#'] + rest)[0] == '#',
{
    let x = seq!['#'] + rest;
    assert(pre + seq!['#'] + rest =~= pre + x);
    lemma_trim_start_skips(pre, x);
    assert(!is_white_space('#'));
    assert(trim_start(x) == x);
    lemma_trim_end_prefix(x);
    if trim_end(x).len() == 0 {
        lemma_trim_empty_iff_blank(x);
        assert(!is_white_space(x[0]));
    }
}

/// Appending a line to a database text that ends its last line adds that
/// line's entry, if any, after what the text held.
proof fn lemma_meaning_db_append_line(text: Seq<char>, l: Seq<char>)
    requires
        text.len() == 0 || text.last() == '\n',
        forall|i: int| 0 <= i < l.len() ==> l[i] != '\n',
    ensures
        meaning_db_pairs(text + l + seq!['\n']) == meaning_db_pairs(text) + (match meaning_db_entry(
            strip_cr(l),
        ) {
            Some(p) => seq![p],
            None => Seq::empty(),
        }),
{
    let line = l + seq!['\n'];
    assert(text + l + seq!['\n'] =~= text + line);
    lemma_lines_append(text, line);
    lemma_lines_single(l);
    let f = |x: Seq<char>| meaning_db_entry(x);
    lemma_filter_map_append(lines(text), lines(line), f);
    let one = seq![strip_cr(l)];
    assert(one.drop_last() =~= Seq::<Seq<char>>::empty());
    assert(one.drop_last().filter_map(f) =~= Seq::<(Seq<char>, Seq<char>)>::empty());
    match meaning_db_entry(strip_cr(l)) {
        Some(p) => assert(one.filter_map(f) =~= seq![p]),
        None => assert(one.filter_map(f) =~= Seq::<(Seq<char>, Seq<char>)>::empty()),
    }
}

/// A comment line (white space, then `#`, then anything but a line feed)
/// appended to a database text that ends its last line adds no entry,
/// whatever it says after the `#`.
pub proof fn lemma_comment_line_ignored(text: Seq<char>, pre: Seq<char>, rest: Seq<char>)
    requires
        text.len() == 0 || text.last() == '\n',
        forall|i: int| 0 <= i < pre.len() ==> is_white_space(pre[i]) && pre[i] != '\n',
        forall|i: int| 0 <= i < rest.len() ==> rest[i] != '\n',
    ensures
        meaning_db_pairs(text + (pre + seq!['#'] + rest) + seq!['\n']) == meaning_db_pairs(text),
{
    let l = pre + seq!['#'] + rest;
    assert forall|i: int| 0 <= i < l.len() implies l[i] != '\n' by {
        if i < pre.len() {
        } else if i > pre.len() {
            assert(l[i] == rest[i - pre.len() - 1]);
        }
    }
    lemma_meaning_db_append_line(text, l);
    if l.last() == '\r' && rest.len() > 0 {
        assert(strip_cr(l) =~= pre + seq!['#'] + rest.drop_last());
        lemma_comment_trim(pre, rest.drop_last());
    } else {
        assert(strip_cr(l) == l);
        lemma_comment_trim(pre, rest);
    }
    assert(meaning_db_pairs(text) + Seq::<(Seq<char>, Seq<char>)>::empty() =~= meaning_db_pairs(text));
}

/// A blank line appended to a database text that ends its last line adds
/// no entry.
pub proof fn lemma_blank_line_ignored(text: Seq<char>, l: Seq<char>)
    requires
        text.len() == 0 || text.last() == '\n',
        forall|i: int| 0 <= i < l.len() ==> is_white_space(l[i]) && l[i] != '\n',
    ensures
        meaning_db_pairs(text + l + seq!['\n']) == meaning_db_pairs(text),
{
    lemma_meaning_db_append_line(text, l);
    let x = strip_cr(l);
    assert forall|i: int| 0 <= i < x.len() implies is_white_space(x[i]) by {
        assert(x[i] == l[i]);
    }
    lemma_trim_empty_iff_blank(x);
    assert(meaning_db_pairs(text) + Seq::<(Seq<char>, Seq<char>)>::empty() =~= meaning_db_pairs(text));
}

/// Every `;`-separated item of the setting is read, in order: the pairs of
/// an item followed by `;` and more items are those of the item and then
/// those of the rest.
pub proof fn lemma_env_pairs_item(a: Seq<char>, b: Seq<char>)
    requires
        forall|i: int| 0 <= i < a.len() ==> a[i] != ';',
    ensures
        env_meaning_pairs(a + seq![';'] + b) == env_meaning_pairs(a) + env_meaning_pairs(b),
{
    lemma_split_on_item(a, b, ';');
    lemma_split_on_no_sep(a, ';');
    lemma_filter_map_append(seq![a], split_on(b, ';'), |item: Seq<char>| meaning_pair(item));
}

/// One item `tag=meaning` (both trimmed and not empty, the tag without `=`,
/// neither with `;`) is read as that pair.
pub proof fn lemma_env_pairs_single(tag: Seq<char>, meaning: Seq<char>)
    requires
        tag.len() > 0,
        meaning.len() > 0,
        trim(tag) == tag,
        trim(meaning) == meaning,
        forall|i: int| 0 <= i < tag.len() ==> tag[i] != '=' && tag[i] != ';',
        forall|i: int| 0 <= i < meaning.len() ==> meaning[i] != ';',
    ensures
        env_meaning_pairs(tag + seq!['='] + meaning) == seq![(tag, meaning)],
{
    let x = tag + seq!['='] + meaning;
    assert forall|i: int| 0 <= i < x.len() implies x[i] != ';' by {
        if i > tag.len() {
            assert(x[i] == meaning[i - tag.len() - 1]);
        }
    }
    lemma_split_on_no_sep(x, ';');
    assert(first_at(x, '=', tag.len() as int));
    lemma_split_once_at(x, '=', tag.len() as int);
    assert(x.take(tag.len() as int) =~= tag);
    assert(x.skip(tag.len() as int + 1) =~= meaning);
    let f = |item: Seq<char>| meaning_pair(item);
    let one = seq![x];
    assert(one.drop_last() =~= Seq::<Seq<char>>::empty());
    assert(one.drop_last().filter_map(f) =~= Seq::<(Seq<char>, Seq<char>)>::empty());
    assert(one.filter_map(f) =~= seq![(tag, meaning)]);
}

/// An item without `=`, or whose tag or meaning is only white space, gives
/// no pair.
pub proof fn lemma_env_item_without_pair(item: Seq<char>, tag: Seq<char>, meaning: Seq<char>)
    requires
        forall|i: int| 0 <= i < item.len() ==> item[i] != ';',
        forall|i: int| 0 <= i < tag.len() ==> tag[i] != ';' && tag[i] != '=',
        forall|i: int| 0 <= i < meaning.len() ==> meaning[i] != ';',
    ensures
        (forall|i: int| 0 <= i < item.len() ==> item[i] != '=') ==> env_meaning_pairs(item)
            == Seq::<(Seq<char>, Seq<char>)>::empty(),
        ((forall|i: int| 0 <= i < tag.len() ==> is_white_space(tag[i])) || (forall|i: int|
            0 <= i < meaning.len() ==> is_white_space(meaning[i]))) ==> env_meaning_pairs(
            tag + seq!['='] + meaning,
        ) == Seq::<(Seq<char>, Seq<char>)>::empty(),
{
    let f = |x: Seq<char>| meaning_pair(x);
    lemma_split_on_no_sep(item, ';');
    let one = seq![item];
    assert(one.drop_last() =~= Seq::<Seq<char>>::empty());
    assert(one.drop_last().filter_map(f) =~= Seq::<(Seq<char>, Seq<char>)>::empty());
    if forall|i: int| 0 <= i < item.len() ==> item[i] != '=' {
        assert forall|k: int| !first_at(item, '=', k) by {}
        assert(one.filter_map(f) =~= Seq::<(Seq<char>, Seq<char>)>::empty());
    }
    let x = tag + seq!['='] + meaning;
    assert forall|i: int| 0 <= i < x.len() implies x[i] != ';' by {
        if i > tag.len() {
            assert(x[i] == meaning[i - tag.len() - 1]);
        }
    }
    lemma_split_on_no_sep(x, ';');
    assert(first_at(x, '=', tag.len() as int));
    lemma_split_once_at(x, '=', tag.len() as int);
    assert(x.take(tag.len() as int) =~= tag);
    assert(x.skip(tag.len() as int + 1) =~= meaning);
    lemma_trim_empty_iff_blank(tag);
    lemma_trim_empty_iff_blank(meaning);
    let two = seq![x];
    assert(two.drop_last() =~= Seq::<Seq<char>>::empty());
    assert(two.drop_last().filter_map(f) =~= Seq::<(Seq<char>, Seq<char>)>::empty());
    if (forall|i: int| 0 <= i < tag.len() ==> is_white_space(tag[i])) || (forall|i: int|
        0 <= i < meaning.len() ==> is_white_space(meaning[i])) {
        assert(two.filter_map(f) =~= Seq::<(Seq<char>, Seq<char>)>::empty());
    }
}

/// A log line with fewer than two tabs holds no record.
pub proof fn lemma_wal_line_needs_two_tabs(a: Seq<char>, b: Seq<char>)
    requires
        forall|i: int| 0 <= i < a.len() ==> a[i] != '\t',
        forall|i: int| 0 <= i < b.len() ==> b[i] != '\t',
    ensures
        wal_record(a) is None,
        wal_record(a + seq!['\t'] + b) is None,
{
    assert forall|k: int| !first_at(a, '\t', k) by {}
    let l = a + seq!['\t'] + b;
    assert(first_at(l, '\t', a.len() as int));
    lemma_split_once_at(l, '\t', a.len() as int);
    assert(l.skip(a.len() as int + 1) =~= b);
    assert forall|k: int| !first_at(b, '\t', k) by {}
}

/// A log line appended to a log text that ends its last line adds its record
/// after those the text held.
pub proof fn lemma_wal_append_read_back(
    text: Seq<char>,
    tag: Seq<char>,
    meaning: Seq<char>,
    digest: Seq<char>,
)
    requires
        text.len() == 0 || text.last() == '\n',
        tag.len() > 0,
        meaning.len() > 0,
        trim(tag) == tag,
        trim(meaning) == meaning,
        forall|i: int| 0 <= i < tag.len() ==> tag[i] != '\t' && tag[i] != '\n',
        forall|i: int| 0 <= i < meaning.len() ==> meaning[i] != '\t' && meaning[i] != '\n',
        forall|i: int| 0 <= i < digest.len() ==> digest[i] != '\n',
    ensures
        wal_records(text + (tag + seq!['\t'] + meaning + seq!['\t'] + digest) + seq!['\n'])
            == wal_records(text).push((tag, meaning)),
{
    let l = tag + seq!['\t'] + meaning + seq!['\t'] + digest;
    assert forall|i: int| 0 <= i < l.len() implies l[i] != '\n' by {
        if i < tag.len() {
        } else if i == tag.len() {
        } else if i < tag.len() + 1 + meaning.len() {
            assert(l[i] == meaning[i - tag.len() - 1]);
        } else if i == tag.len() + 1 + meaning.len() {
        } else {
            assert(l[i] == digest[i - tag.len() - 2 - meaning.len()]);
        }
    }
    let line = l + seq!['\n'];
    assert(text + l + seq!['\n'] =~= text + line);
    lemma_lines_append(text, line);
    lemma_lines_single(l);
    if l.last() == '\r' && digest.len() > 0 {
        assert(strip_cr(l) =~= tag + seq!['\t'] + meaning + seq!['\t'] + digest.drop_last());
        lemma_wal_line_read_back(tag, meaning, digest.drop_last());
    } else {
        assert(strip_cr(l) == l);
        lemma_wal_line_read_back(tag, meaning, digest);
    }
    let f = |x: Seq<char>| wal_record(x);
    lemma_filter_map_append(lines(text), lines(line), f);
    let one = seq![strip_cr(l)];
    assert(one.drop_last() =~= Seq::<Seq<char>>::empty());
    assert(one.drop_last().filter_map(f) =~= Seq::<(Seq<char>, Seq<char>)>::empty());
    assert(one.filter_map(f) =~= seq![(tag, meaning)]);
}

/// An item's tag and meaning are read without the white space around them:
/// `  tag  =  meaning  ` gives (`tag`, `meaning`).
pub proof fn lemma_env_pairs_padded(
    tp: Seq<char>,
    tag: Seq<char>,
    ts: Seq<char>,
    mp: Seq<char>,
    meaning: Seq<char>,
    ms: Seq<char>,
)
    requires
        tag.len() > 0,
        meaning.len() > 0,
        !is_white_space(tag[0]),
        !is_white_space(tag.last()),
        !is_white_space(meaning[0]),
        !is_white_space(meaning.last()),
        forall|i: int| 0 <= i < tp.len() ==> is_white_space(tp[i]),
        forall|i: int| 0 <= i < ts.len() ==> is_white_space(ts[i]),
        forall|i: int| 0 <= i < mp.len() ==> is_white_space(mp[i]),
        forall|i: int| 0 <= i < ms.len() ==> is_white_space(ms[i]),
        forall|i: int| 0 <= i < tag.len() ==> tag[i] != '=' && tag[i] != ';',
        forall|i: int| 0 <= i < meaning.len() ==> meaning[i] != ';',
    ensures
        env_meaning_pairs(tp + tag + ts + seq!['='] + mp + meaning + ms) == seq![(tag, meaning)],
{
    assert(!is_white_space('=') && !is_white_space(';'));
    let t = tp + tag + ts;
    let m = mp + meaning + ms;
    let x = t + seq!['='] + m;
    assert(tp + tag + ts + seq!['='] + mp + meaning + ms =~= x);
    assert forall|i: int| 0 <= i < t.len() implies t[i] != '=' && t[i] != ';' by {
        if i < tp.len() {
            assert(t[i] == tp[i]);
        } else if i < tp.len() + tag.len() {
            assert(t[i] == tag[i - tp.len()]);
        } else {
            assert(t[i] == ts[i - tp.len() - tag.len()]);
        }
    }
    assert forall|i: int| 0 <= i < x.len() implies x[i] != ';' by {
        if i < t.len() {
        } else if i > t.len() {
            let j = i - t.len() - 1;
            assert(x[i] == m[j]);
            if j < mp.len() {
                assert(m[j] == mp[j]);
            } else if j < mp.len() + meaning.len() {
                assert(m[j] == meaning[j - mp.len()]);
            } else {
                assert(m[j] == ms[j - mp.len() - meaning.len()]);
            }
        }
    }
    lemma_split_on_no_sep(x, ';');
    assert(first_at(x, '=', t.len() as int));
    lemma_split_once_at(x, '=', t.len() as int);
    assert(x.take(t.len() as int) =~= t);
    assert(x.skip(t.len() as int + 1) =~= m);
    lemma_trim_strips(tp, tag, ts);
    lemma_trim_strips(mp, meaning, ms);
    let f = |item: Seq<char>| meaning_pair(item);
    let one = seq![x];
    assert(one.drop_last() =~= Seq::<Seq<char>>::empty());
    assert(one.drop_last().filter_map(f) =~= Seq::<(Seq<char>, Seq<char>)>::empty());
    assert(one.filter_map(f) =~= seq![(tag, meaning)]);
}

} // verus!
