//! The entries that the records of the lightweight log add to the fact
//! history: each record becomes the topic `lw:<tag>`, with the operation id
//! `lw_` followed by its position, in at least eight decimal digits.

use crate::formats::LightweightWalRecord;
use crate::text::push_char;
use vstd::prelude::*;
use vstd::string::StringExecFns;

verus! {

/// The decimal digit for `d`.
pub open spec fn digit_char(d: nat) -> char {
    if d == 0 { '0' }
    else if d == 1 { '1' }
    else if d == 2 { '2' }
    else if d == 3 { '3' }
    else if d == 4 { '4' }
    else if d == 5 { '5' }
    else if d == 6 { '6' }
    else if d == 7 { '7' }
    else if d == 8 { '8' }
    else { '9' }
}

/// The decimal digits of `n`, without leading zeros.
pub open spec fn decimal(n: nat) -> Seq<char>
    decreases n,
{
    if n < 10 {
        seq![digit_char(n)]
    } else {
        decimal(n / 10).push(digit_char(n % 10))
    }
}

/// `digits` with zeros put before it up to `width` characters.
pub open spec fn zero_pad(digits: Seq<char>, width: nat) -> Seq<char> {
    if digits.len() >= width {
        digits
    } else {
        Seq::new((width - digits.len()) as nat, |i: int| '0') + digits
    }
}

/// The operation id of the record at position `n` (`lw_{n:08}`).
pub open spec fn op_id_text(n: nat) -> Seq<char> {
    "lw_"@ + zero_pad(decimal(n), 8)
}

/// The topic of the records with tag `tag`.
pub open spec fn topic_id_text(tag: Seq<char>) -> Seq<char> {
    "lw:"@ + tag
}

/// The decimal digit for `d`.
fn digit(d: usize) -> (c: char)
    requires
        d < 10,
    ensures
        c == digit_char(d as nat),
{
    if d == 0 { '0' }
    else if d == 1 { '1' }
    else if d == 2 { '2' }
    else if d == 3 { '3' }
    else if d == 4 { '4' }
    else if d == 5 { '5' }
    else if d == 6 { '6' }
    else if d == 7 { '7' }
    else if d == 8 { '8' }
    else { '9' }
}

/// The number of decimal digits of `n`.
fn decimal_len(n: usize) -> (k: usize)
    ensures
        k == decimal(n as nat).len(),
    decreases n,
{
    if n < 10 {
        1
    } else {
        let k = decimal_len(n / 10);
        proof {
            lemma_decimal_len_bound(n as nat / 10);
        }
        k + 1
    }
}

/// A number has fewer decimal digits than it has value, plus one.
proof fn lemma_decimal_len_bound(n: nat)
    ensures
        decimal(n).len() <= n + 1,
    decreases n,
{
    if n >= 10 {
        lemma_decimal_len_bound(n / 10);
    }
}

/// Appends the decimal digits of `n`.
fn push_decimal(s: &mut String, n: usize)
    ensures
        final(s)@ == old(s)@ + decimal(n as nat),
    decreases n,
{
    if n >= 10 {
        push_decimal(s, n / 10);
    }
    push_char(s, digit(n % 10));
    assert(final(s)@ =~= old(s)@ + decimal(n as nat)) by {
        if n >= 10 {
            assert(decimal(n as nat) == decimal(n as nat / 10).push(digit_char(n as nat % 10)));
        }
    }
}

/// The operation id of the record at position `n`.
pub fn lightweight_op_id(n: usize) -> (id: String)
    ensures
        id@ == op_id_text(n as nat),
{
    let mut id = String::new();
    id.append("lw_");
    let k = decimal_len(n);
    let pad: usize = if k < 8 { 8 - k } else { 0 };
    let ghost prefix = id@;
    let mut written: usize = 0;
    while written < pad
        invariant
            id@ == prefix + Seq::new(written as nat, |i: int| '0'),
            written <= pad,
        decreases pad - written,
    {
        push_char(&mut id, '0');
        written = written + 1;
        assert(id@ =~= prefix + Seq::new(written as nat, |i: int| '0'));
    }
    push_decimal(&mut id, n);
    assert(id@ =~= op_id_text(n as nat));
    id
}

/// The topic of the records with tag `tag`.
pub fn lightweight_topic_id(tag: &str) -> (id: String)
    ensures
        id@ == topic_id_text(tag@),
{
    let mut id = String::new();
    id.append("lw:");
    id.append(tag);
    id
}

/// One fact that a record of the lightweight log adds to the history.
#[derive(Debug, Clone)]
pub struct HistoryEntry {
    pub topic_id: String,
    pub op_id: String,
    pub value: String,
}

/// The history entry for record `r` at position `n`.
pub open spec fn entry_for(e: HistoryEntry, r: LightweightWalRecord, n: nat) -> bool {
    &&& e.topic_id@ == topic_id_text(r.tag@)
    &&& e.op_id@ == op_id_text(n)
    &&& e.value@ == r.meaning@
}

/// The history entries of the records of the lightweight log, one per record
/// and in their order.
pub fn lightweight_history_entries(records: &Vec<LightweightWalRecord>) -> (entries: Vec<
    HistoryEntry,
>)
    ensures
        entries.len() == records.len(),
        forall|i: int|
            0 <= i < records.len() ==> entry_for(#[trigger] entries@[i], records@[i], i as nat),
{
    let n = records.len();
    let mut out: Vec<HistoryEntry> = Vec::new();
    let mut i: usize = 0;
    while i < n
        invariant
            n == records.len(),
            i <= n,
            out.len() == i,
            forall|j: int| 0 <= j < i ==> entry_for(#[trigger] out@[j], records@[j], j as nat),
        decreases n - i,
    {
        let topic_id = lightweight_topic_id(records[i].tag.as_str());
        let op_id = lightweight_op_id(i);
        let value = records[i].meaning.clone();
        out.push(HistoryEntry { topic_id, op_id, value });
        i = i + 1;
    }
    out
}

/// The value of a decimal digit.
pub open spec fn digit_value(c: char) -> nat {
    if c == '1' { 1 }
    else if c == '2' { 2 }
    else if c == '3' { 3 }
    else if c == '4' { 4 }
    else if c == '5' { 5 }
    else if c == '6' { 6 }
    else if c == '7' { 7 }
    else if c == '8' { 8 }
    else if c == '9' { 9 }
    else { 0 }
}

/// The number that a string of decimal digits writes.
pub open spec fn digits_value(s: Seq<char>) -> nat
    decreases s.len(),
{
    if s.len() == 0 {
        0
    } else {
        digits_value(s.drop_last()) * 10 + digit_value(s.last())
    }
}

/// A digit's value is the number it was made from.
proof fn lemma_digit_value(d: nat)
    requires
        d < 10,
    ensures
        digit_value(digit_char(d)) == d,
{
    if d == 0 {} else if d == 1 {} else if d == 2 {} else if d == 3 {} else if d == 4 {}
    else if d == 5 {} else if d == 6 {} else if d == 7 {} else if d == 8 {} else {}
}

/// The digits of `n` write `n`.
proof fn lemma_decimal_value(n: nat)
    ensures
        digits_value(decimal(n)) == n,
    decreases n,
{
    if n >= 10 {
        lemma_decimal_value(n / 10);
        lemma_digit_value(n % 10);
        let d = decimal(n);
        assert(d.drop_last() =~= decimal(n / 10));
        assert(d.last() == digit_char(n % 10));
        assert(digits_value(d) == digits_value(decimal(n / 10)) * 10 + digit_value(d.last()));
        assert((n / 10) * 10 + n % 10 == n);
    } else {
        lemma_digit_value(n);
        assert(seq![digit_char(n)].drop_last() =~= Seq::<char>::empty());
        assert(digits_value(Seq::<char>::empty()) == 0);
    }
}

/// Leading zeros do not change the number that digits write.
proof fn lemma_zeros_value(k: nat, d: Seq<char>)
    ensures
        digits_value(Seq::new(k, |i: int| '0') + d) == digits_value(d),
    decreases d.len() + k,
{
    let z = Seq::new(k, |i: int| '0');
    if d.len() == 0 {
        assert(z + d =~= z);
        if k > 0 {
            lemma_zeros_value((k - 1) as nat, d);
            assert(z.drop_last() =~= Seq::new((k - 1) as nat, |i: int| '0') + d);
        }
    } else {
        lemma_zeros_value(k, d.drop_last());
        assert((z + d).drop_last() =~= z + d.drop_last());
        assert((z + d).last() == d.last());
    }
}

/// The records at two different positions get different operation ids.
pub proof fn lemma_op_ids_distinct(a: nat, b: nat)
    requires
        a != b,
    ensures
        op_id_text(a) != op_id_text(b),
{
    let pa = zero_pad(decimal(a), 8);
    let pb = zero_pad(decimal(b), 8);
    lemma_decimal_value(a);
    lemma_decimal_value(b);
    if decimal(a).len() < 8 {
        lemma_zeros_value((8 - decimal(a).len()) as nat, decimal(a));
    }
    if decimal(b).len() < 8 {
        lemma_zeros_value((8 - decimal(b).len()) as nat, decimal(b));
    }
    reveal_strlit("lw_");
    if op_id_text(a) == op_id_text(b) {
        assert(op_id_text(a).skip(3) =~= pa);
        assert(op_id_text(b).skip(3) =~= pb);
    }
}

/// Ten to the power `k`.
pub open spec fn pow10(k: nat) -> nat
    decreases k,
{
    if k == 0 {
        1
    } else {
        10 * pow10((k - 1) as nat)
    }
}

/// A number below ten to the `k` has at most `k` digits.
proof fn lemma_decimal_len_le(n: nat, k: nat)
    requires
        k >= 1,
        n < pow10(k),
    ensures
        decimal(n).len() <= k,
    decreases k,
{
    if n >= 10 {
        let p = pow10((k - 1) as nat);
        if k == 1 {
            assert(pow10(0) == 1);
        }
        assert(n / 10 < p) by (nonlinear_arith)
            requires
                n < 10 * p,
        ;
        lemma_decimal_len_le(n / 10, (k - 1) as nat);
    }
}

/// The operation id of position `n` is `lw_` and then digits that write `n`;
/// below one hundred million it is eleven characters long.
pub proof fn lemma_op_id_shape(n: nat)
    ensures
        op_id_text(n).take(3) == "lw_"@,
        digits_value(op_id_text(n).skip(3)) == n,
        op_id_text(n).len() >= 11,
        n < 100000000 ==> op_id_text(n).len() == 11,
{
    reveal_strlit("lw_");
    let d = decimal(n);
    lemma_decimal_value(n);
    if d.len() < 8 {
        lemma_zeros_value((8 - d.len()) as nat, d);
    }
    assert(op_id_text(n).take(3) =~= "lw_"@);
    assert(op_id_text(n).skip(3) =~= zero_pad(d, 8));
    if n < 100000000 {
        assert(pow10(8) == 100000000) by {
            reveal_with_fuel(pow10, 9);
        }
        lemma_decimal_len_le(n, 8);
    }
}

/// The topic of a tag is `lw:` and then the tag.
pub proof fn lemma_topic_id_shape(tag: Seq<char>)
    ensures
        topic_id_text(tag).take(3) == "lw:"@,
        topic_id_text(tag).skip(3) == tag,
{
    reveal_strlit("lw:");
    assert(topic_id_text(tag).take(3) =~= "lw:"@);
    assert(topic_id_text(tag).skip(3) =~= tag);
}

/// A history entry carries its record's topic, its position's operation id
/// and its record's meaning, and nothing less.
pub proof fn lemma_entry_for_parts(e: HistoryEntry, r: LightweightWalRecord, n: nat)
    ensures
        entry_for(e, r, n) <==> (e.topic_id@ == "lw:"@ + r.tag@ && e.op_id@ == "lw_"@ + zero_pad(
            decimal(n),
            8,
        ) && e.value@ == r.meaning@),
{
}

/// Each digit is written with its own decimal character, `0` to `9` in order.
pub proof fn lemma_digit_chars(d: nat)
    requires
        d < 10,
    ensures
        digit_char(d) as u32 == '0' as u32 + d,
        digit_value(digit_char(d)) == d,
{
    lemma_digit_value(d);
}

} // verus!
