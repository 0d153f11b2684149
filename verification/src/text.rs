//! Character-level text handling: white space, trimming, splitting,
//! line breaking and substring search, each stated over `Seq<char>`.

use vstd::prelude::*;

verus! {

/// The Unicode `White_Space` property, which `char::is_whitespace` and
/// `str::trim` go by.
pub open spec fn is_white_space(c: char) -> bool {
    let u = c as u32;
    ||| 0x09 <= u <= 0x0D
    ||| u == 0x20
    ||| u == 0x85
    ||| u == 0xA0
    ||| u == 0x1680
    ||| 0x2000 <= u <= 0x200A
    ||| u == 0x2028
    ||| u == 0x2029
    ||| u == 0x202F
    ||| u == 0x205F
    ||| u == 0x3000
}

/// Executable test of the `White_Space` property.
pub fn is_white_space_char(c: char) -> (b: bool)
    ensures
        b == is_white_space(c),
{
    let u = c as u32;
    (0x09 <= u && u <= 0x0D) || u == 0x20 || u == 0x85 || u == 0xA0 || u == 0x1680 || (0x2000
        <= u && u <= 0x200A) || u == 0x2028 || u == 0x2029 || u == 0x202F || u == 0x205F || u
        == 0x3000
}

/// `s` with its leading white space removed.
pub open spec fn trim_start(s: Seq<char>) -> Seq<char>
    decreases s.len(),
{
    if s.len() > 0 && is_white_space(s[0]) {
        trim_start(s.drop_first())
    } else {
        s
    }
}

/// `s` with its trailing white space removed.
pub open spec fn trim_end(s: Seq<char>) -> Seq<char>
    decreases s.len(),
{
    if s.len() > 0 && is_white_space(s.last()) {
        trim_end(s.drop_last())
    } else {
        s
    }
}

/// `s` with leading and trailing white space removed, as `str::trim` does.
pub open spec fn trim(s: Seq<char>) -> Seq<char> {
    trim_end(trim_start(s))
}

/// The characters of `s`, in order.
pub fn chars_of(s: &str) -> (v: Vec<char>)
    ensures
        v@ == s@,
{
    let mut v: Vec<char> = Vec::new();
    for c in it: s.chars()
        invariant
            v@ == it.seq().take(it.index() as int),
    {
        v.push(c);
    }
    v
}

/// Leading white space can be skipped one character at a time.
proof fn lemma_trim_start_step(s: Seq<char>, i: int, n: int)
    requires
        0 <= i < n <= s.len(),
        is_white_space(s[i]),
    ensures
        trim_start(s.subrange(i, n)) == trim_start(s.subrange(i + 1, n)),
{
    assert(s.subrange(i, n).drop_first() =~= s.subrange(i + 1, n));
}

/// Trailing white space can be skipped one character at a time.
proof fn lemma_trim_end_step(s: Seq<char>, i: int, n: int)
    requires
        0 <= i < n <= s.len(),
        is_white_space(s[n - 1]),
    ensures
        trim_end(s.subrange(i, n)) == trim_end(s.subrange(i, n - 1)),
{
    assert(s.subrange(i, n).drop_last() =~= s.subrange(i, n - 1));
}

/// The bounds, within `lo..hi`, of the trimmed text `trim(v[lo..hi])`.
pub fn trim_range(v: &Vec<char>, lo: usize, hi: usize) -> (r: (usize, usize))
    requires
        lo <= hi <= v.len(),
    ensures
        lo <= r.0 <= r.1 <= hi,
        v@.subrange(r.0 as int, r.1 as int) == trim(v@.subrange(lo as int, hi as int)),
{
    let mut a = lo;
    while a < hi && is_white_space_char(v[a])
        invariant
            lo <= a <= hi <= v.len(),
            trim_start(v@.subrange(lo as int, hi as int)) == trim_start(
                v@.subrange(a as int, hi as int),
            ),
        decreases hi - a,
    {
        proof {
            lemma_trim_start_step(v@, a as int, hi as int);
        }
        a = a + 1;
    }
    assert(trim_start(v@.subrange(a as int, hi as int)) == v@.subrange(a as int, hi as int));
    let mut b = hi;
    while b > a && is_white_space_char(v[b - 1])
        invariant
            lo <= a <= b <= hi <= v.len(),
            trim(v@.subrange(lo as int, hi as int)) == trim_end(v@.subrange(a as int, b as int)),
        decreases b - a,
    {
        proof {
            lemma_trim_end_step(v@, a as int, b as int);
        }
        b = b - 1;
    }
    assert(trim_end(v@.subrange(a as int, b as int)) == v@.subrange(a as int, b as int));
    (a, b)
}

/// Appends one character: calls `String::push`, and claims that the string
/// then holds its former characters followed by `c`.
#[verifier::external_body]
pub(crate) fn push_char(s: &mut String, c: char)
    ensures
        final(s)@ == old(s)@.push(c),
{
    s.push(c);
}

/// A new `String` holding the characters `v[lo..hi]`.
pub fn string_of(v: &Vec<char>, lo: usize, hi: usize) -> (s: String)
    requires
        lo <= hi <= v.len(),
    ensures
        s@ == v@.subrange(lo as int, hi as int),
{
    let mut s = String::new();
    let mut i = lo;
    while i < hi
        invariant
            lo <= i <= hi <= v.len(),
            s@ == v@.subrange(lo as int, i as int),
        decreases hi - i,
    {
        push_char(&mut s, v[i]);
        assert(v@.subrange(lo as int, i + 1) =~= v@.subrange(lo as int, i as int).push(v@[i as int]));
        i = i + 1;
    }
    s
}

/// The trimmed text `trim(v[lo..hi])` as a new `String`.
pub fn trimmed_string(v: &Vec<char>, lo: usize, hi: usize) -> (s: String)
    requires
        lo <= hi <= v.len(),
    ensures
        s@ == trim(v@.subrange(lo as int, hi as int)),
{
    let (a, b) = trim_range(v, lo, hi);
    string_of(v, a, b)
}

/// `k` is the position of the first `c` in `s`.
pub open spec fn first_at(s: Seq<char>, c: char, k: int) -> bool {
    &&& 0 <= k < s.len()
    &&& s[k] == c
    &&& forall|j: int| 0 <= j < k ==> s[j] != c
}

/// `s` cut at its first `c` into the text before and the text after it
/// (`str::split_once`); `None` where `s` holds no `c`.
pub open spec fn split_once(s: Seq<char>, c: char) -> Option<(Seq<char>, Seq<char>)> {
    if exists|k: int| first_at(s, c, k) {
        let k = choose|k: int| first_at(s, c, k);
        Some((s.take(k), s.skip(k + 1)))
    } else {
        None
    }
}

/// There is one first position.
pub proof fn lemma_first_at_unique(s: Seq<char>, c: char, k1: int, k2: int)
    requires
        first_at(s, c, k1),
        first_at(s, c, k2),
    ensures
        k1 == k2,
{
}

/// `split_once` at a known first position.
pub proof fn lemma_split_once_at(s: Seq<char>, c: char, k: int)
    requires
        first_at(s, c, k),
    ensures
        split_once(s, c) == Some((s.take(k), s.skip(k + 1))),
{
    let k2 = choose|k: int| first_at(s, c, k);
    lemma_first_at_unique(s, c, k, k2);
}

/// The position of the first `c` in `v[lo..hi]`, counted from the start of `v`.
pub fn find_char(v: &Vec<char>, lo: usize, hi: usize, c: char) -> (r: Option<usize>)
    requires
        lo <= hi <= v.len(),
    ensures
        match r {
            Some(k) => lo <= k < hi && first_at(v@.subrange(lo as int, hi as int), c, k - lo),
            None => forall|j: int| lo <= j < hi ==> v@[j] != c,
        },
        r is None <==> split_once(v@.subrange(lo as int, hi as int), c) is None,
{
    let mut i = lo;
    while i < hi
        invariant
            lo <= i <= hi <= v.len(),
            forall|j: int| lo <= j < i ==> v@[j] != c,
        decreases hi - i,
    {
        if v[i] == c {
            assert(first_at(v@.subrange(lo as int, hi as int), c, i - lo));
            return Some(i);
        }
        i = i + 1;
    }
    assert forall|k: int| !first_at(v@.subrange(lo as int, hi as int), c, k) by {
        if first_at(v@.subrange(lo as int, hi as int), c, k) {
            assert(v@[lo + k] == c);
        }
    }
    None
}

/// The pieces of `s` between the separators `sep` (`str::split`): always at
/// least one piece, and one more than `s` holds separators.
pub open spec fn split_on(s: Seq<char>, sep: char) -> Seq<Seq<char>>
    decreases s.len(),
{
    if s.len() == 0 {
        seq![Seq::empty()]
    } else {
        let prev = split_on(s.drop_last(), sep);
        if s.last() == sep {
            prev.push(Seq::empty())
        } else {
            prev.update(prev.len() - 1, prev.last().push(s.last()))
        }
    }
}

/// `split_on` never yields an empty list.
pub proof fn lemma_split_on_nonempty(s: Seq<char>, sep: char)
    ensures
        split_on(s, sep).len() >= 1,
    decreases s.len(),
{
    if s.len() > 0 {
        lemma_split_on_nonempty(s.drop_last(), sep);
    }
}

/// The texts that index ranges select from `v`.
pub open spec fn ranges_view(v: Seq<char>, r: Seq<(usize, usize)>) -> Seq<Seq<char>> {
    r.map_values(|p: (usize, usize)| v.subrange(p.0 as int, p.1 as int))
}

/// Index ranges all within `lo..hi`.
pub open spec fn ranges_within(r: Seq<(usize, usize)>, lo: int, hi: int) -> bool {
    forall|i: int| 0 <= i < r.len() ==> lo <= #[trigger] r[i].0 <= r[i].1 <= hi
}

/// The ranges of the pieces of `v[lo..hi]` between the separators `sep`.
pub fn split_ranges(v: &Vec<char>, lo: usize, hi: usize, sep: char) -> (r: Vec<(usize, usize)>)
    requires
        lo <= hi <= v.len(),
    ensures
        ranges_within(r@, lo as int, hi as int),
        ranges_view(v@, r@) == split_on(v@.subrange(lo as int, hi as int), sep),
{
    let mut done: Vec<(usize, usize)> = Vec::new();
    let mut start = lo;
    let mut i = lo;
    assert(v@.subrange(lo as int, lo as int) =~= Seq::<char>::empty());
    assert(ranges_view(v@, done@.push((start, i))) =~= split_on(
        v@.subrange(lo as int, i as int),
        sep,
    ));
    while i < hi
        invariant
            lo <= start <= i <= hi <= v.len(),
            ranges_within(done@, lo as int, hi as int),
            ranges_view(v@, done@.push((start, i))) == split_on(
                v@.subrange(lo as int, i as int),
                sep,
            ),
        decreases hi - i,
    {
        let ghost s = v@.subrange(lo as int, i + 1);
        assert(s.drop_last() =~= v@.subrange(lo as int, i as int));
        assert(s.last() == v@[i as int]);
        let ghost prev = split_on(s.drop_last(), sep);
        if v[i] == sep {
            done.push((start, i));
            start = i + 1;
            i = i + 1;
            assert(v@.subrange(start as int, i as int) =~= Seq::<char>::empty());
            assert(ranges_view(v@, done@.push((start, i))) =~= prev.push(Seq::empty()));
        } else {
            i = i + 1;
            assert(v@.subrange(start as int, i as int) =~= v@.subrange(start as int, i - 1).push(
                v@[i - 1],
            ));
            assert(ranges_view(v@, done@.push((start, i))) =~= prev.update(
                prev.len() - 1,
                prev.last().push(s.last()),
            ));
        }
    }
    done.push((start, i));
    done
}

/// A line with one trailing carriage return removed.
pub open spec fn strip_cr(l: Seq<char>) -> Seq<char> {
    if l.len() > 0 && l.last() == '\r' {
        l.drop_last()
    } else {
        l
    }
}

/// The lines of `s` (`str::lines`): the pieces between line feeds, each
/// line that a line feed ends without the carriage return before it, and the
/// text after the last line feed only where it is not empty.
pub open spec fn lines(s: Seq<char>) -> Seq<Seq<char>> {
    let segs = split_on(s, '\n');
    let body = segs.drop_last().map_values(|l: Seq<char>| strip_cr(l));
    if segs.last().len() == 0 {
        body
    } else {
        body.push(segs.last())
    }
}

/// The ranges of the lines of `v`.
pub fn line_ranges(v: &Vec<char>) -> (r: Vec<(usize, usize)>)
    ensures
        ranges_within(r@, 0, v.len() as int),
        ranges_view(v@, r@) == lines(v@),
{
    let segs = split_ranges(v, 0, v.len(), '\n');
    assert(v@.subrange(0, v.len() as int) =~= v@);
    let ghost all = split_on(v@, '\n');
    proof {
        lemma_split_on_nonempty(v@, '\n');
    }
    let n: usize = segs.len();
    let mut out: Vec<(usize, usize)> = Vec::new();
    let mut i: usize = 0;
    while i + 1 < n
        invariant
            n == segs.len() >= 1,
            0 <= i < n,
            ranges_within(segs@, 0, v.len() as int),
            ranges_view(v@, segs@) == all,
            ranges_within(out@, 0, v.len() as int),
            ranges_view(v@, out@) == all.take(i as int).map_values(|l: Seq<char>| strip_cr(l)),
        decreases n - i,
    {
        let (a, b) = segs[i];
        assert(all[i as int] == v@.subrange(a as int, b as int));
        let ghost before = out@;
        let ghost f = |l: Seq<char>| strip_cr(l);
        if b > a && v[b - 1] == '\r' {
            assert(v@.subrange(a as int, b - 1) =~= v@.subrange(a as int, b as int).drop_last());
            out.push((a, b - 1));
        } else {
            out.push((a, b));
        }
        assert(ranges_view(v@, out@) =~= ranges_view(v@, before).push(strip_cr(all[i as int])));
        assert(all.take(i + 1) =~= all.take(i as int).push(all[i as int]));
        assert(all.take(i + 1).map_values(f) =~= all.take(i as int).map_values(f).push(
            strip_cr(all[i as int]),
        ));
        i = i + 1;
    }
    assert(all.take(i as int) =~= all.drop_last());
    let (a, b) = segs[n - 1];
    assert(all.last() == v@.subrange(a as int, b as int));
    if a < b {
        out.push((a, b));
        assert(ranges_view(v@, out@) =~= lines(v@));
    } else {
        assert(ranges_view(v@, out@) =~= lines(v@));
    }
    out
}

/// `needle` occurs in `hay` at position `i`.
pub open spec fn occurs_at(hay: Seq<char>, needle: Seq<char>, i: int) -> bool {
    0 <= i && i + needle.len() <= hay.len() && hay.subrange(i, i + needle.len()) == needle
}

/// `needle` occurs somewhere in `hay` (`str::contains` with a text pattern);
/// the empty text occurs in every text.
pub open spec fn contains_text(hay: Seq<char>, needle: Seq<char>) -> bool {
    exists|i: int| occurs_at(hay, needle, i)
}

/// Whether `needle` occurs in `hay` at position `i`.
fn matches_at(hay: &Vec<char>, needle: &Vec<char>, i: usize) -> (b: bool)
    requires
        i + needle.len() <= hay.len(),
    ensures
        b == occurs_at(hay@, needle@, i as int),
{
    let mut j: usize = 0;
    while j < needle.len()
        invariant
            i + needle.len() <= hay.len(),
            j <= needle.len(),
            forall|k: int| 0 <= k < j ==> hay@[i + k] == needle@[k],
        decreases needle.len() - j,
    {
        if hay[i + j] != needle[j] {
            assert(hay@.subrange(i as int, i + needle.len())[j as int] != needle@[j as int]);
            return false;
        }
        j = j + 1;
    }
    assert(hay@.subrange(i as int, i + needle.len()) =~= needle@);
    true
}

/// Whether `needle` occurs in `hay`.
pub fn contains_chars(hay: &Vec<char>, needle: &Vec<char>) -> (b: bool)
    ensures
        b == contains_text(hay@, needle@),
{
    if needle.len() > hay.len() {
        return false;
    }
    let last = hay.len() - needle.len();
    let mut i: usize = 0;
    loop
        invariant
            last + needle.len() == hay.len(),
            i <= last,
            forall|k: int| 0 <= k < i ==> !occurs_at(hay@, needle@, k),
        ensures
            forall|k: int| 0 <= k <= last ==> !occurs_at(hay@, needle@, k),
        decreases last - i,
    {
        if matches_at(hay, needle, i) {
            return true;
        }
        if i == last {
            break;
        }
        i = i + 1;
    }
    false
}

/// Whether `needle` occurs in `hay` (`str::contains`).
pub fn contains_str(hay: &str, needle: &str) -> (b: bool)
    ensures
        b == contains_text(hay@, needle@),
{
    let h = chars_of(hay);
    let n = chars_of(needle);
    contains_chars(&h, &n)
}

/// Equality of two texts: calls `<str as PartialEq>::eq`, and claims that
/// it answers `true` exactly where the two texts hold the same characters.
#[verifier::external_body]
pub(crate) fn str_equal(a: &str, b: &str) -> (r: bool)
    ensures
        r == (a@ == b@),
{
    a == b
}

/// The ranges of the two sides of the first `c` in `v[lo..hi]`.
pub fn split_once_range(v: &Vec<char>, lo: usize, hi: usize, c: char) -> (r: Option<
    ((usize, usize), (usize, usize)),
>)
    requires
        lo <= hi <= v.len(),
    ensures
        match r {
            Some((a, b)) => {
                &&& lo <= a.0 <= a.1 <= hi
                &&& lo <= b.0 <= b.1 <= hi
                &&& split_once(v@.subrange(lo as int, hi as int), c) == Some(
                    (
                        v@.subrange(a.0 as int, a.1 as int),
                        v@.subrange(b.0 as int, b.1 as int),
                    ),
                )
            },
            None => split_once(v@.subrange(lo as int, hi as int), c) is None,
        },
{
    match find_char(v, lo, hi, c) {
        Some(k) => {
            proof {
                let s = v@.subrange(lo as int, hi as int);
                lemma_split_once_at(s, c, k - lo);
                assert(s.take(k - lo) =~= v@.subrange(lo as int, k as int));
                assert(s.skip(k - lo + 1) =~= v@.subrange(k + 1, hi as int));
            }
            Some(((lo, k), (k + 1, hi)))
        },
        None => None,
    }
}

/// Text without the separator is one piece.
pub proof fn lemma_split_on_no_sep(s: Seq<char>, sep: char)
    requires
        forall|i: int| 0 <= i < s.len() ==> s[i] != sep,
    ensures
        split_on(s, sep) == seq![s],
    decreases s.len(),
{
    if s.len() > 0 {
        lemma_split_on_no_sep(s.drop_last(), sep);
        assert(s.drop_last().push(s.last()) =~= s);
        assert(split_on(s, sep) =~= seq![s]);
    } else {
        assert(s =~= Seq::<char>::empty());
    }
}

/// After a separator, the pieces of what follows are added to the pieces
/// before it, the empty piece that the separator ends being replaced.
pub proof fn lemma_split_on_after_sep(a: Seq<char>, b: Seq<char>, sep: char)
    requires
        a.len() > 0,
        a.last() == sep,
    ensures
        split_on(a + b, sep) == split_on(a, sep).drop_last() + split_on(b, sep),
        split_on(a, sep).last() == Seq::<char>::empty(),
    decreases b.len(),
{
    assert(a.drop_last().push(a.last()) =~= a);
    if b.len() == 0 {
        assert(a + b =~= a);
        assert(split_on(a, sep).drop_last() + split_on(b, sep) =~= split_on(a, sep));
    } else {
        lemma_split_on_after_sep(a, b.drop_last(), sep);
        lemma_split_on_nonempty(b.drop_last(), sep);
        assert((a + b).drop_last() =~= a + b.drop_last());
        assert((a + b).last() == b.last());
        let pa = split_on(a, sep).drop_last();
        let pb = split_on(b.drop_last(), sep);
        if b.last() == sep {
            assert((pa + pb).push(Seq::empty()) =~= pa + pb.push(Seq::empty()));
        } else {
            assert((pa + pb).update((pa + pb).len() - 1, (pa + pb).last().push(b.last())) =~= pa
                + pb.update(pb.len() - 1, pb.last().push(b.last())));
        }
    }
}

/// The lines of two texts, the first ending its last line, are the lines of
/// the first and then those of the second.
pub proof fn lemma_lines_append(a: Seq<char>, b: Seq<char>)
    requires
        a.len() == 0 || a.last() == '\n',
    ensures
        lines(a + b) == lines(a) + lines(b),
{
    let f = |l: Seq<char>| strip_cr(l);
    if a.len() == 0 {
        assert(a + b =~= b);
        assert(split_on(a, '\n') =~= seq![Seq::<char>::empty()]);
        assert(lines(a) =~= Seq::<Seq<char>>::empty());
        assert(lines(a) + lines(b) =~= lines(b));
    } else {
        lemma_split_on_after_sep(a, b, '\n');
        lemma_split_on_nonempty(a, '\n');
        lemma_split_on_nonempty(b, '\n');
        let sa = split_on(a, '\n');
        let sb = split_on(b, '\n');
        let sab = split_on(a + b, '\n');
        assert(sab.drop_last() =~= sa.drop_last() + sb.drop_last());
        assert(sab.last() == sb.last());
        assert(sab.drop_last().map_values(f) =~= sa.drop_last().map_values(f) + sb.drop_last().map_values(f));
        assert(lines(a) =~= sa.drop_last().map_values(f));
        if sb.last().len() == 0 {
            assert(lines(a + b) =~= lines(a) + lines(b));
        } else {
            assert(lines(a + b) =~= lines(a) + lines(b));
        }
    }
}

/// A text that ends its only line: one line, without the line feed (and a
/// carriage return before it).
pub proof fn lemma_lines_single(x: Seq<char>)
    requires
        forall|i: int| 0 <= i < x.len() ==> x[i] != '\n',
    ensures
        lines(x + seq!['\n']) == seq![strip_cr(x)],
{
    lemma_split_on_no_sep(x, '\n');
    let s = x + seq!['\n'];
    assert(s.drop_last() =~= x);
    assert(split_on(s, '\n') =~= seq![x, Seq::<char>::empty()]);
    assert(lines(s) =~= seq![strip_cr(x)]);
}

/// Text that starts and ends with other than white space is its own trim.
pub proof fn lemma_trim_keeps(s: Seq<char>)
    requires
        s.len() > 0,
        !is_white_space(s[0]),
        !is_white_space(s.last()),
    ensures
        trim(s) == s,
{
}

/// Trimming the start never lengthens a text, and shortens one that starts
/// with white space.
proof fn lemma_trim_start_len(s: Seq<char>)
    ensures
        trim_start(s).len() <= s.len(),
        s.len() > 0 && is_white_space(s[0]) ==> trim_start(s).len() < s.len(),
    decreases s.len(),
{
    if s.len() > 0 && is_white_space(s[0]) {
        lemma_trim_start_len(s.drop_first());
    }
}

/// Trimming the end never lengthens a text, and shortens one that ends with
/// white space.
proof fn lemma_trim_end_len(s: Seq<char>)
    ensures
        trim_end(s).len() <= s.len(),
        s.len() > 0 && is_white_space(s.last()) ==> trim_end(s).len() < s.len(),
    decreases s.len(),
{
    if s.len() > 0 && is_white_space(s.last()) {
        lemma_trim_end_len(s.drop_last());
    }
}

/// A non-empty text that is its own trim starts and ends with other than
/// white space.
pub proof fn lemma_trimmed_ends(s: Seq<char>)
    requires
        s.len() > 0,
        trim(s) == s,
    ensures
        !is_white_space(s[0]),
        !is_white_space(s.last()),
{
    lemma_trim_start_len(s);
    lemma_trim_end_len(trim_start(s));
    if !is_white_space(s[0]) {
        lemma_trim_end_len(s);
    }
}

/// Leading white space does not change what trimming the start leaves.
pub proof fn lemma_trim_start_skips(pre: Seq<char>, x: Seq<char>)
    requires
        forall|i: int| 0 <= i < pre.len() ==> is_white_space(pre[i]),
    ensures
        trim_start(pre + x) == trim_start(x),
    decreases pre.len(),
{
    if pre.len() > 0 {
        assert((pre + x).drop_first() =~= pre.drop_first() + x);
        lemma_trim_start_skips(pre.drop_first(), x);
    } else {
        assert(pre + x =~= x);
    }
}

/// Trailing white space does not change what trimming the end leaves.
proof fn lemma_trim_end_skips(x: Seq<char>, post: Seq<char>)
    requires
        forall|i: int| 0 <= i < post.len() ==> is_white_space(post[i]),
    ensures
        trim_end(x + post) == trim_end(x),
    decreases post.len(),
{
    if post.len() > 0 {
        assert((x + post).drop_last() =~= x + post.drop_last());
        lemma_trim_end_skips(x, post.drop_last());
    } else {
        assert(x + post =~= x);
    }
}

/// Trimming removes exactly the white space around a text: a text that
/// starts and ends with other than white space, with white space before and
/// after it, trims to itself.
pub proof fn lemma_trim_strips(pre: Seq<char>, core: Seq<char>, post: Seq<char>)
    requires
        forall|i: int| 0 <= i < pre.len() ==> is_white_space(pre[i]),
        forall|i: int| 0 <= i < post.len() ==> is_white_space(post[i]),
        core.len() > 0,
        !is_white_space(core[0]),
        !is_white_space(core.last()),
    ensures
        trim(pre + core + post) == core,
{
    assert(pre + core + post =~= pre + (core + post));
    lemma_trim_start_skips(pre, core + post);
    assert((core + post)[0] == core[0]);
    lemma_trim_end_skips(core, post);
}

/// A text trims to nothing exactly where all its characters are white space.
pub proof fn lemma_trim_empty_iff_blank(s: Seq<char>)
    ensures
        trim(s).len() == 0 <==> forall|i: int| 0 <= i < s.len() ==> is_white_space(s[i]),
    decreases s.len(),
{
    if s.len() > 0 {
        if is_white_space(s[0]) {
            lemma_trim_empty_iff_blank(s.drop_first());
            assert(trim(s) == trim(s.drop_first()));
            if forall|i: int| 0 <= i < s.drop_first().len() ==> is_white_space(s.drop_first()[i]) {
                assert forall|i: int| 0 <= i < s.len() implies is_white_space(s[i]) by {
                    if i > 0 {
                        assert(s[i] == s.drop_first()[i - 1]);
                    }
                }
            } else {
                let i = choose|i: int|
                    0 <= i < s.drop_first().len() && !is_white_space(s.drop_first()[i]);
                assert(s[i + 1] == s.drop_first()[i]);
            }
        } else {
            assert(trim_start(s) == s);
            lemma_trim_end_nonempty(s);
        }
    }
}

/// Trimming the end of a text that starts with other than white space
/// leaves something.
proof fn lemma_trim_end_nonempty(s: Seq<char>)
    requires
        s.len() > 0,
        !is_white_space(s[0]),
    ensures
        trim_end(s).len() > 0,
    decreases s.len(),
{
    if is_white_space(s.last()) {
        lemma_trim_end_nonempty(s.drop_last());
    }
}

/// The pieces of an item followed by the separator and more text are that
/// item and then the pieces of the rest.
pub proof fn lemma_split_on_item(a: Seq<char>, b: Seq<char>, sep: char)
    requires
        forall|i: int| 0 <= i < a.len() ==> a[i] != sep,
    ensures
        split_on(a + seq![sep] + b, sep) == seq![a] + split_on(b, sep),
{
    let a1 = a + seq![sep];
    lemma_split_on_after_sep(a1, b, sep);
    assert(a1.drop_last() =~= a);
    lemma_split_on_no_sep(a, sep);
    assert(split_on(a1, sep) == split_on(a, sep).push(Seq::empty()));
    assert(split_on(a1, sep).drop_last() =~= seq![a]);
}

/// The meaning of `contains_text`: a text occurs in another exactly where the
/// other is some text, then it, then some text.
pub proof fn lemma_contains_text_iff(hay: Seq<char>, needle: Seq<char>)
    ensures
        forall|pre: Seq<char>, post: Seq<char>|
            hay == pre + needle + post ==> contains_text(hay, needle),
        contains_text(hay, needle) ==> exists|pre: Seq<char>, post: Seq<char>|
            hay == pre + needle + post,
        needle.len() > hay.len() ==> !contains_text(hay, needle),
{
    assert forall|pre: Seq<char>, post: Seq<char>| hay == pre + needle + post implies contains_text(
        hay,
        needle,
    ) by {
        assert(hay.subrange(pre.len() as int, pre.len() + needle.len() as int) =~= needle);
        assert(occurs_at(hay, needle, pre.len() as int));
    }
    if contains_text(hay, needle) {
        let i = choose|i: int| occurs_at(hay, needle, i);
        let pre = hay.take(i);
        let post = hay.skip(i + needle.len());
        assert(hay =~= pre + needle + post);
    }
}

/// Trimming the start commutes with dropping the last character.
proof fn lemma_trim_start_drop_last(s: Seq<char>)
    requires
        s.len() > 0,
    ensures
        trim_start(s).len() > 0 ==> trim_start(s).last() == s.last() && trim_start(s.drop_last())
            == trim_start(s).drop_last(),
        trim_start(s).len() == 0 ==> trim_start(s.drop_last()).len() == 0,
    decreases s.len(),
{
    if is_white_space(s[0]) {
        if s.len() > 1 {
            lemma_trim_start_drop_last(s.drop_first());
            assert(s.drop_last().drop_first() =~= s.drop_first().drop_last());
            assert(s.drop_first().last() == s.last());
        } else {
            assert(s.drop_first().len() == 0);
        }
    }
}

/// White space at the end of a text does not change its trim (so a carriage
/// return before a line feed does not either).
pub proof fn lemma_trim_drop_trailing_white(s: Seq<char>)
    requires
        s.len() > 0,
        is_white_space(s.last()),
    ensures
        trim(s.drop_last()) == trim(s),
{
    lemma_trim_start_drop_last(s);
    let u = trim_start(s);
    if u.len() == 0 {
        assert(trim(s.drop_last()) =~= trim(s));
    }
}

/// A line ended by a carriage return and a line feed is read without either.
pub proof fn lemma_lines_crlf(x: Seq<char>)
    requires
        forall|i: int| 0 <= i < x.len() ==> x[i] != '\n',
    ensures
        lines(x + seq!['\r', '\n']) == seq![x],
{
    let y = x.push('\r');
    assert(x + seq!['\r', '\n'] =~= y + seq!['\n']);
    lemma_lines_single(y);
    assert(y.drop_last() =~= x);
}

} // verus!
