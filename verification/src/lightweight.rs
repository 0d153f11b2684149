//! The lightweight fast path: the meaning database (tag to required meaning),
//! the verifier that holds a payload to the meaning of its tag, and the text
//! formats in which meanings and their log records are written.

use crate::text::{contains_str, contains_text, lemma_contains_text_iff, occurs_at, str_equal};
use vstd::prelude::*;

verus! {

/// The map that a list of (tag, meaning) pairs describes: a later pair for a
/// tag replaces an earlier one.
pub open spec fn pairs_map(s: Seq<(Seq<char>, Seq<char>)>) -> Map<Seq<char>, Seq<char>>
    decreases s.len(),
{
    if s.len() == 0 {
        Map::empty()
    } else {
        pairs_map(s.drop_last()).insert(s.last().0, s.last().1)
    }
}

/// A pair of strings as a pair of texts.
pub open spec fn pair_view(p: (String, String)) -> (Seq<char>, Seq<char>) {
    (p.0@, p.1@)
}

/// A list of string pairs as a list of text pairs.
pub open spec fn pairs_view(v: Seq<(String, String)>) -> Seq<(Seq<char>, Seq<char>)> {
    v.map_values(|p: (String, String)| pair_view(p))
}

/// A tag is in the map of a pair list exactly where some pair has it.
pub proof fn lemma_pairs_map_dom(s: Seq<(Seq<char>, Seq<char>)>, k: Seq<char>)
    ensures
        pairs_map(s).dom().contains(k) <==> exists|i: int| 0 <= i < s.len() && #[trigger] s[i].0 == k,
    decreases s.len(),
{
    if s.len() > 0 {
        lemma_pairs_map_dom(s.drop_last(), k);
        if pairs_map(s.drop_last()).dom().contains(k) {
            let i = choose|i: int| 0 <= i < s.drop_last().len() && #[trigger] s.drop_last()[i].0 == k;
            assert(s[i].0 == k);
        }
        if exists|i: int| 0 <= i < s.len() && #[trigger] s[i].0 == k {
            let i = choose|i: int| 0 <= i < s.len() && #[trigger] s[i].0 == k;
            if i < s.len() - 1 {
                assert(s.drop_last()[i].0 == k);
            }
        }
    }
}

/// No tag occurs twice in a pair list.
pub open spec fn distinct_tags(s: Seq<(Seq<char>, Seq<char>)>) -> bool {
    forall|i: int, j: int| 0 <= i < j < s.len() ==> s[i].0 != s[j].0
}

/// Where tags are distinct, the map gives each pair's tag that pair's meaning.
pub proof fn lemma_pairs_map_at(s: Seq<(Seq<char>, Seq<char>)>, i: int)
    requires
        distinct_tags(s),
        0 <= i < s.len(),
    ensures
        pairs_map(s).dom().contains(s[i].0),
        pairs_map(s)[s[i].0] == s[i].1,
    decreases s.len(),
{
    if i < s.len() - 1 {
        lemma_pairs_map_at(s.drop_last(), i);
    }
}

/// Replacing the meaning of a pair whose tag occurs once replaces it in the map.
proof fn lemma_pairs_map_update(
    s: Seq<(Seq<char>, Seq<char>)>,
    i: int,
    p: (Seq<char>, Seq<char>),
)
    requires
        distinct_tags(s),
        0 <= i < s.len(),
        s[i].0 == p.0,
    ensures
        pairs_map(s.update(i, p)) == pairs_map(s).insert(p.0, p.1),
    decreases s.len(),
{
    let u = s.update(i, p);
    if i == s.len() - 1 {
        assert(u.drop_last() =~= s.drop_last());
        assert(pairs_map(u) =~= pairs_map(s).insert(p.0, p.1));
    } else {
        assert(u.drop_last() =~= s.drop_last().update(i, p));
        lemma_pairs_map_update(s.drop_last(), i, p);
        assert(s.last().0 != p.0);
        assert(pairs_map(u) =~= pairs_map(s).insert(p.0, p.1));
    }
}

/// The map of a longer prefix of a pair list.
proof fn lemma_pairs_map_take_succ(s: Seq<(Seq<char>, Seq<char>)>, i: int)
    requires
        0 <= i < s.len(),
    ensures
        pairs_map(s.take(i + 1)) == pairs_map(s.take(i)).insert(s[i].0, s[i].1),
{
    assert(s.take(i + 1).drop_last() =~= s.take(i));
}

/// The meaning database: for each tag the meaning that a payload under that
/// tag must contain.
#[derive(Debug)]
pub struct MeaningDb {
    meanings: Vec<(String, String)>,
}

impl View for MeaningDb {
    type V = Map<Seq<char>, Seq<char>>;

    closed spec fn view(&self) -> Map<Seq<char>, Seq<char>> {
        pairs_map(pairs_view(self.meanings@))
    }
}

impl Clone for MeaningDb {
    fn clone(&self) -> (r: Self)
        ensures
            r@ == self@,
    {
        proof {
            use_type_invariant(self);
        }
        let n = self.meanings.len();
        let mut copy: Vec<(String, String)> = Vec::new();
        let mut i: usize = 0;
        while i < n
            invariant
                n == self.meanings.len(),
                i <= n,
                pairs_view(copy@) == pairs_view(self.meanings@).take(i as int),
            decreases n - i,
        {
            let tag = self.meanings[i].0.clone();
            let meaning = self.meanings[i].1.clone();
            let ghost before = copy@;
            copy.push((tag, meaning));
            assert(pairs_view(copy@) =~= pairs_view(before).push(pair_view(self.meanings@[i as int])));
            assert(pairs_view(self.meanings@).take(i + 1) =~= pairs_view(self.meanings@).take(
                i as int,
            ).push(pair_view(self.meanings@[i as int])));
            i = i + 1;
        }
        assert(pairs_view(self.meanings@).take(n as int) =~= pairs_view(self.meanings@));
        MeaningDb { meanings: copy }
    }
}

impl MeaningDb {
    /// Each tag is stored once.
    #[verifier::type_invariant]
    closed spec fn tags_unique(self) -> bool {
        distinct_tags(pairs_view(self.meanings@))
    }

    /// A database holding the given (tag, meaning) pairs; where a tag occurs
    /// more than once, its last meaning holds.
    pub fn new(meanings: Vec<(String, String)>) -> (db: Self)
        ensures
            db@ == pairs_map(pairs_view(meanings@)),
    {
        let mut db = MeaningDb { meanings: Vec::new() };
        assert(db@ =~= Map::empty());
        db.merge(&meanings);
        assert(Map::<Seq<char>, Seq<char>>::empty().union_prefer_right(
            pairs_map(pairs_view(meanings@)),
        ) =~= pairs_map(pairs_view(meanings@)));
        db
    }

    /// Sets the meaning of `tag`, replacing any meaning it had.
    pub fn insert(&mut self, tag: String, meaning: String)
        ensures
            final(self)@ == old(self)@.insert(tag@, meaning@),
    {
        proof {
            use_type_invariant(&*self);
        }
        let ghost start = self@;
        let mut entries: Vec<(String, String)> = Vec::new();
        std::mem::swap(&mut entries, &mut self.meanings);
        let ghost old_pairs = pairs_view(entries@);
        assert(start == pairs_map(old_pairs));
        let n = entries.len();
        let mut i: usize = 0;
        while i < n
            invariant
                n == entries.len(),
                old_pairs == pairs_view(entries@),
                start == pairs_map(old_pairs),
                start == old(self)@,
                distinct_tags(old_pairs),
                i <= n,
                forall|j: int| 0 <= j < i ==> entries@[j].0@ != tag@,
            decreases n - i,
        {
            if str_equal(entries[i].0.as_str(), tag.as_str()) {
                proof {
                    lemma_pairs_map_update(old_pairs, i as int, (tag@, meaning@));
                }
                entries.set(i, (tag, meaning));
                proof {
                    let np = pairs_view(entries@);
                    assert(np =~= old_pairs.update(i as int, (tag@, meaning@)));
                    assert forall|a: int, b: int| 0 <= a < b < np.len() implies np[a].0
                        != np[b].0 by {
                        assert(old_pairs[a].0 != old_pairs[b].0);
                    }
                }
                self.meanings = entries;
                return ;
            }
            i = i + 1;
        }
        entries.push((tag, meaning));
        proof {
            assert(pairs_view(entries@) =~= old_pairs.push((tag@, meaning@)));
            assert(pairs_view(entries@).drop_last() =~= old_pairs);
            assert(distinct_tags(pairs_view(entries@)));
        }
        self.meanings = entries;
    }

    /// Adds the given (tag, meaning) pairs; each replaces the meaning its tag
    /// had, and a later pair replaces an earlier one.
    pub fn merge(&mut self, meanings: &Vec<(String, String)>)
        ensures
            final(self)@ == old(self)@.union_prefer_right(pairs_map(pairs_view(meanings@))),
    {
        let ghost start = self@;
        let ghost pv = pairs_view(meanings@);
        let n = meanings.len();
        let mut i: usize = 0;
        assert(pv.take(0) =~= Seq::<(Seq<char>, Seq<char>)>::empty());
        assert(start.union_prefer_right(pairs_map(pv.take(0))) =~= start);
        while i < n
            invariant
                n == meanings.len(),
                pv == pairs_view(meanings@),
                i <= n,
                self@ == start.union_prefer_right(pairs_map(pv.take(i as int))),
            decreases n - i,
        {
            let tag = meanings[i].0.clone();
            let meaning = meanings[i].1.clone();
            self.insert(tag, meaning);
            proof {
                lemma_pairs_map_take_succ(pv, i as int);
                assert(self@ =~= start.union_prefer_right(pairs_map(pv.take(i + 1))));
            }
            i = i + 1;
        }
        assert(pv.take(n as int) =~= pv);
    }

    /// The meaning that a payload under `tag` must contain, if `tag` has one.
    pub fn meaning_for(&self, tag: &str) -> (r: Option<&str>)
        ensures
            r is Some <==> self@.dom().contains(tag@),
            r matches Some(m) ==> m@ == self@[tag@],
    {
        proof {
            use_type_invariant(self);
        }
        let n = self.meanings.len();
        let mut i: usize = 0;
        while i < n
            invariant
                n == self.meanings.len(),
                distinct_tags(pairs_view(self.meanings@)),
                i <= n,
                forall|j: int| 0 <= j < i ==> self.meanings@[j].0@ != tag@,
            decreases n - i,
        {
            if str_equal(self.meanings[i].0.as_str(), tag) {
                proof {
                    lemma_pairs_map_at(pairs_view(self.meanings@), i as int);
                }
                return Some(self.meanings[i].1.as_str());
            }
            i = i + 1;
        }
        proof {
            lemma_pairs_map_dom(pairs_view(self.meanings@), tag@);
            assert forall|j: int| 0 <= j < n implies #[trigger] pairs_view(self.meanings@)[j].0
                != tag@ by {}
        }
        None
    }
}

/// A payload under `tag` passes where `tag` has no meaning, or where the
/// payload contains the meaning of `tag`.
pub open spec fn payload_passes(
    meanings: Map<Seq<char>, Seq<char>>,
    tag: Seq<char>,
    payload: Seq<char>,
) -> bool {
    meanings.dom().contains(tag) ==> contains_text(payload, meanings[tag])
}

/// A payload that carries the meaning of its tag passes, whatever text
/// surrounds the meaning; under a tag without a meaning every payload passes.
pub proof fn lemma_payload_with_meaning_passes(
    meanings: Map<Seq<char>, Seq<char>>,
    tag: Seq<char>,
    before: Seq<char>,
    after: Seq<char>,
)
    ensures
        meanings.dom().contains(tag) ==> payload_passes(
            meanings,
            tag,
            before + meanings[tag] + after,
        ),
        !meanings.dom().contains(tag) ==> forall|payload: Seq<char>|
            payload_passes(meanings, tag, payload),
{
    if meanings.dom().contains(tag) {
        let m = meanings[tag];
        let p = before + m + after;
        assert(p.subrange(before.len() as int, before.len() + m.len() as int) =~= m);
        assert(occurs_at(p, m, before.len() as int));
    }
}

/// A payload passes exactly where its tag has no meaning, or where it is some
/// text, then the meaning of its tag, then some text: a payload that lacks the
/// meaning never passes, whatever else it holds.
pub proof fn lemma_passing_is_containment(
    meanings: Map<Seq<char>, Seq<char>>,
    tag: Seq<char>,
    payload: Seq<char>,
)
    ensures
        !meanings.dom().contains(tag) ==> payload_passes(meanings, tag, payload),
        meanings.dom().contains(tag) ==> (payload_passes(meanings, tag, payload) <==> exists|
            pre: Seq<char>,
            post: Seq<char>,
        | payload == pre + meanings[tag] + post),
        meanings.dom().contains(tag) && meanings[tag].len() > payload.len() ==> !payload_passes(
            meanings,
            tag,
            payload,
        ),
{
    if meanings.dom().contains(tag) {
        lemma_contains_text_iff(payload, meanings[tag]);
    }
}

/// Each tag has the meaning of the last pair that names it.
pub proof fn lemma_pairs_map_last(s: Seq<(Seq<char>, Seq<char>)>, i: int)
    requires
        0 <= i < s.len(),
        forall|j: int| i < j < s.len() ==> s[j].0 != s[i].0,
    ensures
        pairs_map(s).dom().contains(s[i].0),
        pairs_map(s)[s[i].0] == s[i].1,
    decreases s.len(),
{
    if i < s.len() - 1 {
        lemma_pairs_map_last(s.drop_last(), i);
    }
}

/// Holds payloads to the meaning database, and tells the caller when a
/// connection has sent a payload that contradicts it.
#[derive(Debug, Clone)]
pub struct Verifier {
    meaning_db: MeaningDb,
}

impl View for Verifier {
    type V = Map<Seq<char>, Seq<char>>;

    closed spec fn view(&self) -> Map<Seq<char>, Seq<char>> {
        self.meaning_db@
    }
}

impl Verifier {
    /// A verifier that goes by `meaning_db`.
    pub fn new(meaning_db: MeaningDb) -> (v: Self)
        ensures
            v@ == meaning_db@,
    {
        Verifier { meaning_db }
    }

    /// Whether the connection that sent `payload` under `tag` may stay open:
    /// `true` where `tag` has no meaning or `payload` contains it; on `false`
    /// the caller shuts the connection down.
    pub fn verify_or_disconnect(&self, tag: &str, payload: &str) -> (keep: bool)
        ensures
            keep == payload_passes(self@, tag@, payload@),
    {
        match self.meaning_db.meaning_for(tag) {
            Some(required) => contains_str(payload, required),
            None => true,
        }
    }
}

} // verus!
