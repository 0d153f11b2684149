//! Facts that users propose for the meaning database, kept pending until
//! someone approves them.

use crate::text::{chars_of, str_equal, string_of, trim, trim_range};
use vstd::prelude::*;

verus! {

/// A proposed fact, waiting for approval.
#[derive(Debug, Clone)]
pub struct PendingFact {
    pub id: String,
    pub tag: String,
    pub value: String,
    pub created_at: String,
}

/// The pending fact that a proposal of `tag` with `value` makes, under the
/// given id and time: none where the tag or the value is blank; both are
/// stored trimmed.
pub fn propose_fact(tag: &str, value: &str, id: String, created_at: String) -> (r: Option<
    PendingFact,
>)
    ensures
        r is Some <==> (trim(tag@).len() > 0 && trim(value@).len() > 0),
        r matches Some(p) ==> {
            &&& p.tag@ == trim(tag@)
            &&& p.value@ == trim(value@)
            &&& p.id == id
            &&& p.created_at == created_at
        },
{
    let t = chars_of(tag);
    let v = chars_of(value);
    let (ta, tb) = trim_range(&t, 0, t.len());
    let (va, vb) = trim_range(&v, 0, v.len());
    assert(t@.subrange(0, t.len() as int) =~= t@);
    assert(v@.subrange(0, v.len() as int) =~= v@);
    if ta == tb || va == vb {
        return None;
    }
    Some(
        PendingFact {
            id,
            tag: string_of(&t, ta, tb),
            value: string_of(&v, va, vb),
            created_at,
        },
    )
}

/// `k` is the position of the first pending fact with id `id`.
pub open spec fn first_with_id(items: Seq<PendingFact>, id: Seq<char>, k: int) -> bool {
    &&& 0 <= k < items.len()
    &&& items[k].id@ == id
    &&& forall|j: int| 0 <= j < k ==> items[j].id@ != id
}

/// Takes out the first pending fact with id `id`, keeping the others in
/// order; where there is none, leaves the list as it was.
pub fn take_pending(items: &mut Vec<PendingFact>, id: &str) -> (r: Option<PendingFact>)
    ensures
        match r {
            Some(p) => exists|k: int|
                first_with_id(old(items)@, id@, k) && p == old(items)@[k] && final(items)@
                    == old(items)@.remove(k),
            None => {
                &&& forall|j: int| 0 <= j < old(items)@.len() ==> old(items)@[j].id@ != id@
                &&& final(items)@ == old(items)@
            },
        },
{
    let n = items.len();
    let mut i: usize = 0;
    while i < n
        invariant
            n == items.len(),
            items@ == old(items)@,
            i <= n,
            forall|j: int| 0 <= j < i ==> items@[j].id@ != id@,
        decreases n - i,
    {
        if str_equal(items[i].id.as_str(), id) {
            assert(first_with_id(old(items)@, id@, i as int));
            let p = items.remove(i);
            return Some(p);
        }
        i = i + 1;
    }
    None
}

/// A fact just proposed, under an id that no pending fact has, is the one
/// that approving that id takes out, and the others stay as they were.
pub proof fn lemma_approve_after_propose(items: Seq<PendingFact>, p: PendingFact)
    requires
        forall|j: int| 0 <= j < items.len() ==> items[j].id@ != p.id@,
    ensures
        first_with_id(items.push(p), p.id@, items.len() as int),
        forall|k: int| first_with_id(items.push(p), p.id@, k) ==> k == items.len(),
        items.push(p)[items.len() as int] == p,
        items.push(p).remove(items.len() as int) == items,
{
    assert(items.push(p).remove(items.len() as int) =~= items);
}

/// Approving takes out one fact: there is at most one first fact with an id,
/// and every fact before it has another id.
pub proof fn lemma_first_with_id_unique(items: Seq<PendingFact>, id: Seq<char>, k1: int, k2: int)
    requires
        first_with_id(items, id, k1),
        first_with_id(items, id, k2),
    ensures
        k1 == k2,
        items[k1].id@ == id,
        forall|j: int| 0 <= j < k1 ==> items[j].id@ != id,
{
    if k1 < k2 {
        assert(items[k1].id@ != id);
    } else if k2 < k1 {
        assert(items[k2].id@ != id);
    }
}

} // verus!
