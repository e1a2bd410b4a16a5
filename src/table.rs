//! Tables of records keyed by a server-assigned integer id.

use vstd::prelude::*;

verus! {

/// A record with an integer id.
pub trait Keyed {
    spec fn key(&self) -> i64;

    fn id(&self) -> (r: i64)
        ensures
            r == self.key(),
    ;
}

/// The position of the last record among the first `n` whose id is `id`, or -1.
pub open spec fn index_upto<R: Keyed>(s: Seq<R>, id: i64, n: int) -> int
    decreases n,
{
    if n <= 0 {
        -1
    } else if s[n - 1].key() == id {
        n - 1
    } else {
        index_upto(s, id, n - 1)
    }
}

/// The position of the record whose id is `id`, or -1 where there is none.
pub open spec fn index_of<R: Keyed>(s: Seq<R>, id: i64) -> int {
    index_upto(s, id, s.len() as int)
}

/// Some record of the table has id `id`.
pub open spec fn has_key<R: Keyed>(s: Seq<R>, id: i64) -> bool {
    exists|i: int| 0 <= i < s.len() && #[trigger] s[i].key() == id
}

/// No two records of the table share an id.
pub open spec fn keys_unique<R: Keyed>(s: Seq<R>) -> bool {
    forall|i: int, j: int| 0 <= i < s.len() && 0 <= j < s.len() && #[trigger] s[i].key() == #[trigger] s[j].key() ==> i == j
}

/// Every id of the table is below `bound`.
pub open spec fn keys_below<R: Keyed>(s: Seq<R>, bound: int) -> bool {
    forall|i: int| 0 <= i < s.len() ==> #[trigger] s[i].key() < bound
}

proof fn lemma_index_upto<R: Keyed>(s: Seq<R>, id: i64, n: int)
    requires
        0 <= n <= s.len(),
    ensures
        -1 <= index_upto(s, id, n) < n,
        index_upto(s, id, n) >= 0 ==> s[index_upto(s, id, n)].key() == id,
        index_upto(s, id, n) == -1 ==> forall|i: int| 0 <= i < n ==> #[trigger] s[i].key() != id,
    decreases n,
{
    if n > 0 {
        lemma_index_upto(s, id, n - 1);
    }
}

/// What `index_of` says: the position holds the id, and -1 means that no record has it.
pub proof fn lemma_index_of<R: Keyed>(s: Seq<R>, id: i64)
    ensures
        -1 <= index_of(s, id) < s.len(),
        index_of(s, id) >= 0 ==> s[index_of(s, id)].key() == id,
        index_of(s, id) == -1 <==> !has_key(s, id),
{
    lemma_index_upto(s, id, s.len() as int);
}

/// Adding a record keeps every id that was there, and adds its own.
pub proof fn lemma_has_key_push<R: Keyed>(s: Seq<R>, r: R)
    ensures
        forall|id: i64| has_key(s, id) ==> has_key(s.push(r), id),
        has_key(s.push(r), r.key()),
{
    assert forall|id: i64| has_key(s, id) implies has_key(s.push(r), id) by {
        let j = choose|j: int| 0 <= j < s.len() && #[trigger] s[j].key() == id;
        assert(s.push(r)[j] == s[j]);
    }
    assert(s.push(r)[s.len() as int] == r);
}

/// Replacing a record by one with the same id keeps the set of ids.
pub proof fn lemma_has_key_update<R: Keyed>(s: Seq<R>, i: int, r: R)
    requires
        0 <= i < s.len(),
        r.key() == s[i].key(),
    ensures
        forall|id: i64| has_key(s.update(i, r), id) == has_key(s, id),
{
    assert forall|id: i64| has_key(s.update(i, r), id) == has_key(s, id) by {
        if has_key(s, id) {
            let j = choose|j: int| 0 <= j < s.len() && #[trigger] s[j].key() == id;
            assert(s.update(i, r)[j].key() == id);
        }
        if has_key(s.update(i, r), id) {
            let j = choose|j: int| 0 <= j < s.len() && #[trigger] s.update(i, r)[j].key() == id;
            assert(s[j].key() == id);
        }
    }
}

/// Removing a record keeps every other id.
pub proof fn lemma_has_key_remove<R: Keyed>(s: Seq<R>, i: int)
    requires
        0 <= i < s.len(),
    ensures
        forall|id: i64| has_key(s, id) && id != s[i].key() ==> has_key(s.remove(i), id),
{
    assert forall|id: i64| has_key(s, id) && id != s[i].key() implies has_key(s.remove(i), id) by {
        let j = choose|j: int| 0 <= j < s.len() && #[trigger] s[j].key() == id;
        if j < i {
            assert(s.remove(i)[j] == s[j]);
        } else {
            assert(j > i);
            assert(s.remove(i)[j - 1] == s[j]);
        }
    }
}

/// Adding a record with the id `bound` keeps the ids unique, and below `bound + 1`.
pub proof fn lemma_push_fresh<R: Keyed>(s: Seq<R>, r: R, bound: int)
    requires
        keys_unique(s),
        keys_below(s, bound),
        r.key() == bound,
    ensures
        keys_unique(s.push(r)),
        keys_below(s.push(r), bound + 1),
{
    let t = s.push(r);
    assert forall|i: int, j: int| 0 <= i < t.len() && 0 <= j < t.len() && #[trigger] t[i].key() == #[trigger] t[j].key() implies i == j by {
        if i < s.len() && j < s.len() {
            assert(t[i] == s[i] && t[j] == s[j]);
        } else if i < s.len() {
            assert(t[i] == s[i]);
        } else if j < s.len() {
            assert(t[j] == s[j]);
        }
    }
    assert forall|i: int| 0 <= i < t.len() implies #[trigger] t[i].key() < bound + 1 by {
        if i < s.len() {
            assert(t[i] == s[i]);
        }
    }
}

/// Adding a record whose id is absent and below `bound` keeps the ids unique and below `bound`.
pub proof fn lemma_push_absent<R: Keyed>(s: Seq<R>, r: R, bound: int)
    requires
        keys_unique(s),
        keys_below(s, bound),
        !has_key(s, r.key()),
        r.key() < bound,
    ensures
        keys_unique(s.push(r)),
        keys_below(s.push(r), bound),
{
    let t = s.push(r);
    assert forall|i: int, j: int| 0 <= i < t.len() && 0 <= j < t.len() && #[trigger] t[i].key() == #[trigger] t[j].key() implies i == j by {
        if i < s.len() && j < s.len() {
            assert(t[i] == s[i] && t[j] == s[j]);
        } else if i < s.len() {
            assert(t[i] == s[i]);
        } else if j < s.len() {
            assert(t[j] == s[j]);
        }
    }
    assert forall|i: int| 0 <= i < t.len() implies #[trigger] t[i].key() < bound by {
        if i < s.len() {
            assert(t[i] == s[i]);
        }
    }
}

/// Replacing a record by one with the same id keeps the ids as they were.
pub proof fn lemma_update_same_key<R: Keyed>(s: Seq<R>, i: int, r: R, bound: int)
    requires
        keys_unique(s),
        keys_below(s, bound),
        0 <= i < s.len(),
        r.key() == s[i].key(),
    ensures
        keys_unique(s.update(i, r)),
        keys_below(s.update(i, r), bound),
        forall|id: i64| index_of(s.update(i, r), id) == index_of(s, id),
{
    let t = s.update(i, r);
    assert forall|a: int, b: int| 0 <= a < t.len() && 0 <= b < t.len() && #[trigger] t[a].key() == #[trigger] t[b].key() implies a == b by {
        assert(t[a].key() == s[a].key());
        assert(t[b].key() == s[b].key());
    }
    assert forall|a: int| 0 <= a < t.len() implies #[trigger] t[a].key() < bound by {
        assert(t[a].key() == s[a].key());
    }
    assert forall|id: i64| index_of(s.update(i, r), id) == index_of(s, id) by {
        lemma_index_upto_update(s, i, r, id, s.len() as int);
    }
}

/// Replacing a record by one with the same id moves no id.
pub proof fn lemma_index_of_update<R: Keyed>(s: Seq<R>, i: int, r: R, id: i64)
    requires
        0 <= i < s.len(),
        r.key() == s[i].key(),
    ensures
        index_of(s.update(i, r), id) == index_of(s, id),
{
    lemma_index_upto_update(s, i, r, id, s.len() as int);
}

proof fn lemma_index_upto_update<R: Keyed>(s: Seq<R>, i: int, r: R, id: i64, n: int)
    requires
        0 <= i < s.len(),
        0 <= n <= s.len(),
        r.key() == s[i].key(),
    ensures
        index_upto(s.update(i, r), id, n) == index_upto(s, id, n),
    decreases n,
{
    if n > 0 {
        lemma_index_upto_update(s, i, r, id, n - 1);
        assert(s.update(i, r)[n - 1].key() == s[n - 1].key());
    }
}

/// Removing a record keeps the other ids unique and below the bound.
pub proof fn lemma_remove_keys<R: Keyed>(s: Seq<R>, i: int, bound: int)
    requires
        keys_unique(s),
        keys_below(s, bound),
        0 <= i < s.len(),
    ensures
        keys_unique(s.remove(i)),
        keys_below(s.remove(i), bound),
        !has_key(s.remove(i), s[i].key()),
{
    let t = s.remove(i);
    assert forall|a: int, b: int| 0 <= a < t.len() && 0 <= b < t.len() && #[trigger] t[a].key() == #[trigger] t[b].key() implies a == b by {
        let a2 = if a < i { a } else { a + 1 };
        let b2 = if b < i { b } else { b + 1 };
        assert(t[a] == s[a2]);
        assert(t[b] == s[b2]);
    }
    assert forall|a: int| 0 <= a < t.len() implies #[trigger] t[a].key() < bound by {
        let a2 = if a < i { a } else { a + 1 };
        assert(t[a] == s[a2]);
    }
    assert forall|a: int| 0 <= a < t.len() implies #[trigger] t[a].key() != s[i].key() by {
        let a2 = if a < i { a } else { a + 1 };
        assert(t[a] == s[a2]);
    }
}

/// Finds the position of the record with id `id`.
pub fn find<R: Keyed>(v: &Vec<R>, id: i64) -> (r: Option<usize>)
    ensures
        match r {
            Some(i) => i as int == index_of(v@, id),
            None => index_of(v@, id) == -1,
        },
{
    proof {
        lemma_index_of(v@, id);
    }
    let mut n = v.len();
    while n > 0
        invariant
            n <= v@.len(),
            index_of(v@, id) == index_upto(v@, id, n as int),
        decreases n,
    {
        if v[n - 1].id() == id {
            return Some(n - 1);
        }
        n = n - 1;
    }
    None
}

} // verus!
