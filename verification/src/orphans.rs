//! The order in which sessions left behind by closed windows are offered for
//! restoring: oldest first by the time their file last changed, then by id.

use vstd::prelude::*;
use crate::hotexit::SessionState;

verus! {

broadcast use vstd::seq_lib::group_to_multiset_ensures;

/// A session found on disk: when its file last changed (nanoseconds from the
/// Unix epoch, negative before it), its id, and what it holds.
pub type FoundSession = (i128, u64, SessionState);

pub open spec fn key_of(e: FoundSession) -> (i128, u64) {
    (e.0, e.1)
}

/// The order of `(modified, id)` pairs: by time, then by id.
pub open spec fn key_le(a: (i128, u64), b: (i128, u64)) -> bool {
    a.0 < b.0 || (a.0 == b.0 && a.1 <= b.1)
}

fn key_le_exec(a: (i128, u64), b: (i128, u64)) -> (r: bool)
    ensures
        r == key_le(a, b),
{
    a.0 < b.0 || (a.0 == b.0 && a.1 <= b.1)
}

/// Where a stable insertion of key `k` goes: after every leading entry
/// whose key is at most `k`.
pub open spec fn insert_pos(s: Seq<FoundSession>, k: (i128, u64)) -> nat
    decreases s.len(),
{
    if s.len() == 0 {
        0
    } else if key_le(key_of(s[0]), k) {
        1 + insert_pos(s.drop_first(), k)
    } else {
        0
    }
}

/// `s` sorted by key, entries with equal keys in the order they had in `s`:
/// each entry in turn goes after all earlier ones whose key is at most its own.
pub open spec fn stable_sort(s: Seq<FoundSession>) -> Seq<FoundSession>
    decreases s.len(),
{
    if s.len() == 0 {
        s
    } else {
        let t = stable_sort(s.drop_last());
        t.insert(insert_pos(t, key_of(s.last())) as int, s.last())
    }
}

pub open spec fn sorted_by_key(s: Seq<FoundSession>) -> bool {
    forall|i: int, j: int| 0 <= i < j < s.len() ==> key_le(key_of(#[trigger] s[i]), key_of(#[trigger] s[j]))
}

pub open spec fn id_and_state(e: FoundSession) -> (u64, SessionState) {
    (e.1, e.2)
}

proof fn lemma_insert_pos(s: Seq<FoundSession>, k: (i128, u64))
    ensures
        insert_pos(s, k) <= s.len(),
        forall|q: int| 0 <= q < insert_pos(s, k) ==> key_le(key_of(#[trigger] s[q]), k),
        insert_pos(s, k) < s.len() ==> !key_le(key_of(s[insert_pos(s, k) as int]), k),
    decreases s.len(),
{
    if s.len() > 0 && key_le(key_of(s[0]), k) {
        let t = s.drop_first();
        lemma_insert_pos(t, k);
        assert forall|q: int| 0 <= q < insert_pos(s, k) implies key_le(key_of(#[trigger] s[q]), k) by {
            if q > 0 {
                assert(s[q] == t[q - 1]);
            }
        }
        if insert_pos(s, k) < s.len() {
            assert(s[insert_pos(s, k) as int] == t[insert_pos(t, k) as int]);
        }
    }
}

/// Law: the order is sorted by `(modified, id)` and holds exactly the
/// sessions that were found.
pub proof fn lemma_stable_sort_sorted_permutation(s: Seq<FoundSession>)
    ensures
        sorted_by_key(stable_sort(s)),
        stable_sort(s).to_multiset() == s.to_multiset(),
        stable_sort(s).len() == s.len(),
    decreases s.len(),
{
    if s.len() > 0 {
        let rest = s.drop_last();
        let e = s.last();
        lemma_stable_sort_sorted_permutation(rest);
        let t = stable_sort(rest);
        let k = key_of(e);
        let p = insert_pos(t, k) as int;
        lemma_insert_pos(t, k);
        let u = t.insert(p, e);
        assert(u == stable_sort(s));
        assert forall|i: int, j: int| 0 <= i < j < u.len() implies key_le(key_of(#[trigger] u[i]), key_of(#[trigger] u[j])) by {
            if i < p && j < p {
                assert(u[i] == t[i] && u[j] == t[j]);
            } else if i < p && j == p {
                assert(u[i] == t[i]);
            } else if i < p {
                assert(u[i] == t[i] && u[j] == t[j - 1]);
            } else if i == p {
                assert(u[j] == t[j - 1]);
                assert(key_le(key_of(t[p]), key_of(t[j - 1])));
            } else {
                assert(u[i] == t[i - 1] && u[j] == t[j - 1]);
            }
        }
        assert(u.remove(p) =~= t);
        assert(u[p] == e);
        assert(u.to_multiset().remove(e) == t.to_multiset());
        assert(u.to_multiset().count(e) > 0);
        assert(u.to_multiset() =~= t.to_multiset().insert(e));
        assert(rest.push(e) =~= s);
    }
}

/// The sessions found, oldest first by the time their file last changed,
/// then by id; sessions with equal keys keep the order they were found in.
pub fn order_orphaned_sessions(found: Vec<FoundSession>) -> (r: Vec<(u64, SessionState)>)
    ensures
        r@ == stable_sort(found@).map_values(|e: FoundSession| id_and_state(e)),
{
    let mut found = found;
    let ghost orig = found@;
    let mut keys: Vec<(i128, u64)> = Vec::new();
    let mut out: Vec<(u64, SessionState)> = Vec::new();
    let ghost mut sorted: Seq<FoundSession> = Seq::empty();
    let ghost mut i: int = 0;
    while found.len() > 0
        invariant
            0 <= i <= orig.len(),
            found@ == orig.skip(i),
            sorted == stable_sort(orig.take(i)),
            keys@ == sorted.map_values(|e: FoundSession| key_of(e)),
            out@ == sorted.map_values(|e: FoundSession| id_and_state(e)),
        decreases found@.len(),
    {
        let e = found.remove(0);
        assert(e == orig[i]);
        let k: (i128, u64) = (e.0, e.1);
        let mut p: usize = 0;
        assert(sorted.skip(0) =~= sorted);
        while p < keys.len() && key_le_exec(keys[p], k)
            invariant
                keys@ == sorted.map_values(|e: FoundSession| key_of(e)),
                p <= keys@.len(),
                insert_pos(sorted, k) == p + insert_pos(sorted.skip(p as int), k),
            decreases keys@.len() - p,
        {
            assert(sorted.skip(p as int)[0] == sorted[p as int]);
            assert(sorted.skip(p as int).drop_first() =~= sorted.skip(p + 1));
            p = p + 1;
        }
        proof {
            if p < keys@.len() {
                assert(sorted.skip(p as int)[0] == sorted[p as int]);
            }
        }
        let (m, id, state) = e;
        keys.insert(p, (m, id));
        out.insert(p, (id, state));
        proof {
            let old_sorted = sorted;
            assert(orig.take(i + 1).drop_last() =~= orig.take(i));
            assert(orig.take(i + 1).last() == e);
            sorted = old_sorted.insert(p as int, e);
            assert(keys@ =~= sorted.map_values(|e: FoundSession| key_of(e)));
            assert(out@ =~= sorted.map_values(|e: FoundSession| id_and_state(e)));
            assert(found@ =~= orig.skip(i + 1));
            i = i + 1;
        }
    }
    assert(orig.take(i) =~= orig);
    out
}

} // verus!
