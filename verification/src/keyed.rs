//! Vectors kept in strictly increasing order of a text key, walked in the
//! order in which a `BTreeMap<String, _>` walks its keys.

use vstd::prelude::*;

use crate::text::{
    lemma_text_lt_irreflexive, lemma_text_lt_transitive, lemma_text_lt_trichotomy, str_eq, str_lt,
    text_lt,
};

verus! {

/// An entry of a table kept in key order.
pub trait Keyed {
    /// The text under which the entry is kept.
    spec fn key_of(&self) -> Seq<char>;

    /// The entry's key.
    fn key(&self) -> (r: &str)
        ensures
            r@ == self.key_of(),
    ;
}

/// Entries in strictly increasing key order, so no key twice.
pub open spec fn keys_sorted<T: Keyed>(s: Seq<T>) -> bool {
    forall|i: int, j: int| 0 <= i < j < s.len() ==> text_lt(#[trigger] s[i].key_of(), #[trigger] s[j].key_of())
}

/// Whether some entry of `s` has key `k`.
pub open spec fn has_key<T: Keyed>(s: Seq<T>, k: Seq<char>) -> bool {
    exists|j: int| 0 <= j < s.len() && #[trigger] s[j].key_of() == k
}

/// Where key `k` stands or would stand in the sorted entries `v`: the
/// position, and whether the entry there has that key.
pub fn locate<T: Keyed>(v: &Vec<T>, k: &str) -> (r: (usize, bool))
    requires
        keys_sorted(v@),
    ensures
        r.0 <= v@.len(),
        forall|t: int| 0 <= t < r.0 ==> text_lt(#[trigger] v@[t].key_of(), k@),
        r.1 == (r.0 < v@.len() && v@[r.0 as int].key_of() == k@),
        r.1 == has_key(v@, k@),
        r.1 ==> forall|j: int| 0 <= j < v@.len() && #[trigger] v@[j].key_of() == k@ ==> j == r.0,
        !r.1 ==> forall|t: int| r.0 <= t < v@.len() ==> text_lt(k@, #[trigger] v@[t].key_of()),
{
    let n = v.len();
    let mut i: usize = 0;
    while i < n && str_lt(v[i].key(), k)
        invariant
            i <= n,
            n == v@.len(),
            forall|t: int| 0 <= t < i ==> text_lt(#[trigger] v@[t].key_of(), k@),
        decreases n - i,
    {
        i = i + 1;
    }
    let found = i < n && str_eq(v[i].key(), k);
    proof {
        lemma_text_lt_irreflexive(k@);
        if found {
            assert forall|j: int| 0 <= j < v@.len() && #[trigger] v@[j].key_of() == k@ implies j
                == i by {
                if j < i {
                    assert(text_lt(v@[j].key_of(), k@));
                } else if j > i {
                    assert(text_lt(v@[i as int].key_of(), v@[j].key_of()));
                }
            }
            assert(v@[i as int].key_of() == k@);
        } else {
            if i < n {
                lemma_text_lt_trichotomy(v@[i as int].key_of(), k@);
            }
            assert forall|t: int| i <= t < v@.len() implies text_lt(k@, #[trigger] v@[t].key_of()) by {
                if t > i {
                    assert(text_lt(v@[i as int].key_of(), v@[t].key_of()));
                    lemma_text_lt_transitive(k@, v@[i as int].key_of(), v@[t].key_of());
                }
            }
            assert forall|j: int| 0 <= j < v@.len() implies #[trigger] v@[j].key_of() != k@ by {
                if j < i {
                    assert(text_lt(v@[j].key_of(), k@));
                } else {
                    assert(text_lt(k@, v@[j].key_of()));
                }
            }
        }
    }
    (i, found)
}

/// Inserting an entry between the keys below and above it keeps the order.
pub proof fn lemma_insert_sorted<T: Keyed>(s: Seq<T>, i: int, x: T)
    requires
        keys_sorted(s),
        0 <= i <= s.len(),
        forall|t: int| 0 <= t < i ==> text_lt(#[trigger] s[t].key_of(), x.key_of()),
        forall|t: int| i <= t < s.len() ==> text_lt(x.key_of(), #[trigger] s[t].key_of()),
    ensures
        keys_sorted(s.insert(i, x)),
{
    let u = s.insert(i, x);
    assert forall|a: int, b: int| 0 <= a < b < u.len() implies text_lt(
        #[trigger] u[a].key_of(),
        #[trigger] u[b].key_of(),
    ) by {
        if b < i {
            assert(u[a] == s[a] && u[b] == s[b]);
        } else if b == i {
            assert(u[a] == s[a]);
        } else if a < i {
            assert(u[a] == s[a] && u[b] == s[b - 1]);
            lemma_text_lt_transitive(s[a].key_of(), x.key_of(), s[b - 1].key_of());
        } else if a == i {
            assert(u[b] == s[b - 1]);
        } else {
            assert(u[a] == s[a - 1] && u[b] == s[b - 1]);
        }
    }
}

/// Replacing an entry by one with the same key keeps the order.
pub proof fn lemma_update_sorted<T: Keyed>(s: Seq<T>, i: int, x: T)
    requires
        keys_sorted(s),
        0 <= i < s.len(),
        x.key_of() == s[i].key_of(),
    ensures
        keys_sorted(s.update(i, x)),
{
    let u = s.update(i, x);
    assert forall|a: int, b: int| 0 <= a < b < u.len() implies text_lt(
        #[trigger] u[a].key_of(),
        #[trigger] u[b].key_of(),
    ) by {
        assert(u[a].key_of() == s[a].key_of());
        assert(u[b].key_of() == s[b].key_of());
    }
}

/// Removing an entry keeps the order.
pub proof fn lemma_remove_sorted<T: Keyed>(s: Seq<T>, i: int)
    requires
        keys_sorted(s),
        0 <= i < s.len(),
    ensures
        keys_sorted(s.remove(i)),
{
    let u = s.remove(i);
    assert forall|a: int, b: int| 0 <= a < b < u.len() implies text_lt(
        #[trigger] u[a].key_of(),
        #[trigger] u[b].key_of(),
    ) by {
        let sa = if a < i { a } else { a + 1 };
        let sb = if b < i { b } else { b + 1 };
        assert(u[a] == s[sa] && u[b] == s[sb]);
    }
}

/// `new` is `old` with `x` stored under its key: in place of the entry with
/// that key when there is one, else inserted in key order.
pub open spec fn upserted<T: Keyed>(old: Seq<T>, new: Seq<T>, x: T) -> bool {
    &&& keys_sorted(new)
    &&& has_key(old, x.key_of()) ==> forall|j: int|
        0 <= j < old.len() && #[trigger] old[j].key_of() == x.key_of() ==> new == old.update(j, x)
    &&& !has_key(old, x.key_of()) ==> exists|i: int| 0 <= i <= old.len() && new == old.insert(i, x)
}

/// Stores `x` under its key in the sorted entries `v`.
pub fn upsert<T: Keyed>(v: &mut Vec<T>, x: T) -> (r: (usize, bool))
    requires
        keys_sorted(old(v)@),
    ensures
        upserted(old(v)@, final(v)@, x),
        r.1 == has_key(old(v)@, x.key_of()),
        r.0 <= old(v)@.len(),
        r.1 ==> r.0 < old(v)@.len() && final(v)@ == old(v)@.update(r.0 as int, x),
        !r.1 ==> final(v)@ == old(v)@.insert(r.0 as int, x),
{
    let (pos, found) = locate(v, x.key());
    if found {
        proof {
            lemma_update_sorted(v@, pos as int, x);
        }
        v.set(pos, x);
    } else {
        proof {
            lemma_insert_sorted(v@, pos as int, x);
        }
        v.insert(pos, x);
    }
    (pos, found)
}

} // verus!
