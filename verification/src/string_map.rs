//! A map from strings to strings that keeps its entries in increasing key
//! order, as the configuration's tables are walked.
use vstd::prelude::*;

use crate::text::{lemma_seq_lt_irreflexive, lemma_seq_lt_total, lemma_seq_lt_transitive, seq_lt, str_eq, str_lt};

verus! {

/// The characters of each key and value.
pub open spec fn pairs_view(v: Seq<(String, String)>) -> Seq<(Seq<char>, Seq<char>)> {
    v.map_values(|e: (String, String)| (e.0@, e.1@))
}

/// Each key comes before the next one in `String` order, so no key occurs twice.
pub open spec fn keys_increasing(s: Seq<(Seq<char>, Seq<char>)>) -> bool {
    forall|i: int, j: int| 0 <= i < j < s.len() ==> seq_lt(#[trigger] s[i].0, #[trigger] s[j].0)
}

/// Whether some entry of `s` has the key `k`.
pub open spec fn has_key(s: Seq<(Seq<char>, Seq<char>)>, k: Seq<char>) -> bool {
    exists|i: int| 0 <= i < s.len() && #[trigger] s[i].0 == k
}

/// The entries of `s` as a mathematical map.
pub open spec fn map_of(s: Seq<(Seq<char>, Seq<char>)>) -> Map<Seq<char>, Seq<char>> {
    Map::new(
        |k: Seq<char>| has_key(s, k),
        |k: Seq<char>| s[choose|i: int| 0 <= i < s.len() && #[trigger] s[i].0 == k].1,
    )
}

/// In a map with increasing keys, the entry at `i` is what `map_of` gives for its key.
pub proof fn lemma_map_of_entry(s: Seq<(Seq<char>, Seq<char>)>, i: int)
    requires
        keys_increasing(s),
        0 <= i < s.len(),
    ensures
        map_of(s).contains_key(s[i].0),
        map_of(s)[s[i].0] == s[i].1,
{
    assert(has_key(s, s[i].0));
    let j = choose|j: int| 0 <= j < s.len() && #[trigger] s[j].0 == s[i].0;
    if j != i {
        lemma_seq_lt_irreflexive(s[i].0);
        if i < j {
            assert(seq_lt(s[i].0, s[j].0));
        } else {
            assert(seq_lt(s[j].0, s[i].0));
        }
    }
}

/// Text keys mapped to text values, kept in increasing key order.
pub struct StringMap {
    entries: Vec<(String, String)>,
}

impl View for StringMap {
    type V = Seq<(Seq<char>, Seq<char>)>;

    closed spec fn view(&self) -> Seq<(Seq<char>, Seq<char>)> {
        pairs_view(self.entries@)
    }
}

impl StringMap {
    #[verifier::type_invariant]
    spec fn ordered(self) -> bool {
        keys_increasing(pairs_view(self.entries@))
    }

    /// A map with no entries.
    pub fn new() -> (m: StringMap)
        ensures
            m@ == Seq::<(Seq<char>, Seq<char>)>::empty(),
    {
        let m = StringMap { entries: Vec::new() };
        assert(pairs_view(m.entries@) =~= Seq::<(Seq<char>, Seq<char>)>::empty());
        m
    }

    /// The number of entries; the entries come in increasing key order.
    pub fn len(&self) -> (n: usize)
        ensures
            n == self@.len(),
            keys_increasing(self@),
    {
        proof {
            use_type_invariant(self);
        }
        self.entries.len()
    }

    /// The key of the entry at `i`.
    pub fn key(&self, i: usize) -> (k: &str)
        requires
            i < self@.len(),
        ensures
            k@ == self@[i as int].0,
    {
        self.entries[i].0.as_str()
    }

    /// The value of the entry at `i`.
    pub fn value(&self, i: usize) -> (v: &str)
        requires
            i < self@.len(),
        ensures
            v@ == self@[i as int].1,
    {
        self.entries[i].1.as_str()
    }

    /// The value stored under `key`, if any.
    pub fn get(&self, key: &str) -> (r: Option<&str>)
        ensures
            r is Some <==> map_of(self@).contains_key(key@),
            r matches Some(v) ==> v@ == map_of(self@)[key@],
    {
        proof {
            use_type_invariant(self);
        }
        let n = self.entries.len();
        let mut i: usize = 0;
        while i < n
            invariant
                n == self@.len(),
                i <= n,
                keys_increasing(self@),
                forall|j: int| 0 <= j < i ==> self@[j].0 != key@,
            decreases n - i,
        {
            if str_eq(self.entries[i].0.as_str(), key) {
                proof {
                    lemma_map_of_entry(self@, i as int);
                }
                return Some(self.entries[i].1.as_str());
            }
            i = i + 1;
        }
        None
    }

    /// Stores `value` under `key`, in place of any value stored under it
    /// before; the keys stay in increasing order.
    pub fn insert(&mut self, key: String, value: String)
        ensures
            map_of(final(self)@) == map_of(old(self)@).insert(key@, value@),
            keys_increasing(final(self)@),
    {
        proof {
            use_type_invariant(&*self);
        }
        let mut entries: Vec<(String, String)> = Vec::new();
        std::mem::swap(&mut entries, &mut self.entries);
        let ghost s = pairs_view(entries@);
        let n = entries.len();
        let mut i: usize = 0;
        while i < n && str_lt(entries[i].0.as_str(), key.as_str())
            invariant
                s == pairs_view(entries@),
                n == s.len(),
                i <= n,
                forall|j: int| 0 <= j < i ==> seq_lt(#[trigger] s[j].0, key@),
            decreases n - i,
        {
            i = i + 1;
        }
        let k = key;
        if i < n && str_eq(entries[i].0.as_str(), k.as_str()) {
            let _replaced = entries.remove(i);
            entries.insert(i, (k, value));
            proof {
                let t = pairs_view(entries@);
                assert(t =~= s.update(i as int, (key@, value@)));
                lemma_update_keeps_map(s, i as int, value@);
            }
        } else {
            entries.insert(i, (k, value));
            proof {
                let t = pairs_view(entries@);
                assert(t =~= s.insert(i as int, (key@, value@)));
                if i < n {
                    lemma_seq_lt_total(s[i as int].0, key@);
                }
                lemma_insert_new_key(s, i as int, key@, value@);
            }
        }
        self.entries = entries;
    }
}


/// Reading after a write: once `value` is stored under `key` (as `insert`
/// states it), `get` gives `value` for `key`, and every other key keeps
/// what it had.
pub proof fn lemma_get_after_insert(
    before: Seq<(Seq<char>, Seq<char>)>,
    after: Seq<(Seq<char>, Seq<char>)>,
    key: Seq<char>,
    value: Seq<char>,
    other: Seq<char>,
)
    requires
        map_of(after) == map_of(before).insert(key, value),
    ensures
        map_of(after).contains_key(key),
        map_of(after)[key] == value,
        other != key ==> map_of(after).contains_key(other) == map_of(before).contains_key(other),
        other != key && map_of(before).contains_key(other) ==> map_of(after)[other] == map_of(
            before,
        )[other],
{
}

/// Replacing the value of the entry at `i` keeps the keys and updates the map.
proof fn lemma_update_keeps_map(s: Seq<(Seq<char>, Seq<char>)>, i: int, v: Seq<char>)
    requires
        keys_increasing(s),
        0 <= i < s.len(),
    ensures
        keys_increasing(s.update(i, (s[i].0, v))),
        map_of(s.update(i, (s[i].0, v))) == map_of(s).insert(s[i].0, v),
{
    let k = s[i].0;
    let t = s.update(i, (k, v));
    assert forall|a: int, b: int| 0 <= a < b < t.len() implies seq_lt(#[trigger] t[a].0, #[trigger] t[b].0) by {
        assert(t[a].0 == s[a].0);
        assert(t[b].0 == s[b].0);
    }
    assert forall|x: Seq<char>| #[trigger] has_key(t, x) == has_key(s, x) by {
        if has_key(s, x) {
            let j = choose|j: int| 0 <= j < s.len() && #[trigger] s[j].0 == x;
            assert(t[j].0 == x);
        }
        if has_key(t, x) {
            let j = choose|j: int| 0 <= j < t.len() && #[trigger] t[j].0 == x;
            assert(s[j].0 == x);
        }
    }
    lemma_map_of_entry(t, i);
    assert forall|x: Seq<char>| x != k && has_key(s, x) implies map_of(t)[x] == map_of(s)[x] by {
        let j = choose|j: int| 0 <= j < s.len() && #[trigger] s[j].0 == x;
        lemma_map_of_entry(s, j);
        assert(t[j] == s[j]);
        lemma_map_of_entry(t, j);
    }
    assert(map_of(t) =~= map_of(s).insert(k, v));
}

/// Inserting a new key at the place where it keeps the order.
proof fn lemma_insert_new_key(s: Seq<(Seq<char>, Seq<char>)>, p: int, k: Seq<char>, v: Seq<char>)
    requires
        keys_increasing(s),
        0 <= p <= s.len(),
        forall|j: int| 0 <= j < p ==> seq_lt(#[trigger] s[j].0, k),
        p < s.len() ==> s[p].0 != k && seq_lt(k, s[p].0),
    ensures
        keys_increasing(s.insert(p, (k, v))),
        map_of(s.insert(p, (k, v))) == map_of(s).insert(k, v),
{
    let t = s.insert(p, (k, v));
    assert forall|j: int| p <= j < s.len() implies seq_lt(k, #[trigger] s[j].0) by {
        if j > p {
            assert(seq_lt(s[p].0, s[j].0));
            lemma_seq_lt_transitive(k, s[p].0, s[j].0);
        }
    }
    assert forall|a: int, b: int| 0 <= a < b < t.len() implies seq_lt(#[trigger] t[a].0, #[trigger] t[b].0) by {
        if b < p {
            assert(t[a] == s[a] && t[b] == s[b]);
        } else if b == p {
            assert(t[a] == s[a]);
        } else if a < p {
            assert(t[a] == s[a] && t[b] == s[b - 1]);
            assert(seq_lt(s[a].0, k));
            assert(seq_lt(k, s[b - 1].0));
            lemma_seq_lt_transitive(s[a].0, k, s[b - 1].0);
        } else if a == p {
            assert(t[b] == s[b - 1]);
        } else {
            assert(t[a] == s[a - 1] && t[b] == s[b - 1]);
        }
    }
    assert(!has_key(s, k)) by {
        if has_key(s, k) {
            let j = choose|j: int| 0 <= j < s.len() && #[trigger] s[j].0 == k;
            lemma_seq_lt_irreflexive(k);
            if j < p {
                assert(seq_lt(s[j].0, k));
            } else {
                assert(seq_lt(k, s[j].0));
            }
        }
    }
    assert(t[p] == (k, v));
    lemma_map_of_entry(t, p);
    assert forall|x: Seq<char>| x != k implies #[trigger] has_key(t, x) == has_key(s, x) by {
        if has_key(s, x) {
            let j = choose|j: int| 0 <= j < s.len() && #[trigger] s[j].0 == x;
            if j < p {
                assert(t[j] == s[j]);
            } else {
                assert(t[j + 1] == s[j]);
            }
        }
        if has_key(t, x) {
            let j = choose|j: int| 0 <= j < t.len() && #[trigger] t[j].0 == x;
            if j < p {
                assert(t[j] == s[j]);
            } else if j > p {
                assert(t[j] == s[j - 1]);
            }
        }
    }
    assert forall|x: Seq<char>| x != k && has_key(s, x) implies map_of(t)[x] == map_of(s)[x] by {
        let j = choose|j: int| 0 <= j < s.len() && #[trigger] s[j].0 == x;
        lemma_map_of_entry(s, j);
        if j < p {
            assert(t[j] == s[j]);
            lemma_map_of_entry(t, j);
        } else {
            assert(t[j + 1] == s[j]);
            lemma_map_of_entry(t, j + 1);
        }
    }
    assert(map_of(t) =~= map_of(s).insert(k, v));
}

} // verus!
