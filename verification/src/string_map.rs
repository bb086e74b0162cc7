//! Maps from strings, kept in the order of their keys.

use crate::text::{
    lemma_order_is_strict, lemma_order_is_total, lemma_order_is_transitive, position, text_before,
    Position,
};
use vstd::prelude::*;
use vstd::utf8::*;

verus! {

/// Keys in strictly ascending order.
pub open spec fn ascending<V>(entries: Seq<(String, V)>) -> bool {
    forall|i: int, j: int|
        0 <= i < j < entries.len() ==> text_before(
            (#[trigger] entries[i]).0@,
            (#[trigger] entries[j]).0@,
        )
}

/// Whether the entry at `i` has the key `key`.
pub open spec fn has_key_at<V>(entries: Seq<(String, V)>, key: Seq<char>, i: int) -> bool {
    0 <= i < entries.len() && entries[i].0@ == key
}

/// The map that entries stand for.
pub open spec fn entries_map<V>(entries: Seq<(String, V)>) -> Map<Seq<char>, V> {
    Map::new(
        |key: Seq<char>| exists|i: int| has_key_at(entries, key, i),
        |key: Seq<char>| entries[choose|i: int| has_key_at(entries, key, i)].1,
    )
}

/// In ascending entries a key has one place.
proof fn lemma_key_has_one_place<V>(entries: Seq<(String, V)>, i: int, j: int)
    requires
        ascending(entries),
        0 <= i < entries.len(),
        0 <= j < entries.len(),
        entries[i].0@ == entries[j].0@,
    ensures
        i == j,
{
    let k = encode_utf8(entries[i].0@);
    lemma_order_is_strict(k, k);
}

/// What ascending entries hold at a place is what the map holds.
proof fn lemma_map_at<V>(entries: Seq<(String, V)>, i: int)
    requires
        ascending(entries),
        0 <= i < entries.len(),
    ensures
        entries_map(entries).contains_key(entries[i].0@),
        entries_map(entries)[entries[i].0@] == entries[i].1,
{
    let key = entries[i].0@;
    assert(has_key_at(entries, key, i));
    let j = choose|j: int| has_key_at(entries, key, j);
    lemma_key_has_one_place(entries, i, j);
}

/// Writing a value in its place keeps the order and writes it in the map.
proof fn lemma_update<V>(entries: Seq<(String, V)>, i: int, entry: (String, V))
    requires
        ascending(entries),
        0 <= i < entries.len(),
        entry.0@ == entries[i].0@,
    ensures
        ascending(entries.update(i, entry)),
        entries_map(entries.update(i, entry)) == entries_map(entries).insert(entry.0@, entry.1),
{
    let after = entries.update(i, entry);
    assert forall|a: int, b: int| 0 <= a < b < after.len() implies text_before(
        (#[trigger] after[a]).0@,
        (#[trigger] after[b]).0@,
    ) by {
        assert(after[a].0@ == entries[a].0@ && after[b].0@ == entries[b].0@);
    }
    lemma_map_at(after, i);
    assert forall|key: Seq<char>|
        entries_map(after).contains_key(key) == entries_map(entries).insert(
            entry.0@,
            entry.1,
        ).contains_key(key) by {
        if exists|j: int| has_key_at(entries, key, j) {
            let j = choose|j: int| has_key_at(entries, key, j);
            assert(has_key_at(after, key, j));
        }
        if exists|j: int| has_key_at(after, key, j) {
            let j = choose|j: int| has_key_at(after, key, j);
            assert(has_key_at(entries, key, j));
        }
    }
    assert forall|key: Seq<char>| #[trigger]
        entries_map(after).contains_key(key) && key != entry.0@ implies entries_map(after)[key]
        == entries_map(entries)[key] by {
        let j = choose|j: int| has_key_at(after, key, j);
        assert(has_key_at(entries, key, j));
        lemma_map_at(after, j);
        lemma_map_at(entries, j);
    }
    assert(entries_map(after) =~= entries_map(entries).insert(entry.0@, entry.1));
}

/// Putting a new key where it belongs keeps the order and adds it to the map.
proof fn lemma_insert<V>(entries: Seq<(String, V)>, i: int, entry: (String, V))
    requires
        ascending(entries),
        0 <= i <= entries.len(),
        forall|j: int| 0 <= j < i ==> text_before((#[trigger] entries[j]).0@, entry.0@),
        forall|j: int| i <= j < entries.len() ==> text_before(entry.0@, (#[trigger] entries[j]).0@),
    ensures
        ascending(entries.insert(i, entry)),
        entries_map(entries.insert(i, entry)) == entries_map(entries).insert(entry.0@, entry.1),
        !entries_map(entries).contains_key(entry.0@),
{
    let after = entries.insert(i, entry);
    assert forall|a: int, b: int| 0 <= a < b < after.len() implies text_before(
        (#[trigger] after[a]).0@,
        (#[trigger] after[b]).0@,
    ) by {
        let a0 = if a < i { a } else { a - 1 };
        let b0 = if b < i { b } else { b - 1 };
        if a != i {
            assert(after[a] == entries[a0]);
        }
        if b != i {
            assert(after[b] == entries[b0]);
        }
    }
    assert forall|j: int| !has_key_at(entries, entry.0@, j) by {
        if has_key_at(entries, entry.0@, j) {
            let k = encode_utf8(entry.0@);
            lemma_order_is_strict(k, k);
        }
    }
    lemma_map_at(after, i);
    assert forall|key: Seq<char>|
        entries_map(after).contains_key(key) == entries_map(entries).insert(
            entry.0@,
            entry.1,
        ).contains_key(key) by {
        if exists|j: int| has_key_at(entries, key, j) {
            let j = choose|j: int| has_key_at(entries, key, j);
            let j1 = if j < i { j } else { j + 1 };
            assert(has_key_at(after, key, j1));
        }
        if exists|j: int| has_key_at(after, key, j) {
            let j = choose|j: int| has_key_at(after, key, j);
            if j != i {
                let j0 = if j < i { j } else { j - 1 };
                assert(has_key_at(entries, key, j0));
            }
        }
    }
    assert forall|key: Seq<char>| #[trigger]
        entries_map(after).contains_key(key) && key != entry.0@ implies entries_map(after)[key]
        == entries_map(entries)[key] by {
        let j = choose|j: int| has_key_at(after, key, j);
        let j0 = if j < i { j } else { j - 1 };
        assert(has_key_at(entries, key, j0));
        lemma_map_at(after, j);
        lemma_map_at(entries, j0);
    }
    assert(entries_map(after) =~= entries_map(entries).insert(entry.0@, entry.1));
}

/// Taking an entry out keeps the order and removes its key from the map.
proof fn lemma_remove<V>(entries: Seq<(String, V)>, i: int)
    requires
        ascending(entries),
        0 <= i < entries.len(),
    ensures
        ascending(entries.remove(i)),
        entries_map(entries.remove(i)) == entries_map(entries).remove(entries[i].0@),
{
    let after = entries.remove(i);
    let gone = entries[i].0@;
    assert forall|a: int, b: int| 0 <= a < b < after.len() implies text_before(
        (#[trigger] after[a]).0@,
        (#[trigger] after[b]).0@,
    ) by {
        let a0 = if a < i { a } else { a + 1 };
        let b0 = if b < i { b } else { b + 1 };
        assert(after[a] == entries[a0] && after[b] == entries[b0]);
    }
    assert forall|key: Seq<char>|
        entries_map(after).contains_key(key) == entries_map(entries).remove(gone).contains_key(
            key,
        ) by {
        if exists|j: int| has_key_at(after, key, j) {
            let j = choose|j: int| has_key_at(after, key, j);
            let j0 = if j < i { j } else { j + 1 };
            assert(has_key_at(entries, key, j0));
            if key == gone {
                lemma_key_has_one_place(entries, i, j0);
            }
        }
        if key != gone && exists|j: int| has_key_at(entries, key, j) {
            let j = choose|j: int| has_key_at(entries, key, j);
            let j1 = if j < i { j } else { j - 1 };
            assert(has_key_at(after, key, j1));
        }
    }
    assert forall|key: Seq<char>| #[trigger]
        entries_map(after).contains_key(key) implies entries_map(after)[key] == entries_map(
        entries,
    )[key] by {
        let j = choose|j: int| has_key_at(after, key, j);
        let j0 = if j < i { j } else { j + 1 };
        assert(has_key_at(entries, key, j0));
        lemma_map_at(after, j);
        lemma_map_at(entries, j0);
    }
    assert(entries_map(after) =~= entries_map(entries).remove(gone));
}

/// A map from strings.
#[derive(Debug)]
pub struct StringMap<V> {
    entries: Vec<(String, V)>,
}

impl<V> View for StringMap<V> {
    type V = Map<Seq<char>, V>;

    closed spec fn view(&self) -> Map<Seq<char>, V> {
        entries_map(self.entries@)
    }
}

impl<V> StringMap<V> {
    #[verifier::type_invariant]
    spec fn inv(self) -> bool {
        ascending(self.entries@)
    }

    /// A map without entries.
    pub fn new() -> (r: Self)
        ensures
            r@ == Map::<Seq<char>, V>::empty(),
    {
        let entries: Vec<(String, V)> = Vec::new();
        assert(entries_map(entries@) =~= Map::<Seq<char>, V>::empty());
        StringMap { entries }
    }

    /// The place of a key: where it is, or where it belongs.
    fn place(&self, key: &str) -> (r: (bool, usize))
        ensures
            r.1 <= self.entries@.len(),
            ascending(self.entries@),
            r.0 ==> r.1 < self.entries@.len() && self.entries@[r.1 as int].0@ == key@,
            forall|i: int|
                0 <= i < r.1 ==> text_before((#[trigger] self.entries@[i]).0@, key@),
            !r.0 ==> forall|i: int|
                r.1 <= i < self.entries@.len() ==> text_before(
                    key@,
                    (#[trigger] self.entries@[i]).0@,
                ),
    {
        proof {
            use_type_invariant(self);
        }
        let mut low: usize = 0;
        let mut high: usize = self.entries.len();
        while low < high
            invariant
                low <= high <= self.entries@.len(),
                ascending(self.entries@),
                forall|i: int|
                    0 <= i < low ==> text_before((#[trigger] self.entries@[i]).0@, key@),
                forall|i: int|
                    high <= i < self.entries@.len() ==> text_before(
                        key@,
                        (#[trigger] self.entries@[i]).0@,
                    ),
            decreases high - low,
        {
            let mid: usize = low + (high - low) / 2;
            let ghost at = self.entries@[mid as int].0@;
            match position(self.entries[mid].0.as_str(), key) {
                Position::Before => {
                    assert forall|i: int| 0 <= i < mid + 1 implies text_before(
                        (#[trigger] self.entries@[i]).0@,
                        key@,
                    ) by {
                        if low <= i < mid {
                            lemma_order_is_transitive(
                                encode_utf8(self.entries@[i].0@),
                                encode_utf8(at),
                                encode_utf8(key@),
                            );
                        }
                    }
                    low = mid + 1;
                },
                Position::Same => {
                    return (true, mid);
                },
                Position::After => {
                    assert forall|i: int| mid <= i < self.entries@.len() implies text_before(
                        key@,
                        (#[trigger] self.entries@[i]).0@,
                    ) by {
                        if mid < i < high {
                            lemma_order_is_transitive(
                                encode_utf8(key@),
                                encode_utf8(at),
                                encode_utf8(self.entries@[i].0@),
                            );
                        }
                    }
                    high = mid;
                },
            }
        }
        (false, low)
    }

    /// What the map holds under `key`.
    pub fn get(&self, key: &str) -> (r: Option<&V>)
        ensures
            match r {
                Some(value) => self@.contains_key(key@) && self@[key@] == *value,
                None => !self@.contains_key(key@),
            },
    {
        let (found, i) = self.place(key);
        if found {
            proof {
                lemma_map_at(self.entries@, i as int);
            }
            Some(&self.entries[i].1)
        } else {
            proof {
                lemma_absent(self.entries@, i as int, key@);
            }
            None
        }
    }

    /// Takes out what the map holds under `key`.
    pub fn take(&mut self, key: &str) -> (r: Option<V>)
        ensures
            final(self)@ == old(self)@.remove(key@),
            match r {
                Some(value) => old(self)@.contains_key(key@) && old(self)@[key@] == value,
                None => !old(self)@.contains_key(key@),
            },
    {
        let (found, i) = self.place(key);
        if found {
            proof {
                lemma_map_at(self.entries@, i as int);
                lemma_remove(self.entries@, i as int);
            }
            let mut entries: Vec<(String, V)> = Vec::new();
            std::mem::swap(&mut entries, &mut self.entries);
            let (_, value) = entries.remove(i);
            self.entries = entries;
            Some(value)
        } else {
            proof {
                lemma_absent(self.entries@, i as int, key@);
                assert(self@.remove(key@) =~= self@);
            }
            None
        }
    }

    /// Writes a value under `key`.
    pub fn insert(&mut self, key: String, value: V)
        ensures
            final(self)@ == old(self)@.insert(key@, value),
    {
        let (found, i) = self.place(key.as_str());
        let ghost before = self.entries@;
        let mut entries: Vec<(String, V)> = Vec::new();
        std::mem::swap(&mut entries, &mut self.entries);
        if found {
            proof {
                lemma_update(before, i as int, (key, value));
            }
            entries.set(i, (key, value));
        } else {
            proof {
                lemma_insert(before, i as int, (key, value));
            }
            entries.insert(i, (key, value));
        }
        self.entries = entries;
    }

    /// The keys and values in the order of the keys.
    pub fn entries(&self) -> (r: &Vec<(String, V)>)
        ensures
            ascending(r@),
            self@ == entries_map(r@),
            self@.dom().finite(),
    {
        proof {
            use_type_invariant(self);
            lemma_entries_are_finite(self.entries@);
        }
        &self.entries
    }
}

/// A key that belongs between two places is not in the map.
proof fn lemma_absent<V>(entries: Seq<(String, V)>, i: int, key: Seq<char>)
    requires
        0 <= i <= entries.len(),
        forall|j: int| 0 <= j < i ==> text_before((#[trigger] entries[j]).0@, key),
        forall|j: int| i <= j < entries.len() ==> text_before(key, (#[trigger] entries[j]).0@),
    ensures
        !entries_map(entries).contains_key(key),
{
    assert forall|j: int| !has_key_at(entries, key, j) by {
        let k = encode_utf8(key);
        lemma_order_is_strict(k, k);
    }
}

/// Whether `s` lists the keys and values of `m` in the order of the keys.
pub open spec fn lists<T>(s: Seq<(Seq<char>, T)>, m: Map<Seq<char>, T>) -> bool {
    &&& forall|i: int, j: int|
        0 <= i < j < s.len() ==> text_before((#[trigger] s[i]).0, (#[trigger] s[j]).0)
    &&& forall|i: int|
        0 <= i < s.len() ==> m.contains_key((#[trigger] s[i]).0) && m[s[i].0] == s[i].1
    &&& forall|key: Seq<char>| #[trigger]
        m.contains_key(key) ==> exists|i: int| 0 <= i < s.len() && (#[trigger] s[i]).0 == key
}

/// The keys and values of a map in the order of the keys.
pub open spec fn in_order<T>(m: Map<Seq<char>, T>) -> Seq<(Seq<char>, T)> {
    choose|s: Seq<(Seq<char>, T)>| lists(s, m)
}

/// Two lists of one map agree as far as the first goes.
proof fn lemma_lists_agree<T>(
    a: Seq<(Seq<char>, T)>,
    b: Seq<(Seq<char>, T)>,
    m: Map<Seq<char>, T>,
    n: int,
)
    requires
        lists(a, m),
        lists(b, m),
        0 <= n <= a.len(),
    ensures
        n <= b.len(),
        a.take(n) == b.take(n),
    decreases n,
{
    if n > 0 {
        lemma_lists_agree(a, b, m, n - 1);
        let ka = a[n - 1].0;
        assert(m.contains_key(ka));
        let j = choose|j: int| 0 <= j < b.len() && (#[trigger] b[j]).0 == ka;
        if j < n - 1 {
            assert(a.take(n - 1)[j] == b.take(n - 1)[j]);
            assert(text_before(a[j].0, a[n - 1].0));
            lemma_order_is_strict(encode_utf8(ka), encode_utf8(ka));
        }
        let kb = b[n - 1].0;
        assert(m.contains_key(kb));
        let i = choose|i: int| 0 <= i < a.len() && (#[trigger] a[i]).0 == kb;
        if i < n - 1 {
            assert(a.take(n - 1)[i] == b.take(n - 1)[i]);
            assert(text_before(b[i].0, b[n - 1].0));
            lemma_order_is_strict(encode_utf8(kb), encode_utf8(kb));
        }
        if i > n - 1 && j > n - 1 {
            assert(text_before(a[n - 1].0, a[i].0));
            assert(text_before(b[n - 1].0, b[j].0));
            lemma_order_is_strict(encode_utf8(ka), encode_utf8(kb));
        }
        assert(ka == kb);
        assert(a.take(n) =~= a.take(n - 1).push(a[n - 1]));
        assert(b.take(n) =~= b.take(n - 1).push(b[n - 1]));
    }
}

/// A map has one list.
pub proof fn lemma_in_order<T>(s: Seq<(Seq<char>, T)>, m: Map<Seq<char>, T>)
    requires
        lists(s, m),
    ensures
        in_order(m) == s,
{
    let t = in_order(m);
    lemma_lists_agree(s, t, m, s.len() as int);
    lemma_lists_agree(t, s, m, t.len() as int);
    assert(s.take(s.len() as int) =~= s);
    assert(t.take(t.len() as int) =~= t);
}

/// Ascending entries list the map that they stand for, and so they do with their values seen
/// through `f`.
pub proof fn lemma_entries_list<V, T>(
    entries: Seq<(String, V)>,
    m: Map<Seq<char>, T>,
    s: Seq<(Seq<char>, T)>,
    f: spec_fn(V) -> T,
)
    requires
        ascending(entries),
        m == entries_map(entries).map_values(f),
        s.len() == entries.len(),
        forall|i: int| 0 <= i < s.len() ==> #[trigger] s[i] == (entries[i].0@, f(entries[i].1)),
    ensures
        lists(s, m),
{
    assert forall|i: int| 0 <= i < s.len() implies m.contains_key((#[trigger] s[i]).0)
        && m[s[i].0] == s[i].1 by {
        lemma_map_at(entries, i);
    }
    assert forall|i: int, j: int| 0 <= i < j < s.len() implies text_before(
        (#[trigger] s[i]).0,
        (#[trigger] s[j]).0,
    ) by {
        assert(text_before(entries[i].0@, entries[j].0@));
    }
    assert forall|key: Seq<char>| #[trigger] m.contains_key(key) implies exists|i: int|
        0 <= i < s.len() && (#[trigger] s[i]).0 == key by {
        assert(entries_map(entries).contains_key(key));
        let i = choose|i: int| has_key_at(entries, key, i);
        assert(s[i].0 == key);
    }
}

/// Entries stand for a finite map.
proof fn lemma_entries_are_finite<V>(entries: Seq<(String, V)>)
    ensures
        entries_map(entries).dom().finite(),
{
    let keys = entries.map_values(|e: (String, V)| e.0@);
    assert forall|key: Seq<char>|
        entries_map(entries).contains_key(key) == keys.to_set().contains(key) by {
        if exists|i: int| has_key_at(entries, key, i) {
            let i = choose|i: int| has_key_at(entries, key, i);
            assert(keys[i] == key);
        }
        if keys.contains(key) {
            let i = choose|i: int| 0 <= i < keys.len() && keys[i] == key;
            assert(has_key_at(entries, key, i));
        }
    }
    assert(entries_map(entries).dom() =~= keys.to_set());
    vstd::seq_lib::seq_to_set_is_finite(keys);
}

/// The place where a new key belongs in a list.
proof fn lemma_place_in_list<T>(s: Seq<(Seq<char>, T)>, key: Seq<char>) -> (i: int)
    requires
        forall|i: int, j: int|
            0 <= i < j < s.len() ==> text_before((#[trigger] s[i]).0, (#[trigger] s[j]).0),
        forall|i: int| 0 <= i < s.len() ==> (#[trigger] s[i]).0 != key,
    ensures
        0 <= i <= s.len(),
        forall|j: int| 0 <= j < i ==> text_before((#[trigger] s[j]).0, key),
        forall|j: int| i <= j < s.len() ==> text_before(key, (#[trigger] s[j]).0),
    decreases s.len(),
{
    if s.len() == 0 {
        0
    } else {
        let last = s.len() - 1;
        lemma_order_is_total(s[last].0, key);
        if text_before(s[last].0, key) {
            assert forall|j: int| 0 <= j < s.len() implies text_before(
                (#[trigger] s[j]).0,
                key,
            ) by {
                if j < last {
                    lemma_order_is_transitive(
                        encode_utf8(s[j].0),
                        encode_utf8(s[last].0),
                        encode_utf8(key),
                    );
                }
            }
            s.len() as int
        } else {
            let rest = s.drop_last();
            assert forall|i: int| 0 <= i < rest.len() implies (#[trigger] rest[i]).0 != key by {
                assert(rest[i] == s[i]);
            }
            let i = lemma_place_in_list(rest, key);
            assert forall|j: int| 0 <= j < i implies text_before((#[trigger] s[j]).0, key) by {
                assert(rest[j] == s[j]);
            }
            assert forall|j: int| i <= j < s.len() implies text_before(
                key,
                (#[trigger] s[j]).0,
            ) by {
                if j < last {
                    assert(rest[j] == s[j]);
                }
            }
            i
        }
    }
}

/// Every finite map has a list.
proof fn lemma_list_of_finite_map<T>(m: Map<Seq<char>, T>) -> (s: Seq<(Seq<char>, T)>)
    requires
        m.dom().finite(),
    ensures
        lists(s, m),
    decreases m.dom().len(),
{
    if m.dom().len() == 0 {
        assert forall|key: Seq<char>| !m.contains_key(key) by {
            assert(m.dom() =~= Set::empty());
        }
        Seq::empty()
    } else {
        let key = m.dom().choose();
        let rest = lemma_list_of_finite_map(m.remove(key));
        assert forall|i: int| 0 <= i < rest.len() implies (#[trigger] rest[i]).0 != key by {
            assert(m.remove(key).contains_key(rest[i].0));
        }
        let place = lemma_place_in_list(rest, key);
        let s = rest.insert(place, (key, m[key]));
        assert forall|i: int, j: int| 0 <= i < j < s.len() implies text_before(
            (#[trigger] s[i]).0,
            (#[trigger] s[j]).0,
        ) by {
            let i0 = if i < place { i } else { i - 1 };
            let j0 = if j < place { j } else { j - 1 };
            if i != place {
                assert(s[i] == rest[i0]);
            }
            if j != place {
                assert(s[j] == rest[j0]);
            }
        }
        assert forall|i: int| 0 <= i < s.len() implies m.contains_key((#[trigger] s[i]).0)
            && m[s[i].0] == s[i].1 by {
            if i != place {
                let i0 = if i < place { i } else { i - 1 };
                assert(s[i] == rest[i0]);
                assert(m.remove(key).contains_key(rest[i0].0));
            }
        }
        assert forall|k: Seq<char>| #[trigger] m.contains_key(k) implies exists|i: int|
            0 <= i < s.len() && (#[trigger] s[i]).0 == k by {
            if k == key {
                assert(s[place].0 == k);
            } else {
                assert(m.remove(key).contains_key(k));
                let i0 = choose|i: int| 0 <= i < rest.len() && (#[trigger] rest[i]).0 == k;
                let i = if i0 < place { i0 } else { i0 + 1 };
                assert(s[i] == rest[i0]);
            }
        }
        s
    }
}

/// The keys and values of a finite map can be listed.
pub proof fn lemma_finite_map_is_listed<T>(m: Map<Seq<char>, T>)
    requires
        m.dom().finite(),
    ensures
        lists(in_order(m), m),
{
    let s = lemma_list_of_finite_map(m);
    lemma_in_order(s, m);
}

/// A list tells the map.
pub proof fn lemma_list_tells_map<T>(
    s: Seq<(Seq<char>, T)>,
    m: Map<Seq<char>, T>,
    n: Map<Seq<char>, T>,
)
    requires
        lists(s, m),
        lists(s, n),
    ensures
        m == n,
{
    assert forall|key: Seq<char>| m.contains_key(key) == n.contains_key(key) && (m.contains_key(key)
        ==> m[key] == n[key]) by {
        if m.contains_key(key) {
            let i = choose|i: int| 0 <= i < s.len() && (#[trigger] s[i]).0 == key;
            assert(n.contains_key(s[i].0));
        }
        if n.contains_key(key) {
            let i = choose|i: int| 0 <= i < s.len() && (#[trigger] s[i]).0 == key;
            assert(m.contains_key(s[i].0));
        }
    }
    assert(m =~= n);
}

} // verus!
