//! A table of named values in a fixed order: the shape of everything in the
//! configuration that is looked up by name.

use crate::text;
use vstd::prelude::*;

verus! {

// ---------------------------------------------------------------------------
// Model
// ---------------------------------------------------------------------------

/// `key` is the name of an entry.
pub open spec fn has_key<V>(m: Seq<(Seq<char>, V)>, key: Seq<char>) -> bool {
    exists|i: int| 0 <= i < m.len() && #[trigger] m[i].0 == key
}

/// The position of the entry named `key`.
pub open spec fn key_index<V>(m: Seq<(Seq<char>, V)>, key: Seq<char>) -> int {
    choose|i: int| 0 <= i < m.len() && #[trigger] m[i].0 == key
}

/// The value of the entry named `key`.
pub open spec fn value_of<V>(m: Seq<(Seq<char>, V)>, key: Seq<char>) -> V {
    m[key_index(m, key)].1
}

/// No two entries have the same name.
pub open spec fn unique_keys<V>(m: Seq<(Seq<char>, V)>) -> bool {
    forall|i: int, j: int|
        0 <= i < j < m.len() ==> (#[trigger] m[i]).0 != (#[trigger] m[j]).0
}

/// `m` with `value` under `key`: in the place of the entry of that name, or
/// at the end where there is none.
pub open spec fn with_entry<V>(m: Seq<(Seq<char>, V)>, key: Seq<char>, value: V) -> Seq<
    (Seq<char>, V),
> {
    if has_key(m, key) {
        m.update(key_index(m, key), (key, value))
    } else {
        m.push((key, value))
    }
}

/// `m` without the entry named `key`.
pub open spec fn without_entry<V>(m: Seq<(Seq<char>, V)>, key: Seq<char>) -> Seq<
    (Seq<char>, V),
> {
    if has_key(m, key) {
        m.remove(key_index(m, key))
    } else {
        m
    }
}

// ---------------------------------------------------------------------------
// Laws
// ---------------------------------------------------------------------------

/// A name stands at one place only.
pub proof fn law_key_index_unique<V>(m: Seq<(Seq<char>, V)>, i: int)
    requires
        unique_keys(m),
        0 <= i < m.len(),
    ensures
        has_key(m, m[i].0),
        key_index(m, m[i].0) == i,
{
    let k = key_index(m, m[i].0);
    assert(0 <= k < m.len() && m[k].0 == m[i].0);
    if k < i {
        assert(m[k].0 != m[i].0);
    }
    if i < k {
        assert(m[i].0 != m[k].0);
    }
}

/// What was put under a name is found there, every other name is found as
/// before, and names stay unique.
pub proof fn law_with_entry<V>(m: Seq<(Seq<char>, V)>, key: Seq<char>, value: V)
    requires
        unique_keys(m),
    ensures
        unique_keys(with_entry(m, key, value)),
        has_key(with_entry(m, key, value), key),
        value_of(with_entry(m, key, value), key) == value,
        forall|k: Seq<char>|
            k != key ==> #[trigger] has_key(with_entry(m, key, value), k) == has_key(m, k),
        forall|k: Seq<char>|
            k != key && has_key(m, k) ==> #[trigger] value_of(with_entry(m, key, value), k)
                == value_of(m, k),
{
    let n = with_entry(m, key, value);
    if has_key(m, key) {
        let at = key_index(m, key);
        assert forall|i: int| 0 <= i < m.len() implies n[i].0 == m[i].0 by {}
        assert(unique_keys(n)) by {
            assert forall|i: int, j: int| 0 <= i < j < n.len() implies (#[trigger] n[i]).0 != (
            #[trigger] n[j]).0 by {
                assert(m[i].0 != m[j].0);
            }
        }
        assert(n[at] == (key, value));
    } else {
        assert(n[m.len() as int] == (key, value));
        assert(unique_keys(n)) by {
            assert forall|i: int, j: int| 0 <= i < j < n.len() implies (#[trigger] n[i]).0 != (
            #[trigger] n[j]).0 by {
                if j == m.len() {
                    assert(m[i].0 != key);
                } else {
                    assert(m[i].0 != m[j].0);
                }
            }
        }
    }
    let at = if has_key(m, key) {
        key_index(m, key)
    } else {
        m.len() as int
    };
    law_key_index_unique(n, at);
    assert forall|k: Seq<char>| k != key implies #[trigger] has_key(n, k) == has_key(m, k) by {
        if has_key(m, k) {
            let i = key_index(m, k);
            assert(n[i].0 == k);
        }
        if has_key(n, k) {
            let i = key_index(n, k);
            assert(m[i].0 == k);
        }
    }
    assert forall|k: Seq<char>| k != key && has_key(m, k) implies #[trigger] value_of(n, k)
        == value_of(m, k) by {
        let i = key_index(m, k);
        assert(n[i].0 == k);
        law_key_index_unique(n, i);
    }
}

/// A removed name is gone, every other name is found as before, and names
/// stay unique.
pub proof fn law_without_entry<V>(m: Seq<(Seq<char>, V)>, key: Seq<char>)
    requires
        unique_keys(m),
    ensures
        unique_keys(without_entry(m, key)),
        !has_key(without_entry(m, key), key),
        forall|k: Seq<char>|
            k != key ==> #[trigger] has_key(without_entry(m, key), k) == has_key(m, k),
        forall|k: Seq<char>|
            k != key && has_key(m, k) ==> #[trigger] value_of(without_entry(m, key), k)
                == value_of(m, k),
{
    let n = without_entry(m, key);
    if has_key(m, key) {
        let at = key_index(m, key);
        assert forall|i: int| 0 <= i < n.len() implies #[trigger] n[i] == m[if i < at {
            i
        } else {
            i + 1
        }] by {}
        assert forall|i: int, j: int| 0 <= i < j < n.len() implies (#[trigger] n[i]).0 != (
        #[trigger] n[j]).0 by {
            assert(m[if i < at { i } else { i + 1 }].0 != m[if j < at { j } else { j + 1 }].0);
        }
        if has_key(n, key) {
            let i = key_index(n, key);
            law_key_index_unique(m, if i < at { i } else { i + 1 });
        }
        assert forall|k: Seq<char>| k != key implies #[trigger] has_key(n, k) == has_key(m, k) by {
            if has_key(m, k) {
                let i = key_index(m, k);
                assert(n[if i < at { i } else { i - 1 }].0 == k);
            }
            if has_key(n, k) {
                let i = key_index(n, k);
                assert(m[if i < at { i } else { i + 1 }].0 == k);
            }
        }
        assert forall|k: Seq<char>| k != key && has_key(m, k) implies #[trigger] value_of(n, k)
            == value_of(m, k) by {
            let i = key_index(m, k);
            let j = if i < at { i } else { i - 1 };
            assert(n[j].0 == k);
            law_key_index_unique(n, j);
        }
    }
}

/// The names in order: each once, and all of them.
pub open spec fn are_sorted_keys<V>(ids: Seq<Seq<char>>, m: Seq<(Seq<char>, V)>) -> bool {
    &&& forall|i: int, j: int|
        0 <= i < j < ids.len() ==> #[trigger] text::precedes(ids[i], ids[j])
    &&& forall|k: Seq<char>| #[trigger] ids.contains(k) <==> has_key(m, k)
}

/// There is one way to put the names in order.
pub proof fn law_sorted_keys_unique<V>(
    a: Seq<Seq<char>>,
    b: Seq<Seq<char>>,
    m: Seq<(Seq<char>, V)>,
)
    requires
        are_sorted_keys(a, m),
        are_sorted_keys(b, m),
    ensures
        a == b,
{
    assert forall|k: Seq<char>| a.contains(k) == b.contains(k) by {
        assert(a.contains(k) <==> has_key(m, k));
        assert(b.contains(k) <==> has_key(m, k));
    }
    lemma_sorted_same(a, b);
}

/// Two strictly increasing sequences with the same members are the same.
proof fn lemma_sorted_same(a: Seq<Seq<char>>, b: Seq<Seq<char>>)
    requires
        forall|i: int, j: int| 0 <= i < j < a.len() ==> #[trigger] text::precedes(a[i], a[j]),
        forall|i: int, j: int| 0 <= i < j < b.len() ==> #[trigger] text::precedes(b[i], b[j]),
        forall|k: Seq<char>| #[trigger] a.contains(k) == b.contains(k),
    ensures
        a == b,
    decreases a.len(),
{
    if a.len() == 0 {
        if b.len() > 0 {
            assert(b.contains(b[0]));
            assert(a.contains(b[0]));
        }
        assert(a =~= b);
    } else {
        assert(a.contains(a[0]));
        assert(b.contains(a[0]));
        assert(b.len() > 0);
        assert(b.contains(b[0]));
        assert(a.contains(b[0]));
        let i = choose|i: int| 0 <= i < b.len() && b[i] == a[0];
        let j = choose|j: int| 0 <= j < a.len() && a[j] == b[0];
        if i > 0 && j > 0 {
            assert(text::precedes(b[0], b[i]));
            assert(text::precedes(a[0], a[j]));
            text::law_precedes_transitive(a[0], b[0], a[0]);
            text::law_precedes_irreflexive(a[0]);
        }
        assert(a[0] == b[0]);
        let x = a.drop_first();
        let y = b.drop_first();
        assert forall|p: int, q: int| 0 <= p < q < x.len() implies #[trigger] text::precedes(
            x[p],
            x[q],
        ) by {
            assert(text::precedes(a[p + 1], a[q + 1]));
        }
        assert forall|p: int, q: int| 0 <= p < q < y.len() implies #[trigger] text::precedes(
            y[p],
            y[q],
        ) by {
            assert(text::precedes(b[p + 1], b[q + 1]));
        }
        assert forall|k: Seq<char>| #[trigger] x.contains(k) == y.contains(k) by {
            text::law_precedes_irreflexive(a[0]);
            if x.contains(k) {
                let p = choose|p: int| 0 <= p < x.len() && x[p] == k;
                assert(a[p + 1] == k);
                assert(a.contains(k));
                assert(b.contains(k));
                let q = choose|q: int| 0 <= q < b.len() && b[q] == k;
                assert(text::precedes(a[0], a[p + 1]));
                assert(q != 0);
                assert(y[q - 1] == k);
            }
            if y.contains(k) {
                let p = choose|p: int| 0 <= p < y.len() && y[p] == k;
                assert(b[p + 1] == k);
                assert(b.contains(k));
                assert(a.contains(k));
                let q = choose|q: int| 0 <= q < a.len() && a[q] == k;
                assert(text::precedes(b[0], b[p + 1]));
                assert(q != 0);
                assert(x[q - 1] == k);
            }
        }
        lemma_sorted_same(x, y);
        assert(a =~= seq![a[0]] + x);
        assert(b =~= seq![b[0]] + y);
    }
}

// ---------------------------------------------------------------------------
// The table
// ---------------------------------------------------------------------------

/// Named values in a fixed order; no name occurs twice.
#[derive(Debug)]
pub struct Table<V> {
    entries: Vec<(String, V)>,
}

impl<V: View> View for Table<V> {
    type V = Seq<(Seq<char>, V::V)>;

    closed spec fn view(&self) -> Seq<(Seq<char>, V::V)> {
        self.entries@.map_values(|e: (String, V)| (e.0@, e.1@))
    }
}

impl<V> Table<V> {
    #[verifier::type_invariant]
    spec fn inv(self) -> bool {
        forall|i: int, j: int|
            0 <= i < j < self.entries@.len() ==> (#[trigger] self.entries@[i]).0@ != (
            #[trigger] self.entries@[j]).0@
    }
}

impl<V: View> Table<V> {
    /// The table without entries.
    pub fn new() -> (r: Self)
        ensures
            r@ == Seq::<(Seq<char>, V::V)>::empty(),
    {
        let r = Table { entries: Vec::new() };
        assert(r@ =~= Seq::<(Seq<char>, V::V)>::empty());
        r
    }

    /// The number of entries.
    pub fn len(&self) -> (r: usize)
        ensures
            r == self@.len(),
            unique_keys(self@),
    {
        proof {
            use_type_invariant(self);
        }
        assert(unique_keys(self@)) by {
            assert forall|i: int, j: int| 0 <= i < j < self@.len() implies (#[trigger] self@[i]).0
                != (#[trigger] self@[j]).0 by {
                assert(self.entries@[i].0@ != self.entries@[j].0@);
            }
        }
        self.entries.len()
    }

    pub fn is_empty(&self) -> (r: bool)
        ensures
            r == (self@.len() == 0),
    {
        self.entries.len() == 0
    }

    /// The name at a position.
    pub fn key_at(&self, i: usize) -> (r: &String)
        requires
            i < self@.len(),
        ensures
            r@ == self@[i as int].0,
    {
        &self.entries[i].0
    }

    /// The value at a position.
    pub fn value_at(&self, i: usize) -> (r: &V)
        requires
            i < self@.len(),
        ensures
            r@ == self@[i as int].1,
    {
        &self.entries[i].1
    }

    /// The position of a name.
    pub fn find(&self, key: &str) -> (r: Option<usize>)
        ensures
            r is Some <==> has_key(self@, key@),
            r matches Some(i) ==> i < self@.len() && i == key_index(self@, key@) && self@[i as int].0
                == key@,
    {
        let n: usize = self.len();
        let mut i: usize = 0;
        while i < n
            invariant
                i <= n == self@.len(),
                unique_keys(self@),
                forall|j: int| 0 <= j < i ==> (#[trigger] self@[j]).0 != key@,
            decreases n - i,
        {
            if text::same(self.key_at(i).as_str(), key) {
                proof {
                    law_key_index_unique(self@, i as int);
                }
                return Some(i);
            }
            i = i + 1;
        }
        None
    }

    pub fn contains_key(&self, key: &str) -> (r: bool)
        ensures
            r == has_key(self@, key@),
    {
        match self.find(key) {
            Some(_) => true,
            None => false,
        }
    }

    /// The value under a name.
    pub fn get(&self, key: &str) -> (r: Option<&V>)
        ensures
            r is Some <==> has_key(self@, key@),
            r matches Some(v) ==> v@ == value_of(self@, key@),
    {
        match self.find(key) {
            Some(i) => Some(self.value_at(i)),
            None => None,
        }
    }

    /// The names in the order of code points.
    pub fn sorted_keys(&self) -> (r: Vec<String>)
        ensures
            are_sorted_keys(text::views(r@), self@),
            r@.len() == self@.len(),
    {
        let n: usize = self.len();
        let mut out: Vec<String> = Vec::new();
        let mut i: usize = 0;
        while i < n
            invariant
                i <= n == self@.len(),
                unique_keys(self@),
                out@.len() == i,
                forall|a: int, b: int|
                    0 <= a < b < out@.len() ==> #[trigger] text::precedes(
                        text::views(out@)[a],
                        text::views(out@)[b],
                    ),
                forall|k: Seq<char>| #[trigger]
                    text::views(out@).contains(k) <==> has_key(self@.take(i as int), k),
            decreases n - i,
        {
            let key = self.key_at(i);
            let ghost before = text::views(out@);
            let ghost name = key@;
            proof {
                if before.contains(name) {
                    let k = key_index(self@.take(i as int), name);
                    assert(self@[k].0 != self@[i as int].0);
                }
            }
            let mut p: usize = 0;
            while p < out.len() && text::before(out[p].as_str(), key.as_str())
                invariant
                    p <= out@.len(),
                    before == text::views(out@),
                    name == key@,
                    forall|a: int| 0 <= a < p ==> text::precedes(#[trigger] before[a], name),
                decreases out@.len() - p,
            {
                assert(before[p as int] == out@[p as int]@);
                p = p + 1;
            }
            proof {
                assert forall|a: int| p <= a < before.len() implies text::precedes(
                    name,
                    #[trigger] before[a],
                ) by {
                    assert(before.contains(before[p as int]));
                    text::law_precedes_total(before[p as int], name);
                    if a > p {
                        assert(text::precedes(before[p as int], before[a]));
                        text::law_precedes_transitive(name, before[p as int], before[a]);
                    }
                }
            }
            out.insert(p, key.clone());
            proof {
                let after = text::views(out@);
                assert(after =~= before.insert(p as int, name));
                assert forall|a: int, b: int| 0 <= a < b < after.len() implies
                    #[trigger] text::precedes(after[a], after[b]) by {
                    if b < p {
                        assert(text::precedes(before[a], before[b]));
                    } else if b == p {
                        assert(text::precedes(before[a], name));
                    } else if a < p {
                        assert(text::precedes(before[a], before[b - 1]));
                    } else if a == p {
                        assert(text::precedes(name, before[b - 1]));
                    } else {
                        assert(text::precedes(before[a - 1], before[b - 1]));
                    }
                }
                let upto = self@.take(i as int);
                let next = self@.take(i + 1);
                assert forall|k: Seq<char>| #[trigger] after.contains(k) <==> has_key(next, k) by {
                    if after.contains(k) {
                        let a = choose|a: int| 0 <= a < after.len() && after[a] == k;
                        if a == p {
                            assert(next[i as int].0 == k);
                        } else {
                            assert(before[if a < p { a } else { a - 1 }] == k);
                            assert(before.contains(k));
                            let c = key_index(upto, k);
                            assert(next[c].0 == k);
                        }
                    }
                    if has_key(next, k) {
                        let c = key_index(next, k);
                        if c == i {
                            assert(after[p as int] == k);
                        } else {
                            assert(upto[c].0 == k);
                            assert(before.contains(k));
                            let a = choose|a: int| 0 <= a < before.len() && before[a] == k;
                            assert(after[if a < p { a } else { a + 1 }] == k);
                        }
                    }
                }
            }
            i = i + 1;
        }
        assert(self@.take(n as int) =~= self@);
        out
    }

    /// Replaces the value at a position.
    pub fn set_at(&mut self, i: usize, value: V)
        requires
            i < old(self)@.len(),
        ensures
            final(self)@ == old(self)@.update(i as int, (old(self)@[i as int].0, value@)),
    {
        proof {
            use_type_invariant(&*self);
        }
        let ghost before = self.entries@;
        let mut entries: Vec<(String, V)> = Vec::new();
        std::mem::swap(&mut entries, &mut self.entries);
        let key = entries[i].0.clone();
        entries.set(i, (key, value));
        assert forall|a: int, b: int| 0 <= a < b < entries@.len() implies (#[trigger] entries@[a]).0@
            != (#[trigger] entries@[b]).0@ by {
            assert(before[a].0@ != before[b].0@);
        }
        self.entries = entries;
        assert(self@ =~= old(self)@.update(i as int, (old(self)@[i as int].0, value@)));
    }

    /// Puts a value under a name: in the place of the entry of that name, or
    /// at the end where there is none.
    pub fn insert(&mut self, key: String, value: V)
        ensures
            final(self)@ == with_entry(old(self)@, key@, value@),
    {
        match self.find(key.as_str()) {
            Some(i) => {
                self.set_at(i, value);
            },
            None => {
                proof {
                    use_type_invariant(&*self);
                }
                let ghost before = self.entries@;
                let ghost view_before = self@;
                let mut entries: Vec<(String, V)> = Vec::new();
                std::mem::swap(&mut entries, &mut self.entries);
                entries.push((key, value));
                assert forall|a: int, b: int| 0 <= a < b < entries@.len() implies (
                #[trigger] entries@[a]).0@ != (#[trigger] entries@[b]).0@ by {
                    if b == before.len() {
                        assert(view_before[a].0 != key@);
                    } else {
                        assert(before[a].0@ != before[b].0@);
                    }
                }
                self.entries = entries;
                assert(self@ =~= view_before.push((key@, value@)));
            },
        }
    }

    /// Takes the entry of a name out and says whether there was one.
    pub fn remove(&mut self, key: &str) -> (r: bool)
        ensures
            r == has_key(old(self)@, key@),
            final(self)@ == without_entry(old(self)@, key@),
    {
        match self.find(key) {
            Some(i) => {
                proof {
                    use_type_invariant(&*self);
                }
                let ghost before = self.entries@;
                let mut entries: Vec<(String, V)> = Vec::new();
                std::mem::swap(&mut entries, &mut self.entries);
                let _ = entries.remove(i);
                assert forall|a: int, b: int| 0 <= a < b < entries@.len() implies (
                #[trigger] entries@[a]).0@ != (#[trigger] entries@[b]).0@ by {
                    assert(before[if a < i { a } else { a + 1 }].0@ != before[if b < i {
                        b
                    } else {
                        b + 1
                    }].0@);
                }
                self.entries = entries;
                assert(self@ =~= old(self)@.remove(i as int));
                true
            },
            None => false,
        }
    }
}

impl<V: text::Duplicate> text::Duplicate for Table<V> {
    fn duplicate(&self) -> (r: Self) {
        let n: usize = self.len();
        let mut out: Table<V> = Table::new();
        let mut i: usize = 0;
        assert(out@ =~= self@.take(0));
        while i < n
            invariant
                i <= n == self@.len(),
                unique_keys(self@),
                out@ == self@.take(i as int),
            decreases n - i,
        {
            proof {
                if has_key(out@, self@[i as int].0) {
                    let k = key_index(out@, self@[i as int].0);
                    assert(self@[k].0 != self@[i as int].0);
                }
            }
            out.insert(self.key_at(i).clone(), self.value_at(i).duplicate());
            i = i + 1;
            assert(out@ =~= self@.take(i as int));
        }
        assert(self@.take(n as int) =~= self@);
        out
    }
}

} // verus!
