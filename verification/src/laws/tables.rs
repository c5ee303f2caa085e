//! What putting and removing leave of a table, place by place.

use crate::table;
use vstd::prelude::*;

verus! {

/// A name is there where an entry has it, and its value is that of the entry.
pub proof fn law_lookup<V>(m: Seq<(Seq<char>, V)>, i: int, key: Seq<char>)
    requires
        table::unique_keys(m),
    ensures
        table::has_key(m, key) <==> exists|j: int| 0 <= j < m.len() && (#[trigger] m[j]).0 == key,
        0 <= i < m.len() && m[i].0 == key ==> table::value_of(m, key) == m[i].1,
{
    if table::has_key(m, key) {
        let j = table::key_index(m, key);
        assert(m[j].0 == key);
    }
    if 0 <= i < m.len() && m[i].0 == key {
        table::law_key_index_unique(m, i);
    }
}

/// Putting a value changes the entry of the name where there is one, adds an
/// entry at the end where there is none, and leaves all others in their places.
pub proof fn law_put<V>(m: Seq<(Seq<char>, V)>, key: Seq<char>, value: V)
    requires
        table::unique_keys(m),
    ensures
        (forall|j: int| 0 <= j < m.len() ==> (#[trigger] m[j]).0 != key) ==> table::with_entry(
            m,
            key,
            value,
        ) == m.push((key, value)),
        (exists|j: int| 0 <= j < m.len() && (#[trigger] m[j]).0 == key) ==> table::with_entry(
            m,
            key,
            value,
        ).len() == m.len(),
        forall|j: int|
            0 <= j < m.len() ==> #[trigger] table::with_entry(m, key, value)[j] == (if m[j].0
                == key {
                (key, value)
            } else {
                m[j]
            }),
{
    assert forall|j: int| 0 <= j < m.len() implies #[trigger] table::with_entry(m, key, value)[j]
        == (if m[j].0 == key {
        (key, value)
    } else {
        m[j]
    }) by {
        if m[j].0 == key {
            table::law_key_index_unique(m, j);
        }
    }
    if exists|j: int| 0 <= j < m.len() && (#[trigger] m[j]).0 == key {
        let j = choose|j: int| 0 <= j < m.len() && (#[trigger] m[j]).0 == key;
        table::law_key_index_unique(m, j);
    }
}

/// Removing a name leaves the entries of all others, in their order.
pub proof fn law_removed<V>(m: Seq<(Seq<char>, V)>, key: Seq<char>)
    requires
        table::unique_keys(m),
    ensures
        table::without_entry(m, key) == m.filter(|e: (Seq<char>, V)| e.0 != key),
    decreases m.len(),
{
    let pred = |e: (Seq<char>, V)| e.0 != key;
    reveal(Seq::filter);
    if m.len() > 0 {
        let front = m.drop_last();
        let n = m.len() - 1;
        assert(forall|j: int| 0 <= j < n ==> front[j] == m[j]);
        law_removed(front, key);
        assert(front.push(m.last()) =~= m);
        if m.last().0 == key {
            table::law_key_index_unique(m, n);
            assert(!table::has_key(front, key)) by {
                if table::has_key(front, key) {
                    let j = table::key_index(front, key);
                    assert(m[j].0 != m[n].0);
                }
            }
            assert(table::without_entry(m, key) =~= front);
        } else if table::has_key(front, key) {
            let j = table::key_index(front, key);
            assert(m[j].0 == key);
            table::law_key_index_unique(m, j);
            assert(table::without_entry(m, key) =~= table::without_entry(front, key).push(
                m.last(),
            ));
        } else {
            assert(!table::has_key(m, key)) by {
                if table::has_key(m, key) {
                    let j = table::key_index(m, key);
                    assert(front[j].0 == key);
                }
            }
            assert(table::without_entry(m, key) =~= front.push(m.last()));
        }
    } else {
        assert(table::without_entry(m, key) =~= m.filter(pred));
    }
}

} // verus!
