//! Maps keyed by text, as tables in ascending order of their keys.

use crate::checkpoint::names_it;
use crate::order::{lemma_text_less_irreflexive, text_less};
use crate::st::{keyed, search, sorted_names};
use vstd::prelude::*;

verus! {

/// The map that a table stands for.
pub open spec fn table_map<T>(table: Seq<(String, T)>) -> Map<Seq<char>, T> {
    Map::new(
        |k: Seq<char>| names_it(keyed(table), k),
        |k: Seq<char>|
            table[choose|i: int| 0 <= i < table.len() && (#[trigger] keyed(table)[i]).0 == k].1,
    )
}

/// Each key of a sorted table is there once, with its value.
pub proof fn lemma_table_entry<T>(table: Seq<(String, T)>, i: int)
    requires
        sorted_names(keyed(table)),
        0 <= i < table.len(),
    ensures
        table_map(table).contains_key(table[i].0@),
        table_map(table)[table[i].0@] == table[i].1,
{
    let k = keyed(table);
    let name = table[i].0@;
    assert(k[i].0 == name);
    assert(names_it(k, name));
    let j = choose|j: int| 0 <= j < table.len() && (#[trigger] k[j]).0 == name;
    lemma_text_less_irreflexive(name);
    if i < j {
        assert(text_less(k[i].0, k[j].0));
    }
    if j < i {
        assert(text_less(k[j].0, k[i].0));
    }
}

/// The value under `name`.
pub fn lookup<'a, T>(table: &'a Vec<(String, T)>, name: &str) -> (value: Option<&'a T>)
    requires
        sorted_names(keyed(table@)),
    ensures
        match value {
            Some(v) => table_map(table@).contains_key(name@) && table_map(table@)[name@] == *v,
            None => !table_map(table@).contains_key(name@),
        },
{
    match search(table, name) {
        Ok(i) => {
            proof {
                lemma_table_entry(table@, i as int);
            }
            Some(&table[i].1)
        },
        Err(_) => {
            assert(!names_it(keyed(table@), name@)) by {
                if names_it(keyed(table@), name@) {
                    let k = choose|k: int|
                        0 <= k < keyed(table@).len() && (#[trigger] keyed(table@)[k]).0 == name@;
                    assert(table@[k].0@ == name@);
                }
            }
            None
        },
    }
}

/// Puts `value` under `name`, in place of what was there.
pub fn put<T>(table: &mut Vec<(String, T)>, name: String, value: T)
    requires
        sorted_names(keyed(old(table)@)),
    ensures
        sorted_names(keyed(final(table)@)),
        table_map(final(table)@) == table_map(old(table)@).insert(name@, value),
{
    let ghost before = table@;
    let ghost b = keyed(before);
    match search(table, name.as_str()) {
        Ok(i) => {
            table.set(i, (name, value));
            proof {
                let after = table@;
                let a = keyed(after);
                assert(forall|k: int| 0 <= k < a.len() ==> (#[trigger] a[k]).0 == b[k].0);
                assert(sorted_names(a)) by {
                    assert forall|x: int, y: int|
                        #![trigger a[x], a[y]]
                        0 <= x < y < a.len() implies text_less(a[x].0, a[y].0) by {
                        assert(text_less(b[x].0, b[y].0));
                    }
                }
                lemma_put(before, after, i as int);
            }
        },
        Err(i) => {
            table.insert(i, (name, value));
            proof {
                let after = table@;
                let a = keyed(after);
                assert(sorted_names(a)) by {
                    assert forall|x: int, y: int|
                        #![trigger a[x], a[y]]
                        0 <= x < y < a.len() implies text_less(a[x].0, a[y].0) by {
                        let u = if x < i { x } else { x - 1 };
                        let v = if y < i { y } else { y - 1 };
                        if x != i && y != i {
                            assert(a[x].0 == b[u].0 && a[y].0 == b[v].0);
                            assert(text_less(b[u].0, b[v].0));
                        } else if x == i {
                            assert(after[y] == before[v]);
                        } else {
                            assert(after[x] == before[u]);
                        }
                    }
                }
                lemma_put(before, after, i as int);
            }
        },
    }
}

proof fn lemma_put<T>(before: Seq<(String, T)>, after: Seq<(String, T)>, at: int)
    requires
        sorted_names(keyed(before)),
        sorted_names(keyed(after)),
        0 <= at < after.len(),
        ({
            ||| after == before.insert(at, after[at]) && at <= before.len()
            ||| after == before.update(at, after[at]) && at < before.len() && before[at].0@
                == after[at].0@
        }),
    ensures
        table_map(after) == table_map(before).insert(after[at].0@, after[at].1),
{
    let name = after[at].0@;
    let left = table_map(after);
    let right = table_map(before).insert(name, after[at].1);
    lemma_table_entry(after, at);
    assert forall|k: Seq<char>| #[trigger] left.contains_key(k) <==> right.contains_key(k) by {
        if names_it(keyed(after), k) {
            let i = choose|i: int| 0 <= i < after.len() && (#[trigger] keyed(after)[i]).0 == k;
            if i != at {
                let j = if after.len() == before.len() || i < at { i } else { i - 1 };
                assert(keyed(before)[j].0 == k);
            }
        }
        if names_it(keyed(before), k) {
            let j = choose|j: int| 0 <= j < before.len() && (#[trigger] keyed(before)[j]).0 == k;
            let i = if after.len() == before.len() || j < at { j } else { j + 1 };
            assert(keyed(after)[i].0 == k);
        }
    }
    assert forall|k: Seq<char>| #[trigger] left.contains_key(k) implies left[k] == right[k] by {
        let i = choose|i: int| 0 <= i < after.len() && (#[trigger] keyed(after)[i]).0 == k;
        lemma_table_entry(after, i);
        if i != at {
            let j = if after.len() == before.len() || i < at { i } else { i - 1 };
            assert(before[j] == after[i]);
            lemma_table_entry(before, j);
            if k == name {
                lemma_text_less_irreflexive(k);
                assert(keyed(after)[at].0 == name);
                if i < at {
                    assert(text_less(keyed(after)[i].0, keyed(after)[at].0));
                } else {
                    assert(text_less(keyed(after)[at].0, keyed(after)[i].0));
                }
            }
        }
    }
    assert(left =~= right);
}

/// Replacing the value of entry `at` replaces it in the map.
pub proof fn lemma_table_update<T>(before: Seq<(String, T)>, after: Seq<(String, T)>, at: int)
    requires
        sorted_names(keyed(before)),
        0 <= at < before.len(),
        after == before.update(at, after[at]),
        after[at].0@ == before[at].0@,
    ensures
        sorted_names(keyed(after)),
        table_map(after) == table_map(before).insert(after[at].0@, after[at].1),
{
    let a = keyed(after);
    let b = keyed(before);
    assert forall|x: int, y: int| #![trigger a[x], a[y]] 0 <= x < y < a.len() implies text_less(
        a[x].0,
        a[y].0,
    ) by {
        assert(text_less(b[x].0, b[y].0));
    }
    lemma_put(before, after, at);
}

/// Taking entry `at` out takes its key out of the map.
pub proof fn lemma_table_remove<T>(before: Seq<(String, T)>, at: int)
    requires
        sorted_names(keyed(before)),
        0 <= at < before.len(),
    ensures
        sorted_names(keyed(before.remove(at))),
        table_map(before.remove(at)) == table_map(before).remove(before[at].0@),
{
    let after = before.remove(at);
    let a = keyed(after);
    let b = keyed(before);
    assert forall|x: int, y: int| #![trigger a[x], a[y]] 0 <= x < y < a.len() implies text_less(
        a[x].0,
        a[y].0,
    ) by {
        let u = if x < at { x } else { x + 1 };
        let v = if y < at { y } else { y + 1 };
        assert(text_less(b[u].0, b[v].0));
    }
    let name = before[at].0@;
    let left = table_map(after);
    let right = table_map(before).remove(name);
    lemma_text_less_irreflexive(name);
    assert forall|k: Seq<char>| #[trigger] left.contains_key(k) <==> right.contains_key(k) by {
        if names_it(a, k) {
            let i = choose|i: int| 0 <= i < after.len() && (#[trigger] a[i]).0 == k;
            let j = if i < at { i } else { i + 1 };
            assert(b[j].0 == k);
            assert(b[at].0 == name);
            if j < at {
                assert(text_less(b[j].0, b[at].0));
            } else {
                assert(text_less(b[at].0, b[j].0));
            }
        }
        if names_it(b, k) && k != name {
            let j = choose|j: int| 0 <= j < before.len() && (#[trigger] b[j]).0 == k;
            let i = if j < at { j } else { j - 1 };
            assert(a[i].0 == k);
        }
    }
    assert forall|k: Seq<char>| #[trigger] left.contains_key(k) implies left[k] == right[k] by {
        let i = choose|i: int| 0 <= i < after.len() && (#[trigger] a[i]).0 == k;
        let j = if i < at { i } else { i + 1 };
        assert(after[i] == before[j]);
        lemma_table_entry(after, i);
        lemma_table_entry(before, j);
    }
    assert(left =~= right);
}

/// A table holds finitely many keys.
pub proof fn lemma_table_finite<T>(table: Seq<(String, T)>)
    ensures
        table_map(table).dom().finite(),
{
    let names = Seq::new(table.len(), |i: int| table[i].0@);
    vstd::seq_lib::seq_to_set_is_finite(names);
    assert(table_map(table).dom() =~= names.to_set()) by {
        assert forall|k: Seq<char>| table_map(table).dom().contains(k) <==> names.to_set().contains(
            k,
        ) by {
            if names_it(keyed(table), k) {
                let i = choose|i: int| 0 <= i < table.len() && (#[trigger] keyed(table)[i]).0 == k;
                assert(names[i] == k);
            }
            if names.contains(k) {
                let i = choose|i: int| 0 <= i < names.len() && names[i] == k;
                assert(keyed(table)[i].0 == k);
            }
        }
    }
}

} // verus!
