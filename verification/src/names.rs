//! Name tables: association lists from names to ids, searched front to back.

use vstd::prelude::*;

verus! {

/// The id bound to `name` by the first matching entry of `table`.
pub open spec fn lookup<I>(table: Seq<(Seq<char>, I)>, name: Seq<char>) -> Option<I>
    decreases table.len(),
{
    if table.len() == 0 {
        None
    } else if table[0].0 == name {
        Some(table[0].1)
    } else {
        lookup(table.drop_first(), name)
    }
}

/// The name views of a table of owned names.
pub open spec fn table_view<I>(table: Seq<(String, I)>) -> Seq<(Seq<char>, I)> {
    table.map_values(|p: (String, I)| (p.0@, p.1))
}

/// No name occurs twice in `table`.
pub open spec fn distinct_names<I>(table: Seq<(Seq<char>, I)>) -> bool {
    forall|k: int, l: int|
        0 <= k < l < table.len() ==> (#[trigger] table[k]).0 != (#[trigger] table[l]).0
}

/// A name is found exactly when some entry carries it, and then with that
/// entry's id.
pub proof fn lemma_lookup_some<I>(table: Seq<(Seq<char>, I)>, name: Seq<char>)
    ensures
        lookup(table, name) is Some <==> exists|k: int| 0 <= k < table.len() && table[k].0 == name,
        lookup(table, name) matches Some(id) ==> exists|k: int|
            0 <= k < table.len() && table[k].0 == name && table[k].1 == id,
    decreases table.len(),
{
    if table.len() > 0 {
        lemma_lookup_some(table.drop_first(), name);
        if table[0].0 != name {
            if exists|k: int| 0 <= k < table.len() && table[k].0 == name {
                let k = choose|k: int| 0 <= k < table.len() && table[k].0 == name;
                assert(table.drop_first()[k - 1].0 == name);
            }
            if lookup(table, name) is Some {
                let k = choose|k: int|
                    0 <= k < table.drop_first().len() && table.drop_first()[k].0 == name
                        && table.drop_first()[k].1 == lookup(table, name)->0;
                assert(table[k + 1].0 == name);
            }
        }
    }
}

/// Appending an entry for a fresh name keeps names distinct and binds it.
pub proof fn lemma_push_fresh<I>(table: Seq<(Seq<char>, I)>, name: Seq<char>, id: I)
    requires
        distinct_names(table),
        lookup(table, name) is None,
    ensures
        distinct_names(table.push((name, id))),
        lookup(table.push((name, id)), name) == Some(id),
        forall|n: Seq<char>| n != name ==> lookup(table.push((name, id)), n) == lookup(table, n),
    decreases table.len(),
{
    lemma_lookup_some(table, name);
    let t = table.push((name, id));
    assert forall|k: int, l: int| 0 <= k < l < t.len() implies (#[trigger] t[k]).0 != (
    #[trigger] t[l]).0 by {
        if l == t.len() - 1 {
            assert(table[k] == t[k]);
        }
    }
    assert forall|n: Seq<char>| n != name implies lookup(t, n) == lookup(table, n) by {
        lemma_lookup_push(table, (name, id), n);
        lemma_lookup_some(table, n);
    }
    lemma_lookup_push(table, (name, id), name);
}

/// Looking a name up in a table grown by one entry.
pub proof fn lemma_lookup_push<I>(table: Seq<(Seq<char>, I)>, entry: (Seq<char>, I), n: Seq<char>)
    ensures
        lookup(table.push(entry), n) == (if lookup(table, n) is Some {
            lookup(table, n)
        } else if entry.0 == n {
            Some(entry.1)
        } else {
            None
        }),
    decreases table.len(),
{
    let t = table.push(entry);
    if table.len() > 0 {
        assert(t.drop_first() =~= table.drop_first().push(entry));
        assert(t[0] == table[0]);
        lemma_lookup_push(table.drop_first(), entry, n);
    } else {
        assert(t[0] == entry);
        assert(t.drop_first() =~= Seq::<(Seq<char>, I)>::empty());
        assert(lookup(t.drop_first(), n) is None);
    }
}

/// Finds the id bound to `key` in `table`.
pub fn find_name<I: Copy>(table: &Vec<(String, I)>, key: &String) -> (r: Option<I>)
    ensures
        r == lookup(table_view(table@), key@),
{
    let ghost view = table_view(table@);
    let mut i: usize = 0;
    assert(view.skip(0) == view);
    while i < table.len()
        invariant
            0 <= i <= table@.len(),
            view == table_view(table@),
            lookup(view, key@) == lookup(view.skip(i as int), key@),
        decreases table@.len() - i,
    {
        let ghost rest = view.skip(i as int);
        assert(rest[0] == (table@[i as int].0@, table@[i as int].1));
        if table[i].0 == *key {
            return Some(table[i].1);
        }
        assert(rest.drop_first() == view.skip(i + 1));
        i += 1;
    }
    None
}

} // verus!
