//! Symbol tables: lists of names in which a name finds the entry that was
//! registered last under it.

use vstd::prelude::*;

verus! {

/// The views of a list of names.
pub open spec fn names_view(names: Seq<String>) -> Seq<Seq<char>> {
    names.map_values(|s: String| s@)
}

/// The position of the last entry of `keys` that equals `key`.
pub open spec fn last_index(keys: Seq<Seq<char>>, key: Seq<char>) -> Option<int>
    decreases keys.len(),
{
    if keys.len() == 0 {
        None
    } else if keys.last() == key {
        Some(keys.len() - 1)
    } else {
        last_index(keys.drop_last(), key)
    }
}

pub proof fn lemma_last_index(keys: Seq<Seq<char>>, key: Seq<char>)
    ensures
        match last_index(keys, key) {
            Some(i) => 0 <= i < keys.len() && keys[i] == key && forall|j: int|
                i < j < keys.len() ==> keys[j] != key,
            None => forall|j: int| 0 <= j < keys.len() ==> keys[j] != key,
        },
    decreases keys.len(),
{
    if keys.len() > 0 && keys.last() != key {
        let rest = keys.drop_last();
        lemma_last_index(rest, key);
        assert(forall|j: int| 0 <= j < rest.len() ==> rest[j] == keys[j]);
    }
}

/// One more name at the end of a list.
pub proof fn lemma_names_push(names: Seq<String>, name: String)
    ensures
        names_view(names.push(name)) == names_view(names).push(name@),
{
    assert(names_view(names.push(name)) =~= names_view(names).push(name@));
}

/// Looks a name up in a table.
pub fn find_last_key(keys: &Vec<String>, key: &str) -> (r: Option<usize>)
    ensures
        match r {
            Some(i) => last_index(names_view(keys@), key@) == Some(i as int) && i < keys@.len(),
            None => last_index(names_view(keys@), key@) is None,
        },
{
    let ghost all = names_view(keys@);
    let mut i: usize = keys.len();
    assert(all.take(i as int) =~= all);
    while i > 0
        invariant
            i <= keys@.len(),
            all == names_view(keys@),
            last_index(all, key@) == last_index(all.take(i as int), key@),
        decreases i,
    {
        i -= 1;
        assert(all.take(i + 1).drop_last() =~= all.take(i as int));
        assert(all.take(i + 1).last() == keys@[i as int]@);
        if keys[i].as_str().eq(key) {
            return Some(i);
        }
    }
    assert(all.take(0).len() == 0);
    None
}

/// The items of a list in the opposite order.
pub fn reversed<T>(items: Vec<T>) -> (r: Vec<T>)
    ensures
        r@ == items@.reverse(),
{
    let mut items = items;
    let ghost all = items@;
    let mut r: Vec<T> = Vec::new();
    while items.len() > 0
        invariant
            items@.len() <= all.len(),
            items@ == all.take(items@.len() as int),
            r@ == all.skip(items@.len() as int).reverse(),
        decreases items@.len(),
    {
        let item = items.pop().unwrap();
        r.push(item);
        assert(items@ =~= all.take(items@.len() as int));
        assert(r@ =~= all.skip(items@.len() as int).reverse());
    }
    assert(all.skip(0) =~= all);
    r
}

/// Puts an item in the place of another and hands the other out.
pub fn replace_at<T>(items: &mut Vec<T>, k: usize, item: T) -> (r: T)
    requires
        k < old(items)@.len(),
    ensures
        r == old(items)@[k as int],
        final(items)@ == old(items)@.update(k as int, item),
{
    items.push(item);
    let r = items.swap_remove(k);
    assert(items@ =~= old(items)@.update(k as int, item));
    r
}

} // verus!
