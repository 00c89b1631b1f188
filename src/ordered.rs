//! The ordered maps that back the stores. They are `indexmap::IndexMap`s;
//! each instantiation has a name for the sequence of its entries, in order,
//! and one wrapper per method that the stores call.
use vstd::prelude::*;
use indexmap::IndexMap;
use crate::relay::RelayInfo;
use crate::event::UserEventMsg;
use crate::contact::UserContactInfo;
use crate::subscription::SubscriptionFilter;

verus! {

#[verifier::external_type_specification]
#[verifier::external_body]
#[verifier::reject_recursive_types(K)]
#[verifier::reject_recursive_types(V)]
#[verifier::reject_recursive_types(S)]
pub struct ExIndexMap<K, V, S>(IndexMap<K, V, S>);

/// The entries of a relay map, in the map's order.
pub uninterp spec fn relay_entries(m: IndexMap<usize, RelayInfo>) -> Seq<(usize, RelayInfo)>;

/// Position of key `k` among `s`, if any.
pub open spec fn index_of_usize<V>(s: Seq<(usize, V)>, k: usize) -> Option<int>
    decreases s.len(),
{
    if s.len() == 0 {
        None
    } else if s.last().0 == k {
        Some(s.len() - 1)
    } else {
        index_of_usize(s.drop_last(), k)
    }
}

/// Relies on `IndexMap::new`: a new map has no entries.
#[verifier::external_body]
pub(crate) fn relay_map_new() -> (r: IndexMap<usize, RelayInfo>)
    ensures
        relay_entries(r) == Seq::<(usize, RelayInfo)>::empty(),
{
    IndexMap::new()
}

/// Relies on `IndexMap::len`: the number of entries.
#[verifier::external_body]
pub(crate) fn relay_map_len(m: &IndexMap<usize, RelayInfo>) -> (r: usize)
    ensures
        r == relay_entries(*m).len(),
{
    m.len()
}

/// Relies on `IndexMap::get_index`: the entry at a position.
#[verifier::external_body]
pub(crate) fn relay_map_at(m: &IndexMap<usize, RelayInfo>, i: usize) -> (r: &RelayInfo)
    requires
        i < relay_entries(*m).len(),
    ensures
        *r == relay_entries(*m)[i as int].1,
{
    m.get_index(i).unwrap().1
}

/// Relies on `IndexMap::insert`: an existing key keeps its place and takes
/// the new value; a new key is appended.
#[verifier::external_body]
pub(crate) fn relay_map_insert(m: &mut IndexMap<usize, RelayInfo>, k: usize, v: RelayInfo)
    ensures
        relay_entries(*final(m)) == match index_of_usize(relay_entries(*old(m)), k) {
            Some(i) => relay_entries(*old(m)).update(i, (k, v)),
            None => relay_entries(*old(m)).push((k, v)),
        },
{
    m.insert(k, v);
}

/// Relies on `IndexMap::swap_remove`: the entry of the key is replaced by
/// the last entry, which is then popped; an absent key changes nothing.
#[verifier::external_body]
pub(crate) fn relay_map_swap_remove(m: &mut IndexMap<usize, RelayInfo>, k: usize)
    ensures
        relay_entries(*final(m)) == match index_of_usize(relay_entries(*old(m)), k) {
            Some(i) => relay_entries(*old(m)).update(i, relay_entries(*old(m)).last()).drop_last(),
            None => relay_entries(*old(m)),
        },
{
    m.swap_remove(&k);
}

/// Relies on `IndexMap::sort_by` with keys compared in reverse: the same
/// entries, ordered by key from the largest down.
#[verifier::external_body]
pub(crate) fn relay_map_sort_desc(m: &mut IndexMap<usize, RelayInfo>)
    ensures
        relay_entries(*final(m)).to_multiset() == relay_entries(*old(m)).to_multiset(),
        forall|i: int, j: int|
            0 <= i < j < relay_entries(*final(m)).len() ==> relay_entries(*final(m))[i].0
                >= relay_entries(*final(m))[j].0,
{
    m.sort_by(|a, _, b, _| b.cmp(a));
}

} // verus!

verus! {

/// No two entries of `s` share a key.
pub open spec fn unique_usize_keys<V>(s: Seq<(usize, V)>) -> bool {
    forall|i: int, j: int| 0 <= i < j < s.len() ==> s[i].0 != s[j].0
}

/// Keys fall strictly from the first entry to the last.
pub open spec fn strictly_desc<V>(s: Seq<(usize, V)>) -> bool {
    forall|i: int, j: int| 0 <= i < j < s.len() ==> s[i].0 > s[j].0
}

pub proof fn lemma_index_of_usize<V>(s: Seq<(usize, V)>, k: usize)
    ensures
        index_of_usize(s, k) matches Some(i) ==> 0 <= i < s.len() && s[i].0 == k,
        index_of_usize(s, k) is None ==> forall|i: int| 0 <= i < s.len() ==> s[i].0 != k,
    decreases s.len(),
{
    if s.len() > 0 && s.last().0 != k {
        lemma_index_of_usize(s.drop_last(), k);
        if index_of_usize(s, k) is None {
            assert forall|i: int| 0 <= i < s.len() implies s[i].0 != k by {
                if i < s.len() - 1 {
                    assert(s[i] == s.drop_last()[i]);
                }
            }
        }
    }
}

/// Sorting a sequence with unique keys by key, largest first, yields the
/// same entries with keys strictly falling.
pub proof fn lemma_sorted_unique<V>(t: Seq<(usize, V)>, s: Seq<(usize, V)>)
    requires
        unique_usize_keys(t),
        s.to_multiset() == t.to_multiset(),
        forall|i: int, j: int| 0 <= i < j < s.len() ==> s[i].0 >= s[j].0,
    ensures
        strictly_desc(s),
        s.len() == t.len(),
        forall|x: (usize, V)| s.contains(x) <==> t.contains(x),
{
    broadcast use vstd::seq_lib::group_to_multiset_ensures;

    assert(t.no_duplicates());
    assert(s.len() == s.to_multiset().len());
    assert(t.len() == t.to_multiset().len());
    t.lemma_multiset_has_no_duplicates();
    s.lemma_multiset_has_no_duplicates_conv();
    assert forall|x: (usize, V)| s.contains(x) <==> t.contains(x) by {
        assert(s.contains(x) <==> s.to_multiset().count(x) > 0);
        assert(t.contains(x) <==> t.to_multiset().count(x) > 0);
    }
    assert forall|i: int, j: int| 0 <= i < j < s.len() implies s[i].0 > s[j].0 by {
        if s[i].0 == s[j].0 {
            assert(s.contains(s[i]));
            assert(s.contains(s[j]));
            let a = choose|a: int| 0 <= a < t.len() && t[a] == s[i];
            let b = choose|b: int| 0 <= b < t.len() && t[b] == s[j];
            assert(a == b);
        }
    }
}

/// What swap-removing position `i` leaves: every other entry, and no more.
pub proof fn lemma_swap_remove_contents<V>(s: Seq<(usize, V)>, i: int)
    requires
        0 <= i < s.len(),
        unique_usize_keys(s),
    ensures
        unique_usize_keys(s.update(i, s.last()).drop_last()),
        forall|x: (usize, V)|
            s.update(i, s.last()).drop_last().contains(x) <==> (s.contains(x) && x.0 != s[i].0),
{
    let t = s.update(i, s.last()).drop_last();
    let n = s.len() - 1;
    assert forall|a: int, b: int| 0 <= a < b < t.len() implies t[a].0 != t[b].0 by {
        let oa = if a == i { n } else { a };
        let ob = if b == i { n } else { b };
        assert(t[a] == s[oa]);
        assert(t[b] == s[ob]);
    }
    assert forall|x: (usize, V)| t.contains(x) <==> (s.contains(x) && x.0 != s[i].0) by {
        if t.contains(x) {
            let a = choose|a: int| 0 <= a < t.len() && t[a] == x;
            let oa = if a == i { n } else { a };
            assert(t[a] == s[oa]);
            assert(s.contains(x));
        }
        if s.contains(x) && x.0 != s[i].0 {
            let a = choose|a: int| 0 <= a < s.len() && s[a] == x;
            if a == n {
                if i < n {
                    assert(t[i] == x);
                }
            } else {
                assert(t[a] == x);
            }
        }
    }
}

/// What replacing the value at position `i` leaves.
pub proof fn lemma_update_contents<V>(s: Seq<(usize, V)>, i: int, v: V)
    requires
        0 <= i < s.len(),
        unique_usize_keys(s),
    ensures
        unique_usize_keys(s.update(i, (s[i].0, v))),
        forall|x: (usize, V)|
            s.update(i, (s[i].0, v)).contains(x) <==> ((s.contains(x) && x.0 != s[i].0) || x == (
            s[i].0,
            v,
        )),
{
    let t = s.update(i, (s[i].0, v));
    assert forall|x: (usize, V)|
        t.contains(x) <==> ((s.contains(x) && x.0 != s[i].0) || x == (s[i].0, v)) by {
        if t.contains(x) {
            let a = choose|a: int| 0 <= a < t.len() && t[a] == x;
            if a != i {
                assert(s[a] == x);
            }
        }
        if s.contains(x) && x.0 != s[i].0 {
            let a = choose|a: int| 0 <= a < s.len() && s[a] == x;
            assert(t[a] == x);
        }
        if x == (s[i].0, v) {
            assert(t[i] == x);
        }
    }
}

} // verus!

verus! {

/// No two entries of `s` share a key (by content).
pub open spec fn unique_str_keys<V>(s: Seq<(String, V)>) -> bool {
    forall|i: int, j: int| 0 <= i < j < s.len() ==> s[i].0@ != s[j].0@
}

/// Position of the key whose content is `k` among `s`, if any.
pub open spec fn index_of_str<V>(s: Seq<(String, V)>, k: Seq<char>) -> Option<int>
    decreases s.len(),
{
    if s.len() == 0 {
        None
    } else if s.last().0@ == k {
        Some(s.len() - 1)
    } else {
        index_of_str(s.drop_last(), k)
    }
}

/// The entries after inserting `(k, v)`: an existing key keeps its place
/// and takes the value, a new key is appended.
pub open spec fn str_inserted<V>(s: Seq<(String, V)>, k: String, v: V) -> Seq<(String, V)> {
    match index_of_str(s, k@) {
        Some(i) => s.update(i, (s[i].0, v)),
        None => s.push((k, v)),
    }
}

/// The entries after swap-removing key `k`: its entry takes the last entry,
/// which is popped; an absent key leaves them as they are.
pub open spec fn str_swap_removed<V>(s: Seq<(String, V)>, k: Seq<char>) -> Seq<(String, V)> {
    match index_of_str(s, k) {
        Some(i) => s.update(i, s.last()).drop_last(),
        None => s,
    }
}

pub proof fn lemma_index_of_str<V>(s: Seq<(String, V)>, k: Seq<char>)
    ensures
        index_of_str(s, k) matches Some(i) ==> 0 <= i < s.len() && s[i].0@ == k,
        index_of_str(s, k) is None ==> forall|i: int| 0 <= i < s.len() ==> s[i].0@ != k,
    decreases s.len(),
{
    if s.len() > 0 && s.last().0@ != k {
        lemma_index_of_str(s.drop_last(), k);
        if index_of_str(s, k) is None {
            assert forall|i: int| 0 <= i < s.len() implies s[i].0@ != k by {
                if i < s.len() - 1 {
                    assert(s[i] == s.drop_last()[i]);
                }
            }
        }
    }
}

/// Whether some entry of `s` holds value `v`.
pub open spec fn holds_value<K, V>(s: Seq<(K, V)>, v: V) -> bool {
    exists|i: int| 0 <= i < s.len() && s[i].1 == v
}

/// Every entry's key has the content that `key_of` gives for its value.
pub open spec fn keyed_by<V>(s: Seq<(String, V)>, key_of: spec_fn(V) -> Seq<char>) -> bool {
    forall|i: int| 0 <= i < s.len() ==> #[trigger] s[i].0@ == key_of(s[i].1)
}

/// What swap-removing position `i` leaves: every other value, and no more.
pub proof fn lemma_swap_remove_values<V>(s: Seq<(String, V)>, i: int, key_of: spec_fn(V) -> Seq<char>)
    requires
        0 <= i < s.len(),
        unique_str_keys(s),
        keyed_by(s, key_of),
    ensures
        unique_str_keys(s.update(i, s.last()).drop_last()),
        keyed_by(s.update(i, s.last()).drop_last(), key_of),
        forall|x: V|
            #[trigger] holds_value(s.update(i, s.last()).drop_last(), x) <==> (holds_value(s, x) && key_of(x)
                != s[i].0@),
{
    let t = s.update(i, s.last()).drop_last();
    let n = s.len() - 1;
    assert forall|a: int, b: int| 0 <= a < b < t.len() implies t[a].0@ != t[b].0@ by {
        let oa = if a == i { n } else { a };
        let ob = if b == i { n } else { b };
        assert(t[a] == s[oa]);
        assert(t[b] == s[ob]);
    }
    assert forall|a: int| 0 <= a < t.len() implies #[trigger] t[a].0@ == key_of(t[a].1) by {
        let oa = if a == i { n } else { a };
        assert(t[a] == s[oa]);
    }
    assert forall|x: V| holds_value(t, x) <==> (holds_value(s, x) && key_of(x) != s[i].0@) by {
        if holds_value(t, x) {
            let a = choose|a: int| 0 <= a < t.len() && t[a].1 == x;
            let oa = if a == i { n } else { a };
            assert(t[a] == s[oa]);
            assert(s[oa].0@ == key_of(s[oa].1));
            assert(s[i].0@ == key_of(s[i].1));
        }
        if holds_value(s, x) && key_of(x) != s[i].0@ {
            let a = choose|a: int| 0 <= a < s.len() && s[a].1 == x;
            assert(s[a].0@ == key_of(s[a].1));
            if a == n {
                if i < n {
                    assert(t[i].1 == x);
                }
            } else {
                assert(t[a].1 == x);
            }
        }
    }
}

/// What replacing the value at position `i` by one with the same key leaves.
pub proof fn lemma_update_values<V>(s: Seq<(String, V)>, i: int, v: V, key_of: spec_fn(V) -> Seq<char>)
    requires
        0 <= i < s.len(),
        unique_str_keys(s),
        keyed_by(s, key_of),
        key_of(v) == s[i].0@,
    ensures
        unique_str_keys(s.update(i, (s[i].0, v))),
        keyed_by(s.update(i, (s[i].0, v)), key_of),
        forall|x: V|
            #[trigger] holds_value(s.update(i, (s[i].0, v)), x) <==> ((holds_value(s, x) && key_of(x)
                != s[i].0@) || x == v),
{
    let t = s.update(i, (s[i].0, v));
    assert forall|a: int, b: int| 0 <= a < b < t.len() implies t[a].0@ != t[b].0@ by {
        assert(t[a].0 == s[a].0);
        assert(t[b].0 == s[b].0);
    }
    assert forall|a: int| 0 <= a < t.len() implies #[trigger] t[a].0@ == key_of(t[a].1) by {
        if a != i {
            assert(t[a] == s[a]);
        }
    }
    assert forall|x: V| holds_value(t, x) <==> ((holds_value(s, x) && key_of(x) != s[i].0@) || x
        == v) by {
        if holds_value(t, x) {
            let a = choose|a: int| 0 <= a < t.len() && t[a].1 == x;
            if a != i {
                assert(s[a] == t[a]);
                assert(s[a].0@ == key_of(s[a].1));
            }
        }
        if holds_value(s, x) && key_of(x) != s[i].0@ {
            let a = choose|a: int| 0 <= a < s.len() && s[a].1 == x;
            assert(s[a].0@ == key_of(s[a].1));
            assert(t[a].1 == x);
        }
        if x == v {
            assert(t[i].1 == x);
        }
    }
}

/// What appending a new key leaves.
pub proof fn lemma_push_values<V>(s: Seq<(String, V)>, k: String, v: V, key_of: spec_fn(V) -> Seq<char>)
    requires
        unique_str_keys(s),
        keyed_by(s, key_of),
        key_of(v) == k@,
        forall|i: int| 0 <= i < s.len() ==> s[i].0@ != k@,
    ensures
        unique_str_keys(s.push((k, v))),
        keyed_by(s.push((k, v)), key_of),
        forall|x: V| #[trigger] holds_value(s.push((k, v)), x) <==> ((holds_value(s, x) && key_of(x) != k@)
            || x == v),
{
    let t = s.push((k, v));
    assert forall|a: int, b: int| 0 <= a < b < t.len() implies t[a].0@ != t[b].0@ by {
        assert(t[a] == s[a]);
    }
    assert forall|a: int| 0 <= a < t.len() implies #[trigger] t[a].0@ == key_of(t[a].1) by {
        if a < s.len() {
            assert(t[a] == s[a]);
        }
    }
    assert forall|x: V| holds_value(t, x) <==> ((holds_value(s, x) && key_of(x) != k@) || x
        == v) by {
        if holds_value(t, x) {
            let a = choose|a: int| 0 <= a < t.len() && t[a].1 == x;
            if a < s.len() {
                assert(s[a] == t[a]);
                assert(s[a].0@ == key_of(s[a].1));
            }
        }
        if holds_value(s, x) && key_of(x) != k@ {
            let a = choose|a: int| 0 <= a < s.len() && s[a].1 == x;
            assert(t[a].1 == x);
        }
        if x == v {
            assert(t[s.len() as int].1 == x);
        }
    }
}

/// Swap-removing a key leaves exactly the values whose key differs; an
/// absent key leaves all.
pub proof fn lemma_swap_remove_key<V>(s: Seq<(String, V)>, k: Seq<char>, key_of: spec_fn(V) -> Seq<char>)
    requires
        unique_str_keys(s),
        keyed_by(s, key_of),
    ensures
        unique_str_keys(str_swap_removed(s, k)),
        keyed_by(str_swap_removed(s, k), key_of),
        forall|x: V| #[trigger] holds_value(str_swap_removed(s, k), x) <==> (holds_value(s, x) && key_of(x) != k),
{
    lemma_index_of_str(s, k);
    match index_of_str(s, k) {
        Some(i) => {
            assert(0 <= i < s.len() && s[i].0@ == k);
            lemma_swap_remove_values(s, i, key_of);
        },
        None => {
            assert forall|x: V| holds_value(s, x) implies key_of(x) != k by {
                let a = choose|a: int| 0 <= a < s.len() && s[a].1 == x;
                assert(s[a].0@ == key_of(s[a].1));
            }
        },
    }
}

/// Inserting `(k, v)` where `v`'s key is `k` leaves the values of other
/// keys and `v`.
pub proof fn lemma_insert_key<V>(s: Seq<(String, V)>, k: String, v: V, key_of: spec_fn(V) -> Seq<char>)
    requires
        unique_str_keys(s),
        keyed_by(s, key_of),
        key_of(v) == k@,
    ensures
        unique_str_keys(str_inserted(s, k, v)),
        keyed_by(str_inserted(s, k, v), key_of),
        forall|x: V| #[trigger] holds_value(str_inserted(s, k, v), x) <==> ((holds_value(s, x) && key_of(x) != k@) || x == v),
{
    lemma_index_of_str(s, k@);
    match index_of_str(s, k@) {
        Some(i) => {
            assert(0 <= i < s.len() && s[i].0@ == k@);
            lemma_update_values(s, i, v, key_of);
            let t = s.update(i, (s[i].0, v));
            assert(str_inserted(s, k, v) == t);
            assert forall|x: V| holds_value(t, x) <==> ((holds_value(s, x) && key_of(x) != k@) || x
                == v) by {
                assert(holds_value(t, x) <==> ((holds_value(s, x) && key_of(x) != s[i].0@) || x
                    == v));
            }
            assert(forall|x: V| #[trigger] holds_value(str_inserted(s, k, v), x) <==> ((holds_value(s, x) && key_of(x) != k@) || x == v));
        },
        None => {
            lemma_push_values(s, k, v, key_of);
            assert(str_inserted(s, k, v) == s.push((k, v)));
            assert(forall|x: V| holds_value(s.push((k, v)), x) <==> ((holds_value(s, x) && key_of(x) != k@) || x == v));
        },
    }
}

/// The entries of an event map, in the map's order.
pub uninterp spec fn event_entries(m: IndexMap<String, UserEventMsg>) -> Seq<(String, UserEventMsg)>;

/// Relies on `IndexMap::new`: a new map has no entries.
#[verifier::external_body]
pub(crate) fn event_map_new() -> (r: IndexMap<String, UserEventMsg>)
    ensures
        event_entries(r) == Seq::<(String, UserEventMsg)>::empty(),
{
    IndexMap::new()
}

/// Relies on `IndexMap::len`: the number of entries.
#[verifier::external_body]
pub(crate) fn event_map_len(m: &IndexMap<String, UserEventMsg>) -> (r: usize)
    ensures
        r == event_entries(*m).len(),
{
    m.len()
}

/// Relies on `IndexMap::get_index`: the entry at a position.
#[verifier::external_body]
pub(crate) fn event_map_at(m: &IndexMap<String, UserEventMsg>, i: usize) -> (r: &UserEventMsg)
    requires
        i < event_entries(*m).len(),
    ensures
        *r == event_entries(*m)[i as int].1,
{
    m.get_index(i).unwrap().1
}

/// Relies on `IndexMap::get_index_of`: the position of a key.
#[verifier::external_body]
pub(crate) fn event_map_index_of(m: &IndexMap<String, UserEventMsg>, k: &String) -> (r: Option<
    usize,
>)
    ensures
        r matches Some(i) ==> index_of_str(event_entries(*m), k@) == Some(i as int),
        r is None ==> index_of_str(event_entries(*m), k@) is None,
{
    m.get_index_of(k)
}

/// Relies on `IndexMap::insert`: an existing key keeps its place and takes
/// the new value; a new key is appended.
#[verifier::external_body]
pub(crate) fn event_map_insert(m: &mut IndexMap<String, UserEventMsg>, k: String, v: UserEventMsg)
    ensures
        event_entries(*final(m)) == str_inserted(event_entries(*old(m)), k, v),
{
    m.insert(k, v);
}

/// Relies on `IndexMap::swap_remove`: the entry of the key is replaced by
/// the last entry, which is then popped; an absent key changes nothing.
#[verifier::external_body]
pub(crate) fn event_map_swap_remove(m: &mut IndexMap<String, UserEventMsg>, k: &String)
    ensures
        event_entries(*final(m)) == str_swap_removed(event_entries(*old(m)), k@),
{
    m.swap_remove(k);
}

/// Relies on `IndexMap::sort_by`, a stable sort, with creation times
/// compared in reverse: the same entries, newest first, entries of equal
/// time in their former order.
#[verifier::external_body]
pub(crate) fn event_map_sort_newest_first(m: &mut IndexMap<String, UserEventMsg>)
    ensures
        event_entries(*final(m)).to_multiset() == event_entries(*old(m)).to_multiset(),
        forall|i: int, j: int|
            0 <= i < j < event_entries(*final(m)).len() ==> event_entries(*final(m))[i].1.event.created_at
                >= event_entries(*final(m))[j].1.event.created_at,
        forall|i: int, j: int|
            0 <= i < j < event_entries(*final(m)).len() && event_entries(*final(m))[i].1.event.created_at
                == event_entries(*final(m))[j].1.event.created_at ==> exists|a: int, b: int|
                0 <= a < b < event_entries(*old(m)).len() && event_entries(*old(m))[a]
                    == event_entries(*final(m))[i] && event_entries(*old(m))[b]
                    == event_entries(*final(m))[j],
{
    m.sort_by(|_, a, _, b| b.event.created_at.cmp(&a.event.created_at));
}

} // verus!

verus! {

/// A reordering of a sequence with unique keys keeps its keys unique,
/// keyed the same way, and its values.
pub proof fn lemma_permuted_str<V>(t: Seq<(String, V)>, s: Seq<(String, V)>, key_of: spec_fn(V) -> Seq<char>)
    requires
        unique_str_keys(t),
        keyed_by(t, key_of),
        s.to_multiset() == t.to_multiset(),
    ensures
        unique_str_keys(s),
        keyed_by(s, key_of),
        s.len() == t.len(),
        forall|x: V| #[trigger] holds_value(s, x) <==> holds_value(t, x),
{
    broadcast use vstd::seq_lib::group_to_multiset_ensures;

    assert(t.no_duplicates());
    assert(s.len() == s.to_multiset().len());
    assert(t.len() == t.to_multiset().len());
    t.lemma_multiset_has_no_duplicates();
    s.lemma_multiset_has_no_duplicates_conv();
    assert forall|x: (String, V)| s.contains(x) <==> t.contains(x) by {
        assert(s.contains(x) <==> s.to_multiset().count(x) > 0);
        assert(t.contains(x) <==> t.to_multiset().count(x) > 0);
    }
    assert forall|i: int, j: int| 0 <= i < j < s.len() implies s[i].0@ != s[j].0@ by {
        if s[i].0@ == s[j].0@ {
            assert(s.contains(s[i]));
            assert(s.contains(s[j]));
            let a = choose|a: int| 0 <= a < t.len() && t[a] == s[i];
            let b = choose|b: int| 0 <= b < t.len() && t[b] == s[j];
            assert(a == b);
        }
    }
    assert forall|i: int| 0 <= i < s.len() implies #[trigger] s[i].0@ == key_of(s[i].1) by {
        assert(s.contains(s[i]));
        let a = choose|a: int| 0 <= a < t.len() && t[a] == s[i];
    }
    assert forall|x: V| holds_value(s, x) <==> holds_value(t, x) by {
        if holds_value(s, x) {
            let a = choose|a: int| 0 <= a < s.len() && s[a].1 == x;
            assert(s.contains(s[a]));
        }
        if holds_value(t, x) {
            let a = choose|a: int| 0 <= a < t.len() && t[a].1 == x;
            assert(t.contains(t[a]));
        }
    }
}

} // verus!

verus! {

/// The entries of a contact map, in the map's order.
pub uninterp spec fn contact_entries(m: IndexMap<String, UserContactInfo>) -> Seq<(String, UserContactInfo)>;

/// Relies on `IndexMap::new`: a new map has no entries.
#[verifier::external_body]
pub(crate) fn contact_map_new() -> (r: IndexMap<String, UserContactInfo>)
    ensures
        contact_entries(r) == Seq::<(String, UserContactInfo)>::empty(),
{
    IndexMap::new()
}

/// Relies on `IndexMap::len`: the number of entries.
#[verifier::external_body]
pub(crate) fn contact_map_len(m: &IndexMap<String, UserContactInfo>) -> (r: usize)
    ensures
        r == contact_entries(*m).len(),
{
    m.len()
}

/// Relies on `IndexMap::get_index`: the entry at a position.
#[verifier::external_body]
pub(crate) fn contact_map_at(m: &IndexMap<String, UserContactInfo>, i: usize) -> (r: &UserContactInfo)
    requires
        i < contact_entries(*m).len(),
    ensures
        *r == contact_entries(*m)[i as int].1,
{
    m.get_index(i).unwrap().1
}

/// Relies on `IndexMap::insert`: an existing key keeps its place and takes
/// the new value; a new key is appended.
#[verifier::external_body]
pub(crate) fn contact_map_insert(m: &mut IndexMap<String, UserContactInfo>, k: String, v: UserContactInfo)
    ensures
        contact_entries(*final(m)) == str_inserted(contact_entries(*old(m)), k, v),
{
    m.insert(k, v);
}

/// Relies on `IndexMap::swap_remove`: the entry of the key is replaced by
/// the last entry, which is then popped; an absent key changes nothing.
#[verifier::external_body]
pub(crate) fn contact_map_swap_remove(m: &mut IndexMap<String, UserContactInfo>, k: &String)
    ensures
        contact_entries(*final(m)) == str_swap_removed(contact_entries(*old(m)), k@),
{
    m.swap_remove(k);
}

} // verus!

verus! {

/// The entries of a subscription map, in the map's order.
pub uninterp spec fn subscription_entries(m: IndexMap<String, Vec<SubscriptionFilter>>) -> Seq<(String, Vec<SubscriptionFilter>)>;

/// Relies on `IndexMap::new`: a new map has no entries.
#[verifier::external_body]
pub(crate) fn subscription_map_new() -> (r: IndexMap<String, Vec<SubscriptionFilter>>)
    ensures
        subscription_entries(r) == Seq::<(String, Vec<SubscriptionFilter>)>::empty(),
{
    IndexMap::new()
}

/// Relies on `IndexMap::len`: the number of entries.
#[verifier::external_body]
pub(crate) fn subscription_map_len(m: &IndexMap<String, Vec<SubscriptionFilter>>) -> (r: usize)
    ensures
        r == subscription_entries(*m).len(),
{
    m.len()
}

/// Relies on `IndexMap::insert`: an existing key keeps its place and takes
/// the new value; a new key is appended.
#[verifier::external_body]
pub(crate) fn subscription_map_insert(m: &mut IndexMap<String, Vec<SubscriptionFilter>>, k: String, v: Vec<SubscriptionFilter>)
    ensures
        subscription_entries(*final(m)) == str_inserted(subscription_entries(*old(m)), k, v),
{
    m.insert(k, v);
}

/// Relies on `IndexMap::swap_remove`: the entry of the key is replaced by
/// the last entry, which is then popped; an absent key changes nothing.
#[verifier::external_body]
pub(crate) fn subscription_map_swap_remove(m: &mut IndexMap<String, Vec<SubscriptionFilter>>, k: &String)
    ensures
        subscription_entries(*final(m)) == str_swap_removed(subscription_entries(*old(m)), k@),
{
    m.swap_remove(k);
}

} // verus!

verus! {

/// Relies on `IndexMap::get_index`: the key at a position.
#[verifier::external_body]
pub(crate) fn subscription_map_key_at(m: &IndexMap<String, Vec<SubscriptionFilter>>, i: usize) -> (r: &String)
    requires
        i < subscription_entries(*m).len(),
    ensures
        *r == subscription_entries(*m)[i as int].0,
{
    m.get_index(i).unwrap().0
}

} // verus!
