//! `NameMap`: values kept under distinct names, in ascending name order.
//! This is the ordered map that the service keeps its plugins and their
//! checks in: iterating it visits the names in lexicographic order.

use vstd::prelude::*;
use crate::names::{
    compare_names, lemma_name_lt_asymmetric, lemma_name_lt_irreflexive, lemma_name_lt_total,
    lemma_name_lt_transitive, name_lt, name_order, NameOrder,
};

verus! {

/// Names of `s` are strictly ascending (and therefore distinct).
pub open spec fn sorted_names<V>(s: Seq<(Seq<char>, V)>) -> bool {
    forall|i: int, j: int| 0 <= i < j < s.len() ==> name_lt(#[trigger] s[i].0, #[trigger] s[j].0)
}

/// Some entry of `s` is named `k`.
pub open spec fn has_name<V>(s: Seq<(Seq<char>, V)>, k: Seq<char>) -> bool {
    exists|i: int| 0 <= i < s.len() && #[trigger] s[i].0 == k
}

/// The position of the entry named `k` (meaningful where `has_name(s, k)`).
pub open spec fn name_index<V>(s: Seq<(Seq<char>, V)>, k: Seq<char>) -> int {
    choose|i: int| 0 <= i < s.len() && #[trigger] s[i].0 == k
}

/// The map from names to values that `s` holds.
pub open spec fn as_map<V>(s: Seq<(Seq<char>, V)>) -> Map<Seq<char>, V> {
    Map::new(|k: Seq<char>| has_name(s, k), |k: Seq<char>| s[name_index(s, k)].1)
}

/// In a sorted sequence, the entry named `s[i].0` is at position `i`.
pub proof fn lemma_name_index<V>(s: Seq<(Seq<char>, V)>, i: int)
    requires
        sorted_names(s),
        0 <= i < s.len(),
    ensures
        has_name(s, s[i].0),
        name_index(s, s[i].0) == i,
        as_map(s).dom().contains(s[i].0),
        as_map(s)[s[i].0] == s[i].1,
{
    assert(has_name(s, s[i].0));
    let j = name_index(s, s[i].0);
    if j < i {
        lemma_name_lt_irreflexive(s[i].0);
        assert(name_lt(s[j].0, s[i].0));
    } else if i < j {
        lemma_name_lt_irreflexive(s[i].0);
        assert(name_lt(s[i].0, s[j].0));
    }
}

/// Changing the value at position `i` of a sorted sequence changes the
/// value under that name and nothing else.
pub proof fn lemma_update_value<V>(s: Seq<(Seq<char>, V)>, i: int, v: V)
    requires
        sorted_names(s),
        0 <= i < s.len(),
    ensures
        sorted_names(s.update(i, (s[i].0, v))),
        as_map(s.update(i, (s[i].0, v))) == as_map(s).insert(s[i].0, v),
{
    let t = s.update(i, (s[i].0, v));
    assert(sorted_names(t)) by {
        assert forall|a: int, b: int| 0 <= a < b < t.len() implies name_lt(
            #[trigger] t[a].0,
            #[trigger] t[b].0,
        ) by {
            assert(t[a].0 == s[a].0);
            assert(t[b].0 == s[b].0);
        }
    }
    assert forall|k: Seq<char>| #[trigger] has_name(t, k) <==> has_name(s, k) by {
        if has_name(s, k) {
            let j = name_index(s, k);
            assert(t[j].0 == k);
        }
        if has_name(t, k) {
            let j = name_index(t, k);
            assert(s[j].0 == k);
        }
    }
    assert forall|k: Seq<char>| has_name(t, k) implies #[trigger] as_map(t)[k] == as_map(s).insert(
        s[i].0,
        v,
    )[k] by {
        let j = name_index(s, k);
        lemma_name_index(s, j);
        lemma_name_index(t, j);
    }
    assert(as_map(t) =~= as_map(s).insert(s[i].0, v));
}

/// Inserting a new name at position `i` of a sorted sequence, between the
/// names before and after it, keeps it sorted and adds that name.
pub proof fn lemma_insert_new<V>(s: Seq<(Seq<char>, V)>, i: int, k: Seq<char>, v: V)
    requires
        sorted_names(s),
        0 <= i <= s.len(),
        forall|j: int| 0 <= j < i ==> name_lt(#[trigger] s[j].0, k),
        i < s.len() ==> name_lt(k, s[i].0),
    ensures
        !has_name(s, k),
        sorted_names(s.insert(i, (k, v))),
        as_map(s.insert(i, (k, v))) == as_map(s).insert(k, v),
{
    let t = s.insert(i, (k, v));
    assert forall|j: int| i <= j < s.len() implies name_lt(k, #[trigger] s[j].0) by {
        if j > i {
            lemma_name_lt_transitive(k, s[i].0, s[j].0);
        }
    }
    assert(!has_name(s, k)) by {
        if has_name(s, k) {
            let j = name_index(s, k);
            lemma_name_lt_irreflexive(k);
        }
    }
    assert(sorted_names(t)) by {
        assert forall|a: int, b: int| 0 <= a < b < t.len() implies name_lt(
            #[trigger] t[a].0,
            #[trigger] t[b].0,
        ) by {
            if b < i {
            } else if b == i {
            } else if a < i {
                lemma_name_lt_transitive(s[a].0, k, s[b - 1].0);
            } else if a == i {
            } else {
            }
        }
    }
    assert forall|x: Seq<char>| #[trigger] has_name(t, x) <==> (has_name(s, x) || x == k) by {
        if has_name(s, x) {
            let j = name_index(s, x);
            if j < i {
                assert(t[j].0 == x);
            } else {
                assert(t[j + 1].0 == x);
            }
        }
        if x == k {
            assert(t[i].0 == x);
        }
        if has_name(t, x) {
            let j = name_index(t, x);
            if j < i {
                assert(s[j].0 == x);
            } else if j > i {
                assert(s[j - 1].0 == x);
            }
        }
    }
    assert forall|x: Seq<char>| has_name(t, x) implies #[trigger] as_map(t)[x] == as_map(s).insert(
        k,
        v,
    )[x] by {
        if x == k {
            lemma_name_index(t, i);
        } else {
            let j = name_index(s, x);
            lemma_name_index(s, j);
            if j < i {
                lemma_name_index(t, j);
            } else {
                lemma_name_index(t, j + 1);
            }
        }
    }
    assert(as_map(t) =~= as_map(s).insert(k, v));
}

/// Dropping the last (greatest) entry of a sorted sequence removes its name.
pub proof fn lemma_as_map_drop_last<V>(s: Seq<(Seq<char>, V)>)
    requires
        sorted_names(s),
        s.len() > 0,
    ensures
        sorted_names(s.drop_last()),
        as_map(s.drop_last()) == as_map(s).remove(s.last().0),
{
    let d = s.drop_last();
    let last = s.last().0;
    assert(sorted_names(d)) by {
        assert forall|a: int, b: int| 0 <= a < b < d.len() implies name_lt(
            #[trigger] d[a].0,
            #[trigger] d[b].0,
        ) by {
            assert(d[a] == s[a] && d[b] == s[b]);
        }
    }
    assert forall|k: Seq<char>| #[trigger] has_name(d, k) <==> (has_name(s, k) && k != last) by {
        if has_name(d, k) {
            let j = name_index(d, k);
            assert(s[j].0 == k);
            assert(name_lt(s[j].0, s[s.len() - 1].0));
            lemma_name_lt_irreflexive(k);
        }
        if has_name(s, k) && k != last {
            let j = name_index(s, k);
            assert(j != s.len() - 1);
            assert(d[j].0 == k);
        }
    }
    assert forall|k: Seq<char>| has_name(d, k) implies #[trigger] as_map(d)[k] == as_map(s)[k] by {
        let j = name_index(d, k);
        lemma_name_index(d, j);
        lemma_name_index(s, j);
    }
    assert(as_map(d) =~= as_map(s).remove(last));
}

/// A sorted sequence of named values is determined by the map it holds: the
/// registry's order is the order of the names, whatever order they were put
/// in.
pub proof fn lemma_sorted_determined<V>(s1: Seq<(Seq<char>, V)>, s2: Seq<(Seq<char>, V)>)
    requires
        sorted_names(s1),
        sorted_names(s2),
        as_map(s1) == as_map(s2),
    ensures
        s1 == s2,
    decreases s1.len(),
{
    if s1.len() == 0 {
        if s2.len() > 0 {
            lemma_name_index(s2, 0);
            assert(as_map(s1).dom().contains(s2[0].0));
        }
        assert(s1 =~= s2);
    } else if s2.len() == 0 {
        lemma_name_index(s1, 0);
        assert(as_map(s2).dom().contains(s1[0].0));
    } else {
        let a = s1.last();
        let b = s2.last();
        lemma_name_index(s1, s1.len() - 1);
        lemma_name_index(s2, s2.len() - 1);
        assert(a.0 == b.0) by {
            if a.0 != b.0 {
                let j = name_index(s2, a.0);
                let k = name_index(s1, b.0);
                assert(j != s2.len() - 1);
                assert(name_lt(s2[j].0, s2[s2.len() - 1].0));
                assert(k != s1.len() - 1);
                assert(name_lt(s1[k].0, s1[s1.len() - 1].0));
                lemma_name_lt_asymmetric(a.0, b.0);
            }
        }
        assert(a.1 == b.1);
        lemma_as_map_drop_last(s1);
        lemma_as_map_drop_last(s2);
        lemma_sorted_determined(s1.drop_last(), s2.drop_last());
        assert(s1 =~= s2.drop_last().push(b));
        assert(s2 =~= s2.drop_last().push(b));
    }
}

/// Values under distinct names, kept in ascending name order.
pub struct NameMap<V> {
    entries: Vec<(String, V)>,
}

impl<V> View for NameMap<V> {
    type V = Seq<(Seq<char>, V)>;

    closed spec fn view(&self) -> Seq<(Seq<char>, V)> {
        self.entries@.map_values(|e: (String, V)| (e.0@, e.1))
    }
}

impl<V> NameMap<V> {
    /// The names are strictly ascending.
    pub open spec fn wf(&self) -> bool {
        sorted_names(self@)
    }

    /// An empty map.
    pub fn new() -> (r: Self)
        ensures
            r.wf(),
            r@ == Seq::<(Seq<char>, V)>::empty(),
    {
        let r = NameMap { entries: Vec::new() };
        assert(r@ =~= Seq::<(Seq<char>, V)>::empty());
        r
    }

    /// The number of entries.
    pub fn len(&self) -> (r: usize)
        ensures
            r == self@.len(),
    {
        self.entries.len()
    }

    /// The name of the `i`-th entry in name order.
    pub fn name_at(&self, i: usize) -> (r: &String)
        requires
            i < self@.len(),
        ensures
            r@ == self@[i as int].0,
    {
        &self.entries[i].0
    }

    /// The value of the `i`-th entry in name order.
    pub fn value_at(&self, i: usize) -> (r: &V)
        requires
            i < self@.len(),
        ensures
            *r == self@[i as int].1,
    {
        &self.entries[i].1
    }

    /// The value of the `i`-th entry, to be changed in place; names stay.
    pub fn value_at_mut(&mut self, i: usize) -> (r: &mut V)
        requires
            i < old(self)@.len(),
        ensures
            *r == old(self)@[i as int].1,
            final(self)@ == old(self)@.update(i as int, (old(self)@[i as int].0, *final(r))),
    {
        &mut self.entries[i].1
    }

    /// The position of the entry named `name`, if there is one.
    pub fn find(&self, name: &str) -> (r: Option<usize>)
        requires
            self.wf(),
        ensures
            r is None <==> !has_name(self@, name@),
            r matches Some(i) ==> i < self@.len() && self@[i as int].0 == name@,
    {
        let n = self.entries.len();
        let mut i: usize = 0;
        while i < n
            invariant
                n == self@.len(),
                i <= n,
                forall|j: int| 0 <= j < i ==> #[trigger] self@[j].0 != name@,
            decreases n - i,
        {
            if compare_names(self.entries[i].0.as_str(), name) == NameOrder::Equal {
                assert(self@[i as int].0 == name@);
                return Some(i);
            }
            i = i + 1;
        }
        proof {
            if has_name(self@, name@) {
                let j = name_index(self@, name@);
                assert(self@[j].0 != name@);
            }
        }
        None
    }

    /// Puts `value` under `name`, replacing and returning the value that was
    /// under it, if any; every other name keeps its value.
    pub fn insert(&mut self, name: String, value: V) -> (r: Option<V>)
        requires
            old(self).wf(),
        ensures
            final(self).wf(),
            as_map(final(self)@) == as_map(old(self)@).insert(name@, value),
            r == (if has_name(old(self)@, name@) {
                Some(as_map(old(self)@)[name@])
            } else {
                None
            }),
    {
        let ghost s = self@;
        let n = self.entries.len();
        let mut i: usize = 0;
        let mut found = false;
        while i < n
            invariant_except_break
                self@ == s,
                sorted_names(s),
                n == s.len(),
                i <= n,
                !found,
                forall|j: int| 0 <= j < i ==> name_lt(#[trigger] s[j].0, name@),
            ensures
                self@ == s,
                i <= n,
                forall|j: int| 0 <= j < i ==> name_lt(#[trigger] s[j].0, name@),
                found ==> i < n && s[i as int].0 == name@,
                !found ==> (i < n ==> name_lt(name@, s[i as int].0)),
            decreases n - i,
        {
            let ord = compare_names(self.entries[i].0.as_str(), name.as_str());
            if ord == NameOrder::Equal {
                found = true;
                break;
            } else if ord == NameOrder::Greater {
                proof {
                    lemma_name_lt_total(s[i as int].0, name@);
                }
                break;
            }
            i = i + 1;
        }
        if found {
            let mut v = value;
            std::mem::swap(&mut self.entries[i].1, &mut v);
            proof {
                assert(self@ =~= s.update(i as int, (s[i as int].0, value)));
                lemma_update_value(s, i as int, value);
                lemma_name_index(s, i as int);
            }
            return Some(v);
        }
        proof {
            lemma_insert_new(s, i as int, name@, value);
        }
        self.entries.insert(i, (name, value));
        proof {
            assert(self@ =~= s.insert(i as int, (name@, value)));
        }
        None
    }
}

} // verus!
