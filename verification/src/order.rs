//! A total order on names, used to keep registries and attribute lists in
//! one canonical order whatever order they were given in.
use vstd::prelude::*;

use crate::text::chars_of;

verus! {

/// Whether `a` comes before `b`: characters are compared by code point from
/// the first on, and a proper prefix comes first.
pub open spec fn name_less(a: Seq<char>, b: Seq<char>) -> bool
    decreases a.len(),
{
    if a.len() == 0 {
        b.len() > 0
    } else if b.len() == 0 {
        false
    } else if a[0] != b[0] {
        (a[0] as int) < (b[0] as int)
    } else {
        name_less(a.drop_first(), b.drop_first())
    }
}

/// Each name comes strictly before every later one.
pub open spec fn names_sorted(names: Seq<Seq<char>>) -> bool {
    forall|i: int, j: int| 0 <= i < j < names.len() ==> name_less(names[i], names[j])
}

/// No name comes before itself.
pub proof fn lemma_name_less_irreflexive(a: Seq<char>)
    ensures
        !name_less(a, a),
    decreases a.len(),
{
    if a.len() > 0 {
        lemma_name_less_irreflexive(a.drop_first());
    }
}

/// The order is transitive.
pub proof fn lemma_name_less_transitive(a: Seq<char>, b: Seq<char>, c: Seq<char>)
    requires
        name_less(a, b),
        name_less(b, c),
    ensures
        name_less(a, c),
    decreases a.len(),
{
    if a.len() > 0 && b.len() > 0 && c.len() > 0 && a[0] == b[0] && b[0] == c[0] {
        lemma_name_less_transitive(a.drop_first(), b.drop_first(), c.drop_first());
    }
}

/// Of two different names, one comes before the other.
pub proof fn lemma_name_less_total(a: Seq<char>, b: Seq<char>)
    requires
        a != b,
    ensures
        name_less(a, b) || name_less(b, a),
    decreases a.len(),
{
    if a.len() == 0 && b.len() == 0 {
        assert(a =~= b);
    } else if a.len() > 0 && b.len() > 0 && a[0] == b[0] {
        if a.drop_first() =~= b.drop_first() {
            assert forall|i: int| 0 <= i < a.len() implies a[i] == b[i] by {
                if i > 0 {
                    assert(a[i] == a.drop_first()[i - 1]);
                    assert(b[i] == b.drop_first()[i - 1]);
                }
            }
            assert(a =~= b);
        }
        lemma_name_less_total(a.drop_first(), b.drop_first());
    } else if a.len() > 0 && b.len() > 0 {
        assert((a[0] as int) != (b[0] as int));
    }
}

/// Strictly sorted names are pairwise different.
pub proof fn lemma_sorted_distinct(names: Seq<Seq<char>>)
    requires
        names_sorted(names),
    ensures
        forall|i: int, j: int| 0 <= i < j < names.len() ==> names[i] != names[j],
{
    assert forall|i: int, j: int| 0 <= i < j < names.len() implies names[i] != names[j] by {
        lemma_name_less_irreflexive(names[i]);
    }
}

/// Whether `a` comes before `b` in `name_less`.
pub fn str_less(a: &str, b: &str) -> (r: bool)
    ensures
        r == name_less(a@, b@),
{
    let x = chars_of(a);
    let y = chars_of(b);
    let mut i: usize = 0;
    assert(a@.skip(0) =~= a@);
    assert(b@.skip(0) =~= b@);
    while i < x.len() && i < y.len() && x[i] == y[i]
        invariant
            i <= x@.len(),
            i <= y@.len(),
            x@ == a@,
            y@ == b@,
            name_less(a@, b@) == name_less(a@.skip(i as int), b@.skip(i as int)),
        decreases x.len() - i,
    {
        assert(a@.skip(i as int).drop_first() =~= a@.skip(i + 1));
        assert(b@.skip(i as int).drop_first() =~= b@.skip(i + 1));
        i = i + 1;
    }
    if i == x.len() {
        i < y.len()
    } else if i == y.len() {
        false
    } else {
        x[i] < y[i]
    }
}

/// Arranges `items` so that their names, given position by position in
/// `names`, come in `name_less` order. The second result lists, for each
/// place of the first, the position of `items` it came from; each position
/// is listed once.
#[verifier::rlimit(40)]
pub fn sort_by_names<T>(items: Vec<T>, names: Vec<String>) -> (r: (Vec<T>, Ghost<Seq<int>>))
    requires
        items@.len() == names@.len(),
        forall|a: int, b: int| 0 <= a < b < names@.len() ==> names@[a]@ != names@[b]@,
    ensures
        r.0@.len() == items@.len(),
        r.1@.len() == items@.len(),
        forall|k: int|
            0 <= k < items@.len() ==> 0 <= #[trigger] r.1@[k] < items@.len() && r.0@[k]
                == items@[r.1@[k]],
        forall|i: int| 0 <= i < items@.len() ==> r.1@.contains(i),
        forall|k1: int, k2: int|
            0 <= k1 < k2 < items@.len() ==> name_less(
                names@[r.1@[k1]]@,
                names@[r.1@[k2]]@,
            ),
{
    let ghost orig_items = items@;
    let ghost orig_names = names@;
    let ghost n = items@.len() as int;
    let mut items = items;
    let mut names = names;
    let mut out: Vec<T> = Vec::new();
    let mut sorted: Vec<String> = Vec::new();
    let ghost mut order: Seq<int> = Seq::empty();
    assert(orig_items.take(n) =~= orig_items);
    assert(orig_names.take(n) =~= orig_names);
    while items.len() > 0
        invariant
            items@.len() == names@.len() <= n,
            n == orig_items.len() == orig_names.len(),
            items@ == orig_items.take(items@.len() as int),
            names@ == orig_names.take(names@.len() as int),
            forall|a: int, b: int| 0 <= a < b < n ==> orig_names[a]@ != orig_names[b]@,
            out@.len() == order.len() == sorted@.len() == n - items@.len(),
            forall|k: int|
                0 <= k < order.len() ==> items@.len() <= #[trigger] order[k] < n && out@[k]
                    == orig_items[order[k]] && sorted@[k]@ == orig_names[order[k]]@,
            forall|i: int| items@.len() <= i < n ==> order.contains(i),
            forall|k1: int, k2: int|
                0 <= k1 < k2 < sorted@.len() ==> name_less(sorted@[k1]@, sorted@[k2]@),
        decreases items@.len(),
    {
        let ghost m = items@.len() as int;
        let item = items.pop().unwrap();
        let name = names.pop().unwrap();
        let ghost idx = m - 1;
        assert(item == orig_items[idx]);
        assert(name@ == orig_names[idx]@);
        assert(items@ =~= orig_items.take(idx));
        assert(names@ =~= orig_names.take(idx));
        assert forall|k: int| 0 <= k < sorted@.len() implies sorted@[k]@ != name@ by {
            assert(idx < order[k]);
        }
        let mut p: usize = 0;
        while p < sorted.len() && !str_less(name.as_str(), sorted[p].as_str())
            invariant
                p <= sorted@.len(),
                forall|k: int| 0 <= k < sorted@.len() ==> sorted@[k]@ != name@,
                forall|k: int| 0 <= k < p ==> name_less(sorted@[k]@, name@),
            decreases sorted.len() - p,
        {
            proof {
                lemma_name_less_total(sorted@[p as int]@, name@);
            }
            p = p + 1;
        }
        let ghost old_sorted = sorted@;
        let ghost old_out = out@;
        let ghost old_order = order;
        let ghost len = old_sorted.len();
        assert forall|k: int| p <= k < len implies name_less(name@, old_sorted[k]@) by {
            if k > p {
                lemma_name_less_transitive(name@, old_sorted[p as int]@, old_sorted[k]@);
            }
        }
        sorted.insert(p, name);
        out.insert(p, item);
        proof {
            order = old_order.insert(p as int, idx);
            old_sorted.insert_ensures(p as int, name);
            old_out.insert_ensures(p as int, item);
            old_order.insert_ensures(p as int, idx);
            assert forall|k: int| 0 <= k < order.len() implies idx <= #[trigger] order[k] < n
                && out@[k] == orig_items[order[k]] && sorted@[k]@ == orig_names[order[k]]@ by {
                if k > p {
                    assert(order[k] == old_order[k - 1]);
                    assert(out@[k] == old_out[k - 1]);
                    assert(sorted@[k] == old_sorted[k - 1]);
                }
            }
            assert forall|i: int| idx <= i < n implies order.contains(i) by {
                if i == idx {
                    assert(order[p as int] == idx);
                } else {
                    assert(old_order.contains(i));
                    let k = choose|k: int| 0 <= k < old_order.len() && old_order[k] == i;
                    if k < p {
                        assert(order[k] == i);
                    } else {
                        assert(order[k + 1] == i);
                    }
                }
            }
            assert forall|k1: int, k2: int| 0 <= k1 < k2 < sorted@.len() implies name_less(
                sorted@[k1]@,
                sorted@[k2]@,
            ) by {
                if k2 < p {
                } else if k2 == p {
                } else if k1 < p {
                    assert(sorted@[k2] == old_sorted[k2 - 1]);
                    lemma_name_less_transitive(old_sorted[k1]@, name@, old_sorted[k2 - 1]@);
                } else if k1 == p {
                    assert(sorted@[k2] == old_sorted[k2 - 1]);
                } else {
                    assert(sorted@[k1] == old_sorted[k1 - 1]);
                    assert(sorted@[k2] == old_sorted[k2 - 1]);
                }
            }
        }
    }
    (out, Ghost(order))
}

} // verus!
