//! Sorting that keeps the order of equal items.
use vstd::prelude::*;

verus! {

/// Any two items can be compared.
pub open spec fn is_total<V>(le: spec_fn(V, V) -> bool) -> bool {
    forall|a: V, b: V| #[trigger] le(a, b) || le(b, a)
}

pub open spec fn is_transitive<V>(le: spec_fn(V, V) -> bool) -> bool {
    forall|a: V, b: V, c: V| #[trigger] le(a, b) && #[trigger] le(b, c) ==> le(a, c)
}

/// An order on the views of some items.
pub trait Order<T: DeepView> {
    spec fn le(&self, a: T::V, b: T::V) -> bool;

    proof fn lawful(&self)
        ensures
            is_total(|a: T::V, b: T::V| self.le(a, b)),
            is_transitive(|a: T::V, b: T::V| self.le(a, b)),
    ;

    fn at_most(&self, a: &T, b: &T) -> (r: bool)
        ensures
            r == self.le(a.deep_view(), b.deep_view()),
    ;
}

/// `x` put into `s` behind every item that does not come after it.
pub open spec fn inserted<V>(s: Seq<V>, x: V, le: spec_fn(V, V) -> bool) -> Seq<V>
    decreases s.len(),
{
    if s.len() == 0 {
        seq![x]
    } else if le(s.last(), x) {
        s.push(x)
    } else {
        inserted(s.drop_last(), x, le).push(s.last())
    }
}

/// The items of `s` in order, equal ones in the order that they had.
pub open spec fn stable_sorted<V>(s: Seq<V>, le: spec_fn(V, V) -> bool) -> Seq<V>
    decreases s.len(),
{
    if s.len() == 0 {
        s
    } else {
        inserted(stable_sorted(s.drop_last(), le), s.last(), le)
    }
}

// ----------------------------------------------------------------------- laws

proof fn lemma_inserted_multiset<V>(s: Seq<V>, x: V, le: spec_fn(V, V) -> bool)
    ensures
        inserted(s, x, le).to_multiset() =~= s.to_multiset().insert(x),
        inserted(s, x, le).len() == s.len() + 1,
    decreases s.len(),
{
    broadcast use vstd::seq_lib::group_to_multiset_ensures;

    if s.len() == 0 {
        assert(seq![x] =~= Seq::<V>::empty().push(x));
        assert(s =~= Seq::empty());
    } else if le(s.last(), x) {
    } else {
        lemma_inserted_multiset(s.drop_last(), x, le);
        assert(s.drop_last().push(s.last()) =~= s);
    }
}

/// Sorting loses no item and adds none.
pub proof fn sorting_keeps_items<V>(s: Seq<V>, le: spec_fn(V, V) -> bool)
    ensures
        stable_sorted(s, le).to_multiset() == s.to_multiset(),
        stable_sorted(s, le).len() == s.len(),
    decreases s.len(),
{
    broadcast use vstd::seq_lib::group_to_multiset_ensures;

    if s.len() > 0 {
        sorting_keeps_items(s.drop_last(), le);
        lemma_inserted_multiset(stable_sorted(s.drop_last(), le), s.last(), le);
        assert(s.drop_last().push(s.last()) =~= s);
    }
}

/// Every item comes no later than those behind it.
pub open spec fn is_sorted<V>(s: Seq<V>, le: spec_fn(V, V) -> bool) -> bool {
    forall|i: int, j: int| 0 <= i < j < s.len() ==> #[trigger] le(s[i], s[j])
}

proof fn lemma_inserted_sorted<V>(s: Seq<V>, x: V, le: spec_fn(V, V) -> bool)
    requires
        is_total(le),
        is_transitive(le),
        is_sorted(s, le),
    ensures
        is_sorted(inserted(s, x, le), le),
        forall|k: int|
            0 <= k < inserted(s, x, le).len() ==> (#[trigger] inserted(s, x, le)[k] == x || exists|
                j: int,
            |
                0 <= j < s.len() && s[j] == inserted(s, x, le)[k]),
    decreases s.len(),
{
    let r = inserted(s, x, le);
    if s.len() == 0 {
    } else if le(s.last(), x) {
        assert forall|i: int, j: int| 0 <= i < j < r.len() implies #[trigger] le(r[i], r[j]) by {
            if j == s.len() && i < s.len() - 1 {
                assert(le(s[i], s[s.len() - 1]));
            }
        }
        assert forall|k: int| 0 <= k < r.len() implies (#[trigger] r[k] == x || exists|j: int|
            0 <= j < s.len() && s[j] == r[k]) by {
            if k < s.len() {
                assert(s[k] == r[k]);
            }
        }
    } else {
        let f = s.drop_last();
        let q = inserted(f, x, le);
        assert(is_sorted(f, le)) by {
            assert forall|i: int, j: int| 0 <= i < j < f.len() implies #[trigger] le(f[i], f[j]) by {
                assert(le(s[i], s[j]));
            }
        }
        lemma_inserted_sorted(f, x, le);
        assert(le(x, s.last()));
        assert forall|i: int, j: int| 0 <= i < j < r.len() implies #[trigger] le(r[i], r[j]) by {
            if j == q.len() {
                if q[i] != x {
                    let k = choose|k: int| 0 <= k < f.len() && f[k] == q[i];
                    assert(s[k] == q[i]);
                    assert(le(s[k], s[s.len() - 1]));
                }
            } else {
                assert(le(q[i], q[j]));
            }
        }
        assert forall|k: int| 0 <= k < r.len() implies (#[trigger] r[k] == x || exists|j: int|
            0 <= j < s.len() && s[j] == r[k]) by {
            if k < q.len() {
                assert(r[k] == q[k]);
                if q[k] != x {
                    let j = choose|j: int| 0 <= j < f.len() && f[j] == q[k];
                    assert(s[j] == r[k]);
                }
            } else {
                assert(s[s.len() - 1] == r[k]);
            }
        }
    }
}

/// What was sorted is in order.
pub proof fn sorting_orders<V>(s: Seq<V>, le: spec_fn(V, V) -> bool)
    requires
        is_total(le),
        is_transitive(le),
    ensures
        is_sorted(stable_sorted(s, le), le),
    decreases s.len(),
{
    if s.len() > 0 {
        sorting_orders(s.drop_last(), le);
        lemma_inserted_sorted(stable_sorted(s.drop_last(), le), s.last(), le);
    }
}

/// Sorting neither loses an item nor makes one up.
pub proof fn sorting_keeps_each<V>(s: Seq<V>, le: spec_fn(V, V) -> bool, x: V)
    ensures
        stable_sorted(s, le).contains(x) <==> s.contains(x),
{
    broadcast use vstd::seq_lib::group_to_multiset_ensures;

    sorting_keeps_items(s, le);
    assert(stable_sorted(s, le).to_multiset().count(x) == s.to_multiset().count(x));
}

/// The items that the order holds equal to `x`.
pub open spec fn equals_in<V>(x: V, le: spec_fn(V, V) -> bool) -> spec_fn(V) -> bool {
    |y: V| le(x, y) && le(y, x)
}

proof fn lemma_inserted_filter<V>(s: Seq<V>, y: V, x: V, le: spec_fn(V, V) -> bool)
    requires
        is_total(le),
        is_transitive(le),
        is_sorted(s, le),
    ensures
        inserted(s, y, le).filter(equals_in(x, le)) == s.push(y).filter(equals_in(x, le)),
    decreases s.len(),
{
    let f = equals_in(x, le);
    if s.len() == 0 {
        assert(s.push(y) =~= seq![y]);
    } else if le(s.last(), y) {
    } else {
        let p = s.drop_last();
        assert(is_sorted(p, le)) by {
            assert forall|i: int, j: int| 0 <= i < j < p.len() implies #[trigger] le(p[i], p[j]) by {
                assert(le(s[i], s[j]));
            }
        }
        lemma_inserted_filter(p, y, x, le);
        crate::text::lemma_filter_push(inserted(p, y, le), s.last(), f);
        crate::text::lemma_filter_push(s, y, f);
        crate::text::lemma_filter_push(p, y, f);
        crate::text::lemma_filter_push(p, s.last(), f);
        assert(p.push(s.last()) =~= s);
        assert(!(f(s.last()) && f(y)));
    }
}

/// Items that the order holds equal keep the order that they had.
pub proof fn sorting_is_stable<V>(s: Seq<V>, x: V, le: spec_fn(V, V) -> bool)
    requires
        is_total(le),
        is_transitive(le),
    ensures
        stable_sorted(s, le).filter(equals_in(x, le)) == s.filter(equals_in(x, le)),
    decreases s.len(),
{
    if s.len() > 0 {
        let f = equals_in(x, le);
        let p = s.drop_last();
        let q = stable_sorted(p, le);
        sorting_is_stable(p, x, le);
        sorting_orders(p, le);
        lemma_inserted_filter(q, s.last(), x, le);
        crate::text::lemma_filter_push(q, s.last(), f);
        crate::text::lemma_filter_push(p, s.last(), f);
        assert(p.push(s.last()) =~= s);
    }
}

// ----------------------------------------------------------------- merge sort

/// Two sorted sequences as one; of equal items those of `p` come first.
spec fn merged<V>(p: Seq<V>, q: Seq<V>, le: spec_fn(V, V) -> bool) -> Seq<V>
    decreases p.len() + q.len(),
{
    if q.len() == 0 {
        p
    } else if p.len() == 0 {
        q
    } else if le(p.last(), q.last()) {
        merged(p, q.drop_last(), le).push(q.last())
    } else {
        merged(p.drop_last(), q, le).push(p.last())
    }
}

proof fn lemma_insert_merged<V>(p: Seq<V>, q: Seq<V>, x: V, le: spec_fn(V, V) -> bool)
    requires
        is_total(le),
        is_transitive(le),
    ensures
        inserted(merged(p, q, le), x, le) == merged(p, inserted(q, x, le), le),
    decreases p.len() + q.len(),
{
    let m = merged(p, q, le);
    if q.len() == 0 {
        assert(inserted(q, x, le) =~= seq![x]);
        if p.len() == 0 {
            assert(m =~= p);
        } else if le(p.last(), x) {
            assert(seq![x].drop_last() =~= q);
            assert(merged(p, seq![x], le) == merged(p, q, le).push(x));
        } else {
            lemma_insert_merged(p.drop_last(), q, x, le);
        }
    } else if p.len() == 0 {
    } else if le(p.last(), q.last()) {
        assert(m.last() == q.last());
        assert(m.drop_last() =~= merged(p, q.drop_last(), le));
        if le(q.last(), x) {
            assert(q.push(x).drop_last() =~= q);
        } else {
            lemma_insert_merged(p, q.drop_last(), x, le);
            let i = inserted(q.drop_last(), x, le);
            assert(i.push(q.last()).drop_last() =~= i);
        }
    } else {
        assert(m.last() == p.last());
        assert(m.drop_last() =~= merged(p.drop_last(), q, le));
        assert(le(q.last(), p.last()));
        if le(p.last(), x) {
            assert(q.push(x).drop_last() =~= q);
        } else {
            lemma_insert_merged(p.drop_last(), q, x, le);
        }
    }
}

proof fn lemma_sorted_concat<V>(a: Seq<V>, b: Seq<V>, le: spec_fn(V, V) -> bool)
    requires
        is_total(le),
        is_transitive(le),
    ensures
        stable_sorted(a + b, le) == merged(stable_sorted(a, le), stable_sorted(b, le), le),
    decreases b.len(),
{
    if b.len() == 0 {
        assert(a + b =~= a);
    } else {
        let c = a + b;
        assert(c.drop_last() =~= a + b.drop_last());
        assert(c.last() == b.last());
        lemma_sorted_concat(a, b.drop_last(), le);
        lemma_insert_merged(
            stable_sorted(a, le),
            stable_sorted(b.drop_last(), le),
            b.last(),
            le,
        );
    }
}

/// The items of `v`, last first.
pub fn reversed<T: DeepView>(v: Vec<T>) -> (r: Vec<T>)
    ensures
        r.deep_view() == v.deep_view().reverse(),
        r@ == v@.reverse(),
{
    let mut rest = v;
    let mut r: Vec<T> = Vec::new();
    assert(r@ =~= v@.skip(v@.len() as int).reverse());
    while rest.len() > 0
        invariant
            rest@ == v@.take(rest@.len() as int),
            rest.len() <= v.len(),
            r@ == v@.skip(rest@.len() as int).reverse(),
        decreases rest.len(),
    {
        let ghost n = rest@.len() as int;
        match rest.pop() {
            Some(x) => {
                r.push(x);
                assert(r@ =~= v@.skip(n - 1).reverse());
                assert(rest@ =~= v@.take(n - 1));
            },
            None => {},
        }
    }
    assert(v@.skip(0) =~= v@);
    assert(r.deep_view() =~= v.deep_view().reverse());
    r
}

fn merge<T: DeepView, O: Order<T>>(p: Vec<T>, q: Vec<T>, order: &O) -> (r: Vec<T>)
    ensures
        r.deep_view() == merged(p.deep_view(), q.deep_view(), |a: T::V, b: T::V| order.le(a, b)),
{
    let ghost le = |a: T::V, b: T::V| order.le(a, b);
    let ghost whole = merged(p.deep_view(), q.deep_view(), le);
    let mut p = p;
    let mut q = q;
    let mut out: Vec<T> = Vec::new();
    assert(out.deep_view().reverse() =~= seq![]);
    assert(whole =~= merged(p.deep_view(), q.deep_view(), le) + out.deep_view().reverse());
    while p.len() > 0 && q.len() > 0
        invariant
            le == (|a: T::V, b: T::V| order.le(a, b)),
            whole == merged(p.deep_view(), q.deep_view(), le) + out.deep_view().reverse(),
        decreases p.len() + q.len(),
    {
        let ghost p0 = p.deep_view();
        let ghost q0 = q.deep_view();
        let ghost out0 = out.deep_view();
        if order.at_most(&p[p.len() - 1], &q[q.len() - 1]) {
            match q.pop() {
                Some(x) => {
                    out.push(x);
                    assert(out.deep_view() =~= out0.push(x.deep_view()));
                    assert(q.deep_view() =~= q0.drop_last());
                    assert(q0.last() == x.deep_view());
                    assert(out.deep_view().reverse() =~= seq![x.deep_view()] + out0.reverse());
                    assert(whole =~= merged(p.deep_view(), q.deep_view(), le)
                        + out.deep_view().reverse());
                },
                None => {},
            }
        } else {
            match p.pop() {
                Some(x) => {
                    out.push(x);
                    assert(out.deep_view() =~= out0.push(x.deep_view()));
                    assert(p.deep_view() =~= p0.drop_last());
                    assert(p0.last() == x.deep_view());
                    assert(out.deep_view().reverse() =~= seq![x.deep_view()] + out0.reverse());
                    assert(whole =~= merged(p.deep_view(), q.deep_view(), le)
                        + out.deep_view().reverse());
                },
                None => {},
            }
        }
    }
    let mut tail = reversed(out);
    let mut front = if q.len() == 0 {
        p
    } else {
        q
    };
    let ghost f0 = front.deep_view();
    let ghost t0 = tail.deep_view();
    front.append(&mut tail);
    assert(front.deep_view() =~= f0 + t0);
    front
}

/// Sorts `items`. Equal items keep their order.
pub fn stable_sort<T: DeepView, O: Order<T>>(items: Vec<T>, order: &O) -> (r: Vec<T>)
    ensures
        r.deep_view() == stable_sorted(items.deep_view(), |a: T::V, b: T::V| order.le(a, b)),
    decreases items.len(),
{
    let ghost le = |a: T::V, b: T::V| order.le(a, b);
    let ghost d = items.deep_view();
    let mut a = items;
    if a.len() < 2 {
        proof {
            if d.len() == 1 {
                assert(stable_sorted(d.drop_last(), le) == d.drop_last());
                assert(inserted(d.drop_last(), d.last(), le) =~= d);
            }
        }
        return a;
    }
    let mid: usize = a.len() / 2;
    let b = a.split_off(mid);
    assert(a.deep_view() =~= d.take(mid as int));
    assert(b.deep_view() =~= d.skip(mid as int));
    assert(a.deep_view() + b.deep_view() =~= d);
    proof {
        order.lawful();
        lemma_sorted_concat(a.deep_view(), b.deep_view(), le);
    }
    let a = stable_sort(a, order);
    let b = stable_sort(b, order);
    merge(a, b, order)
}

} // verus!
