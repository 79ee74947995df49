//! Keeping the items of a list that pass a test.
use crate::text::lemma_filter_push;
use vstd::prelude::*;

verus! {

/// A test on items.
pub trait Test<T: DeepView> {
    spec fn holds(&self, v: T::V) -> bool;

    fn test(&self, x: &T) -> (r: bool)
        ensures
            r == self.holds(x.deep_view()),
    ;
}

/// The items of `items` that pass the test, in order.
pub fn keep<T: DeepView, C: Test<T>>(items: Vec<T>, c: &C) -> (r: Vec<T>)
    ensures
        r.deep_view() == items.deep_view().filter(|v: T::V| c.holds(v)),
{
    let ghost d = items.deep_view();
    let ghost f = |v: T::V| c.holds(v);
    let mut r: Vec<T> = Vec::new();
    let ghost mut i: int = 0;
    proof {
        reveal(Seq::filter);
        assert(d.take(0) =~= seq![]);
        assert(r.deep_view() =~= d.take(0).filter(f));
    }
    for x in it: items
        invariant
            i == it.index(),
            d == Seq::new(it.seq().len(), |k: int| it.seq()[k].deep_view()),
            f == (|v: T::V| c.holds(v)),
            r.deep_view() == d.take(i).filter(f),
    {
        let ghost before = r.deep_view();
        proof {
            assert(d[i] == x.deep_view());
            lemma_filter_push(d.take(i), x.deep_view(), f);
            assert(d.take(i + 1) =~= d.take(i).push(x.deep_view()));
        }
        if c.test(&x) {
            r.push(x);
            assert(r.deep_view() =~= before.push(x.deep_view()));
        }
        proof {
            i = i + 1;
        }
    }
    assert(d.take(d.len() as int) =~= d);
    r
}

/// The first `limit` items, or all where there is no limit.
pub open spec fn limited<V>(s: Seq<V>, limit: Option<usize>) -> Seq<V> {
    match limit {
        Some(n) => if n < s.len() {
            s.take(n as int)
        } else {
            s
        },
        None => s,
    }
}

/// Drops the items behind the limit.
pub fn cut<T: DeepView>(items: Vec<T>, limit: Option<usize>) -> (r: Vec<T>)
    ensures
        r.deep_view() == limited(items.deep_view(), limit),
{
    let mut r = items;
    let ghost d = r.deep_view();
    match limit {
        Some(n) => {
            if n < r.len() {
                r.truncate(n);
                assert(r.deep_view() =~= d.take(n as int));
            }
        },
        None => {},
    }
    r
}

/// A filter keeps the items of a list that pass its test, and those alone.
pub proof fn filtering_keeps_what_passes<V>(s: Seq<V>, f: spec_fn(V) -> bool, x: V)
    ensures
        s.filter(f).contains(x) <==> s.contains(x) && f(x),
    decreases s.len(),
{
    reveal(Seq::filter);
    if s.len() > 0 {
        let front = s.drop_last();
        let kept = front.filter(f);
        filtering_keeps_what_passes(front, f, x);
        if s.contains(x) {
            let k = choose|k: int| 0 <= k < s.len() && s[k] == x;
            if k < front.len() {
                assert(front[k] == x);
            }
        }
        if front.contains(x) {
            let k = choose|k: int| 0 <= k < front.len() && front[k] == x;
            assert(s[k] == x);
        }
        assert(s[s.len() - 1] == s.last());
        if f(s.last()) {
            let r = s.filter(f);
            assert(r == kept.push(s.last()));
            assert(r[kept.len() as int] == s.last());
            if kept.contains(x) {
                let m = choose|m: int| 0 <= m < kept.len() && kept[m] == x;
                assert(r[m] == x);
            }
            if r.contains(x) {
                let m = choose|m: int| 0 <= m < r.len() && r[m] == x;
                if m < kept.len() {
                    assert(kept[m] == x);
                }
            }
        }
    }
}

/// A limit keeps the front of a list: no more than it says, all where there is room for all
/// or no limit is set, and each item in its place.
pub proof fn limit_keeps_the_front<V>(s: Seq<V>, limit: Option<usize>)
    ensures
        limit is None ==> limited(s, limit) == s,
        limit is Some ==> limited(s, limit).len() == if s.len() < limit->0 {
            s.len()
        } else {
            limit->0 as nat
        },
        forall|k: int|
            0 <= k < limited(s, limit).len() ==> #[trigger] limited(s, limit)[k] == s[k],
{
}

/// What two lists hold one after the other is what either holds.
pub proof fn chained_lists_hold_both<V>(a: Seq<V>, b: Seq<V>, x: V)
    ensures
        (a + b).contains(x) <==> a.contains(x) || b.contains(x),
{
    if a.contains(x) {
        let k = choose|k: int| 0 <= k < a.len() && a[k] == x;
        assert((a + b)[k] == x);
    }
    if b.contains(x) {
        let k = choose|k: int| 0 <= k < b.len() && b[k] == x;
        assert((a + b)[a.len() + k] == x);
    }
    if (a + b).contains(x) {
        let k = choose|k: int| 0 <= k < (a + b).len() && (a + b)[k] == x;
        if k < a.len() {
            assert(a[k] == x);
        } else {
            assert(b[k - a.len()] == x);
        }
    }
}

} // verus!
