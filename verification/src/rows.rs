use vstd::prelude::*;

verus! {

/// Of the first `n` items of `s`, those that `keep` holds of, in their order.
pub open spec fn kept<T>(s: Seq<T>, keep: spec_fn(T) -> bool, n: int) -> Seq<T>
    decreases n,
{
    if n <= 0 {
        Seq::empty()
    } else {
        let rest = kept(s, keep, n - 1);
        if keep(s[n - 1]) {
            rest.push(s[n - 1])
        } else {
            rest
        }
    }
}

/// The place in `s` from which the item at place `k` of what is kept comes.
pub open spec fn origin<T>(s: Seq<T>, keep: spec_fn(T) -> bool, n: int, k: int) -> int
    decreases n,
{
    if n <= 0 {
        0
    } else if keep(s[n - 1]) && k == kept(s, keep, n - 1).len() {
        n - 1
    } else {
        origin(s, keep, n - 1, k)
    }
}

/// Each item that is kept stood in `s`, and `keep` holds of it.
pub proof fn lemma_origin<T>(s: Seq<T>, keep: spec_fn(T) -> bool, n: int, k: int)
    requires
        0 <= n <= s.len(),
        0 <= k < kept(s, keep, n).len(),
    ensures
        0 <= origin(s, keep, n, k) < n,
        s[origin(s, keep, n, k)] == kept(s, keep, n)[k],
        keep(s[origin(s, keep, n, k)]),
    decreases n,
{
    if n > 0 {
        if !(keep(s[n - 1]) && k == kept(s, keep, n - 1).len()) {
            lemma_origin(s, keep, n - 1, k);
        }
    }
}

/// What is kept stands in the order in which it stood in `s`.
pub proof fn lemma_origin_rises<T>(s: Seq<T>, keep: spec_fn(T) -> bool, n: int, a: int, b: int)
    requires
        0 <= n <= s.len(),
        0 <= a < b < kept(s, keep, n).len(),
    ensures
        origin(s, keep, n, a) < origin(s, keep, n, b),
    decreases n,
{
    if n > 0 {
        if keep(s[n - 1]) && b == kept(s, keep, n - 1).len() {
            lemma_origin(s, keep, n - 1, a);
        } else {
            lemma_origin_rises(s, keep, n - 1, a, b);
        }
    }
}

/// Each item that `keep` holds of is kept: it stands behind what is kept of
/// the items before it.
pub proof fn lemma_kept_holds<T>(s: Seq<T>, keep: spec_fn(T) -> bool, n: int, j: int)
    requires
        0 <= j < n <= s.len(),
        keep(s[j]),
    ensures
        kept(s, keep, j).len() < kept(s, keep, n).len(),
        kept(s, keep, n)[kept(s, keep, j).len() as int] == s[j],
    decreases n,
{
    if j < n - 1 {
        lemma_kept_holds(s, keep, n - 1, j);
    }
}

/// An item is kept exactly if it stood among the first `n` and `keep` holds of it.
pub proof fn lemma_kept_contains<T>(s: Seq<T>, keep: spec_fn(T) -> bool, n: int, x: T)
    requires
        0 <= n <= s.len(),
    ensures
        kept(s, keep, n).contains(x) <==> keep(x) && s.take(n).contains(x),
{
    if kept(s, keep, n).contains(x) {
        let k = choose|k: int| 0 <= k < kept(s, keep, n).len() && kept(s, keep, n)[k] == x;
        lemma_origin(s, keep, n, k);
        assert(s.take(n)[origin(s, keep, n, k)] == x);
    }
    if keep(x) && s.take(n).contains(x) {
        let j = choose|j: int| 0 <= j < s.take(n).len() && s.take(n)[j] == x;
        lemma_kept_holds(s, keep, n, j);
    }
}

/// The longer the start of `s`, the more of it is kept.
pub proof fn lemma_kept_grows<T>(s: Seq<T>, keep: spec_fn(T) -> bool, a: int, b: int)
    requires
        a <= b,
    ensures
        kept(s, keep, a).len() <= kept(s, keep, b).len(),
    decreases b - a,
{
    if a < b {
        lemma_kept_grows(s, keep, a, b - 1);
    }
}

/// An item that is kept stands behind exactly what is kept of the items
/// before it.
pub proof fn lemma_origin_place<T>(s: Seq<T>, keep: spec_fn(T) -> bool, n: int, k: int)
    requires
        0 <= n <= s.len(),
        0 <= k < kept(s, keep, n).len(),
    ensures
        kept(s, keep, origin(s, keep, n, k)).len() == k,
    decreases n,
{
    if n > 0 {
        if !(keep(s[n - 1]) && k == kept(s, keep, n - 1).len()) {
            lemma_origin_place(s, keep, n - 1, k);
        }
    }
}

} // verus!
