//! Sequences put together from pieces.

use vstd::prelude::*;

verus! {

/// The pieces that `f` gives for the items of `s`, one after another.
pub open spec fn gather<A, B>(s: Seq<A>, f: spec_fn(A) -> Seq<B>) -> Seq<B>
    decreases s.len(),
{
    if s.len() == 0 {
        Seq::empty()
    } else {
        gather(s.drop_last(), f) + f(s.last())
    }
}

/// The pieces of `s`, one after another.
pub open spec fn concat<A>(s: Seq<Seq<A>>) -> Seq<A>
    decreases s.len(),
{
    if s.len() == 0 {
        Seq::empty()
    } else {
        concat(s.drop_last()) + s.last()
    }
}

pub proof fn lemma_gather_push<A, B>(s: Seq<A>, x: A, f: spec_fn(A) -> Seq<B>)
    ensures
        gather(s.push(x), f) == gather(s, f) + f(x),
{
    assert(s.push(x).drop_last() =~= s);
}

pub proof fn lemma_gather_one<A, B>(x: A, f: spec_fn(A) -> Seq<B>)
    ensures
        gather(seq![x], f) == f(x),
{
    lemma_gather_push(Seq::<A>::empty(), x, f);
    assert(Seq::<A>::empty().push(x) =~= seq![x]);
    assert(gather(Seq::<A>::empty(), f) + f(x) =~= f(x));
}

pub proof fn lemma_gather_add<A, B>(s: Seq<A>, t: Seq<A>, f: spec_fn(A) -> Seq<B>)
    ensures
        gather(s + t, f) == gather(s, f) + gather(t, f),
    decreases t.len(),
{
    if t.len() == 0 {
        assert(s + t =~= s);
        assert(gather(s, f) + gather(t, f) =~= gather(s, f));
    } else {
        lemma_gather_add(s, t.drop_last(), f);
        assert((s + t).drop_last() =~= s + t.drop_last());
        assert(gather(s, f) + gather(t, f) =~= gather(s, f) + gather(t.drop_last(), f) + f(
            t.last(),
        ));
    }
}

/// Functions that agree on every item gather the same.
pub proof fn lemma_gather_same<A, B>(s: Seq<A>, f: spec_fn(A) -> Seq<B>, g: spec_fn(A) -> Seq<B>)
    requires
        forall|k: int| 0 <= k < s.len() ==> f(#[trigger] s[k]) == g(s[k]),
    ensures
        gather(s, f) == gather(s, g),
    decreases s.len(),
{
    if s.len() > 0 {
        assert forall|k: int| 0 <= k < s.drop_last().len() implies f(#[trigger] s.drop_last()[k])
            == g(s.drop_last()[k]) by {
            assert(s.drop_last()[k] == s[k]);
        }
        lemma_gather_same(s.drop_last(), f, g);
        assert(f(s[s.len() - 1]) == g(s[s.len() - 1]));
    }
}

/// Where the first item that satisfies `p` stands: the length, if none does.
pub open spec fn first_where<A>(s: Seq<A>, p: spec_fn(A) -> bool) -> int
    decreases s.len(),
{
    if s.len() == 0 {
        0
    } else {
        let before = first_where(s.drop_last(), p);
        if before < s.len() - 1 || p(s.last()) {
            before
        } else {
            s.len() as int
        }
    }
}

pub proof fn lemma_first_where<A>(s: Seq<A>, p: spec_fn(A) -> bool)
    ensures
        0 <= first_where(s, p) <= s.len(),
        forall|k: int| 0 <= k < first_where(s, p) ==> !p(#[trigger] s[k]),
        first_where(s, p) < s.len() ==> p(s[first_where(s, p)]),
    decreases s.len(),
{
    if s.len() > 0 {
        lemma_first_where(s.drop_last(), p);
        assert forall|k: int| 0 <= k < first_where(s, p) implies !p(#[trigger] s[k]) by {
            if k < s.len() - 1 {
                assert(s[k] == s.drop_last()[k]);
            }
        }
    }
}

pub proof fn lemma_first_where_is<A>(s: Seq<A>, p: spec_fn(A) -> bool, at: int)
    requires
        0 <= at <= s.len(),
        forall|k: int| 0 <= k < at ==> !p(#[trigger] s[k]),
        at < s.len() ==> p(s[at]),
    ensures
        first_where(s, p) == at,
{
    lemma_first_where(s, p);
    if first_where(s, p) < at {
        assert(!p(s[first_where(s, p)]));
    }
    if at < first_where(s, p) {
        assert(!p(s[at]));
    }
}

/// The places of the items that satisfy `p`, counted from 1, in order.
pub open spec fn places<A>(s: Seq<A>, p: spec_fn(A) -> bool) -> Seq<int>
    decreases s.len(),
{
    if s.len() == 0 {
        Seq::empty()
    } else if p(s.last()) {
        places(s.drop_last(), p).push(s.len() as int)
    } else {
        places(s.drop_last(), p)
    }
}

pub proof fn lemma_places<A>(s: Seq<A>, p: spec_fn(A) -> bool)
    ensures
        forall|k: int| #![trigger places(s, p)[k]]
            0 <= k < places(s, p).len() ==> 1 <= places(s, p)[k] <= s.len() && p(
                s[places(s, p)[k] - 1],
            ),
        forall|n: int| 1 <= n <= s.len() && p(#[trigger] s[n - 1]) ==> places(s, p).contains(n),
        forall|j: int, k: int|
            0 <= j < k < places(s, p).len() ==> places(s, p)[j] < places(s, p)[k],
    decreases s.len(),
{
    if s.len() > 0 {
        let t = s.drop_last();
        lemma_places(t, p);
        assert forall|k: int| #![trigger places(s, p)[k]]
            0 <= k < places(s, p).len() implies 1 <= places(s, p)[k] <= s.len() && p(
                s[places(s, p)[k] - 1],
            ) by {
            if k < places(t, p).len() {
                assert(places(s, p)[k] == places(t, p)[k]);
                assert(s[places(t, p)[k] - 1] == t[places(t, p)[k] - 1]);
            }
        }
        assert forall|n: int| 1 <= n <= s.len() && p(#[trigger] s[n - 1]) implies places(
            s,
            p,
        ).contains(n) by {
            if n < s.len() {
                assert(t[n - 1] == s[n - 1]);
                assert(places(t, p).contains(n));
                let k = choose|k: int| 0 <= k < places(t, p).len() && places(t, p)[k] == n;
                assert(places(s, p)[k] == n);
            } else {
                assert(places(s, p).last() == n);
            }
        }
    }
}

/// How many items of `s` have the property.
pub open spec fn count_where<A>(s: Seq<A>, p: spec_fn(A) -> bool) -> nat
    decreases s.len(),
{
    if s.len() == 0 {
        0
    } else {
        count_where(s.drop_last(), p) + (if p(s.last()) {
            1nat
        } else {
            0nat
        })
    }
}

pub proof fn lemma_count_push<A>(s: Seq<A>, x: A, p: spec_fn(A) -> bool)
    ensures
        count_where(s.push(x), p) == count_where(s, p) + (if p(x) {
            1nat
        } else {
            0nat
        }),
{
    assert(s.push(x).drop_last() =~= s);
}

/// Whether `at` are the places of the items of `s` that satisfy `p`, counted
/// from 0, each once and in order.
pub open spec fn are_places<A>(at: Seq<int>, s: Seq<A>, p: spec_fn(A) -> bool) -> bool {
    &&& forall|j: int, k: int| 0 <= j < k < at.len() ==> #[trigger] at[j] < #[trigger] at[k]
    &&& forall|k: int|
        0 <= k < at.len() ==> 0 <= #[trigger] at[k] < s.len() && p(s[at[k]])
    &&& forall|i: int| 0 <= i < s.len() && p(#[trigger] s[i]) ==> at.contains(i)
}

/// Whether `out` is, of each item of `s` that satisfies `p`, what `g` makes
/// of it, in order, and nothing else.
pub open spec fn lists<A, B>(
    out: Seq<B>,
    s: Seq<A>,
    p: spec_fn(A) -> bool,
    g: spec_fn(A) -> B,
) -> bool {
    exists|at: Seq<int>|
        {
            &&& #[trigger] are_places(at, s, p)
            &&& out.len() == at.len()
            &&& forall|k: int| 0 <= k < at.len() ==> out[k] == g(s[#[trigger] at[k]])
        }
}

/// Gathering one piece of some items and none of the others lists them.
pub proof fn lemma_gather_lists<A, B>(
    s: Seq<A>,
    f: spec_fn(A) -> Seq<B>,
    p: spec_fn(A) -> bool,
    g: spec_fn(A) -> B,
)
    requires
        forall|k: int|
            0 <= k < s.len() ==> f(#[trigger] s[k]) == if p(s[k]) {
                seq![g(s[k])]
            } else {
                Seq::empty()
            },
    ensures
        lists(gather(s, f), s, p, g),
    decreases s.len(),
{
    if s.len() == 0 {
        assert(are_places(Seq::<int>::empty(), s, p));
    } else {
        let t = s.drop_last();
        let last = s.len() - 1;
        assert forall|k: int| 0 <= k < t.len() implies f(#[trigger] t[k]) == if p(t[k]) {
            seq![g(t[k])]
        } else {
            Seq::empty()
        } by {
            assert(t[k] == s[k]);
        }
        lemma_gather_lists(t, f, p, g);
        let before = choose|at: Seq<int>|
            {
                &&& #[trigger] are_places(at, t, p)
                &&& gather(t, f).len() == at.len()
                &&& forall|k: int| 0 <= k < at.len() ==> gather(t, f)[k] == g(t[#[trigger] at[k]])
            };
        let at = if p(s[last]) {
            before.push(last)
        } else {
            before
        };
        assert(f(s[last]) == if p(s[last]) {
            seq![g(s[last])]
        } else {
            Seq::empty()
        });
        assert forall|k: int| 0 <= k < at.len() implies 0 <= #[trigger] at[k] < s.len() && p(
            s[at[k]],
        ) && gather(s, f)[k] == g(s[at[k]]) by {
            if k < before.len() {
                assert(at[k] == before[k]);
                assert(t[before[k]] == s[before[k]]);
            }
        }
        assert forall|i: int| 0 <= i < s.len() && p(#[trigger] s[i]) implies at.contains(i) by {
            if i < last {
                assert(t[i] == s[i]);
                assert(before.contains(i));
                let k = choose|k: int| 0 <= k < before.len() && before[k] == i;
                assert(at[k] == i);
            } else {
                assert(at[before.len() as int] == i);
            }
        }
        assert forall|j: int, k: int| 0 <= j < k < at.len() implies #[trigger] at[j]
            < #[trigger] at[k] by {
            assert(at[j] == before[j]);
            if k < before.len() {
                assert(at[k] == before[k]);
            }
        }
        assert(are_places(at, s, p));
    }
}

/// Where one sequence lists the same items in two ways, the two agree on
/// each of them.
pub proof fn lemma_lists_agree<A, B>(
    out: Seq<B>,
    s: Seq<A>,
    p: spec_fn(A) -> bool,
    g: spec_fn(A) -> B,
    h: spec_fn(A) -> B,
    i: int,
)
    requires
        lists(out, s, p, g),
        lists(out, s, p, h),
        0 <= i < s.len(),
        p(s[i]),
    ensures
        g(s[i]) == h(s[i]),
{
    let at = choose|at: Seq<int>|
        {
            &&& #[trigger] are_places(at, s, p)
            &&& out.len() == at.len()
            &&& forall|k: int| 0 <= k < at.len() ==> out[k] == g(s[#[trigger] at[k]])
        };
    let bt = choose|at: Seq<int>|
        {
            &&& #[trigger] are_places(at, s, p)
            &&& out.len() == at.len()
            &&& forall|k: int| 0 <= k < at.len() ==> out[k] == h(s[#[trigger] at[k]])
        };
    lemma_same_places(at, bt, s, p);
    assert(at.contains(i));
    let k = choose|k: int| 0 <= k < at.len() && at[k] == i;
    assert(out[k] == g(s[at[k]]));
    assert(out[k] == h(s[bt[k]]));
}

/// The places of the items that satisfy `p` are always the same.
pub proof fn lemma_same_places<A>(a: Seq<int>, b: Seq<int>, s: Seq<A>, p: spec_fn(A) -> bool)
    requires
        are_places(a, s, p),
        are_places(b, s, p),
    ensures
        a == b,
{
    lemma_places_meet(a, b, s, p, a.len() as int);
    lemma_places_meet(b, a, s, p, b.len() as int);
    assert(a =~= b);
}

proof fn lemma_places_meet<A>(
    a: Seq<int>,
    b: Seq<int>,
    s: Seq<A>,
    p: spec_fn(A) -> bool,
    n: int,
)
    requires
        are_places(a, s, p),
        are_places(b, s, p),
        0 <= n <= a.len(),
    ensures
        n <= b.len(),
        forall|k: int| 0 <= k < n ==> a[k] == #[trigger] b[k],
    decreases n,
{
    if n > 0 {
        lemma_places_meet(a, b, s, p, n - 1);
        assert(p(s[a[n - 1]]));
        assert(b.contains(a[n - 1]));
        let j = choose|j: int| 0 <= j < b.len() && b[j] == a[n - 1];
        if j < n - 1 {
            assert(a[j] == b[j]);
            assert(a[j] < a[n - 1]);
        }
        if j > n - 1 {
            assert(b[n - 1] < b[j]);
            assert(p(s[b[n - 1]]));
            assert(a.contains(b[n - 1]));
            let i = choose|i: int| 0 <= i < a.len() && a[i] == b[n - 1];
            if i < n - 1 {
                assert(a[i] == b[i]);
                assert(b[i] < b[n - 1]);
            }
            if i > n - 1 {
                assert(a[n - 1] < a[i]);
            }
        }
    }
}

/// Gathering one piece of some items and none of the others gathers as many
/// pieces as there are such items.
pub proof fn lemma_gather_counts<A, B>(s: Seq<A>, f: spec_fn(A) -> Seq<B>, p: spec_fn(A) -> bool)
    requires
        forall|k: int|
            0 <= k < s.len() ==> f(#[trigger] s[k]).len() == if p(s[k]) {
                1nat
            } else {
                0nat
            },
    ensures
        gather(s, f).len() == count_where(s, p),
    decreases s.len(),
{
    if s.len() > 0 {
        assert forall|k: int| 0 <= k < s.drop_last().len() implies f(
            #[trigger] s.drop_last()[k],
        ).len() == if p(s.drop_last()[k]) {
            1nat
        } else {
            0nat
        } by {
            assert(s.drop_last()[k] == s[k]);
        }
        lemma_gather_counts(s.drop_last(), f, p);
        assert(f(s[s.len() - 1]).len() == if p(s[s.len() - 1]) {
            1nat
        } else {
            0nat
        });
    }
}

/// How many items have a property: as many as there are places of such.
pub proof fn law_count_is_that_of_the_places<A>(s: Seq<A>, p: spec_fn(A) -> bool)
    ensures
        exists|at: Seq<int>| #[trigger] are_places(at, s, p) && at.len() == count_where(s, p),
{
    let f = |x: A|
        if p(x) {
            seq![x]
        } else {
            Seq::empty()
        };
    lemma_gather_counts(s, f, p);
    lemma_gather_lists(s, f, p, |x: A| x);
    let at = choose|at: Seq<int>|
        {
            &&& #[trigger] are_places(at, s, p)
            &&& gather(s, f).len() == at.len()
            &&& forall|k: int| 0 <= k < at.len() ==> gather(s, f)[k] == (|x: A| x)(
                s[#[trigger] at[k]],
            )
        };
    assert(are_places(at, s, p));
}

} // verus!
