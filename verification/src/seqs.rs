//! Small vector operations used throughout, stated over sequences.

use vstd::prelude::*;

verus! {

/// Holds of every window but `w`.
pub open spec fn other_than(w: u32) -> spec_fn(u32) -> bool {
    |x: u32| x != w
}

/// `s` with every occurrence of `w` taken out, in order.
pub open spec fn without(s: Seq<u32>, w: u32) -> Seq<u32> {
    s.filter(other_than(w))
}

/// The first position of `w` in `s`, if it occurs.
pub open spec fn first_index(s: Seq<u32>, w: u32) -> Option<int>
    decreases s.len(),
{
    if s.len() == 0 {
        None
    } else if s[0] == w {
        Some(0)
    } else {
        match first_index(s.skip(1), w) {
            Some(i) => Some(i + 1),
            None => None,
        }
    }
}

/// Filtering a sequence that grew by one element.
pub(crate) proof fn filter_take_step<A>(s: Seq<A>, i: int, p: spec_fn(A) -> bool)
    requires
        0 <= i < s.len(),
    ensures
        s.take(i + 1).filter(p) == (if p(s[i]) {
            s.take(i).filter(p).push(s[i])
        } else {
            s.take(i).filter(p)
        }),
{
    let t = s.take(i + 1);
    assert(t.drop_last() =~= s.take(i));
    assert(t.last() == s[i]);
    reveal(Seq::filter);
}

/// What [`first_index`] says, without the recursion.
pub(crate) proof fn first_index_props(s: Seq<u32>, w: u32)
    ensures
        match first_index(s, w) {
            Some(i) => 0 <= i < s.len() && s[i] == w && forall|j: int|
                0 <= j < i ==> s[j] != w,
            None => !s.contains(w),
        },
    decreases s.len(),
{
    if s.len() > 0 && s[0] != w {
        let t = s.skip(1);
        first_index_props(t, w);
        match first_index(t, w) {
            Some(i) => {
                assert(s[i + 1] == t[i]);
                assert forall|j: int| 0 <= j < i + 1 implies s[j] != w by {
                    if j > 0 {
                        assert(t[j - 1] == s[j]);
                    }
                }
            },
            None => {
                if s.contains(w) {
                    let j = choose|j: int| 0 <= j < s.len() && s[j] == w;
                    assert(t[j - 1] == w);
                }
            },
        }
    } else if s.len() > 0 {
        assert(s[0] == w);
    }
}

/// The first position is unique, so a scan that finds one finds this one.
pub(crate) proof fn first_index_is(s: Seq<u32>, w: u32, i: int)
    requires
        0 <= i < s.len(),
        s[i] == w,
        forall|j: int| 0 <= j < i ==> s[j] != w,
    ensures
        first_index(s, w) == Some(i),
{
    first_index_props(s, w);
    match first_index(s, w) {
        Some(k) => {
            if k < i {
                assert(s[k] != w);
            }
            if i < k {
                assert(s[i] != w);
            }
        },
        None => {
            assert(s.contains(w));
        },
    }
}

/// Removing a window leaves no trace of it, and every other window stays.
pub(crate) proof fn without_contains(s: Seq<u32>, w: u32)
    ensures
        forall|x: u32| #[trigger]
            without(s, w).contains(x) <==> (s.contains(x) && x != w),
    decreases s.len(),
{
    let p = other_than(w);
    reveal(Seq::filter);
    if s.len() > 0 {
        let t = s.drop_last();
        without_contains(t, w);
        assert forall|x: u32| #[trigger]
            without(s, w).contains(x) <==> (s.contains(x) && x != w) by {
            let f = without(t, w);
            assert(without(t, w).contains(x) <==> (t.contains(x) && x != w));
            if s.contains(x) {
                let j = choose|j: int| 0 <= j < s.len() && s[j] == x;
                if j < t.len() {
                    assert(t[j] == x);
                }
            }
            if t.contains(x) {
                let j = choose|j: int| 0 <= j < t.len() && t[j] == x;
                assert(s[j] == x);
            }
            assert(s[s.len() - 1] == s.last());
            if p(s.last()) {
                let g = f.push(s.last());
                assert(without(s, w) == g);
                if f.contains(x) {
                    let j = choose|j: int| 0 <= j < f.len() && f[j] == x;
                    assert(g[j] == x);
                }
                if g.contains(x) {
                    let j = choose|j: int| 0 <= j < g.len() && g[j] == x;
                    if j < f.len() {
                        assert(f[j] == x);
                    }
                }
                assert(g[f.len() as int] == s.last());
            }
        }
    } else {
        assert(without(s, w) =~= Seq::<u32>::empty());
    }
}

/// Taking out a window that is not there changes nothing.
pub(crate) proof fn without_absent(s: Seq<u32>, w: u32)
    requires
        !s.contains(w),
    ensures
        without(s, w) == s,
    decreases s.len(),
{
    reveal(Seq::filter);
    if s.len() > 0 {
        assert(s[s.len() - 1] == s.last());
        assert(!s.drop_last().contains(w)) by {
            if s.drop_last().contains(w) {
                let j = choose|j: int| 0 <= j < s.len() - 1 && s.drop_last()[j] == w;
                assert(s[j] == w);
            }
        }
        without_absent(s.drop_last(), w);
        assert(s.drop_last().push(s.last()) =~= s);
    } else {
        assert(without(s, w) =~= s);
    }
}

/// A list without repetitions stays so when a window is taken out.
pub(crate) proof fn without_no_duplicates(s: Seq<u32>, w: u32)
    requires
        s.no_duplicates(),
    ensures
        without(s, w).no_duplicates(),
    decreases s.len(),
{
    reveal(Seq::filter);
    if s.len() > 0 {
        let t = s.drop_last();
        assert(t.no_duplicates());
        without_no_duplicates(t, w);
        without_contains(t, w);
        assert(!t.contains(s.last())) by {
            if t.contains(s.last()) {
                let j = choose|j: int| 0 <= j < t.len() && t[j] == s.last();
                assert(s[j] == s[s.len() - 1]);
            }
        }
        if s.last() != w {
            let f = without(t, w);
            assert(!f.contains(s.last()));
            assert forall|i: int, j: int|
                0 <= i < f.len() + 1 && 0 <= j < f.len() + 1 && i != j implies f.push(s.last())[i]
                != f.push(s.last())[j] by {
                if i < f.len() && j < f.len() {
                } else if i < f.len() {
                    assert(f.contains(f[i]));
                } else {
                    assert(f.contains(f[j]));
                }
            }
        }
    }
}

/// Whether `w` occurs in `v`.
pub fn contains_window(v: &[u32], w: u32) -> (b: bool)
    ensures
        b == v@.contains(w),
{
    let mut i: usize = 0;
    while i < v.len()
        invariant
            i <= v.len(),
            forall|j: int| 0 <= j < i ==> v@[j] != w,
        decreases v.len() - i,
    {
        if v[i] == w {
            assert(v@[i as int] == w);
            return true;
        }
        i = i + 1;
    }
    false
}

/// The first position of `w` in `v`.
pub fn position_of(v: &[u32], w: u32) -> (r: Option<usize>)
    ensures
        match r {
            Some(i) => first_index(v@, w) == Some(i as int) && i < v.len(),
            None => first_index(v@, w) == None::<int> && !v@.contains(w),
        },
{
    let mut i: usize = 0;
    while i < v.len()
        invariant
            i <= v.len(),
            forall|j: int| 0 <= j < i ==> v@[j] != w,
        decreases v.len() - i,
    {
        if v[i] == w {
            proof {
                first_index_is(v@, w, i as int);
            }
            return Some(i);
        }
        i = i + 1;
    }
    proof {
        first_index_props(v@, w);
        assert(!v@.contains(w));
    }
    None
}

/// `v` with every occurrence of `w` taken out.
pub fn without_window(v: &Vec<u32>, w: u32) -> (r: Vec<u32>)
    ensures
        r@ == without(v@, w),
{
    let mut out: Vec<u32> = Vec::new();
    let ghost p = other_than(w);
    let mut i: usize = 0;
    assert(v@.take(0).filter(p) =~= Seq::<u32>::empty()) by {
        reveal(Seq::filter);
    }
    while i < v.len()
        invariant
            i <= v.len(),
            p == other_than(w),
            out@ == v@.take(i as int).filter(p),
        decreases v.len() - i,
    {
        proof {
            filter_take_step(v@, i as int, p);
        }
        if v[i] != w {
            out.push(v[i]);
        }
        i = i + 1;
    }
    assert(v@.take(i as int) =~= v@);
    out
}

/// An independent copy of `v`.
pub fn copy_windows(v: &Vec<u32>) -> (r: Vec<u32>)
    ensures
        r@ == v@,
{
    let mut out: Vec<u32> = Vec::new();
    let mut i: usize = 0;
    while i < v.len()
        invariant
            i <= v.len(),
            out@ == v@.take(i as int),
        decreases v.len() - i,
    {
        out.push(v[i]);
        assert(v@.take(i as int + 1) =~= v@.take(i as int).push(v@[i as int]));
        i = i + 1;
    }
    assert(v@.take(i as int) =~= v@);
    out
}

/// `s` with each value kept only where it first occurs.
pub open spec fn distinct<A>(s: Seq<A>) -> Seq<A>
    decreases s.len(),
{
    if s.len() == 0 {
        Seq::empty()
    } else {
        let rest = distinct(s.drop_last());
        if rest.contains(s.last()) {
            rest
        } else {
            rest.push(s.last())
        }
    }
}

/// No value occurs twice in `distinct(s)`, and it has the values of `s`.
pub proof fn distinct_has_no_duplicates<A>(s: Seq<A>)
    ensures
        distinct(s).no_duplicates(),
        forall|x: A| distinct(s).contains(x) <==> s.contains(x),
    decreases s.len(),
{
    if s.len() > 0 {
        let t = s.drop_last();
        distinct_has_no_duplicates(t);
        assert(s =~= t.push(s.last()));
        assert forall|x: A| distinct(s).contains(x) <==> s.contains(x) by {
            if s.contains(x) {
                let i = choose|i: int| 0 <= i < s.len() && s[i] == x;
                if i < t.len() {
                    assert(t[i] == x);
                    assert(t.contains(x));
                    let j = choose|j: int| 0 <= j < distinct(t).len() && distinct(t)[j] == x;
                    assert(distinct(s)[j] == x);
                } else if !distinct(t).contains(x) {
                    assert(distinct(s)[distinct(t).len() as int] == x);
                }
            }
            if distinct(s).contains(x) {
                let j = choose|j: int| 0 <= j < distinct(s).len() && distinct(s)[j] == x;
                if j < distinct(t).len() {
                    assert(distinct(t)[j] == x);
                    assert(t.contains(x));
                    let i = choose|i: int| 0 <= i < t.len() && t[i] == x;
                    assert(s[i] == x);
                } else {
                    assert(s[s.len() - 1] == x);
                }
            }
        }
    } else {
        assert(distinct(s) =~= s);
    }
}

/// Append `w`, unless it is there already.
pub fn push_new(v: &mut Vec<u32>, w: u32)
    ensures
        final(v)@ == (if old(v)@.contains(w) {
            old(v)@
        } else {
            old(v)@.push(w)
        }),
{
    if !contains_window(v, w) {
        v.push(w);
    }
}

/// Append each of `more`, unless it is there already.
pub(crate) fn append_new(v: &mut Vec<u32>, more: &[u32], Ghost(base): Ghost<Seq<u32>>)
    requires
        old(v)@ == distinct(base),
    ensures
        final(v)@ == distinct(base + more@),
{
    let mut i: usize = 0;
    assert(base + more@.take(0) =~= base);
    while i < more.len()
        invariant
            i <= more@.len(),
            v@ == distinct(base + more@.take(i as int)),
        decreases more@.len() - i,
    {
        proof {
            let t = base + more@.take(i as int + 1);
            assert(t.drop_last() =~= base + more@.take(i as int));
            assert(t.last() == more@[i as int]);
        }
        push_new(v, more[i]);
        i = i + 1;
    }
    assert(more@.take(i as int) =~= more@);
}

/// Keeping what satisfies `p` keeps everything where everything does.
pub(crate) proof fn filter_keeps_all<A>(s: Seq<A>, p: spec_fn(A) -> bool)
    requires
        forall|i: int| 0 <= i < s.len() ==> p(#[trigger] s[i]),
    ensures
        s.filter(p) == s,
    decreases s.len(),
{
    reveal(Seq::filter);
    if s.len() > 0 {
        filter_keeps_all(s.drop_last(), p);
        assert(s.drop_last().push(s.last()) =~= s);
    }
}

/// Keeping what satisfies `p` takes out the one element that does not.
pub(crate) proof fn filter_drops_one<A>(s: Seq<A>, p: spec_fn(A) -> bool, k: int)
    requires
        0 <= k < s.len(),
        !p(s[k]),
        forall|i: int| 0 <= i < s.len() && i != k ==> p(#[trigger] s[i]),
    ensures
        s.filter(p) == s.remove(k),
    decreases s.len(),
{
    reveal(Seq::filter);
    let t = s.drop_last();
    if k == s.len() - 1 {
        filter_keeps_all(t, p);
        assert(s.remove(k) =~= t);
    } else {
        assert(t[k] == s[k]);
        filter_drops_one(t, p, k);
        assert(s.remove(k) =~= t.remove(k).push(s.last()));
    }
}

/// Taking out a window that stands at one place closes that gap and moves nothing
/// else; a window that is nowhere leaves the list as it is.
pub proof fn without_closes_the_gap(s: Seq<u32>, w: u32, k: int)
    requires
        s.no_duplicates(),
    ensures
        0 <= k < s.len() && s[k] == w ==> without(s, w) == s.remove(k),
        !s.contains(w) ==> without(s, w) == s,
{
    if 0 <= k < s.len() && s[k] == w {
        filter_drops_one(s, other_than(w), k);
    }
    if !s.contains(w) {
        assert forall|i: int| 0 <= i < s.len() implies other_than(w)(#[trigger] s[i]) by {
            assert(s.contains(s[i]));
        }
        filter_keeps_all(s, other_than(w));
    }
}

/// The first place of a window is a place of it, with none before.
pub proof fn first_place_comes_first(s: Seq<u32>, w: u32)
    ensures
        match first_index(s, w) {
            Some(i) => 0 <= i < s.len() && s[i] == w && !s.take(i).contains(w),
            None => !s.contains(w),
        },
{
    first_index_props(s, w);
}

} // verus!
