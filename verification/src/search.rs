//! Helpers for sequences and vectors: the first element that has a property,
//! prefixes, and vectors that grow or are copied.

use vstd::prelude::*;

verus! {

/// `i` is the least index of `s` whose element satisfies `p`.
pub open spec fn is_first_where<T>(s: Seq<T>, p: spec_fn(T) -> bool, i: int) -> bool {
    &&& 0 <= i < s.len()
    &&& p(s[i])
    &&& forall|j: int| 0 <= j < i ==> !p(#[trigger] s[j])
}

/// The least index of `s` whose element satisfies `p`, if there is one.
pub open spec fn first_where<T>(s: Seq<T>, p: spec_fn(T) -> bool) -> Option<int> {
    if exists|i: int| is_first_where(s, p, i) {
        Some(choose|i: int| is_first_where(s, p, i))
    } else {
        None
    }
}

/// Some element of `s` satisfies `p`.
pub open spec fn any_where<T>(s: Seq<T>, p: spec_fn(T) -> bool) -> bool {
    exists|i: int| 0 <= i < s.len() && p(#[trigger] s[i])
}

/// The least matching index is what `first_where` returns.
pub proof fn lemma_first_where_found<T>(s: Seq<T>, p: spec_fn(T) -> bool, i: int)
    requires
        is_first_where(s, p, i),
    ensures
        first_where(s, p) == Some(i),
{
    let k = choose|k: int| is_first_where(s, p, k);
    assert(k == i) by {
        if k < i {
            assert(!p(s[k]));
        } else if i < k {
            assert(!p(s[i]));
        }
    }
}

/// Where nothing matches, `first_where` returns `None`.
pub proof fn lemma_first_where_none<T>(s: Seq<T>, p: spec_fn(T) -> bool)
    requires
        forall|j: int| 0 <= j < s.len() ==> !p(#[trigger] s[j]),
    ensures
        first_where(s, p) is None,
{
}

/// What `first_where` returns: the least matching index, or `None` when nothing matches.
pub proof fn lemma_first_where<T>(s: Seq<T>, p: spec_fn(T) -> bool)
    ensures
        match first_where(s, p) {
            Some(i) => is_first_where(s, p, i),
            None => forall|j: int| 0 <= j < s.len() ==> !p(#[trigger] s[j]),
        },
        first_where(s, p) is Some <==> any_where(s, p),
{
    if first_where(s, p) is None {
        assert forall|j: int| 0 <= j < s.len() implies !p(#[trigger] s[j]) by {
            if p(s[j]) {
                lemma_least_witness(s, p, j);
            }
        }
    }
}

proof fn lemma_least_witness<T>(s: Seq<T>, p: spec_fn(T) -> bool, j: int)
    requires
        0 <= j < s.len(),
        p(s[j]),
    ensures
        exists|i: int| is_first_where(s, p, i),
    decreases j,
{
    if exists|k: int| 0 <= k < j && p(#[trigger] s[k]) {
        let k = choose|k: int| 0 <= k < j && p(#[trigger] s[k]);
        lemma_least_witness(s, p, k);
    } else {
        assert(is_first_where(s, p, j));
    }
}

/// Where the first match stands once an element is appended.
pub proof fn lemma_first_where_push<T>(s: Seq<T>, p: spec_fn(T) -> bool, e: T)
    ensures
        first_where(s.push(e), p) == match first_where(s, p) {
            Some(i) => Some(i),
            None => if p(e) {
                Some(s.len() as int)
            } else {
                None
            },
        },
{
    lemma_first_where(s, p);
    let t = s.push(e);
    match first_where(s, p) {
        Some(i) => {
            assert(is_first_where(t, p, i)) by {
                assert(t[i] == s[i]);
                assert forall|j: int| 0 <= j < i implies !p(#[trigger] t[j]) by {
                    assert(t[j] == s[j]);
                }
            }
            lemma_first_where_found(t, p, i);
        },
        None => {
            if p(e) {
                assert(is_first_where(t, p, s.len() as int)) by {
                    assert forall|j: int| 0 <= j < s.len() implies !p(#[trigger] t[j]) by {
                        assert(t[j] == s[j]);
                    }
                }
                lemma_first_where_found(t, p, s.len() as int);
            } else {
                assert forall|j: int| 0 <= j < t.len() implies !p(#[trigger] t[j]) by {
                    if j < s.len() {
                        assert(t[j] == s[j]);
                    }
                }
                lemma_first_where_none(t, p);
            }
        },
    }
}

/// Appends `x` to `v`; the deep view grows by the view of `x`.
pub fn push_back<T: DeepView>(v: &mut Vec<T>, x: T)
    ensures
        final(v).deep_view() == old(v).deep_view().push(x.deep_view()),
        final(v)@ == old(v)@.push(x),
{
    v.push(x);
    proof {
        assert(v.deep_view() =~= old(v).deep_view().push(x.deep_view()));
    }
}

/// Moves everything from `tail` to the end of `v`.
pub fn append_all<T: DeepView>(v: &mut Vec<T>, tail: &mut Vec<T>)
    ensures
        final(v).deep_view() == old(v).deep_view() + old(tail).deep_view(),
        final(v)@ == old(v)@ + old(tail)@,
        final(tail)@.len() == 0,
{
    v.append(tail);
    proof {
        assert(v.deep_view() =~= old(v).deep_view() + old(tail).deep_view());
    }
}

/// A prefix that is one longer is the shorter prefix with one more element.
pub proof fn lemma_take_succ<T>(s: Seq<T>, i: int)
    requires
        0 <= i < s.len(),
    ensures
        s.take(i + 1) == s.take(i).push(s[i]),
        s.take(i + 1).drop_last() == s.take(i),
        s.take(i + 1).last() == s[i],
{
    assert(s.take(i + 1) =~= s.take(i).push(s[i]));
    assert(s.take(i + 1).drop_last() =~= s.take(i));
}

/// The prefix of full length is the sequence itself.
pub proof fn lemma_take_all<T>(s: Seq<T>)
    ensures
        s.take(s.len() as int) == s,
        s.take(0) == Seq::<T>::empty(),
{
    assert(s.take(s.len() as int) =~= s);
    assert(s.take(0) =~= Seq::<T>::empty());
}

/// Copies a vector element by element, where a copy of an element has the
/// view of the element.
pub fn clone_all<T: Clone + DeepView>(v: &Vec<T>) -> (copy: Vec<T>)
    requires
        forall|x: T, y: T| call_ensures(T::clone, (&x,), y) ==> y.deep_view() == x.deep_view(),
    ensures
        copy.deep_view() == v.deep_view(),
{
    let mut copy: Vec<T> = Vec::new();
    proof {
        assert(copy.deep_view() =~= v.deep_view().take(0));
    }
    let mut i: usize = 0;
    while i < v.len()
        invariant
            i <= v.len(),
            forall|x: T, y: T| call_ensures(T::clone, (&x,), y) ==> y.deep_view() == x.deep_view(),
            copy.deep_view() == v.deep_view().take(i as int),
        decreases v.len() - i,
    {
        push_back(&mut copy, v[i].clone());
        proof {
            lemma_take_succ(v.deep_view(), i as int);
        }
        i += 1;
    }
    proof {
        lemma_take_all(v.deep_view());
    }
    copy
}

} // verus!
