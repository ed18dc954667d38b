//! Finding the first element of a sequence that satisfies a condition; the
//! lists that stand for the server's and the client's tables are searched
//! this way.
use vstd::prelude::*;

verus! {

/// The position of the first element of `s` that satisfies `p`, if any.
pub open spec fn first_match<T>(s: Seq<T>, p: spec_fn(T) -> bool) -> Option<int>
    decreases s.len(),
{
    if s.len() == 0 {
        None
    } else if p(s[0]) {
        Some(0)
    } else {
        match first_match(s.drop_first(), p) {
            Some(i) => Some(i + 1),
            None => None,
        }
    }
}

/// The first matching position is the first position whose element matches.
pub proof fn lemma_first_match_at<T>(s: Seq<T>, p: spec_fn(T) -> bool, i: int)
    requires
        0 <= i < s.len(),
        p(s[i]),
        forall|j: int| 0 <= j < i ==> !p(#[trigger] s[j]),
    ensures
        first_match(s, p) == Some(i),
    decreases s.len(),
{
    if i > 0 {
        assert(!p(s[0]));
        assert forall|j: int| 0 <= j < i - 1 implies !p(#[trigger] s.drop_first()[j]) by {
            assert(s.drop_first()[j] == s[j + 1]);
        }
        lemma_first_match_at(s.drop_first(), p, i - 1);
    }
}

/// Without a matching element there is no first match.
pub proof fn lemma_first_match_none<T>(s: Seq<T>, p: spec_fn(T) -> bool)
    requires
        forall|j: int| 0 <= j < s.len() ==> !p(#[trigger] s[j]),
    ensures
        first_match(s, p) is None,
    decreases s.len(),
{
    if s.len() > 0 {
        assert(!p(s[0]));
        assert forall|j: int| 0 <= j < s.len() - 1 implies !p(#[trigger] s.drop_first()[j]) by {
            assert(s.drop_first()[j] == s[j + 1]);
        }
        lemma_first_match_none(s.drop_first(), p);
    }
}

/// What a first match is: a matching position with no match before it; and
/// no match at all where there is none.
pub proof fn lemma_first_match_spec<T>(s: Seq<T>, p: spec_fn(T) -> bool)
    ensures
        match first_match(s, p) {
            Some(i) => 0 <= i < s.len() && p(s[i]) && forall|j: int|
                0 <= j < i ==> !p(#[trigger] s[j]),
            None => forall|j: int| 0 <= j < s.len() ==> !p(#[trigger] s[j]),
        },
    decreases s.len(),
{
    if s.len() > 0 {
        lemma_first_match_spec(s.drop_first(), p);
        if !p(s[0]) {
            match first_match(s.drop_first(), p) {
                Some(i) => {
                    assert(s.drop_first()[i] == s[i + 1]);
                    assert forall|j: int| 0 <= j < i + 1 implies !p(#[trigger] s[j]) by {
                        if j > 0 {
                            assert(s.drop_first()[j - 1] == s[j]);
                        }
                    }
                },
                None => {
                    assert forall|j: int| 0 <= j < s.len() implies !p(#[trigger] s[j]) by {
                        if j > 0 {
                            assert(s.drop_first()[j - 1] == s[j]);
                        }
                    }
                },
            }
        }
    }
}

/// Two sequences whose elements match at the same positions have their
/// first match at the same position.
pub proof fn lemma_first_match_same<T, U>(
    s: Seq<T>,
    p: spec_fn(T) -> bool,
    t: Seq<U>,
    q: spec_fn(U) -> bool,
)
    requires
        s.len() == t.len(),
        forall|j: int| 0 <= j < s.len() ==> p(#[trigger] s[j]) == q(t[j]),
    ensures
        first_match(s, p) == first_match(t, q),
    decreases s.len(),
{
    if s.len() > 0 {
        assert(p(s[0]) == q(t[0]));
        assert forall|j: int| 0 <= j < s.drop_first().len() implies p(
            #[trigger] s.drop_first()[j],
        ) == q(t.drop_first()[j]) by {
            assert(p(s[j + 1]) == q(t[j + 1]));
        }
        lemma_first_match_same(s.drop_first(), p, t.drop_first(), q);
    }
}

/// Whether some element of `s` has the text `k`.
pub open spec fn contains_text(s: Seq<String>, k: Seq<char>) -> bool {
    exists|j: int| 0 <= j < s.len() && (#[trigger] s[j])@ == k
}

/// No text occurs twice in `s`.
pub open spec fn texts_distinct(s: Seq<String>) -> bool {
    forall|a: int, b: int| 0 <= a < b < s.len() ==> (#[trigger] s[a])@ != (#[trigger] s[b])@
}

/// The elements of `s` whose text is not `k`, in order.
pub open spec fn without_text(s: Seq<String>, k: Seq<char>) -> Seq<String>
    decreases s.len(),
{
    if s.len() == 0 {
        s
    } else if s.last()@ == k {
        without_text(s.drop_last(), k)
    } else {
        without_text(s.drop_last(), k).push(s.last())
    }
}

/// Every element left by [`without_text`] is an element of `s` other than `k`.
pub proof fn lemma_without_text_elements(s: Seq<String>, k: Seq<char>)
    ensures
        forall|j: int|
            0 <= j < without_text(s, k).len() ==> (#[trigger] without_text(s, k)[j])@ != k
                && exists|i: int| 0 <= i < s.len() && #[trigger] s[i] == without_text(s, k)[j],
    decreases s.len(),
{
    if s.len() > 0 {
        lemma_without_text_elements(s.drop_last(), k);
        let w = without_text(s.drop_last(), k);
        assert forall|j: int| 0 <= j < w.len() implies exists|i: int|
            0 <= i < s.len() && s[i] == #[trigger] w[j] by {
            let i = choose|i: int| 0 <= i < s.drop_last().len() && s.drop_last()[i] == w[j];
            assert(s[i] == w[j]);
        }
        if s.last()@ != k {
            assert(s[s.len() - 1] == s.last());
        }
    }
}

/// [`without_text`] keeps texts distinct, and `k` is no longer there.
pub proof fn lemma_without_text_distinct(s: Seq<String>, k: Seq<char>)
    requires
        texts_distinct(s),
    ensures
        texts_distinct(without_text(s, k)),
        !contains_text(without_text(s, k), k),
    decreases s.len(),
{
    lemma_without_text_elements(s, k);
    if s.len() > 0 {
        let t = s.drop_last();
        assert(texts_distinct(t)) by {
            assert forall|a: int, b: int| 0 <= a < b < t.len() implies (#[trigger] t[a])@ != (
            #[trigger] t[b])@ by {
                assert(t[a] == s[a] && t[b] == s[b]);
            }
        }
        lemma_without_text_distinct(t, k);
        lemma_without_text_elements(t, k);
        let w = without_text(t, k);
        if s.last()@ != k {
            assert forall|j: int| 0 <= j < w.len() implies (#[trigger] w[j])@ != s.last()@ by {
                let i = choose|i: int| 0 <= i < t.len() && t[i] == w[j];
                assert(s[i] == t[i]);
                assert(s[s.len() - 1] == s.last());
            }
            let r = w.push(s.last());
            assert forall|a: int, b: int| 0 <= a < b < r.len() implies (#[trigger] r[a])@ != (
            #[trigger] r[b])@ by {
                if b == r.len() - 1 {
                    assert(r[a] == w[a]);
                } else {
                    assert(r[a] == w[a] && r[b] == w[b]);
                }
            }
        }
    }
}

/// Removing a text keeps everything else: [`without_text`] is `s` with
/// exactly the elements whose text is `k` taken out, in order, so a text
/// other than `k` is left in it exactly when it was in `s`.
pub proof fn law_without_text_keeps_others(s: Seq<String>, k: Seq<char>)
    ensures
        without_text(s, k) == s.filter(|e: String| e@ != k),
        forall|x: Seq<char>|
            #[trigger] contains_text(without_text(s, k), x) <==> (contains_text(s, x) && x != k),
    decreases s.len(),
{
    reveal(Seq::filter);
    let w = without_text(s, k);
    if s.len() > 0 {
        let t = s.drop_last();
        law_without_text_keeps_others(t, k);
        let wt = without_text(t, k);
        assert forall|x: Seq<char>| #[trigger] contains_text(w, x) <==> (contains_text(s, x) && x
            != k) by {
            if contains_text(w, x) {
                let j = choose|j: int| 0 <= j < w.len() && (#[trigger] w[j])@ == x;
                if j < wt.len() {
                    assert(w[j] == wt[j]);
                    assert(contains_text(wt, x));
                    let i = choose|i: int| 0 <= i < t.len() && (#[trigger] t[i])@ == x;
                    assert(s[i] == t[i]);
                } else {
                    assert(s[s.len() - 1] == s.last());
                }
            }
            if contains_text(s, x) && x != k {
                let i = choose|i: int| 0 <= i < s.len() && (#[trigger] s[i])@ == x;
                if i < s.len() - 1 {
                    assert(t[i] == s[i]);
                    assert(contains_text(t, x));
                    assert(contains_text(wt, x));
                    let j = choose|j: int| 0 <= j < wt.len() && (#[trigger] wt[j])@ == x;
                    if s.last()@ != k {
                        assert(w[j] == wt[j]);
                    }
                } else {
                    assert(s.last() == s[i]);
                    assert(w[w.len() - 1] == s.last());
                }
            }
        }
    }
}

/// The elements of `s` whose text is not `k`, in order.
pub fn remove_text(s: &Vec<String>, k: &String) -> (r: Vec<String>)
    ensures
        r@ == without_text(s@, k@),
{
    let mut r: Vec<String> = Vec::new();
    let mut i: usize = 0;
    proof {
        assert(s@.take(0) =~= Seq::<String>::empty());
    }
    while i < s.len()
        invariant
            i <= s@.len(),
            r@ == without_text(s@.take(i as int), k@),
        decreases s@.len() - i,
    {
        proof {
            assert(s@.take(i + 1).drop_last() =~= s@.take(i as int));
            assert(s@.take(i + 1).last() == s@[i as int]);
        }
        if s[i] != *k {
            r.push(s[i].clone());
        }
        i = i + 1;
    }
    proof {
        assert(s@.take(s@.len() as int) =~= s@);
    }
    r
}

/// Whether some element of `s` has the same text as `k`.
pub fn contains_string(s: &Vec<String>, k: &String) -> (b: bool)
    ensures
        b == contains_text(s@, k@),
{
    let mut i: usize = 0;
    while i < s.len()
        invariant
            i <= s@.len(),
            forall|j: int| 0 <= j < i ==> (#[trigger] s@[j])@ != k@,
        decreases s@.len() - i,
    {
        if s[i] == *k {
            return true;
        }
        i = i + 1;
    }
    false
}

} // verus!
