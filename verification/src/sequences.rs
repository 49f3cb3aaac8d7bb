use vstd::prelude::*;

verus! {

/// Inserting into a sequence adds one occurrence of the new element and
/// changes no other count.
pub proof fn lemma_insert_to_multiset<A>(s: Seq<A>, at: int, x: A)
    requires
        0 <= at <= s.len(),
    ensures
        s.insert(at, x).to_multiset() == s.to_multiset().insert(x),
{
    broadcast use vstd::multiset::group_multiset_axioms;
    broadcast use vstd::seq_lib::group_to_multiset_ensures;

    let t = s.insert(at, x);
    assert(t.remove(at) =~= s);
    assert(t[at] == x);
    vstd::seq_lib::to_multiset_remove(t, at);
    assert(t.contains(x));
    assert(t.to_multiset().count(x) > 0);
    assert(t.to_multiset() =~= s.to_multiset().insert(x));
}

/// One more element of a sequence taken adds that element's occurrence.
pub proof fn lemma_take_to_multiset<A>(s: Seq<A>, n: int)
    requires
        0 <= n < s.len(),
    ensures
        s.take(n + 1).to_multiset() == s.take(n).to_multiset().insert(s[n]),
{
    broadcast use vstd::seq_lib::group_to_multiset_ensures;

    assert(s.take(n + 1) =~= s.take(n).push(s[n]));
}

} // verus!
