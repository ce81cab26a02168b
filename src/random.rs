use vstd::prelude::*;
use rand::Rng;

verus! {

broadcast use vstd::seq_lib::group_to_multiset_ensures;

/// Relies on `rand::Rng::random_range` over `0..=upper` with rand's
/// thread-local generator: the draw lies in `0..=upper` (a range that is never
/// empty, so the call does not panic). Nothing else is known of it.
#[verifier::external_body]
pub(crate) fn random_up_to(upper: usize) -> (r: usize)
    ensures
        r <= upper,
{
    rand::rng().random_range(0..=upper)
}

/// Shuffles `v` in place (Fisher-Yates with random draws): the result holds
/// the same elements.
pub fn shuffle<T: Copy>(v: &mut Vec<T>)
    ensures
        final(v)@.len() == old(v)@.len(),
        final(v)@.to_multiset() == old(v)@.to_multiset(),
{
    let n = v.len();
    if n < 2 {
        return;
    }
    let mut i: usize = n - 1;
    while i >= 1
        invariant
            v@.len() == n,
            i < n,
            v@.to_multiset() == old(v)@.to_multiset(),
        decreases i,
    {
        let j = random_up_to(i);
        let a = v[i];
        let b = v[j];
        let ghost s0 = v@;
        v.set(i, b);
        v.set(j, a);
        proof {
            let s1 = s0.update(i as int, b);
            assert(s1.to_multiset() == s0.to_multiset().insert(b).remove(a));
            assert(s1[j as int] == if i == j { b } else { b });
            assert(v@ == s1.update(j as int, a));
            assert(v@.to_multiset() == s1.to_multiset().insert(a).remove(s1[j as int]));
            assert(s0.to_multiset().count(a) > 0);
            assert(s0.to_multiset().insert(b).remove(a).insert(a).remove(b) =~= s0.to_multiset());
        }
        i = i - 1;
    }
}

} // verus!
