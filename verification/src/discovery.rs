//! Sequential index probing. Both drivers enumerate counter sources by index
//! from 0 and stop at the first gap: a missing index truncates discovery even
//! if higher indices exist. That short-circuit is deliberate, documented
//! behaviour, and it is pinned here once for every driver.

use vstd::prelude::*;

verus! {

/// Keeps the longest prefix of present sources, stopping at the first gap:
/// every kept source sits before the first absent index, and the entry just
/// past the result (if any) is the gap that stopped the scan. Sources past
/// the first gap never enter the result, however many of them are present.
#[verifier::loop_isolation(false)]
pub fn take_prefix<T>(xs: Vec<Option<T>>) -> (r: Vec<T>)
    ensures
        r@.len() <= xs@.len(),
        forall|i: int| 0 <= i < r@.len() ==> xs@[i] == Some(#[trigger] r@[i]),
        r@.len() < xs@.len() ==> xs@[r@.len() as int] is None,
{
    let ghost orig = xs@;
    let mut rest = xs;
    let mut r: Vec<T> = Vec::new();
    while rest.len() > 0
        invariant
            r@.len() + rest@.len() == orig.len(),
            rest@ =~= orig.subrange(r@.len() as int, orig.len() as int),
            forall|i: int| 0 <= i < r@.len() ==> orig[i] == Some(#[trigger] r@[i]),
        decreases rest@.len(),
    {
        let ghost pos = r@.len() as int;
        let ghost rest_old = rest@;
        match rest.remove(0) {
            Some(t) => {
                proof {
                    assert(rest_old[0] == orig[pos]);
                    assert(rest@ =~= orig.subrange(pos + 1, orig.len() as int));
                }
                r.push(t);
                proof {
                    assert(orig[pos] == Some(r@[pos]));
                }
            },
            None => {
                proof {
                    assert(rest_old[0] == orig[pos]);
                }
                return r;
            },
        }
    }
    r
}

/// The longest present prefix, as a spec-level function: what `take_prefix`
/// returns.
pub open spec fn spec_prefix<T>(xs: Seq<Option<T>>) -> Seq<T>
    decreases xs.len(),
{
    if xs.len() == 0 {
        Seq::empty()
    } else {
        match xs[0] {
            Some(t) => seq![t] + spec_prefix(xs.drop_first()),
            None => Seq::empty(),
        }
    }
}

/// Any list that copies the sources before the first gap and stops there is
/// the present prefix.
pub proof fn lemma_prefix_char<T>(xs: Seq<Option<T>>, r: Seq<T>)
    requires
        r.len() <= xs.len(),
        forall|i: int| 0 <= i < r.len() ==> xs[i] == Some(#[trigger] r[i]),
        r.len() < xs.len() ==> xs[r.len() as int] is None,
    ensures
        spec_prefix(xs) == r,
    decreases xs.len(),
{
    if xs.len() == 0 {
        assert(r =~= Seq::<T>::empty());
    } else if r.len() == 0 {
        assert(xs[0] is None);
    } else {
        assert(xs[0] == Some(r[0]));
        assert forall|i: int| 0 <= i < r.drop_first().len() implies xs.drop_first()[i] == Some(
            #[trigger] r.drop_first()[i],
        ) by {
            assert(xs.drop_first()[i] == xs[i + 1]);
            assert(r.drop_first()[i] == r[i + 1]);
        }
        if r.drop_first().len() < xs.drop_first().len() {
            assert(xs.drop_first()[r.drop_first().len() as int] == xs[r.len() as int]);
        }
        lemma_prefix_char(xs.drop_first(), r.drop_first());
        assert(seq![r[0]] + r.drop_first() =~= r);
    }
}

} // verus!
