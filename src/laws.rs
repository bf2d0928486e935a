use crate::catalog::{CountryDimensions, CountryOutput, valid_catalog};
use crate::model::{Owners, Balances, step, owned};
use crate::simulate::{completion_list, completion_step, records};
use vstd::prelude::*;

verus! {

/// A catalog of one country yields exactly one record: that country, at step 0.
pub proof fn lemma_single_country(cs: Seq<(String, CountryDimensions)>, max_steps: int, out: Seq<CountryOutput>)
    requires
        valid_catalog(cs),
        cs.len() == 1,
        0 < max_steps,
        completion_list(cs, max_steps, out),
    ensures
        out.len() == 1,
        out[0].country_name@ == cs[0].0@,
        out[0].iter == 0,
{
    assert(completion_step(cs, 0, 0));
    let i = choose|i: int| 0 <= i < out.len() && (#[trigger] out[i]).country_name@ == cs[0].0@ && out[i].iter == 0;
    if out.len() > 1 {
        let other = if i == 0 { 1int } else { 0int };
        assert(out[other].iter < max_steps);
        let j = choose|j: int| #[trigger] records(cs, out[other], j);
        assert(j == 0);
        if other < i {
            assert(out[other].country_name@ != out[i].country_name@);
        } else {
            assert(out[i].country_name@ != out[other].country_name@);
        }
    }
    assert(out[0].iter < max_steps);
    let j = choose|j: int| #[trigger] records(cs, out[0], j);
    assert(j == 0);
}

/// Running longer never changes a recorded completion: each record of a run with
/// a lower step ceiling stands, with the same step, in a run with a higher one.
pub proof fn lemma_completion_monotone(
    cs: Seq<(String, CountryDimensions)>,
    m1: int,
    out1: Seq<CountryOutput>,
    m2: int,
    out2: Seq<CountryOutput>,
)
    requires
        valid_catalog(cs),
        m1 <= m2,
        completion_list(cs, m1, out1),
        completion_list(cs, m2, out2),
    ensures
        forall|i: int|
            0 <= i < out1.len() ==> (#[trigger] out1[i]).iter < m1 && exists|i2: int|
                0 <= i2 < out2.len() && (#[trigger] out2[i2]).country_name@ == out1[i].country_name@
                    && out2[i2].iter == out1[i].iter,
{
    assert forall|i: int|
        0 <= i < out1.len() implies (#[trigger] out1[i]).iter < m1 && exists|i2: int|
        0 <= i2 < out2.len() && (#[trigger] out2[i2]).country_name@ == out1[i].country_name@
            && out2[i2].iter == out1[i].iter by {
        assert(out1[i].iter < m1);
        let j = choose|j: int| #[trigger] records(cs, out1[i], j);
        assert(completion_step(cs, j, out1[i].iter as int));
        let i2 = choose|i2: int|
            0 <= i2 < out2.len() && (#[trigger] out2[i2]).country_name@ == cs[j].0@ && out2[i2].iter == out1[i].iter as int;
        assert(out2[i2].country_name@ == out1[i].country_name@);
    }
}

/// One step is a function of the owners and balances alone: equal grids step to
/// equal grids, whatever order the cities are visited in.
pub proof fn lemma_step_deterministic(own1: Owners, b1: Balances, own2: Owners, b2: Balances, n: nat)
    requires
        own1 == own2,
        b1 == b2,
    ensures
        step(own1, b1, n) == step(own2, b2, n),
{
}

/// An ownerless city is inert: a step leaves its balances as they were, and what
/// it holds changes nothing that any owned city receives or keeps.
pub proof fn lemma_ownerless_inert(own: Owners, b1: Balances, b2: Balances, n: nat, r0: int, c0: int)
    requires
        0 <= r0 < own.len(),
        0 <= c0 < own[r0].len(),
        !owned(own, r0, c0),
        b1.len() == own.len(),
        b2.len() == own.len(),
        forall|r: int| 0 <= r < own.len() ==> #[trigger] b1[r].len() == own[r].len() && b2[r].len() == own[r].len(),
        forall|r: int, c: int| owned(own, r, c) ==> #[trigger] b1[r][c] == b2[r][c],
    ensures
        step(own, b1, n)[r0][c0] == b1[r0][c0],
        forall|r: int, c: int| owned(own, r, c) ==> #[trigger] step(own, b1, n)[r][c] == step(own, b2, n)[r][c],
{
    assert forall|r: int, c: int| owned(own, r, c) implies #[trigger] step(own, b1, n)[r][c] == step(own, b2, n)[r][c] by {
        assert(step(own, b1, n)[r][c] =~= step(own, b2, n)[r][c]);
    }
}

} // verus!
