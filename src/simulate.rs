use crate::catalog::{pair_ok, describes, non_degenerate, MAX_COORD, CountryDimensions, CountryOutput, InputError, validate, valid_catalog, within_bounds};
use crate::diffusion::BALANCE_BOUND;
use crate::grid::{lemma_max_bounded, Matrix, MatrixDimensions, catalog_owners, initial_balances};
use crate::model::{INITIAL_COINS, Owners, Balances, complete, state_at, total, holding, shaped, owned, lemma_state_conserves, lemma_state_shaped};
use crate::sums::{lemma_sum2_term_le, lemma_sum2_bounds};
use vstd::prelude::*;

verus! {

/// The step ceiling: a simulation gives up on countries not complete before it.
pub const MAX_ITER: usize = 100000;

/// Country `j` is complete after step `t` and after no earlier step from 1 on.
pub open spec fn first_complete(own: Owners, b0: Balances, n: nat, j: int, t: int) -> bool {
    &&& 1 <= t
    &&& complete(own, state_at(own, b0, n, t as nat), n, j)
    &&& forall|t2: int| 1 <= t2 < t ==> !complete(own, #[trigger] state_at(own, b0, n, t2 as nat), n, j)
}

pub proof fn lemma_first_complete_unique(own: Owners, b0: Balances, n: nat, j: int, t1: int, t2: int)
    requires
        first_complete(own, b0, n, j, t1),
        first_complete(own, b0, n, j, t2),
    ensures
        t1 == t2,
{
    if t1 < t2 {
        assert(!complete(own, state_at(own, b0, n, t1 as nat), n, j));
    } else if t2 < t1 {
        assert(!complete(own, state_at(own, b0, n, t2 as nat), n, j));
    }
}

/// Every currency's total in `b0` is at most `BALANCE_BOUND`.
pub open spec fn totals_bounded(own: Owners, b0: Balances, rows: int, cols: int, n: nat) -> bool {
    forall|k: int| 0 <= k < n ==> #[trigger] total(own, b0, k, rows, cols) <= BALANCE_BOUND
}

/// A grid whose balances come from `b0` keeps every balance within the bound.
proof fn lemma_state_bounded(m: Matrix, n: nat, b0: Balances, t: nat)
    requires
        m.wf(n),
        shaped(m.owners(), b0, m.rows as int, m.cols as int, n),
        totals_bounded(m.owners(), b0, m.rows as int, m.cols as int, n),
        m.balances() == state_at(m.owners(), b0, n, t),
    ensures
        m.bounded(),
{
    let own = m.owners();
    let b = m.balances();
    assert forall|r: int, c: int, k: int|
        0 <= r < m.cells@.len() && 0 <= c < m.cells@[r]@.len() && 0 <= k
            < m.cells@[r]@[c].coins@.len() implies #[trigger] m.cells@[r]@[c].coins@[k]
            <= BALANCE_BOUND by {
        let cell = m.cells@[r]@[c];
        if cell.owner is Some {
            let f = |r2: int, c2: int| holding(own, b, k, r2, c2);
            assert(owned(own, r, c));
            assert forall|r2: int, c2: int| 0 <= r2 < m.rows && 0 <= c2 < m.cols implies 0 <= #[trigger] f(
                r2,
                c2,
            ) by {
                if owned(own, r2, c2) {
                    assert(b[r2][c2][k] == m.cells@[r2]@[c2].coins@[k] as int);
                }
            }
            lemma_sum2_term_le(m.rows as int, m.cols as int, f, r, c);
            lemma_state_conserves(own, b0, m.rows as int, m.cols as int, n, k, t);
            assert(total(own, b0, k, m.rows as int, m.cols as int) <= BALANCE_BOUND);
            assert(b[r][c][k] == cell.coins@[k] as int);
        }
    }
}

fn all_done(done: &Vec<bool>) -> (b: bool)
    ensures
        b == forall|j: int| 0 <= j < done@.len() ==> #[trigger] done@[j],
{
    let mut j: usize = 0;
    while j < done.len()
        invariant
            0 <= j <= done@.len(),
            forall|i: int| 0 <= i < j ==> #[trigger] done@[i],
        decreases done@.len() - j,
    {
        if !done[j] {
            return false;
        }
        j += 1;
    }
    true
}

/// Runs steps 1, 2, ... below `max_steps` from grid `m` and records, for each
/// country, the step at which it first became complete, as `(country, step)`.
/// It stops early once every country is recorded.
fn completion_steps(m: Matrix, n: usize, max_steps: usize) -> (out: Vec<(usize, usize)>)
    requires
        m.wf(n as nat),
        shaped(m.owners(), m.balances(), m.rows as int, m.cols as int, n as nat),
        totals_bounded(m.owners(), m.balances(), m.rows as int, m.cols as int, n as nat),
    ensures
        forall|i: int|
            0 <= i < out@.len() ==> (#[trigger] out@[i]).0 < n && out@[i].1 < max_steps
                && first_complete(m.owners(), m.balances(), n as nat, out@[i].0 as int, out@[i].1 as int),
        forall|j: int, t: int|
            0 <= j < n && t < max_steps && #[trigger] first_complete(m.owners(), m.balances(), n as nat, j, t)
                ==> exists|i: int| 0 <= i < out@.len() && #[trigger] out@[i] == (j as usize, t as usize),
        forall|i1: int, i2: int|
            0 <= i1 < i2 < out@.len() ==> (#[trigger] out@[i1]).0 != (#[trigger] out@[i2]).0 && out@[i1].1
                <= out@[i2].1,
{
    let ghost own = m.owners();
    let ghost b0 = m.balances();
    let ghost rows = m.rows as int;
    let ghost cols = m.cols as int;
    let mut cur = m;
    let mut done: Vec<bool> = Vec::new();
    let mut j: usize = 0;
    while j < n
        invariant
            0 <= j <= n,
            done@.len() == j,
            forall|i: int| 0 <= i < j ==> !(#[trigger] done@[i]),
        decreases n - j,
    {
        done.push(false);
        j += 1;
    }
    let mut out: Vec<(usize, usize)> = Vec::new();
    let mut iter: usize = 1;
    while iter < max_steps && !all_done(&done)
        invariant
            1 <= iter,
            iter <= max_steps || out@.len() == 0,
            cur.wf(n as nat),
            cur.rows == rows,
            cur.cols == cols,
            cur.owners() == own,
            cur.balances() == state_at(own, b0, n as nat, (iter - 1) as nat),
            shaped(own, b0, rows, cols, n as nat),
            totals_bounded(own, b0, rows, cols, n as nat),
            done@.len() == n,
            forall|j2: int|
                0 <= j2 < n ==> (#[trigger] done@[j2] <==> exists|t: int|
                    1 <= t < iter && #[trigger] complete(own, state_at(own, b0, n as nat, t as nat), n as nat, j2)),
            forall|i: int|
                0 <= i < out@.len() ==> (#[trigger] out@[i]).0 < n && out@[i].1 < iter && done@[out@[i].0 as int]
                    && first_complete(own, b0, n as nat, out@[i].0 as int, out@[i].1 as int),
            forall|j2: int| 0 <= j2 < n && #[trigger] done@[j2] ==> exists|i: int| 0 <= i < out@.len() && (#[trigger] out@[i]).0 == j2,
            forall|i1: int, i2: int|
                0 <= i1 < i2 < out@.len() ==> (#[trigger] out@[i1]).0 != (#[trigger] out@[i2]).0
                    && out@[i1].1 <= out@[i2].1,
        decreases max_steps - iter,
    {
        proof {
            lemma_state_bounded(cur, n as nat, b0, (iter - 1) as nat);
        }
        let next = cur.diffuse(n);
        proof {
            lemma_state_shaped(own, b0, rows, cols, n as nat, iter as nat);
            assert(next.balances() == state_at(own, b0, n as nat, iter as nat));
        }
        let ghost done_before = done@;
        let ghost out_before = out@;
        let mut j: usize = 0;
        while j < n
            invariant
                0 <= j <= n,
                1 <= iter < max_steps,
                next.wf(n as nat),
                next.owners() == own,
                next.balances() == state_at(own, b0, n as nat, iter as nat),
                done@.len() == n,
                out@.len() >= out_before.len(),
                forall|i: int| 0 <= i < out_before.len() ==> #[trigger] out@[i] == out_before[i],
                forall|j2: int|
                    0 <= j2 < n ==> (#[trigger] done@[j2] <==> (done_before[j2] || (j2 < j && complete(own, state_at(own, b0, n as nat, iter as nat), n as nat, j2)))),
                forall|j2: int|
                    0 <= j2 < n ==> (done_before[j2] <==> exists|t: int|
                        1 <= t < iter && #[trigger] complete(own, state_at(own, b0, n as nat, t as nat), n as nat, j2)),
                forall|i: int|
                    0 <= i < out@.len() ==> (#[trigger] out@[i]).0 < n && out@[i].1 <= iter && done@[out@[i].0 as int]
                        && first_complete(own, b0, n as nat, out@[i].0 as int, out@[i].1 as int),
                forall|i: int|
                    out_before.len() <= i < out@.len() ==> (#[trigger] out@[i]).0 < j && out@[i].1 == iter,
                forall|j2: int| 0 <= j2 < n && #[trigger] done@[j2] ==> exists|i: int| 0 <= i < out@.len() && (#[trigger] out@[i]).0 == j2,
                forall|i1: int, i2: int|
                    0 <= i1 < i2 < out@.len() ==> (#[trigger] out@[i1]).0 != (#[trigger] out@[i2]).0
                        && out@[i1].1 <= out@[i2].1,
            decreases n - j,
        {
            if !done[j] && next.is_complete(n, j) {
                proof {
                    assert forall|t2: int| 1 <= t2 < iter implies !complete(own, #[trigger] state_at(own, b0, n as nat, t2 as nat), n as nat, j as int) by {
                        assert(!done_before[j as int]);
                    }
                }
                let ghost done_prev = done@;
                let ghost out_prev = out@;
                done.set(j, true);
                out.push((j, iter));
                proof {
                    let last = out@.len() - 1;
                    assert(out@[last] == (j, iter));
                    assert forall|j2: int| 0 <= j2 < n && #[trigger] done@[j2] implies exists|i: int| 0 <= i < out@.len() && (#[trigger] out@[i]).0 == j2 by {
                        if j2 == j {
                            assert(out@[last].0 == j2);
                        } else {
                            assert(done_prev[j2]);
                            let i = choose|i: int| 0 <= i < out_prev.len() && (#[trigger] out_prev[i]).0 == j2;
                            assert(out@[i] == out_prev[i]);
                        }
                    }
                }
            }
            j += 1;
        }
        cur = next;
        iter += 1;
    }
    proof {
        assert forall|j2: int, t: int|
            0 <= j2 < n && t < max_steps && #[trigger] first_complete(own, b0, n as nat, j2, t)
                implies exists|i: int| 0 <= i < out@.len() && #[trigger] out@[i] == (j2 as usize, t as usize) by {
            // completed at `t` before the loop stopped, or the loop stopped with all done
            assert(done@[j2]);
            let i = choose|i: int| 0 <= i < out@.len() && (#[trigger] out@[i]).0 == j2;
            lemma_first_complete_unique(own, b0, n as nat, j2, t, out@[i].1 as int);
            assert(out@[i] == (j2 as usize, t as usize));
        }
    }
    out
}

/// Country `j` of the catalog first becomes complete at step `t`: step 0 for the
/// sole country of a one-country catalog, otherwise the first step from 1 on
/// after which each of its cities holds every currency.
pub open spec fn completion_step(cs: Seq<(String, CountryDimensions)>, j: int, t: int) -> bool {
    if cs.len() == 1 {
        j == 0 && t == 0
    } else {
        let own = catalog_owners(cs);
        first_complete(own, initial_balances(own, cs.len()), cs.len(), j, t)
    }
}

/// `o` records country `j` of `cs` with its completion step.
pub open spec fn records(cs: Seq<(String, CountryDimensions)>, o: CountryOutput, j: int) -> bool {
    &&& 0 <= j < cs.len()
    &&& o.country_name@ == cs[j].0@
    &&& completion_step(cs, j, o.iter as int)
}

/// `out` lists the countries of `cs` that complete before step `max_steps`, each
/// once with its completion step, in order of step.
pub open spec fn completion_list(cs: Seq<(String, CountryDimensions)>, max_steps: int, out: Seq<CountryOutput>) -> bool {
    &&& forall|i: int|
        0 <= i < out.len() ==> (#[trigger] out[i]).iter < max_steps && exists|j: int| #[trigger] records(cs, out[i], j)
    &&& forall|j: int, t: int|
        0 <= j < cs.len() && t < max_steps && #[trigger] completion_step(cs, j, t) ==> exists|i: int|
            0 <= i < out.len() && (#[trigger] out[i]).country_name@ == cs[j].0@ && out[i].iter == t
    &&& forall|i1: int, i2: int|
        0 <= i1 < i2 < out.len() ==> (#[trigger] out[i1]).country_name@ != (#[trigger] out[i2]).country_name@
            && out[i1].iter <= out[i2].iter
}

/// The simulation on a grid built from a valid catalog.
fn imp_euro_diffusion(country_matrix: Matrix, countries: &Vec<(String, CountryDimensions)>, max_steps: usize) -> (out: Vec<CountryOutput>)
    requires
        valid_catalog(countries@),
        0 < max_steps,
        country_matrix.wf(countries@.len()),
        country_matrix.owners() == catalog_owners(countries@),
        country_matrix.balances() == initial_balances(country_matrix.owners(), countries@.len()),
        shaped(country_matrix.owners(), country_matrix.balances(), country_matrix.rows as int, country_matrix.cols as int, countries@.len()),
        totals_bounded(country_matrix.owners(), country_matrix.balances(), country_matrix.rows as int, country_matrix.cols as int, countries@.len()),
    ensures
        completion_list(countries@, max_steps as int, out@),
{
    let n = countries.len();
    if n == 1 {
        let mut out: Vec<CountryOutput> = Vec::new();
        out.push(CountryOutput { country_name: countries[0].0.clone(), iter: 0 });
        assert(out@[0].country_name@ == countries@[0].0@);
        assert(records(countries@, out@[0], 0));
        assert forall|j: int, t: int|
            0 <= j < countries@.len() && t < max_steps && #[trigger] completion_step(countries@, j, t) implies exists|i: int|
                0 <= i < out@.len() && (#[trigger] out@[i]).country_name@ == countries@[j].0@ && out@[i].iter == t by {
            assert(out@[0].country_name@ == countries@[j].0@);
        }
        return out;
    }
    let steps = completion_steps(country_matrix, n, max_steps);
    let mut out: Vec<CountryOutput> = Vec::new();
    let mut i: usize = 0;
    while i < steps.len()
        invariant
            n == countries@.len(),
            n != 1,
            valid_catalog(countries@),
            0 <= i <= steps@.len(),
            out@.len() == i,
            forall|i2: int| 0 <= i2 < i ==> (#[trigger] out@[i2]).country_name@ == countries@[steps@[i2].0 as int].0@
                && out@[i2].iter == steps@[i2].1,
            forall|i2: int| 0 <= i2 < steps@.len() ==> (#[trigger] steps@[i2]).0 < n,
        decreases steps@.len() - i,
    {
        let (j, t) = steps[i];
        out.push(CountryOutput { country_name: countries[j].0.clone(), iter: t });
        i += 1;
    }
    let ghost own = catalog_owners(countries@);
    assert forall|i2: int|
        0 <= i2 < out@.len() implies (#[trigger] out@[i2]).iter < max_steps && exists|j: int| #[trigger] records(countries@, out@[i2], j) by {
        let w = steps@[i2].0 as int;
        assert(out@[i2].country_name@ == countries@[w].0@);
        assert(records(countries@, out@[i2], w));
    }
    assert forall|j: int, t: int|
        0 <= j < countries@.len() && t < max_steps && #[trigger] completion_step(countries@, j, t) implies exists|i2: int|
            0 <= i2 < out@.len() && (#[trigger] out@[i2]).country_name@ == countries@[j].0@ && out@[i2].iter == t by {
        assert(first_complete(own, initial_balances(own, countries@.len()), countries@.len(), j, t));
        let i2 = choose|i2: int| 0 <= i2 < steps@.len() && #[trigger] steps@[i2] == (j as usize, t as usize);
        assert(out@[i2].country_name@ == countries@[j].0@);
    }
    assert forall|i1: int, i2: int|
        0 <= i1 < i2 < out@.len() implies (#[trigger] out@[i1]).country_name@ != (#[trigger] out@[i2]).country_name@
            && out@[i1].iter <= out@[i2].iter by {
        let j1 = steps@[i1].0 as int;
        let j2 = steps@[i2].0 as int;
        assert(j1 != j2);
        if j1 < j2 {
            assert(pair_ok(countries@, j1, j2));
        } else {
            assert(pair_ok(countries@, j2, j1));
        }
    }
    out
}

proof fn lemma_initial_grid(m: Matrix, n: nat)
    requires
        m.wf(n),
        m.rows <= MAX_COORD + 1,
        m.cols <= MAX_COORD + 1,
        m.balances() == initial_balances(m.owners(), n),
    ensures
        shaped(m.owners(), m.balances(), m.rows as int, m.cols as int, n),
        totals_bounded(m.owners(), m.balances(), m.rows as int, m.cols as int, n),
{
    let own = m.owners();
    let b = m.balances();
    let rows = m.rows as int;
    let cols = m.cols as int;
    assert forall|k: int| 0 <= k < n implies #[trigger] total(own, b, k, rows, cols) <= BALANCE_BOUND by {
        let f = |r: int, c: int| holding(own, b, k, r, c);
        assert forall|r: int, c: int| 0 <= r < rows && 0 <= c < cols implies 0 <= #[trigger] f(r, c)
            <= INITIAL_COINS by {
            if owned(own, r, c) {
                assert(m.cells@[r]@[c].owner is Some);
            }
        }
        lemma_sum2_bounds(rows, cols, f, INITIAL_COINS as int);
        assert(INITIAL_COINS * cols * rows <= 1_000_000 * 1_000_000 * 1_000_000) by (nonlinear_arith)
            requires
                0 <= cols <= 1_000_000,
                0 <= rows <= 1_000_000,
                INITIAL_COINS == 1_000_000,
        ;
    }
}

/// Simulates the catalog over steps 1 to `max_steps - 1` and lists each country
/// that completes, with its completion step, in order of step. A catalog that
/// is empty, has a degenerate rectangle, a repeated name or two overlapping
/// rectangles is refused.
pub fn simulate(countries: &Vec<(String, CountryDimensions)>, max_steps: usize) -> (r: Result<Vec<CountryOutput>, InputError>)
    requires
        within_bounds(countries@),
        0 < max_steps,
    ensures
        r is Ok <==> valid_catalog(countries@),
        r == Err::<Vec<CountryOutput>, InputError>(InputError::Empty) <==> countries@.len() == 0,
        (exists|j: int| 0 <= j < countries@.len() && !non_degenerate(#[trigger] countries@[j].1)) ==> (r matches Err(
            InputError::Degenerate(_))),
        r matches Err(e) ==> describes(countries@, e),
        r matches Ok(out) ==> completion_list(countries@, max_steps as int, out@),
{
    match validate(countries) {
        Err(e) => {
            return Err(e);
        },
        Ok(()) => {},
    }
    let dim = MatrixDimensions::from_map(countries);
    proof {
        lemma_max_bounded(countries@);
    }
    let m = Matrix::new(dim, countries);
    proof {
        lemma_initial_grid(m, countries@.len());
    }
    Ok(imp_euro_diffusion(m, countries, max_steps))
}

/// `simulate` with the step ceiling `MAX_ITER`.
pub fn euro_diffusion(countries: &Vec<(String, CountryDimensions)>) -> (r: Result<Vec<CountryOutput>, InputError>)
    requires
        within_bounds(countries@),
    ensures
        r is Ok <==> valid_catalog(countries@),
        r == Err::<Vec<CountryOutput>, InputError>(InputError::Empty) <==> countries@.len() == 0,
        (exists|j: int| 0 <= j < countries@.len() && !non_degenerate(#[trigger] countries@[j].1)) ==> (r matches Err(
            InputError::Degenerate(_))),
        r matches Err(e) ==> describes(countries@, e),
        r matches Ok(out) ==> completion_list(countries@, MAX_ITER as int, out@),
{
    simulate(countries, MAX_ITER)
}

} // verus!
