use crate::sums::{sum2, lemma_sum2_add, lemma_sum2_ext, lemma_sum2_shift_rows, lemma_sum2_shift_cols};
use vstd::prelude::*;

verus! {

/// Coins of its own currency that each city holds before the first step.
pub const INITIAL_COINS: u64 = 1_000_000;

/// Each step a city sends each owned neighbour `balance / TRANSFER_DIVISOR` of every currency.
pub const TRANSFER_DIVISOR: u64 = 1000;

/// Which country (by catalog index) owns each city, row by row; `None` for an ownerless city.
pub type Owners = Seq<Seq<Option<int>>>;

/// The balance of each currency (by catalog index) held by each city, row by row.
pub type Balances = Seq<Seq<Seq<int>>>;

pub open spec fn owned(own: Owners, r: int, c: int) -> bool {
    0 <= r < own.len() && 0 <= c < own[r].len() && own[r][c] is Some
}

/// What city `(r, c)` sends of currency `k` to city `(r2, c2)` in one step:
/// nothing unless both are owned.
pub open spec fn flow(own: Owners, b: Balances, r: int, c: int, r2: int, c2: int, k: int) -> int {
    if owned(own, r, c) && owned(own, r2, c2) {
        b[r][c][k] / TRANSFER_DIVISOR as int
    } else {
        0
    }
}

/// What city `(r, c)` sends of currency `k` to its four neighbours together.
pub open spec fn outflow(own: Owners, b: Balances, r: int, c: int, k: int) -> int {
    flow(own, b, r, c, r - 1, c, k) + flow(own, b, r, c, r + 1, c, k) + flow(own, b, r, c, r, c - 1, k)
        + flow(own, b, r, c, r, c + 1, k)
}

/// What city `(r, c)` receives of currency `k` from its four neighbours together.
pub open spec fn inflow(own: Owners, b: Balances, r: int, c: int, k: int) -> int {
    flow(own, b, r - 1, c, r, c, k) + flow(own, b, r + 1, c, r, c, k) + flow(own, b, r, c - 1, r, c, k)
        + flow(own, b, r, c + 1, r, c, k)
}

pub open spec fn next_balance(own: Owners, b: Balances, r: int, c: int, k: int) -> int {
    b[r][c][k] - outflow(own, b, r, c, k) + inflow(own, b, r, c, k)
}

/// One synchronous diffusion step over `n` currencies: every owned city is updated
/// from the same snapshot `b`; ownerless cities keep what they had.
pub open spec fn step(own: Owners, b: Balances, n: nat) -> Balances {
    Seq::new(
        b.len(),
        |r: int|
            Seq::new(
                b[r].len(),
                |c: int|
                    if owned(own, r, c) {
                        Seq::new(n, |k: int| next_balance(own, b, r, c, k))
                    } else {
                        b[r][c]
                    },
            ),
    )
}

/// The balances after `t` steps from `b0`.
pub open spec fn state_at(own: Owners, b0: Balances, n: nat, t: nat) -> Balances
    decreases t,
{
    if t == 0 {
        b0
    } else {
        step(own, state_at(own, b0, n, (t - 1) as nat), n)
    }
}

/// Country `j` is complete when each of its cities holds a positive amount of
/// each of the `n` currencies.
pub open spec fn complete(own: Owners, b: Balances, n: nat, j: int) -> bool {
    forall|r: int, c: int, k: int|
        owned(own, r, c) && own[r][c] == Some(j) && 0 <= k < n ==> #[trigger] b[r][c][k] > 0
}

/// Currency `k` held by city `(r, c)`; an ownerless city holds none.
pub open spec fn holding(own: Owners, b: Balances, k: int, r: int, c: int) -> int {
    if owned(own, r, c) {
        b[r][c][k]
    } else {
        0
    }
}

/// All of currency `k` in the grid.
pub open spec fn total(own: Owners, b: Balances, k: int, rows: int, cols: int) -> int {
    sum2(rows, cols, |r: int, c: int| holding(own, b, k, r, c))
}

/// Owners and balances are `rows` by `cols`, and each owned city holds `n` balances.
pub open spec fn shaped(own: Owners, b: Balances, rows: int, cols: int, n: nat) -> bool {
    &&& own.len() == rows
    &&& b.len() == rows
    &&& forall|r: int| 0 <= r < rows ==> (#[trigger] own[r]).len() == cols && b[r].len() == cols
    &&& forall|r: int, c: int| owned(own, r, c) ==> (#[trigger] b[r][c]).len() == n
}

pub proof fn lemma_step_shaped(own: Owners, b: Balances, rows: int, cols: int, n: nat)
    requires
        shaped(own, b, rows, cols, n),
    ensures
        shaped(own, step(own, b, n), rows, cols, n),
{
}

pub proof fn lemma_state_shaped(own: Owners, b0: Balances, rows: int, cols: int, n: nat, t: nat)
    requires
        shaped(own, b0, rows, cols, n),
    ensures
        shaped(own, state_at(own, b0, n, t), rows, cols, n),
    decreases t,
{
    if t > 0 {
        lemma_state_shaped(own, b0, rows, cols, n, (t - 1) as nat);
        lemma_step_shaped(own, state_at(own, b0, n, (t - 1) as nat), rows, cols, n);
    }
}

/// A diffusion step neither creates nor destroys currency: the total of each
/// currency over all owned cities is the same after the step as before.
pub proof fn lemma_step_conserves(own: Owners, b: Balances, rows: int, cols: int, n: nat, k: int)
    requires
        0 < rows,
        0 < cols,
        0 <= k < n,
        shaped(own, b, rows, cols, n),
    ensures
        total(own, step(own, b, n), k, rows, cols) == total(own, b, k, rows, cols),
{
    let nb = step(own, b, n);
    let cur = |r: int, c: int| holding(own, b, k, r, c);
    let nxt = |r: int, c: int| holding(own, nb, k, r, c);
    let o_n = |r: int, c: int| flow(own, b, r, c, r - 1, c, k);
    let o_s = |r: int, c: int| flow(own, b, r, c, r + 1, c, k);
    let o_w = |r: int, c: int| flow(own, b, r, c, r, c - 1, k);
    let o_e = |r: int, c: int| flow(own, b, r, c, r, c + 1, k);
    let i_n = |r: int, c: int| flow(own, b, r - 1, c, r, c, k);
    let i_s = |r: int, c: int| flow(own, b, r + 1, c, r, c, k);
    let i_w = |r: int, c: int| flow(own, b, r, c - 1, r, c, k);
    let i_e = |r: int, c: int| flow(own, b, r, c + 1, r, c, k);
    let d1 = |r: int, c: int| i_s(r, c) - o_n(r, c);
    let d2 = |r: int, c: int| i_n(r, c) - o_s(r, c);
    let d3 = |r: int, c: int| i_e(r, c) - o_w(r, c);
    let d4 = |r: int, c: int| i_w(r, c) - o_e(r, c);
    let e3 = |r: int, c: int| d3(r, c) + d4(r, c);
    let e2 = |r: int, c: int| d2(r, c) + e3(r, c);
    let e1 = |r: int, c: int| d1(r, c) + e2(r, c);
    // each pair of opposite flows sums to the same amount
    lemma_sum2_shift_rows(rows, cols, o_n, i_s);
    lemma_sum2_shift_rows(rows, cols, i_n, o_s);
    lemma_sum2_shift_cols(rows, cols, o_w, i_e);
    lemma_sum2_shift_cols(rows, cols, i_w, o_e);
    lemma_sum2_add(rows, cols, d1, o_n, i_s);
    lemma_sum2_add(rows, cols, d2, o_s, i_n);
    lemma_sum2_add(rows, cols, d3, o_w, i_e);
    lemma_sum2_add(rows, cols, d4, o_e, i_w);
    lemma_sum2_add(rows, cols, d3, d4, e3);
    lemma_sum2_add(rows, cols, d2, e3, e2);
    lemma_sum2_add(rows, cols, d1, e2, e1);
    assert forall|r: int, c: int| 0 <= r < rows && 0 <= c < cols implies #[trigger] nxt(r, c) == cur(
        r,
        c,
    ) + e1(r, c) by {
        if owned(own, r, c) {
            assert(nb[r][c][k] == next_balance(own, b, r, c, k));
        }
    }
    lemma_sum2_add(rows, cols, cur, e1, nxt);
    lemma_sum2_ext(rows, cols, nxt, |r: int, c: int| holding(own, nb, k, r, c));
}

/// After any number of steps each currency's total is what it was at the start.
pub proof fn lemma_state_conserves(own: Owners, b0: Balances, rows: int, cols: int, n: nat, k: int, t: nat)
    requires
        0 < rows,
        0 < cols,
        0 <= k < n,
        shaped(own, b0, rows, cols, n),
    ensures
        total(own, state_at(own, b0, n, t), k, rows, cols) == total(own, b0, k, rows, cols),
    decreases t,
{
    if t > 0 {
        let prev = state_at(own, b0, n, (t - 1) as nat);
        lemma_state_conserves(own, b0, rows, cols, n, k, (t - 1) as nat);
        lemma_state_shaped(own, b0, rows, cols, n, (t - 1) as nat);
        lemma_step_conserves(own, prev, rows, cols, n, k);
    }
}

} // verus!
