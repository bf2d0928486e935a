use crate::grid::{City, Matrix};
use crate::model::{flow, next_balance, step, complete, owned, TRANSFER_DIVISOR};
use vstd::prelude::*;

verus! {

/// No balance exceeds this; it leaves room for a step's incoming transfers in a `u64`.
pub const BALANCE_BOUND: u64 = 1_000_000_000_000_000_000;

impl Matrix {
    /// Every balance of every city is at most `BALANCE_BOUND`.
    pub open spec fn bounded(&self) -> bool {
        forall|r: int, c: int, k: int|
            0 <= r < self.cells@.len() && 0 <= c < self.cells@[r]@.len() && 0 <= k
                < self.cells@[r]@[c].coins@.len() ==> #[trigger] self.cells@[r]@[c].coins@[k]
                <= BALANCE_BOUND
    }

    /// What city `(r, c)` sends of currency `k` to city `(r2, c2)` in one step.
    fn sent(&self, n: usize, r: usize, c: usize, r2: usize, c2: usize, k: usize) -> (v: u64)
        requires
            self.wf(n as nat),
            self.bounded(),
            k < n,
        ensures
            v as int == flow(self.owners(), self.balances(), r as int, c as int, r2 as int, c2 as int, k as int),
            v <= BALANCE_BOUND / TRANSFER_DIVISOR,
    {
        if r < self.rows && c < self.cols && r2 < self.rows && c2 < self.cols
            && self.cells[r][c].owner.is_some() && self.cells[r2][c2].owner.is_some() {
            let v = self.cells[r][c].coins[k];
            assert(v <= BALANCE_BOUND);
            v / TRANSFER_DIVISOR
        } else {
            0
        }
    }
}

proof fn lemma_four_transfers(x: int)
    requires
        0 <= x,
    ensures
        4 * (x / TRANSFER_DIVISOR as int) <= x,
{
    assert(4 * (x / 1000) <= x) by (nonlinear_arith)
        requires
            0 <= x,
    ;
}

impl Matrix {
    /// The balances of owned city `(r, c)` after one step.
    fn next_coins(&self, n: usize, r: usize, c: usize) -> (v: Vec<u64>)
        requires
            self.wf(n as nat),
            self.bounded(),
            r < self.rows,
            c < self.cols,
            self.cells@[r as int]@[c as int].owner is Some,
        ensures
            v@.len() == n,
            forall|k: int| 0 <= k < n ==> #[trigger] v@[k] as int == next_balance(self.owners(), self.balances(), r as int, c as int, k),
    {
        let ghost own = self.owners();
        let ghost b = self.balances();
        let mut v: Vec<u64> = Vec::new();
        let mut k: usize = 0;
        while k < n
            invariant
                self.wf(n as nat),
                self.bounded(),
                own == self.owners(),
                b == self.balances(),
                r < self.rows,
                c < self.cols,
                self.cells@[r as int]@[c as int].owner is Some,
                0 <= k <= n,
                v@.len() == k,
                forall|i: int| 0 <= i < k ==> #[trigger] v@[i] as int == next_balance(own, b, r as int, c as int, i),
            decreases n - k,
        {
            let cur = self.cells[r][c].coins[k];
            assert(cur <= BALANCE_BOUND);
            let o_n = if r > 0 { self.sent(n, r, c, r - 1, c, k) } else { 0 };
            let o_s = self.sent(n, r, c, r + 1, c, k);
            let o_w = if c > 0 { self.sent(n, r, c, r, c - 1, k) } else { 0 };
            let o_e = self.sent(n, r, c, r, c + 1, k);
            let i_n = if r > 0 { self.sent(n, r - 1, c, r, c, k) } else { 0 };
            let i_s = self.sent(n, r + 1, c, r, c, k);
            let i_w = if c > 0 { self.sent(n, r, c - 1, r, c, k) } else { 0 };
            let i_e = self.sent(n, r, c + 1, r, c, k);
            proof {
                lemma_four_transfers(cur as int);
                assert(b[r as int][c as int][k as int] == cur as int);
            }
            let out = o_n + o_s + o_w + o_e;
            let inc = i_n + i_s + i_w + i_e;
            v.push(cur - out + inc);
            k += 1;
        }
        v
    }
}

/// `cell` is city `(r, c)` of `m` after one step.
pub open spec fn stepped_city(m: Matrix, n: nat, cell: City, r: int, c: int) -> bool {
    &&& cell.owner == m.cells@[r]@[c].owner
    &&& cell.coins@.map_values(|v: u64| v as int) == step(m.owners(), m.balances(), n)[r][c]
}

impl Matrix {
    /// One synchronous diffusion step: a new grid computed from this one alone.
    pub fn diffuse(&self, n: usize) -> (m: Matrix)
        requires
            self.wf(n as nat),
            self.bounded(),
        ensures
            m.wf(n as nat),
            m.rows == self.rows,
            m.cols == self.cols,
            m.owners() == self.owners(),
            m.balances() == step(self.owners(), self.balances(), n as nat),
    {
        let mut cells: Vec<Vec<City>> = Vec::new();
        let mut r: usize = 0;
        while r < self.rows
            invariant
                self.wf(n as nat),
                self.bounded(),
                0 <= r <= self.rows,
                cells@.len() == r,
                forall|r2: int| 0 <= r2 < r ==> (#[trigger] cells@[r2])@.len() == self.cols,
                forall|r2: int, c2: int|
                    0 <= r2 < r && 0 <= c2 < self.cols ==> stepped_city(
                        *self,
                        n as nat,
                        #[trigger] cells@[r2]@[c2],
                        r2,
                        c2,
                    ),
            decreases self.rows - r,
        {
            let mut row: Vec<City> = Vec::new();
            let mut c: usize = 0;
            while c < self.cols
                invariant
                    self.wf(n as nat),
                    self.bounded(),
                    r < self.rows,
                    0 <= c <= self.cols,
                    row@.len() == c,
                    forall|c2: int|
                        0 <= c2 < c ==> stepped_city(*self, n as nat, #[trigger] row@[c2], r as int, c2),
                decreases self.cols - c,
            {
                let owner = self.cells[r][c].owner;
                let coins = if owner.is_some() {
                    self.next_coins(n, r, c)
                } else {
                    Vec::new()
                };
                let city = City { owner, coins };
                proof {
                    let st = step(self.owners(), self.balances(), n as nat);
                    if owner is Some {
                        assert(owned(self.owners(), r as int, c as int));
                        assert(city.coins@.map_values(|v: u64| v as int) =~= st[r as int][c as int]);
                    } else {
                        assert(city.coins@.map_values(|v: u64| v as int) =~= st[r as int][c as int]);
                    }
                }
                row.push(city);
                c += 1;
            }
            cells.push(row);
            r += 1;
        }
        let m = Matrix { rows: self.rows, cols: self.cols, cells };
        assert forall|r2: int, c2: int| 0 <= r2 < m.rows && 0 <= c2 < m.cols implies match (
        #[trigger] m.cells@[r2]@[c2]).owner {
            Some(j) => j < n && m.cells@[r2]@[c2].coins@.len() == n,
            None => m.cells@[r2]@[c2].coins@.len() == 0,
        } by {
            assert(stepped_city(*self, n as nat, m.cells@[r2]@[c2], r2, c2));
            assert(m.cells@[r2]@[c2].coins@.map_values(|v: u64| v as int).len() == m.cells@[r2]@[
                c2
            ].coins@.len());
        }
        assert(m.owners() =~~= self.owners());
        assert(m.balances() =~~= step(self.owners(), self.balances(), n as nat));
        m
    }
}

impl Matrix {
    /// Whether every city of country `j` holds a positive balance of each of the `n` currencies.
    pub fn is_complete(&self, n: usize, j: usize) -> (b: bool)
        requires
            self.wf(n as nat),
        ensures
            b == complete(self.owners(), self.balances(), n as nat, j as int),
    {
        let ghost own = self.owners();
        let ghost bal = self.balances();
        let mut r: usize = 0;
        while r < self.rows
            invariant
                self.wf(n as nat),
                own == self.owners(),
                bal == self.balances(),
                0 <= r <= self.rows,
                forall|r2: int, c2: int, k: int|
                    0 <= r2 < r && owned(own, r2, c2) && own[r2][c2] == Some(j as int) && 0 <= k < n
                        ==> #[trigger] bal[r2][c2][k] > 0,
            decreases self.rows - r,
        {
            let mut c: usize = 0;
            while c < self.cols
                invariant
                    self.wf(n as nat),
                    own == self.owners(),
                    bal == self.balances(),
                    r < self.rows,
                    0 <= c <= self.cols,
                    forall|r2: int, c2: int, k: int|
                        (0 <= r2 < r || (r2 == r && 0 <= c2 < c)) && owned(own, r2, c2) && own[r2][c2]
                            == Some(j as int) && 0 <= k < n ==> #[trigger] bal[r2][c2][k] > 0,
                decreases self.cols - c,
            {
                if self.cells[r][c].owner == Some(j) {
                    let mut k: usize = 0;
                    while k < n
                        invariant
                            self.wf(n as nat),
                            own == self.owners(),
                            bal == self.balances(),
                            r < self.rows,
                            c < self.cols,
                            self.cells@[r as int]@[c as int].owner == Some(j),
                            0 <= k <= n,
                            forall|r2: int, c2: int, k2: int|
                                (0 <= r2 < r || (r2 == r && 0 <= c2 < c) || (r2 == r && c2 == c && 0
                                    <= k2 < k)) && owned(own, r2, c2) && own[r2][c2] == Some(j as int)
                                    && 0 <= k2 < n ==> #[trigger] bal[r2][c2][k2] > 0,
                        decreases n - k,
                    {
                        if self.cells[r][c].coins[k] == 0 {
                            assert(bal[r as int][c as int][k as int] == 0);
                            return false;
                        }
                        k += 1;
                    }
                }
                c += 1;
            }
            r += 1;
        }
        true
    }
}

} // verus!
