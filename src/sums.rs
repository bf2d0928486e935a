use vstd::prelude::*;

verus! {

/// `f(lo) + ... + f(hi - 1)`.
pub open spec fn sum(lo: int, hi: int, f: spec_fn(int) -> int) -> int
    decreases hi - lo,
{
    if hi <= lo {
        0
    } else {
        sum(lo, hi - 1, f) + f(hi - 1)
    }
}

/// The sum of `f(r, c)` over the columns `[0, cols)` of row `r`.
pub open spec fn row_sum(cols: int, f: spec_fn(int, int) -> int, r: int) -> int {
    sum(0, cols, |c: int| f(r, c))
}

/// The sum of `f(r, c)` over the `rows` by `cols` rectangle at the origin.
pub open spec fn sum2(rows: int, cols: int, f: spec_fn(int, int) -> int) -> int {
    sum(0, rows, |r: int| row_sum(cols, f, r))
}

pub proof fn lemma_sum_ext(lo: int, hi: int, f: spec_fn(int) -> int, g: spec_fn(int) -> int)
    requires
        forall|i: int| lo <= i < hi ==> #[trigger] f(i) == g(i),
    ensures
        sum(lo, hi, f) == sum(lo, hi, g),
    decreases hi - lo,
{
    if hi > lo {
        lemma_sum_ext(lo, hi - 1, f, g);
    }
}

pub proof fn lemma_sum_add(
    lo: int,
    hi: int,
    f: spec_fn(int) -> int,
    g: spec_fn(int) -> int,
    h: spec_fn(int) -> int,
)
    requires
        forall|i: int| lo <= i < hi ==> #[trigger] h(i) == f(i) + g(i),
    ensures
        sum(lo, hi, h) == sum(lo, hi, f) + sum(lo, hi, g),
    decreases hi - lo,
{
    if hi > lo {
        lemma_sum_add(lo, hi - 1, f, g, h);
    }
}

pub proof fn lemma_sum_bounds(lo: int, hi: int, f: spec_fn(int) -> int, b: int)
    requires
        lo <= hi,
        forall|i: int| lo <= i < hi ==> 0 <= #[trigger] f(i) <= b,
    ensures
        0 <= sum(lo, hi, f) <= b * (hi - lo),
    decreases hi - lo,
{
    if hi > lo {
        lemma_sum_bounds(lo, hi - 1, f, b);
        assert(0 <= f(hi - 1) <= b);
        assert(sum(lo, hi, f) == sum(lo, hi - 1, f) + f(hi - 1));
        assert(b * (hi - 1 - lo) + b == b * (hi - lo)) by (nonlinear_arith);
    } else {
        assert(b * (hi - lo) == 0) by (nonlinear_arith)
            requires
                hi == lo,
        ;
    }
}

pub proof fn lemma_sum_nonneg(lo: int, hi: int, f: spec_fn(int) -> int)
    requires
        forall|k: int| lo <= k < hi ==> 0 <= #[trigger] f(k),
    ensures
        0 <= sum(lo, hi, f),
    decreases hi - lo,
{
    if hi > lo {
        lemma_sum_nonneg(lo, hi - 1, f);
    }
}

/// Each term of a sum of non-negative terms is at most the sum.
pub proof fn lemma_sum_term_le(lo: int, hi: int, f: spec_fn(int) -> int, i: int)
    requires
        lo <= i < hi,
        forall|k: int| lo <= k < hi ==> 0 <= #[trigger] f(k),
    ensures
        f(i) <= sum(lo, hi, f),
    decreases hi - lo,
{
    if i == hi - 1 {
        lemma_sum_nonneg(lo, hi - 1, f);
    } else {
        lemma_sum_term_le(lo, hi - 1, f, i);
    }
}

proof fn lemma_sum_shift_prefix(m: int, f: spec_fn(int) -> int, g: spec_fn(int) -> int)
    requires
        0 <= m,
        forall|i: int| 0 <= i < m ==> f(i + 1) == #[trigger] g(i),
    ensures
        sum(0, m + 1, f) == f(0) + sum(0, m, g),
    decreases m,
{
    if m > 0 {
        lemma_sum_shift_prefix(m - 1, f, g);
        assert(f(m) == g(m - 1));
        assert(sum(0, m + 1, f) == sum(0, m, f) + f(m));
    } else {
        assert(sum(0, 0, f) == 0);
        assert(sum(0, 1, f) == sum(0, 0, f) + f(0));
    }
}

/// Re-indexing by one: if `f(i + 1) == g(i)`, `f` starts and `g` ends with zero,
/// both have the same sum over `[0, n)`.
pub proof fn lemma_sum_shift(n: int, f: spec_fn(int) -> int, g: spec_fn(int) -> int)
    requires
        0 < n,
        forall|i: int| 0 <= i < n - 1 ==> f(i + 1) == #[trigger] g(i),
        f(0) == 0,
        g(n - 1) == 0,
    ensures
        sum(0, n, f) == sum(0, n, g),
{
    lemma_sum_shift_prefix(n - 1, f, g);
}

pub proof fn lemma_sum2_ext(rows: int, cols: int, f: spec_fn(int, int) -> int, g: spec_fn(int, int) -> int)
    requires
        forall|r: int, c: int| 0 <= r < rows && 0 <= c < cols ==> #[trigger] f(r, c) == g(r, c),
    ensures
        sum2(rows, cols, f) == sum2(rows, cols, g),
{
    assert forall|r: int| 0 <= r < rows implies #[trigger] row_sum(cols, f, r) == row_sum(cols, g, r) by {
        lemma_sum_ext(0, cols, |c: int| f(r, c), |c: int| g(r, c));
    }
    lemma_sum_ext(0, rows, |r: int| row_sum(cols, f, r), |r: int| row_sum(cols, g, r));
}

pub proof fn lemma_sum2_add(
    rows: int,
    cols: int,
    f: spec_fn(int, int) -> int,
    g: spec_fn(int, int) -> int,
    h: spec_fn(int, int) -> int,
)
    requires
        forall|r: int, c: int| 0 <= r < rows && 0 <= c < cols ==> #[trigger] h(r, c) == f(r, c) + g(r, c),
    ensures
        sum2(rows, cols, h) == sum2(rows, cols, f) + sum2(rows, cols, g),
{
    let rf = |r: int| row_sum(cols, f, r);
    let rg = |r: int| row_sum(cols, g, r);
    let rh = |r: int| row_sum(cols, h, r);
    assert forall|r: int| 0 <= r < rows implies #[trigger] rh(r) == rf(r) + rg(r) by {
        lemma_sum_add(0, cols, |c: int| f(r, c), |c: int| g(r, c), |c: int| h(r, c));
    }
    lemma_sum_add(0, rows, rf, rg, rh);
}

/// Each term of a sum of non-negative terms over a rectangle is at most the sum.
pub proof fn lemma_sum2_term_le(rows: int, cols: int, f: spec_fn(int, int) -> int, r: int, c: int)
    requires
        0 <= r < rows,
        0 <= c < cols,
        forall|r2: int, c2: int| 0 <= r2 < rows && 0 <= c2 < cols ==> 0 <= #[trigger] f(r2, c2),
    ensures
        f(r, c) <= sum2(rows, cols, f),
{
    let rf = |r: int| row_sum(cols, f, r);
    assert forall|r2: int| 0 <= r2 < rows implies 0 <= #[trigger] rf(r2) by {
        lemma_sum_nonneg(0, cols, |c: int| f(r2, c));
    }
    lemma_sum_term_le(0, cols, |c2: int| f(r, c2), c);
    lemma_sum_term_le(0, rows, rf, r);
}

/// A sum over a rectangle of terms within `[0, b]` is within `[0, b * rows * cols]`.
pub proof fn lemma_sum2_bounds(rows: int, cols: int, f: spec_fn(int, int) -> int, b: int)
    requires
        0 <= rows,
        0 <= cols,
        forall|r: int, c: int| 0 <= r < rows && 0 <= c < cols ==> 0 <= #[trigger] f(r, c) <= b,
    ensures
        0 <= sum2(rows, cols, f) <= b * cols * rows,
{
    let rf = |r: int| row_sum(cols, f, r);
    assert forall|r: int| 0 <= r < rows implies 0 <= #[trigger] rf(r) <= b * cols by {
        lemma_sum_bounds(0, cols, |c: int| f(r, c), b);
    }
    lemma_sum_bounds(0, rows, rf, b * cols);
}

/// Shifting the row index by one, as `lemma_sum_shift` does for one index.
pub proof fn lemma_sum2_shift_rows(rows: int, cols: int, f: spec_fn(int, int) -> int, g: spec_fn(int, int) -> int)
    requires
        0 < rows,
        0 <= cols,
        forall|r: int, c: int| 0 <= r < rows - 1 && 0 <= c < cols ==> f(r + 1, c) == #[trigger] g(r, c),
        forall|c: int| 0 <= c < cols ==> #[trigger] f(0, c) == 0,
        forall|c: int| 0 <= c < cols ==> #[trigger] g(rows - 1, c) == 0,
    ensures
        sum2(rows, cols, f) == sum2(rows, cols, g),
{
    let rf = |r: int| row_sum(cols, f, r);
    let rg = |r: int| row_sum(cols, g, r);
    assert forall|r: int| 0 <= r < rows - 1 implies rf(r + 1) == #[trigger] rg(r) by {
        lemma_sum_ext(0, cols, |c: int| f(r + 1, c), |c: int| g(r, c));
    }
    lemma_sum_ext(0, cols, |c: int| f(0, c), |c: int| 0);
    lemma_sum_ext(0, cols, |c: int| g(rows - 1, c), |c: int| 0);
    lemma_sum_bounds(0, cols, |c: int| 0, 0);
    lemma_sum_shift(rows, rf, rg);
}

/// Shifting the column index by one, as `lemma_sum_shift` does for one index.
pub proof fn lemma_sum2_shift_cols(rows: int, cols: int, f: spec_fn(int, int) -> int, g: spec_fn(int, int) -> int)
    requires
        0 < cols,
        forall|r: int, c: int| 0 <= r < rows && 0 <= c < cols - 1 ==> f(r, c + 1) == #[trigger] g(r, c),
        forall|r: int| 0 <= r < rows ==> #[trigger] f(r, 0) == 0,
        forall|r: int| 0 <= r < rows ==> #[trigger] g(r, cols - 1) == 0,
    ensures
        sum2(rows, cols, f) == sum2(rows, cols, g),
{
    let rf = |r: int| row_sum(cols, f, r);
    let rg = |r: int| row_sum(cols, g, r);
    assert forall|r: int| 0 <= r < rows implies #[trigger] rf(r) == rg(r) by {
        lemma_sum_shift(cols, |c: int| f(r, c), |c: int| g(r, c));
    }
    lemma_sum_ext(0, rows, rf, rg);
}

} // verus!
