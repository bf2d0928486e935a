use crate::catalog::{CountryDimensions, MAX_COORD, rect_contains, valid_catalog, within_bounds, pair_ok};
use crate::model::{Owners, Balances, INITIAL_COINS};
use vstd::prelude::*;

verus! {

/// The largest `yh` of the catalog (0 when it is empty).
pub open spec fn max_yh(cs: Seq<(String, CountryDimensions)>) -> int
    decreases cs.len(),
{
    if cs.len() == 0 {
        0
    } else {
        let m = max_yh(cs.drop_last());
        if cs.last().1.yh > m { cs.last().1.yh as int } else { m }
    }
}

/// The largest `xh` of the catalog (0 when it is empty).
pub open spec fn max_xh(cs: Seq<(String, CountryDimensions)>) -> int
    decreases cs.len(),
{
    if cs.len() == 0 {
        0
    } else {
        let m = max_xh(cs.drop_last());
        if cs.last().1.xh > m { cs.last().1.xh as int } else { m }
    }
}

/// The country whose rectangle holds city `(r, c)`, if any.
pub open spec fn owner_at(cs: Seq<(String, CountryDimensions)>, r: int, c: int) -> Option<int> {
    if exists|j: int| 0 <= j < cs.len() && rect_contains(#[trigger] cs[j].1, r, c) {
        Some(choose|j: int| 0 <= j < cs.len() && rect_contains(#[trigger] cs[j].1, r, c))
    } else {
        None
    }
}

/// The owners of the grid that the catalog spans.
pub open spec fn catalog_owners(cs: Seq<(String, CountryDimensions)>) -> Owners {
    Seq::new(
        (max_yh(cs) + 1) as nat,
        |r: int| Seq::new((max_xh(cs) + 1) as nat, |c: int| owner_at(cs, r, c)),
    )
}

/// The endowment of a city of country `j`: `INITIAL_COINS` of its own currency, none of the others.
pub open spec fn endowment(n: nat, j: int) -> Seq<int> {
    Seq::new(n, |k: int| if k == j { INITIAL_COINS as int } else { 0 })
}

/// Balances before the first step; an ownerless city holds no balances at all.
pub open spec fn initial_balances(own: Owners, n: nat) -> Balances {
    Seq::new(
        own.len(),
        |r: int|
            Seq::new(
                own[r].len(),
                |c: int|
                    match own[r][c] {
                        Some(j) => endowment(n, j),
                        None => Seq::empty(),
                    },
            ),
    )
}

/// The extent of the grid: the largest row and column index that a country reaches.
pub struct MatrixDimensions {
    pub rows: usize,
    pub cols: usize,
}

impl MatrixDimensions {
    /// The largest `yh` and the largest `xh` over the catalog.
    pub fn from_map(countries: &Vec<(String, CountryDimensions)>) -> (r: MatrixDimensions)
        ensures
            r.rows == max_yh(countries@),
            r.cols == max_xh(countries@),
    {
        let mut rows: usize = 0;
        let mut cols: usize = 0;
        let mut j: usize = 0;
        while j < countries.len()
            invariant
                0 <= j <= countries@.len(),
                rows == max_yh(countries@.subrange(0, j as int)),
                cols == max_xh(countries@.subrange(0, j as int)),
            decreases countries@.len() - j,
        {
            proof {
                let s = countries@.subrange(0, j as int + 1);
                assert(s.drop_last() =~= countries@.subrange(0, j as int));
            }
            if countries[j].1.yh > rows {
                rows = countries[j].1.yh;
            }
            if countries[j].1.xh > cols {
                cols = countries[j].1.xh;
            }
            j += 1;
        }
        assert(countries@.subrange(0, j as int) =~= countries@);
        MatrixDimensions { rows, cols }
    }
}

/// One city: the country that owns it (by catalog index) and its balance of each currency.
pub struct City {
    pub owner: Option<usize>,
    pub coins: Vec<u64>,
}

/// The grid of cities, row by row.
pub struct Matrix {
    pub rows: usize,
    pub cols: usize,
    pub cells: Vec<Vec<City>>,
}

impl Matrix {
    pub open spec fn owners(&self) -> Owners {
        Seq::new(
            self.cells@.len(),
            |r: int|
                Seq::new(
                    self.cells@[r]@.len(),
                    |c: int|
                        match self.cells@[r]@[c].owner {
                            Some(j) => Some(j as int),
                            None => None,
                        },
                ),
        )
    }

    pub open spec fn balances(&self) -> Balances {
        Seq::new(
            self.cells@.len(),
            |r: int|
                Seq::new(
                    self.cells@[r]@.len(),
                    |c: int| self.cells@[r]@[c].coins@.map_values(|v: u64| v as int),
                ),
        )
    }

    /// A `rows` by `cols` grid whose owned cities belong to one of `n` countries
    /// and hold one balance per country.
    pub open spec fn wf(&self, n: nat) -> bool {
        &&& 0 < self.rows
        &&& 0 < self.cols
        &&& self.cells@.len() == self.rows
        &&& forall|r: int| 0 <= r < self.rows ==> (#[trigger] self.cells@[r])@.len() == self.cols
        &&& forall|r: int, c: int|
            0 <= r < self.rows && 0 <= c < self.cols ==> match (#[trigger] self.cells@[r]@[c]).owner {
                Some(j) => j < n && self.cells@[r]@[c].coins@.len() == n,
                None => self.cells@[r]@[c].coins@.len() == 0,
            }
    }
}

/// City `(r, c)` is owned as the catalog says and holds its endowment.
pub open spec fn initial_city(cs: Seq<(String, CountryDimensions)>, cell: City, r: int, c: int) -> bool {
    match cell.owner {
        Some(j) => owner_at(cs, r, c) == Some(j as int) && j < cs.len() && cell.coins@.map_values(
            |v: u64| v as int,
        ) == endowment(cs.len(), j as int),
        None => owner_at(cs, r, c) is None && cell.coins@.len() == 0,
    }
}

impl Matrix {
    /// Builds the grid of `(dim.rows + 1)` by `(dim.cols + 1)` cities: each city in a
    /// country's rectangle belongs to it and holds its endowment; the others are ownerless.
    pub fn new(dim: MatrixDimensions, countries: &Vec<(String, CountryDimensions)>) -> (m: Matrix)
        requires
            valid_catalog(countries@),
            within_bounds(countries@),
            dim.rows == max_yh(countries@),
            dim.cols == max_xh(countries@),
        ensures
            m.wf(countries@.len()),
            m.rows == dim.rows + 1,
            m.cols == dim.cols + 1,
            m.owners() == catalog_owners(countries@),
            m.balances() == initial_balances(m.owners(), countries@.len()),
    {
        let n = countries.len();
        proof {
            lemma_max_bounded(countries@);
        }
        let rows = dim.rows + 1;
        let cols = dim.cols + 1;
        let mut cells: Vec<Vec<City>> = Vec::new();
        let mut r: usize = 0;
        while r < rows
            invariant
                valid_catalog(countries@),
                n == countries@.len(),
                cols == max_xh(countries@) + 1,
                0 <= r <= rows,
                cells@.len() == r,
                forall|r2: int| 0 <= r2 < r ==> (#[trigger] cells@[r2])@.len() == cols,
                forall|r2: int, c2: int|
                    0 <= r2 < r && 0 <= c2 < cols ==> initial_city(
                        countries@,
                        #[trigger] cells@[r2]@[c2],
                        r2,
                        c2,
                    ),
            decreases rows - r,
        {
            let mut row: Vec<City> = Vec::new();
            let mut c: usize = 0;
            while c < cols
                invariant
                    valid_catalog(countries@),
                    n == countries@.len(),
                    0 <= c <= cols,
                    row@.len() == c,
                    forall|c2: int| 0 <= c2 < c ==> initial_city(countries@, #[trigger] row@[c2], r as int, c2),
                decreases cols - c,
            {
                let owner = owner_of(countries, r, c);
                let coins = match owner {
                    Some(j) => endowment_coins(n, j),
                    None => Vec::new(),
                };
                row.push(City { owner, coins });
                c += 1;
            }
            cells.push(row);
            r += 1;
        }
        let m = Matrix { rows, cols, cells };
        assert forall|r2: int, c2: int| 0 <= r2 < rows && 0 <= c2 < cols implies match (
        #[trigger] m.cells@[r2]@[c2]).owner {
            Some(j) => j < n && m.cells@[r2]@[c2].coins@.len() == n,
            None => m.cells@[r2]@[c2].coins@.len() == 0,
        } by {
            assert(initial_city(countries@, m.cells@[r2]@[c2], r2, c2));
            if let Some(j) = m.cells@[r2]@[c2].owner {
                assert(m.cells@[r2]@[c2].coins@.map_values(|v: u64| v as int).len() == n);
            }
        }
        assert(m.owners() =~~= catalog_owners(countries@));
        assert(m.balances() =~~= initial_balances(m.owners(), n as nat));
        m
    }
}

pub proof fn lemma_max_bounded(cs: Seq<(String, CountryDimensions)>)
    requires
        within_bounds(cs),
    ensures
        0 <= max_yh(cs) <= MAX_COORD,
        0 <= max_xh(cs) <= MAX_COORD,
    decreases cs.len(),
{
    if cs.len() > 0 {
        assert(within_bounds(cs.drop_last()));
        lemma_max_bounded(cs.drop_last());
    }
}

fn owner_of(countries: &Vec<(String, CountryDimensions)>, r: usize, c: usize) -> (o: Option<usize>)
    requires
        valid_catalog(countries@),
    ensures
        o == match owner_at(countries@, r as int, c as int) {
            Some(j) => Some(j as usize),
            None => None::<usize>,
        },
        o matches Some(j) ==> j < countries@.len(),
{
    let mut j: usize = 0;
    while j < countries.len()
        invariant
            valid_catalog(countries@),
            0 <= j <= countries@.len(),
            forall|j2: int| 0 <= j2 < j ==> !rect_contains(#[trigger] countries@[j2].1, r as int, c as int),
        decreases countries@.len() - j,
    {
        let d = &countries[j].1;
        if d.yl <= r && r <= d.yh && d.xl <= c && c <= d.xh {
            proof {
                let cs = countries@;
                assert(rect_contains(cs[j as int].1, r as int, c as int));
                let k = choose|k: int| 0 <= k < cs.len() && rect_contains(#[trigger] cs[k].1, r as int, c as int);
                if k != j as int {
                    if k < j {
                        assert(pair_ok(cs, k, j as int));
                    } else {
                        assert(pair_ok(cs, j as int, k));
                    }
                }
            }
            return Some(j);
        }
        j += 1;
    }
    None
}

fn endowment_coins(n: usize, j: usize) -> (v: Vec<u64>)
    ensures
        v@.map_values(|x: u64| x as int) =~= endowment(n as nat, j as int),
        v@.len() == n,
{
    let mut v: Vec<u64> = Vec::new();
    let mut k: usize = 0;
    while k < n
        invariant
            0 <= k <= n,
            v@.len() == k,
            forall|i: int| 0 <= i < k ==> #[trigger] v@[i] == if i == j { INITIAL_COINS } else { 0 },
        decreases n - k,
    {
        if k == j {
            v.push(INITIAL_COINS);
        } else {
            v.push(0);
        }
        k += 1;
    }
    v
}

} // verus!
