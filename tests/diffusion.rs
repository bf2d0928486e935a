use euro_diffusion::catalog::{validate, CountryDimensions, CountryOutput, InputError};
use euro_diffusion::grid::{Matrix, MatrixDimensions};
use euro_diffusion::simulate::{euro_diffusion, simulate, MAX_ITER};

fn rect(xl: usize, yl: usize, xh: usize, yh: usize) -> CountryDimensions {
    CountryDimensions { xl, yl, xh, yh }
}

fn catalog(entries: &[(&str, CountryDimensions)]) -> Vec<(String, CountryDimensions)> {
    entries
        .iter()
        .map(|(name, d)| (name.to_string(), CountryDimensions { xl: d.xl, yl: d.yl, xh: d.xh, yh: d.yh }))
        .collect()
}

fn sorted(mut out: Vec<CountryOutput>) -> Vec<(String, usize)> {
    out.sort_by(|a, b| a.iter.cmp(&b.iter).then(a.country_name.cmp(&b.country_name)));
    out.into_iter().map(|o| (o.country_name, o.iter)).collect()
}

fn pairs(v: &[(&str, usize)]) -> Vec<(String, usize)> {
    v.iter().map(|(n, t)| (n.to_string(), *t)).collect()
}

fn build(cs: &Vec<(String, CountryDimensions)>) -> Matrix {
    Matrix::new(MatrixDimensions::from_map(cs), cs)
}

fn totals(m: &Matrix, n: usize) -> Vec<u64> {
    let mut t = vec![0u64; n];
    for row in &m.cells {
        for city in row {
            if city.owner.is_some() {
                for k in 0..n {
                    t[k] += city.coins[k];
                }
            }
        }
    }
    t
}

#[test]
fn single_country_completes_at_step_zero() {
    let cs = catalog(&[("Luxembourg", rect(1, 1, 1, 1))]);
    assert_eq!(sorted(euro_diffusion(&cs).unwrap()), pairs(&[("Luxembourg", 0)]));
    let big = catalog(&[("Big", rect(3, 2, 40, 17))]);
    assert_eq!(sorted(euro_diffusion(&big).unwrap()), pairs(&[("Big", 0)]));
}

#[test]
fn two_adjacent_unit_countries_after_one_step() {
    let cs = catalog(&[("A", rect(0, 0, 0, 0)), ("B", rect(1, 0, 1, 0))]);
    let m = build(&cs);
    assert_eq!(m.rows, 1);
    assert_eq!(m.cols, 2);
    let next = m.diffuse(2);
    assert_eq!(next.cells[0][0].coins, vec![999_000, 1_000]);
    assert_eq!(next.cells[0][1].coins, vec![1_000, 999_000]);
    assert!(next.is_complete(2, 0));
    assert!(next.is_complete(2, 1));
    assert_eq!(sorted(euro_diffusion(&cs).unwrap()), pairs(&[("A", 1), ("B", 1)]));
}

#[test]
fn currency_passes_through_middle_country() {
    let cs = catalog(&[("A", rect(0, 0, 0, 0)), ("B", rect(1, 0, 1, 0)), ("C", rect(2, 0, 2, 0))]);
    let out = sorted(euro_diffusion(&cs).unwrap());
    assert_eq!(out, pairs(&[("B", 1), ("A", 2), ("C", 2)]));
    let b = out.iter().find(|o| o.0 == "B").unwrap().1;
    let c = out.iter().find(|o| o.0 == "C").unwrap().1;
    assert!(c > b);
}

#[test]
fn separated_countries_stop_at_ceiling() {
    let cs = catalog(&[("A", rect(0, 0, 0, 0)), ("B", rect(2, 0, 2, 0))]);
    assert!(euro_diffusion(&cs).unwrap().is_empty());
    assert!(simulate(&cs, 10).unwrap().is_empty());
}

#[test]
fn separated_pair_beside_connected_pair() {
    let cs = catalog(&[("A", rect(0, 0, 0, 0)), ("B", rect(1, 0, 1, 0)), ("C", rect(3, 0, 3, 0))]);
    assert!(simulate(&cs, 50).unwrap().is_empty());
    assert_eq!(MAX_ITER, 100000);
}

#[test]
fn classic_three_countries() {
    let cs = catalog(&[
        ("France", rect(1, 4, 4, 6)),
        ("Spain", rect(3, 1, 6, 3)),
        ("Portugal", rect(1, 1, 2, 2)),
    ]);
    assert_eq!(
        sorted(euro_diffusion(&cs).unwrap()),
        pairs(&[("Spain", 382), ("Portugal", 416), ("France", 1325)])
    );
}

#[test]
fn classic_two_countries() {
    let cs = catalog(&[("Netherlands", rect(1, 3, 2, 4)), ("Belgium", rect(1, 1, 2, 2))]);
    assert_eq!(sorted(euro_diffusion(&cs).unwrap()), pairs(&[("Belgium", 2), ("Netherlands", 2)]));
}

#[test]
fn conservation_over_steps() {
    let cs = catalog(&[
        ("France", rect(1, 4, 4, 6)),
        ("Spain", rect(3, 1, 6, 3)),
        ("Portugal", rect(1, 1, 2, 2)),
    ]);
    let mut m = build(&cs);
    let start = totals(&m, 3);
    assert_eq!(start, vec![12 * 1_000_000, 12 * 1_000_000, 4 * 1_000_000]);
    for _ in 0..50 {
        m = m.diffuse(3);
        assert_eq!(totals(&m, 3), start);
    }
}

#[test]
fn ownerless_cells_stay_empty() {
    let cs = catalog(&[("A", rect(0, 0, 0, 0)), ("B", rect(2, 0, 2, 0))]);
    let mut m = build(&cs);
    assert!(m.cells[0][1].owner.is_none());
    for _ in 0..5 {
        m = m.diffuse(2);
        assert!(m.cells[0][1].coins.is_empty());
        assert_eq!(m.cells[0][0].coins, vec![1_000_000, 0]);
        assert_eq!(m.cells[0][2].coins, vec![0, 1_000_000]);
    }
}

#[test]
fn small_balances_send_nothing() {
    let cs = catalog(&[("A", rect(0, 0, 0, 0)), ("B", rect(1, 0, 1, 0))]);
    let mut m = build(&cs);
    m.cells[0][0].coins = vec![999, 0];
    m.cells[0][1].coins = vec![0, 1999];
    let next = m.diffuse(2);
    assert_eq!(next.cells[0][0].coins, vec![999, 1]);
    assert_eq!(next.cells[0][1].coins, vec![0, 1998]);
}

#[test]
fn interior_city_sends_to_four_neighbours() {
    let cs = catalog(&[("A", rect(0, 0, 2, 2))]);
    let m = build(&cs);
    let next = m.diffuse(1);
    assert_eq!(next.cells[1][1].coins, vec![1_000_000 - 4_000 + 4_000]);
    assert_eq!(next.cells[0][0].coins, vec![1_000_000]);
}

#[test]
fn grid_construction_owners_and_endowment() {
    let cs = catalog(&[("A", rect(1, 0, 1, 1)), ("B", rect(2, 2, 3, 2))]);
    let dim = MatrixDimensions::from_map(&cs);
    assert_eq!((dim.rows, dim.cols), (2, 3));
    let m = Matrix::new(dim, &cs);
    assert_eq!((m.rows, m.cols), (3, 4));
    assert_eq!(m.cells[0][1].owner, Some(0));
    assert_eq!(m.cells[1][1].coins, vec![1_000_000, 0]);
    assert_eq!(m.cells[2][3].owner, Some(1));
    assert_eq!(m.cells[2][3].coins, vec![0, 1_000_000]);
    assert_eq!(m.cells[0][0].owner, None);
    assert!(m.cells[0][0].coins.is_empty());
}

#[test]
fn longer_run_keeps_earlier_records() {
    let cs = catalog(&[("A", rect(0, 0, 0, 0)), ("B", rect(1, 0, 1, 0)), ("C", rect(2, 0, 2, 0))]);
    let short = sorted(simulate(&cs, 2).unwrap());
    assert_eq!(short, pairs(&[("B", 1)]));
    let long = sorted(simulate(&cs, 1000).unwrap());
    for rec in &short {
        assert!(long.contains(rec));
    }
}

#[test]
fn repeated_runs_agree() {
    let cs = catalog(&[("Netherlands", rect(1, 3, 2, 4)), ("Belgium", rect(1, 1, 2, 2))]);
    let m = build(&cs);
    let a = m.diffuse(2);
    let b = m.diffuse(2);
    for r in 0..m.rows {
        for c in 0..m.cols {
            assert_eq!(a.cells[r][c].coins, b.cells[r][c].coins);
        }
    }
    assert_eq!(sorted(euro_diffusion(&cs).unwrap()), sorted(euro_diffusion(&cs).unwrap()));
}

#[test]
fn invalid_catalogs_are_refused() {
    let empty: Vec<(String, CountryDimensions)> = Vec::new();
    assert_eq!(euro_diffusion(&empty).err(), Some(InputError::Empty));
    let degenerate = catalog(&[("A", rect(0, 0, 0, 0)), ("B", rect(3, 0, 2, 0))]);
    assert_eq!(euro_diffusion(&degenerate).err(), Some(InputError::Degenerate(1)));
    let flipped = catalog(&[("A", rect(0, 2, 0, 1))]);
    assert_eq!(validate(&flipped), Err(InputError::Degenerate(0)));
    let duplicate = catalog(&[("A", rect(0, 0, 0, 0)), ("A", rect(1, 0, 1, 0))]);
    assert_eq!(euro_diffusion(&duplicate).err(), Some(InputError::DuplicateName(0, 1)));
    let overlap = catalog(&[("A", rect(0, 0, 2, 2)), ("B", rect(5, 5, 5, 5)), ("C", rect(2, 2, 3, 3))]);
    assert_eq!(euro_diffusion(&overlap).err(), Some(InputError::Overlap(0, 2)));
    assert_eq!(validate(&catalog(&[("A", rect(0, 0, 0, 0))])), Ok(()));
}
