use vstd::prelude::*;

verus! {

/// Largest coordinate that a rectangle may reach: it keeps the grid within
/// 10^12 cities, so that every amount of currency fits in a `u64`.
pub const MAX_COORD: usize = 999_999;

/// An axis-aligned rectangle of cities, corners included.
pub struct CountryDimensions {
    pub xl: usize,
    pub yl: usize,
    pub xh: usize,
    pub yh: usize,
}

/// One scenario: an identifier and its catalog of countries, each a name and a rectangle.
pub struct Input {
    pub id: u64,
    pub countries: Vec<(String, CountryDimensions)>,
}

/// The step at which a country first held every currency in every one of its cities.
pub struct CountryOutput {
    pub country_name: String,
    pub iter: usize,
}

/// Why a catalog is refused before any grid is built.
#[derive(Debug, PartialEq, Eq, Structural)]
pub enum InputError {
    /// The catalog holds no country.
    Empty,
    /// The rectangle at this index has `xl > xh` or `yl > yh`.
    Degenerate(usize),
    /// The countries at these two indices share a name.
    DuplicateName(usize, usize),
    /// The rectangles at these two indices share a city.
    Overlap(usize, usize),
}

pub open spec fn non_degenerate(d: CountryDimensions) -> bool {
    d.xl <= d.xh && d.yl <= d.yh
}

/// City `(row, col)` lies in the rectangle.
pub open spec fn rect_contains(d: CountryDimensions, row: int, col: int) -> bool {
    d.yl <= row <= d.yh && d.xl <= col <= d.xh
}

pub open spec fn rects_overlap(a: CountryDimensions, b: CountryDimensions) -> bool {
    a.xl <= b.xh && b.xl <= a.xh && a.yl <= b.yh && b.yl <= a.yh
}

/// Every rectangle stays within the coordinates that the grid can hold.
pub open spec fn within_bounds(cs: Seq<(String, CountryDimensions)>) -> bool {
    forall|j: int| 0 <= j < cs.len() ==> cs[j].1.xh <= MAX_COORD && cs[j].1.yh <= MAX_COORD
}

/// A catalog the simulation accepts: not empty, no degenerate rectangle,
/// unique names and no two rectangles sharing a city.
pub open spec fn valid_catalog(cs: Seq<(String, CountryDimensions)>) -> bool {
    &&& cs.len() > 0
    &&& forall|j: int| 0 <= j < cs.len() ==> non_degenerate(#[trigger] cs[j].1)
    &&& forall|i: int, j: int| 0 <= i < j < cs.len() ==> #[trigger] pair_ok(cs, i, j)
}

/// Countries `i` and `j` differ in name and share no city.
pub open spec fn pair_ok(cs: Seq<(String, CountryDimensions)>, i: int, j: int) -> bool {
    cs[i].0@ != cs[j].0@ && !rects_overlap(cs[i].1, cs[j].1)
}

/// What error `e` says of the catalog holds.
pub open spec fn describes(cs: Seq<(String, CountryDimensions)>, e: InputError) -> bool {
    match e {
        InputError::Empty => cs.len() == 0,
        InputError::Degenerate(j) => j < cs.len() && !non_degenerate(cs[j as int].1),
        InputError::DuplicateName(i, j) => i < j < cs.len() && cs[i as int].0@ == cs[j as int].0@,
        InputError::Overlap(i, j) => i < j < cs.len() && rects_overlap(cs[i as int].1, cs[j as int].1),
    }
}

fn overlaps(a: &CountryDimensions, b: &CountryDimensions) -> (r: bool)
    ensures
        r == rects_overlap(*a, *b),
{
    a.xl <= b.xh && b.xl <= a.xh && a.yl <= b.yh && b.yl <= a.yh
}

/// Checks a catalog, reporting the first flaw found.
pub fn validate(cs: &Vec<(String, CountryDimensions)>) -> (r: Result<(), InputError>)
    ensures
        r is Ok <==> valid_catalog(cs@),
        r == Err::<(), InputError>(InputError::Empty) <==> cs@.len() == 0,
        (exists|j: int| 0 <= j < cs@.len() && !non_degenerate(#[trigger] cs@[j].1)) ==> (r matches Err(
            InputError::Degenerate(_))),
        r matches Err(e) ==> describes(cs@, e),
{
    if cs.len() == 0 {
        return Err(InputError::Empty);
    }
    let n = cs.len();
    let mut j: usize = 0;
    while j < n
        invariant
            n == cs@.len(),
            0 <= j <= n,
            forall|j2: int| 0 <= j2 < j ==> non_degenerate(#[trigger] cs@[j2].1),
        decreases n - j,
    {
        if cs[j].1.xl > cs[j].1.xh || cs[j].1.yl > cs[j].1.yh {
            return Err(InputError::Degenerate(j));
        }
        j += 1;
    }
    let mut j: usize = 1;
    while j < n
        invariant
            n == cs@.len(),
            1 <= j <= n,
            forall|k: int| 0 <= k < n ==> non_degenerate(#[trigger] cs@[k].1),
            forall|i2: int, j2: int| 0 <= i2 < j2 < j ==> #[trigger] pair_ok(cs@, i2, j2),
        decreases n - j,
    {
        let mut i: usize = 0;
        while i < j
            invariant
                n == cs@.len(),
                1 <= j < n,
                0 <= i <= j,
                forall|k: int| 0 <= k < n ==> non_degenerate(#[trigger] cs@[k].1),
                forall|i2: int, j2: int|
                    0 <= i2 < j2 < cs@.len() && (j2 < j || (j2 == j && i2 < i)) ==> #[trigger] pair_ok(
                        cs@,
                        i2,
                        j2,
                    ),
            decreases j - i,
        {
            if cs[i].0 == cs[j].0 {
                assert(!pair_ok(cs@, i as int, j as int));
                return Err(InputError::DuplicateName(i, j));
            }
            if overlaps(&cs[i].1, &cs[j].1) {
                assert(!pair_ok(cs@, i as int, j as int));
                return Err(InputError::Overlap(i, j));
            }
            i += 1;
        }
        j += 1;
    }
    Ok(())
}

} // verus!
