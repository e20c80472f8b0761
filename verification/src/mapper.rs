//! The coordinate mapper: a geographic bounding box and a zoom level give an
//! integer tile rectangle in the archive's south-origin row convention.
//!
//! Angles are held in nanodegrees, so that the longitude-to-column formula
//! `col = floor((lon + 180) / 360 * 2^zoom)` is exact integer arithmetic.
//! The latitude side of the slippy-map scheme needs the Web-Mercator inverse
//! projection `(1 - asinh(tan(lat)) / pi) / 2`, a transcendental function
//! that the verified core cannot evaluate; the caller computes that vertical
//! fraction with the platform's floating-point library and hands it in as a
//! fixed-point value scaled by `2^56` (`FRACTION_ONE`).  Everything from the
//! fraction to the final clamped rectangle is exact integer arithmetic and
//! is verified here.

use vstd::prelude::*;

verus! {

use vstd::arithmetic::power2::{
    pow2,
    lemma_pow2_pos,
    lemma_pow2_adds,
    lemma_pow2_strictly_increases,
    lemma2_to64,
    lemma2_to64_rest,
};
use vstd::arithmetic::div_mod::{
    lemma_hoist_over_denominator,
    lemma_div_is_ordered,
    lemma_div_by_multiple,
    lemma_basic_div,
    lemma_multiply_divide_lt,
};
use vstd::arithmetic::mul::{
    lemma_mul_inequality,
    lemma_mul_is_distributive_add_other_way,
    lemma_mul_is_commutative,
};

/// Degree values are saturated to this magnitude (400 degrees) when parsed.
/// For longitudes the saturation never changes the clamped column
/// ([`lemma_degree_saturation`]).  For latitudes it is a deliberate cutoff:
/// the tangent in the Mercator formula is periodic, so a latitude beyond
/// 400 degrees would land on some mid-map row that an exact fixed-point
/// representation of unbounded angles cannot reproduce; such inputs are
/// mapped as if at the cutoff instead.
pub const MAX_DEGREE_NANO: i64 = 400_000_000_000;

/// The fixed-point scale of the Mercator vertical fraction: `2^56`.
pub const FRACTION_ONE: i64 = 0x100_0000_0000_0000;

/// Fractions are saturated to this magnitude (`2^57`, two whole worlds).
/// A fraction below 0 or above 1 already clamps to the first or last row,
/// so the saturation never changes the clamped result.
pub const FRACTION_LIMIT: i64 = 0x200_0000_0000_0000;

/// The largest zoom level the fixed-point fraction can resolve.
pub const MAX_ZOOM: u32 = 56;

/// A geographic bounding box, each edge in nanodegrees.
///
/// No ordering of the edges is enforced: a box with `west > east` or
/// `south > north` is accepted and yields an inverted index range, which
/// downstream range queries answer with no rows at all.
#[derive(Clone, Copy, Debug)]
pub struct BoundingBox {
    pub north_nano: i64,
    pub east_nano: i64,
    pub south_nano: i64,
    pub west_nano: i64,
}

impl BoundingBox {
    /// Every edge lies within the saturated degree range.
    pub open spec fn wf(self) -> bool {
        &&& -MAX_DEGREE_NANO <= self.north_nano <= MAX_DEGREE_NANO
        &&& -MAX_DEGREE_NANO <= self.east_nano <= MAX_DEGREE_NANO
        &&& -MAX_DEGREE_NANO <= self.south_nano <= MAX_DEGREE_NANO
        &&& -MAX_DEGREE_NANO <= self.west_nano <= MAX_DEGREE_NANO
    }
}

/// Clamp an index into `[0, n - 1]`.
pub open spec fn clamp_idx(v: int, n: int) -> int {
    if v < 0 {
        0
    } else if v > n - 1 {
        n - 1
    } else {
        v
    }
}

/// Saturate a fixed-point fraction to `[-2^57, 2^57]`.
pub open spec fn sat_fraction(m: int) -> int {
    if m > FRACTION_LIMIT {
        FRACTION_LIMIT as int
    } else if m < -FRACTION_LIMIT {
        -FRACTION_LIMIT as int
    } else {
        m
    }
}

/// The unclamped column of a longitude: `floor((lon + 180) / 360 * 2^z)`,
/// with the longitude in nanodegrees.
pub open spec fn col_index(lon_nano: int, z: nat) -> int {
    ((lon_nano + 180_000_000_000) * pow2(z)) / 360_000_000_000
}

/// The unclamped north-origin (slippy-map) row of a Mercator vertical
/// fraction `m / 2^56`: `floor(m / 2^56 * 2^z)`.
pub open spec fn slippy_row(m: int, z: nat) -> int
    recommends
        z <= 56,
{
    sat_fraction(m) / (pow2((56 - z) as nat) as int)
}

/// The flip from the north-origin row convention to the archive's
/// south-origin convention.
pub open spec fn tms_row(y: int, z: nat) -> int {
    pow2(z) as int - 1 - y
}

/// The tile rectangle of a bounding box at one zoom level, as
/// `(col_min, col_max, row_min, row_max)` in the south-origin convention,
/// each component clamped to `[0, 2^z - 1]`.  `m_north` and `m_south` are
/// the Mercator vertical fractions of the north and south edges in units
/// of `2^-56`.  The row minimum comes from the south edge and the row
/// maximum from the north edge, because the flip reverses the order.
pub open spec fn tile_rect(bb: BoundingBox, z: nat, m_north: int, m_south: int) -> (int, int, int, int)
    recommends
        z <= 56,
{
    let n = pow2(z) as int;
    (
        clamp_idx(col_index(bb.west_nano as int, z), n),
        clamp_idx(col_index(bb.east_nano as int, z), n),
        clamp_idx(tms_row(slippy_row(m_south, z), z), n),
        clamp_idx(tms_row(slippy_row(m_north, z), z), n),
    )
}

/// `2^e` as an `i64`.
fn pow2_i64(e: u32) -> (r: i64)
    requires
        e <= 62,
    ensures
        r as int == pow2(e as nat) as int,
        1 <= r,
{
    proof {
        lemma2_to64();
    }
    let mut r: i64 = 1;
    let mut i: u32 = 0;
    while i < e
        invariant
            i <= e,
            e <= 62,
            r as int == pow2(i as nat) as int,
            1 <= r,
        decreases e - i,
    {
        proof {
            lemma2_to64_rest();
            if ((i + 1) as nat) < 62 {
                lemma_pow2_strictly_increases((i + 1) as nat, 62);
            }
            assert(pow2((i + 1) as nat) == pow2(i as nat) * 2) by {
                lemma_pow2_adds(i as nat, 1);
                lemma2_to64();
            }
        }
        r = r * 2;
        i = i + 1;
    }
    r
}

/// The clamped column of one longitude edge.
fn col_for(lon_nano: i64, n: i64, z: u32) -> (c: i64)
    requires
        -MAX_DEGREE_NANO <= lon_nano <= MAX_DEGREE_NANO,
        z <= 56,
        1 <= n,
        n as int == pow2(z as nat) as int,
    ensures
        c == clamp_idx(col_index(lon_nano as int, z as nat), n as int),
{
    proof {
        lemma_pow2_pos(z as nat);
        lemma2_to64_rest();
        if (z as nat) < 56 {
            lemma_pow2_strictly_increases(z as nat, 56);
        }
    }
    let base: u64 = (lon_nano + 540_000_000_000) as u64;
    proof {
        lemma_mul_inequality(base as int, 940_000_000_000, n as int);
        lemma_mul_inequality(n as int, pow2(56) as int, 940_000_000_000);
        lemma_mul_is_commutative(n as int, 940_000_000_000);
        lemma_mul_is_commutative(pow2(56) as int, 940_000_000_000);
    }
    let nn: u128 = (base as u128) * (n as u128);
    proof {
        lemma_mul_inequality(base as int, 940_000_000_000, n as int);
        lemma_mul_is_commutative(base as int, n as int);
        // nn < 360e9 * 3n, so the quotient is below 3n
        assert(nn < 360_000_000_000 * (3 * (n as int))) by {
            lemma_mul_inequality(base as int, 940_000_000_000, n as int);
            assert(940_000_000_000 * (n as int) < 360_000_000_000 * (3 * (n as int)))
                by (nonlinear_arith)
                requires
                    n >= 1,
            ;
        }
    }
    let q: u128 = nn / 360_000_000_000u128;
    proof {
        lemma_multiply_divide_lt(nn as int, 360_000_000_000, 3 * (n as int));
        // rewrite the dividend with the 360-degree offset split off
        assert((base as int) * (n as int)
            == (lon_nano as int + 180_000_000_000) * (n as int) + (n as int) * 360_000_000_000) by {
            lemma_mul_is_distributive_add_other_way(
                n as int,
                lon_nano as int + 180_000_000_000,
                360_000_000_000,
            );
            lemma_mul_is_commutative(base as int, n as int);
            lemma_mul_is_commutative(lon_nano as int + 180_000_000_000, n as int);
        }
        lemma_hoist_over_denominator(
            (lon_nano as int + 180_000_000_000) * (n as int),
            n as int,
            360_000_000_000nat,
        );
    }
    let c: i64 = (q as i64) - n;
    if c < 0 {
        0
    } else if c > n - 1 {
        n - 1
    } else {
        c
    }
}

/// The unclamped north-origin row of one Mercator fraction.
fn slippy_for(m: i64, n: i64, z: u32) -> (y: i64)
    requires
        z <= 56,
        1 <= n,
        n as int == pow2(z as nat) as int,
    ensures
        y == slippy_row(m as int, z as nat),
        -2 * (n as int) <= y <= 2 * (n as int),
{
    proof {
        lemma_pow2_pos(z as nat);
        lemma_pow2_pos((56 - z) as nat);
        lemma2_to64_rest();
        if (z as nat) < 56 {
            lemma_pow2_strictly_increases(z as nat, 56);
        }
        if ((56 - z) as nat) < 62 {
            lemma_pow2_strictly_increases((56 - z) as nat, 62);
        }
    }
    let mc: i64 = if m > FRACTION_LIMIT {
        FRACTION_LIMIT
    } else if m < -FRACTION_LIMIT {
        -FRACTION_LIMIT
    } else {
        m
    };
    let d: i64 = pow2_i64(56 - z);
    let base: u64 = (mc + FRACTION_LIMIT) as u64;
    let q: u64 = base / (d as u64);
    proof {
        // 2n * d == 2^57, so dividing the offset dividend removes exactly 2n
        assert((2 * (n as int)) * (d as int) == pow2(57)) by {
            lemma_pow2_adds(z as nat, (56 - z) as nat);
            assert((2 * (n as int)) * (d as int) == 2 * ((n as int) * (d as int)))
                by (nonlinear_arith);
            lemma2_to64_rest();
            lemma_pow2_adds(56, 1);
            lemma2_to64();
        }
        lemma_hoist_over_denominator(mc as int, 2 * (n as int), pow2((56 - z) as nat));
        // bounds: |mc / d| <= 2n
        assert(((2 * (n as int)) * (d as int)) / (d as int) == 2 * (n as int)) by {
            lemma_div_by_multiple(2 * (n as int), d as int);
        }
        assert(((-2 * (n as int)) * (d as int)) / (d as int) == -2 * (n as int)) by {
            vstd::arithmetic::div_mod::lemma_div_multiples_vanish(-2 * (n as int), d as int);
            lemma_mul_is_commutative(-2 * (n as int), d as int);
        }
        assert((-2 * (n as int)) * (d as int) == -((2 * (n as int)) * (d as int)))
            by (nonlinear_arith);
        lemma_div_is_ordered(mc as int, (2 * (n as int)) * (d as int), d as int);
        lemma_div_is_ordered(-((2 * (n as int)) * (d as int)), mc as int, d as int);
    }
    let y: i64 = (q as i64) - 2 * n;
    y
}

impl BoundingBox {
    /// The tile rectangle of this box at `zoom`, as
    /// `(col_min, col_max, row_min, row_max)` in the archive's south-origin
    /// row convention, every component clamped to `[0, 2^zoom - 1]`.
    ///
    /// `m_north` and `m_south` are the Mercator vertical fractions of the
    /// north and south edges, in units of `2^-56` (see [`FRACTION_ONE`]);
    /// the caller obtains them from `(1 - asinh(tan(lat)) / pi) / 2`.
    /// The function is pure: equal arguments always give the equal rectangle.
    pub fn tile_bounds(&self, zoom: u32, m_north: i64, m_south: i64) -> (r: (i64, i64, i64, i64))
        requires
            self.wf(),
            zoom <= MAX_ZOOM,
        ensures
            ({
                let (a, b, c, d) = tile_rect(*self, zoom as nat, m_north as int, m_south as int);
                r.0 == a && r.1 == b && r.2 == c && r.3 == d
            }),
    {
        proof {
            lemma_pow2_pos(zoom as nat);
            lemma2_to64_rest();
            if (zoom as nat) < 56 {
                lemma_pow2_strictly_increases(zoom as nat, 56);
            }
        }
        let n: i64 = pow2_i64(zoom);
        let col_min = col_for(self.west_nano, n, zoom);
        let col_max = col_for(self.east_nano, n, zoom);
        let y_north = slippy_for(m_north, n, zoom);
        let y_south = slippy_for(m_south, n, zoom);
        let t_min: i64 = n - 1 - y_south;
        let t_max: i64 = n - 1 - y_north;
        let row_min: i64 = if t_min < 0 {
            0
        } else if t_min > n - 1 {
            n - 1
        } else {
            t_min
        };
        let row_max: i64 = if t_max < 0 {
            0
        } else if t_max > n - 1 {
            n - 1
        } else {
            t_max
        };
        (col_min, col_max, row_min, row_max)
    }
}

/// Law: at every zoom level `z`, all four components of the tile rectangle
/// lie within `[0, 2^z - 1]`, however extreme the bounding box and the
/// Mercator fractions are.
pub proof fn lemma_tile_rect_in_range(bb: BoundingBox, z: nat, m_north: int, m_south: int)
    requires
        z <= 56,
    ensures
        ({
            let (a, b, c, d) = tile_rect(bb, z, m_north, m_south);
            let n = pow2(z) as int;
            &&& 0 <= a < n
            &&& 0 <= b < n
            &&& 0 <= c < n
            &&& 0 <= d < n
        }),
{
    lemma_pow2_pos(z);
}

/// Law: a bounding box that spans the whole world gives the full rectangle
/// `(0, 2^z - 1, 0, 2^z - 1)`.  The west and east edges are the full
/// `[-180, 180]` degree range; the north fraction must round to the first
/// row (`0 <= m_north < 2^(56 - z)`) and the south fraction to the last
/// (`m_south >= 2^56 - 2^(56 - z)`), which holds of the Mercator-valid
/// latitude extent `[-85.0511, 85.0511]` up to zoom 20.
pub proof fn lemma_whole_world_rect(bb: BoundingBox, z: nat, m_north: int, m_south: int)
    requires
        z <= 56,
        bb.west_nano == -180_000_000_000,
        bb.east_nano == 180_000_000_000,
        0 <= m_north < pow2((56 - z) as nat),
        m_south >= pow2(56) - pow2((56 - z) as nat),
    ensures
        ({
            let (a, b, c, d) = tile_rect(bb, z, m_north, m_south);
            let n = pow2(z) as int;
            a == 0 && b == n - 1 && c == 0 && d == n - 1
        }),
{
    let n = pow2(z) as int;
    let d = pow2((56 - z) as nat) as int;
    lemma_pow2_pos(z);
    lemma_pow2_pos((56 - z) as nat);
    lemma2_to64_rest();
    // west edge: the dividend is zero
    assert((0int * pow2(z)) / 360_000_000_000 == 0) by {
        lemma_basic_div(0int * pow2(z), 360_000_000_000);
        assert(0int * pow2(z) == 0) by (nonlinear_arith);
    }
    // east edge: the dividend is exactly 360 degrees times n
    assert(col_index(180_000_000_000, z) == n) by {
        lemma_div_by_multiple(n, 360_000_000_000);
        lemma_mul_is_commutative(360_000_000_000, n);
    }
    // north edge: the fraction is below one row, so the slippy row is 0
    assert(slippy_row(m_north, z) == 0) by {
        assert(sat_fraction(m_north) == m_north) by {
            if ((56 - z) as nat) < 57 {
                lemma_pow2_strictly_increases((56 - z) as nat, 57);
            }
        }
        lemma_basic_div(m_north, d);
    }
    // south edge: the fraction reaches the last row, so the flip clamps to 0
    assert(slippy_row(m_south, z) >= n - 1) by {
        assert((n - 1) * d == pow2(56) - d) by {
            lemma_pow2_adds(z, (56 - z) as nat);
            assert((n - 1) * d == n * d - d) by (nonlinear_arith);
        }
        assert(((n - 1) * d) / d == n - 1) by {
            lemma_div_by_multiple(n - 1, d);
        }
        assert(sat_fraction(m_south) >= pow2(56) - d) by {
            lemma_pow2_adds(56, 1);
            lemma2_to64();
        }
        lemma_div_is_ordered((n - 1) * d, sat_fraction(m_south), d);
    }
}

/// Law: a degenerate point box, with equal east and west edges and equal
/// north and south fractions, selects a single tile at every zoom:
/// `col_min == col_max` and `row_min == row_max`.
pub proof fn lemma_point_rect(bb: BoundingBox, z: nat, m: int)
    requires
        z <= 56,
        bb.west_nano == bb.east_nano,
    ensures
        ({
            let (a, b, c, d) = tile_rect(bb, z, m, m);
            a == b && c == d
        }),
{
}

/// Law: the fraction saturation is invisible in the result: for every
/// fraction, the clamped row of the ideal, unsaturated formula
/// `floor(m / 2^56 * 2^z)` equals the clamped row the mapper computes.
pub proof fn lemma_fraction_saturation(z: nat, m: int)
    requires
        z <= 56,
    ensures
        clamp_idx(tms_row(m / (pow2((56 - z) as nat) as int), z), pow2(z) as int) == clamp_idx(
            tms_row(slippy_row(m, z), z),
            pow2(z) as int,
        ),
{
    let n = pow2(z) as int;
    let d = pow2((56 - z) as nat) as int;
    lemma_pow2_pos(z);
    lemma_pow2_pos((56 - z) as nat);
    lemma2_to64_rest();
    assert((2 * n) * d == pow2(57)) by {
        lemma_pow2_adds(z, (56 - z) as nat);
        assert((2 * n) * d == 2 * (n * d)) by (nonlinear_arith);
        lemma2_to64_rest();
        lemma_pow2_adds(56, 1);
        lemma2_to64();
    }
    if m > FRACTION_LIMIT {
        assert(((2 * n) * d) / d == 2 * n) by {
            lemma_div_by_multiple(2 * n, d);
        }
        lemma_div_is_ordered((2 * n) * d, m, d);
        assert(m / d >= 2 * n);
    } else if m < -FRACTION_LIMIT {
        assert(((-2 * n) * d) / d == -2 * n) by {
            vstd::arithmetic::div_mod::lemma_div_multiples_vanish(-2 * n, d);
            lemma_mul_is_commutative(-2 * n, d);
        }
        assert((-2 * n) * d == -((2 * n) * d)) by (nonlinear_arith);
        lemma_div_is_ordered(m, (-2 * n) * d, d);
        assert(m / d <= -2 * n);
    }
}

/// Law: the degree saturation is invisible in the result: a longitude at
/// or beyond the saturated range gives the same clamped column as the
/// saturation bound itself.
pub proof fn lemma_degree_saturation(z: nat, lon: int)
    requires
        z <= 56,
    ensures
        lon >= MAX_DEGREE_NANO ==> clamp_idx(col_index(lon, z), pow2(z) as int) == clamp_idx(
            col_index(MAX_DEGREE_NANO as int, z),
            pow2(z) as int,
        ),
        lon <= -MAX_DEGREE_NANO ==> clamp_idx(col_index(lon, z), pow2(z) as int) == clamp_idx(
            col_index(-MAX_DEGREE_NANO as int, z),
            pow2(z) as int,
        ),
{
    let n = pow2(z) as int;
    lemma_pow2_pos(z);
    if lon >= MAX_DEGREE_NANO {
        // both columns reach past the last index
        assert((n * 360_000_000_000) / 360_000_000_000 == n) by {
            lemma_div_by_multiple(n, 360_000_000_000);
        }
        lemma_mul_inequality(360_000_000_000, 580_000_000_000, n);
        lemma_mul_inequality(580_000_000_000, lon + 180_000_000_000, n);
        lemma_mul_is_commutative(360_000_000_000, n);
        lemma_mul_is_commutative(580_000_000_000, n);
        lemma_mul_is_commutative(lon + 180_000_000_000, n);
        lemma_div_is_ordered(n * 360_000_000_000, 580_000_000_000 * n, 360_000_000_000);
        lemma_div_is_ordered(580_000_000_000 * n, (lon + 180_000_000_000) * n, 360_000_000_000);
        assert(col_index(MAX_DEGREE_NANO as int, z) >= n);
        assert(col_index(lon, z) >= n);
    }
    if lon <= -MAX_DEGREE_NANO {
        // both columns fall short of index zero
        assert((-220_000_000_000) * n <= -220_000_000_000) by (nonlinear_arith)
            requires
                n >= 1,
        ;
        lemma_mul_inequality(lon + 180_000_000_000, -220_000_000_000, n);
        lemma_mul_is_commutative(lon + 180_000_000_000, n);
        lemma_mul_is_commutative(-220_000_000_000, n);
        lemma_div_is_ordered((lon + 180_000_000_000) * n, (-220_000_000_000) * n, 360_000_000_000);
        lemma_div_is_ordered((-220_000_000_000) * n, -220_000_000_000, 360_000_000_000);
        assert((-220_000_000_000) / 360_000_000_000 == -1);
        assert(col_index(-MAX_DEGREE_NANO as int, z) <= -1);
        assert(col_index(lon, z) <= -1);
    }
}

} // verus!
