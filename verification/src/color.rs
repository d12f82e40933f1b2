use vstd::prelude::*;

verus! {

/// Largest magnitude a stored component may have: one thousand units in
/// thousandths, far beyond the range a perceptually uniform space uses.
pub const COMPONENT_LIMIT: i32 = 1_000_000;

/// A color in a perceptually uniform space: lightness and two chroma axes.
/// Each component is held in fixed point, in thousandths of a unit.
#[derive(Clone, Copy, Debug, PartialEq, Eq, Structural)]
pub struct Color {
    pub l: i32,
    pub a: i32,
    pub b: i32,
}

impl Color {
    /// Well-formedness: every component stays within the fixed-point range.
    pub open spec fn valid(self) -> bool {
        &&& -COMPONENT_LIMIT <= self.l <= COMPONENT_LIMIT
        &&& -COMPONENT_LIMIT <= self.a <= COMPONENT_LIMIT
        &&& -COMPONENT_LIMIT <= self.b <= COMPONENT_LIMIT
    }

    /// The only constructor: accepts exactly the components in range.
    pub fn new(l: i32, a: i32, b: i32) -> (r: Option<Color>)
        ensures
            r is Some <==> (Color { l, a, b }).valid(),
            r is Some ==> r->Some_0 == (Color { l, a, b }),
    {
        if -COMPONENT_LIMIT <= l && l <= COMPONENT_LIMIT && -COMPONENT_LIMIT <= a && a
            <= COMPONENT_LIMIT && -COMPONENT_LIMIT <= b && b <= COMPONENT_LIMIT {
            Some(Color { l, a, b })
        } else {
            None
        }
    }
}

pub open spec fn square(x: int) -> int {
    x * x
}

/// The squared Euclidean distance between two colors, component-wise.
pub open spec fn dist_sq(a: Color, b: Color) -> int {
    square(a.l - b.l) + square(a.a - b.a) + square(a.b - b.b)
}

/// `r` is the integer square root (rounded down) of `n`.
pub open spec fn is_sqrt_floor(n: int, r: int) -> bool {
    &&& 0 <= r
    &&& r * r <= n
    &&& n < (r + 1) * (r + 1)
}

/// The perceptual distance between two colors: the Euclidean distance over
/// the three components, rounded down to an integer (in thousandths).
pub closed spec fn spec_lab_distance(a: Color, b: Color) -> int {
    choose|r: int| is_sqrt_floor(dist_sq(a, b), r)
}

proof fn lemma_square_nonneg(x: int)
    ensures
        square(x) >= 0,
{
    assert(x * x >= 0) by (nonlinear_arith);
}

pub proof fn lemma_dist_sq_nonneg(a: Color, b: Color)
    ensures
        dist_sq(a, b) >= 0,
{
    lemma_square_nonneg(a.l - b.l);
    lemma_square_nonneg(a.a - b.a);
    lemma_square_nonneg(a.b - b.b);
}

proof fn lemma_sqrt_floor_exists(n: int) -> (r: int)
    requires
        n >= 0,
    ensures
        is_sqrt_floor(n, r),
    decreases n,
{
    if n == 0 {
        assert(is_sqrt_floor(0, 0)) by (nonlinear_arith);
        0
    } else {
        let p = lemma_sqrt_floor_exists(n - 1);
        if (p + 1) * (p + 1) <= n {
            assert(is_sqrt_floor(n, p + 1)) by (nonlinear_arith)
                requires
                    n - 1 < (p + 1) * (p + 1),
                    (p + 1) * (p + 1) <= n,
                    0 <= p,
            ;
            p + 1
        } else {
            assert(is_sqrt_floor(n, p)) by (nonlinear_arith)
                requires
                    p * p <= n - 1,
                    n < (p + 1) * (p + 1),
                    0 <= p,
            ;
            p
        }
    }
}

proof fn lemma_sqrt_floor_unique(n: int, r1: int, r2: int)
    requires
        is_sqrt_floor(n, r1),
        is_sqrt_floor(n, r2),
    ensures
        r1 == r2,
{
    assert(r1 == r2) by (nonlinear_arith)
        requires
            0 <= r1,
            0 <= r2,
            r1 * r1 <= n,
            n < (r1 + 1) * (r1 + 1),
            r2 * r2 <= n,
            n < (r2 + 1) * (r2 + 1),
    ;
}

/// The distance satisfies the square-root bounds around the squared distance.
pub proof fn lemma_lab_distance_is_sqrt(a: Color, b: Color)
    ensures
        is_sqrt_floor(dist_sq(a, b), spec_lab_distance(a, b)),
{
    lemma_dist_sq_nonneg(a, b);
    let w = lemma_sqrt_floor_exists(dist_sq(a, b));
    assert(is_sqrt_floor(dist_sq(a, b), w));
}

/// Law: the distance between two colors is never negative.
pub proof fn lemma_lab_distance_nonneg(a: Color, b: Color)
    ensures
        spec_lab_distance(a, b) >= 0,
{
    lemma_lab_distance_is_sqrt(a, b);
}

/// Law: the distance from a color to itself is zero.
pub proof fn lemma_lab_distance_self_zero(a: Color)
    ensures
        spec_lab_distance(a, a) == 0,
{
    lemma_lab_distance_is_sqrt(a, a);
    let r = spec_lab_distance(a, a);
    assert(dist_sq(a, a) == 0) by (nonlinear_arith);
    assert(r == 0) by (nonlinear_arith)
        requires
            0 <= r,
            r * r <= 0,
    ;
}

/// Law: the distance is symmetric in its two arguments.
pub proof fn lemma_lab_distance_symmetric(a: Color, b: Color)
    ensures
        spec_lab_distance(a, b) == spec_lab_distance(b, a),
{
    assert(dist_sq(a, b) == dist_sq(b, a)) by (nonlinear_arith);
}

/// Binary search for the integer square root.
fn isqrt(n: u64) -> (r: u64)
    requires
        n < 0x4000_0000_0000_0000,
    ensures
        is_sqrt_floor(n as int, r as int),
{
    if n == 0 {
        return 0;
    }
    let mut lo: u64 = 0;
    let mut hi: u64 = 0x8000_0000;
    assert(hi * hi > n) by (nonlinear_arith)
        requires
            n < 0x4000_0000_0000_0000,
            hi == 0x8000_0000,
    ;
    while lo + 1 < hi
        invariant
            lo < hi <= 0x8000_0000,
            lo * lo <= n,
            n < hi * hi,
        decreases hi - lo,
    {
        let mid = lo + (hi - lo) / 2;
        assert(mid * mid < 0x8000_0000 * 0x8000_0000) by (nonlinear_arith)
            requires
                0 <= mid < 0x8000_0000,
        ;
        if mid * mid <= n {
            lo = mid;
        } else {
            hi = mid;
        }
    }
    lo
}

/// The perceptual distance between two colors, rounded down, in thousandths
/// of a unit. Non-negative by type; zero on equal colors; symmetric.
pub fn lab_distance(a: &Color, b: &Color) -> (r: u32)
    requires
        a.valid(),
        b.valid(),
    ensures
        r as int == spec_lab_distance(*a, *b),
        *a == *b ==> r == 0,
{
    let dl = (a.l as i64) - (b.l as i64);
    let da = (a.a as i64) - (b.a as i64);
    let db = (a.b as i64) - (b.b as i64);
    assert(dl * dl <= 4_000_000_000_000 && da * da <= 4_000_000_000_000 && db * db
        <= 4_000_000_000_000 && dl * dl >= 0 && da * da >= 0 && db * db >= 0)
        by (nonlinear_arith)
        requires
            -2_000_000 <= dl <= 2_000_000,
            -2_000_000 <= da <= 2_000_000,
            -2_000_000 <= db <= 2_000_000,
    ;
    let sum: u64 = ((dl * dl) as u64) + ((da * da) as u64) + ((db * db) as u64);
    assert(sum as int == dist_sq(*a, *b));
    let root = isqrt(sum);
    assert(root <= 4_000_000) by (nonlinear_arith)
        requires
            root * root <= sum,
            sum <= 12_000_000_000_000,
            root >= 0,
    ;
    proof {
        lemma_lab_distance_is_sqrt(*a, *b);
        lemma_sqrt_floor_unique(dist_sq(*a, *b), spec_lab_distance(*a, *b), root as int);
        if *a == *b {
            lemma_lab_distance_self_zero(*a);
        }
    }
    root as u32
}

} // verus!
