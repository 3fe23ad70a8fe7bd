//! Locations on the unit circle, held as fixed-point fractions of a turn.
use vstd::prelude::*;

verus! {

/// Number of distinct positions on the ring: position `p` stands for the
/// point `p / RING_POSITIONS` of the circle `[0, 1)`.
pub const RING_POSITIONS: u64 = 0x1_0000_0000;

/// Half a turn, the largest distance two locations can have.
pub const HALF_TURN: u32 = 0x8000_0000;

pub open spec fn ring_positions() -> int {
    0x1_0000_0000
}

/// Shorter arc between two positions, in positions.
pub open spec fn arc(a: int, b: int) -> int {
    let d = if a >= b { a - b } else { b - a };
    if d <= ring_positions() - d { d } else { ring_positions() - d }
}

/// A point of the ring.
#[derive(Clone, Copy, Debug, PartialEq, Eq, Structural, Hash)]
pub struct Location {
    pub pos: u32,
}

/// An arc length, in positions (a turn is `RING_POSITIONS` of them).
#[derive(Clone, Copy, Debug, PartialEq, Eq, Structural, Hash)]
pub struct Distance {
    pub units: u32,
}

impl Location {
    pub fn new(pos: u32) -> (r: Location)
        ensures
            r.pos == pos,
    {
        Location { pos }
    }

    /// Circular distance: the shorter of the two arcs between the points.
    pub fn distance(&self, other: &Location) -> (r: Distance)
        ensures
            r.units == arc(self.pos as int, other.pos as int),
            r.units <= HALF_TURN,
    {
        let d: u32 = if self.pos >= other.pos {
            self.pos - other.pos
        } else {
            other.pos - self.pos
        };
        let wrap: u64 = RING_POSITIONS - d as u64;
        if (d as u64) <= wrap {
            Distance { units: d }
        } else {
            Distance { units: wrap as u32 }
        }
    }
}

/// The distance is symmetric, zero from a point to itself, and never more
/// than half a turn; opposite points are half a turn apart, and the
/// shorter arc goes across the wrap at zero.
pub proof fn lemma_distance_metric(a: Location, b: Location)
    ensures
        arc(a.pos as int, b.pos as int) == arc(b.pos as int, a.pos as int),
        arc(a.pos as int, a.pos as int) == 0,
        0 <= arc(a.pos as int, b.pos as int) <= HALF_TURN,
        arc(0, HALF_TURN as int) == HALF_TURN,
        b.pos > HALF_TURN ==> arc(0, b.pos as int) == ring_positions() - b.pos,
{
}

/// Mantissa field of a binary64 value.
pub const MANTISSA_MASK: u64 = 0xF_FFFF_FFFF_FFFF;

/// Biased binary64 exponent of `2^-32`, the place of a position's lowest bit.
pub const EXP_BASE: u64 = 991;

/// The binary64 encoding of the fraction `pos / 2^32` whose leading one
/// sits at bit `p` of `pos`.
pub open spec fn f64_bits_with(pos: u64, p: u64) -> u64 {
    (((EXP_BASE + p) as u64) << 52u64) | ((pos << ((52u64 - p) as u64)) & MANTISSA_MASK)
}

/// Bit `p` is the highest one of `pos`.
pub open spec fn leading_bit(pos: u64, p: u64) -> bool {
    p <= 31 && (pos >> p) == 1u64
}

/// The position a binary64 value stands for, if it is a multiple of
/// `2^-32` in `[0, 1)`; anything else (negative, too large, NaN, or finer
/// than a position) has none.
pub open spec fn pos_of_f64_bits(bits: u64) -> Option<u64> {
    if bits == 0 {
        Some(0)
    } else {
        let e = bits >> 52u64;
        if e < EXP_BASE || e > EXP_BASE + 31 {
            None
        } else {
            let p = (e - EXP_BASE) as u64;
            let m = bits & MANTISSA_MASK;
            let shift = (52 - p) as u64;
            if m & (((1u64 << shift) - 1) as u64) != 0 {
                None
            } else {
                Some((m >> shift) | (1u64 << p))
            }
        }
    }
}

proof fn lemma_f64_bits_parts(pos: u64, p: u64)
    requires
        leading_bit(pos, p),
    ensures
        f64_bits_with(pos, p) >> 52u64 == EXP_BASE + p,
        f64_bits_with(pos, p) & MANTISSA_MASK == (pos << ((52u64 - p) as u64)) & MANTISSA_MASK,
        f64_bits_with(pos, p) != 0,
{
    let b = f64_bits_with(pos, p);
    assert(b >> 52u64 == 991u64 + p && b & 0xF_FFFF_FFFF_FFFFu64 == (pos << ((52u64 - p) as u64))
        & 0xF_FFFF_FFFF_FFFFu64 && b != 0) by (bit_vector)
        requires
            p <= 31 && (pos >> p) == 1u64 && b == (((991u64 + p) as u64) << 52u64) | ((pos << ((
            52u64 - p) as u64)) & 0xF_FFFF_FFFF_FFFFu64),
    ;
}

proof fn lemma_mantissa_round_trip(pos: u64, p: u64)
    requires
        leading_bit(pos, p),
    ensures
        ((pos << ((52u64 - p) as u64)) & MANTISSA_MASK) & (((1u64 << ((52 - p) as u64)) - 1) as u64) == 0,
        (((pos << ((52u64 - p) as u64)) & MANTISSA_MASK) >> ((52 - p) as u64)) | (1u64 << p) == pos,
{
    let s: u64 = (52 - p) as u64;
    assert(((pos << s) & 0xF_FFFF_FFFF_FFFFu64) & (((1u64 << s) - 1) as u64) == 0 && (((pos << s)
        & 0xF_FFFF_FFFF_FFFFu64) >> s) | (1u64 << p) == pos) by (bit_vector)
        requires
            p <= 31 && (pos >> p) == 1u64 && s == 52u64 - p,
    ;
}

/// Reading back the binary64 form of a position gives the position.
pub proof fn lemma_f64_round_trip(pos: u64, p: u64)
    requires
        leading_bit(pos, p),
    ensures
        pos_of_f64_bits(f64_bits_with(pos, p)) == Some(pos),
{
    lemma_f64_bits_parts(pos, p);
    lemma_mantissa_round_trip(pos, p);
}

/// The binary64 bits of the fraction `pos / 2^32`.
pub open spec fn f64_bits_of(pos: u32) -> u64 {
    if pos == 0 {
        0
    } else {
        f64_bits_with(pos as u64, choose|p: u64| #[trigger] leading_bit(pos as u64, p))
    }
}

proof fn lemma_leading_bit_unique(pos: u64, p: u64, q: u64)
    requires
        leading_bit(pos, p),
        leading_bit(pos, q),
    ensures
        p == q,
{
    assert(p == q) by (bit_vector)
        requires
            p <= 31 && (pos >> p) == 1u64 && q <= 31 && (pos >> q) == 1u64,
    ;
}

/// Every position has exactly the binary64 form `f64_bits_of`, and reading
/// it back gives the position.
pub proof fn lemma_f64_bits_of_round_trip(pos: u32)
    ensures
        pos_of_f64_bits(f64_bits_of(pos)) == Some(pos as u64),
{
    if pos != 0 {
        let x = pos as u64;
        let p = lemma_leading_bit_exists(x);
        let q = choose|q: u64| #[trigger] leading_bit(x, q);
        lemma_leading_bit_unique(x, p, q);
        lemma_f64_round_trip(x, p);
    }
}

proof fn lemma_leading_bit_exists(x: u64) -> (p: u64)
    requires
        1 <= x < 0x1_0000_0000,
    ensures
        leading_bit(x, p),
{
    lemma_leading_bit_below(x, 31)
}

proof fn lemma_leading_bit_below(x: u64, p: u64) -> (r: u64)
    requires
        1 <= x < 0x1_0000_0000,
        p <= 31,
        forall|q: u64| p < q <= 31 ==> (x >> q) == 0,
    ensures
        leading_bit(x, r),
    decreases p,
{
    if (x >> p) != 0 {
        if p < 31 {
            assert((x >> ((p + 1) as u64)) == 0);
        }
        assert(((x >> p) != 0 && (p == 31 || (x >> ((p + 1) as u64)) == 0) && x < 0x1_0000_0000
            && p <= 31) ==> (x >> p) == 1u64) by (bit_vector);
        p
    } else {
        assert(p > 0) by {
            if p == 0 {
                assert((x >> 0u64) == x) by (bit_vector);
            }
        }
        lemma_leading_bit_below(x, (p - 1) as u64)
    }
}

impl Location {
    /// The binary64 value `pos / 2^32`, as its bits.
    pub fn to_f64_bits(&self) -> (r: u64)
        ensures
            r == f64_bits_of(self.pos),
            pos_of_f64_bits(r) == Some(self.pos as u64),
    {
        proof {
            lemma_f64_bits_of_round_trip(self.pos);
        }
        let pos = self.pos as u64;
        if pos == 0 {
            return 0;
        }
        let mut p: u64 = 31;
        while (pos >> p) == 0
            invariant
                1 <= pos < 0x1_0000_0000,
                p <= 31,
                forall|q: u64| p < q <= 31 ==> (pos >> q) == 0,
            decreases p,
        {
            assert(p > 0) by {
                if p == 0 {
                    assert((pos >> 0u64) == pos) by (bit_vector);
                }
            }
            p = p - 1;
        }
        assert(leading_bit(pos, p)) by {
            if p < 31 {
                assert((pos >> ((p + 1) as u64)) == 0);
            }
            assert(((pos >> p) != 0 && (p == 31 || (pos >> ((p + 1) as u64)) == 0) && pos
                < 0x1_0000_0000 && p <= 31) ==> (pos >> p) == 1u64) by (bit_vector);
        }
        proof {
            lemma_f64_round_trip(pos, p);
            let q = choose|q: u64| #[trigger] leading_bit(pos, q);
            lemma_leading_bit_unique(pos, p, q);
        }
        ((EXP_BASE + p) << 52u64) | ((pos << (52u64 - p)) & MANTISSA_MASK)
    }

    /// The location a binary64 value (as bits) stands for, if any.
    pub fn from_f64_bits(bits: u64) -> (r: Option<Location>)
        ensures
            match pos_of_f64_bits(bits) {
                Some(v) => v < 0x1_0000_0000 ==> r == Some(Location { pos: v as u32 }),
                None => r is None,
            },
            r matches Some(l) ==> pos_of_f64_bits(bits) == Some(l.pos as u64),
    {
        if bits == 0 {
            return Some(Location { pos: 0 });
        }
        let e = bits >> 52u64;
        if e < EXP_BASE || e > EXP_BASE + 31 {
            return None;
        }
        let p = e - EXP_BASE;
        let m = bits & MANTISSA_MASK;
        let shift = 52 - p;
        assert((1u64 << shift) >= 1) by (bit_vector)
            requires
                shift <= 52,
        ;
        if m & ((1u64 << shift) - 1) != 0 {
            return None;
        }
        let v = (m >> shift) | (1u64 << p);
        if v >= 0x1_0000_0000 {
            return None;
        }
        Some(Location { pos: v as u32 })
    }
}

} // verus!
