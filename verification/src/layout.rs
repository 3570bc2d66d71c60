//! Memory layout: a pure mapping from coordinates to logical addresses,
//! independent of any physical resource. A layout that is undefined for a
//! coordinate (wrong dimensionality, negative components, an address that
//! does not fit the machine word) yields no address rather than a wrong one.

use vstd::prelude::*;

verus! {

/// The closed set of layout rules. Each is a named strategy, so layouts
/// stay comparable and hashable.
#[derive(Clone, Copy, Debug, PartialEq, Eq, Structural)]
pub enum MemoryLayout {
    /// The sum of the components.
    Linear,
    /// Row by row: `row * width + column`.
    RowMajor,
    /// Column by column: `column * height + row`.
    ColumnMajor,
    /// Morton order: component bits interleaved.
    ZOrderCurve,
    /// A locality-preserving curve over the first two components.
    HilbertCurve,
}

impl MemoryLayout {
    /// The discriminant under which the layout enters a content identity.
    pub open spec fn spec_discriminant(&self) -> u8 {
        match self {
            MemoryLayout::Linear => 0u8,
            MemoryLayout::RowMajor => 1u8,
            MemoryLayout::ColumnMajor => 2u8,
            MemoryLayout::ZOrderCurve => 3u8,
            MemoryLayout::HilbertCurve => 4u8,
        }
    }

    /// The discriminant byte of this layout.
    pub fn discriminant(&self) -> (r: u8)
        ensures
            r == self.spec_discriminant(),
    {
        match self {
            MemoryLayout::Linear => 0u8,
            MemoryLayout::RowMajor => 1u8,
            MemoryLayout::ColumnMajor => 2u8,
            MemoryLayout::ZOrderCurve => 3u8,
            MemoryLayout::HilbertCurve => 4u8,
        }
    }
}

impl Default for MemoryLayout {
    /// The default layout is linear.
    fn default() -> (r: Self)
        ensures
            r == MemoryLayout::Linear,
    {
        MemoryLayout::Linear
    }
}

/// Descriptive classification of layout families.
#[derive(Clone, Debug)]
pub enum LayoutType {
    Linear,
    RowMajor,
    ColumnMajor,
    SpaceFillingCurve(CurveType),
    Hierarchical,
    GraphBased,
    /// A named strategy defined by the caller.
    Custom(String),
}

/// Space-filling curve families.
#[derive(Clone, Copy, Debug, PartialEq, Eq, Structural)]
pub enum CurveType {
    ZOrder,
    Hilbert,
    Gray,
    Peano,
    CustomOrder,
}

/// A logical address: an address space and an offset within it, independent
/// of any physical placement.
#[derive(Clone, Debug)]
pub struct LogicalAddress {
    pub space_id: u64,
    pub offset: u64,
    pub metadata: Vec<(String, String)>,
}

/// The sum of the components of a coordinate, when they are all
/// nonnegative; the layout is undefined otherwise.
pub open spec fn linear_address(c: Seq<i64>) -> Option<int>
    decreases c.len(),
{
    if c.len() == 0 {
        Some(0)
    } else {
        match linear_address(c.drop_last()) {
            None => None,
            Some(partial) => if c.last() >= 0 {
                Some(partial + c.last())
            } else {
                None
            },
        }
    }
}

/// Compute the linear address: the sum of the components. `None` when a
/// component is negative or the sum does not fit the machine word.
pub fn compute_linear_address(c: &Vec<i64>) -> (r: Option<usize>)
    ensures
        r is Some ==> linear_address(c@) == Some(r->Some_0 as int),
        r is None ==> linear_address(c@) is None || (linear_address(c@) matches Some(a) && a
            > usize::MAX),
{
    let n = c.len();
    let mut sum: u64 = 0;
    let mut i: usize = 0;
    proof {
        assert(linear_address(c@.take(0)) == Some(0int));
    }
    while i < n
        invariant
            n == c@.len(),
            i <= n,
            linear_address(c@.take(i as int)) == Some(sum as int),
        decreases n - i,
    {
        let v = c[i];
        proof {
            assert(c@.take(i + 1).drop_last() =~= c@.take(i as int));
            assert(c@.take(i + 1).last() == c@[i as int]);
        }
        if v < 0 {
            proof {
                lemma_linear_prefix_none(c@, i + 1);
            }
            return None;
        }
        let step = v as u64;
        if sum > u64::MAX - step {
            proof {
                lemma_linear_prefix_grows(c@, i + 1);
                assert(linear_address(c@.take(i + 1))->Some_0 > usize::MAX);
            }
            return None;
        }
        sum = sum + step;
        i += 1;
    }
    proof {
        assert(c@.take(n as int) =~= c@);
    }
    if sum > usize::MAX as u64 {
        None
    } else {
        Some(sum as usize)
    }
}

/// Once the linear address is undefined on a prefix, it is undefined on the
/// whole coordinate.
proof fn lemma_linear_prefix_none(c: Seq<i64>, i: int)
    requires
        0 <= i <= c.len(),
        linear_address(c.take(i)) is None,
    ensures
        linear_address(c) is None,
    decreases c.len() - i,
{
    if i == c.len() {
        assert(c.take(i) =~= c);
    } else {
        assert(c.take(i + 1).drop_last() =~= c.take(i));
        lemma_linear_prefix_none(c, i + 1);
    }
}

/// The linear address of a longer prefix is at least that of a shorter one.
proof fn lemma_linear_prefix_grows(c: Seq<i64>, i: int)
    requires
        0 <= i <= c.len(),
        linear_address(c.take(i)) is Some,
    ensures
        linear_address(c) is None || linear_address(c)->Some_0 >= linear_address(
            c.take(i),
        )->Some_0,
    decreases c.len() - i,
{
    if i == c.len() {
        assert(c.take(i) =~= c);
    } else {
        assert(c.take(i + 1).drop_last() =~= c.take(i));
        if linear_address(c.take(i + 1)) is Some {
            lemma_linear_prefix_grows(c, i + 1);
        } else {
            lemma_linear_prefix_none(c, i + 1);
        }
    }
}

/// The number of binary digits of a value: zero for zero, and one more for
/// each halving otherwise.
pub open spec fn bit_len(m: nat) -> nat
    decreases m,
{
    if m == 0 {
        0
    } else {
        1 + bit_len(m / 2)
    }
}

/// Compute the number of binary digits of a value.
pub fn compute_bit_len(m: u64) -> (r: u64)
    ensures
        r == bit_len(m as nat),
        r <= 64,
    decreases m,
{
    proof {
        vstd::arithmetic::power2::lemma2_to64();
        vstd::arithmetic::power2::lemma2_to64_rest();
        assert((m as nat) < vstd::arithmetic::power2::pow2(64));
        lemma_bit_len_bound(m as nat, 64);
    }
    if m == 0 {
        0
    } else {
        1 + compute_bit_len(m / 2)
    }
}

/// A value below two to the `b` has at most `b` binary digits.
proof fn lemma_bit_len_bound(m: nat, b: nat)
    requires
        m < vstd::arithmetic::power2::pow2(b),
    ensures
        bit_len(m) <= b,
    decreases m,
{
    if m > 0 {
        vstd::arithmetic::power2::lemma2_to64();
        assert(b > 0) by {
            if b == 0 {
                assert(vstd::arithmetic::power2::pow2(0) == 1);
            }
        }
        assert(vstd::arithmetic::power2::pow2((b - 1) as nat) == vstd::arithmetic::power2::pow2(
            b,
        ) / 2) by {
            vstd::arithmetic::power2::lemma_pow2_unfold(b);
        }
        assert(m / 2 < vstd::arithmetic::power2::pow2(b) / 2) by {
            assert(vstd::arithmetic::power2::pow2(b) % 2 == 0) by {
                vstd::arithmetic::power2::lemma_pow2_unfold(b);
            }
        }
        lemma_bit_len_bound(m / 2, (b - 1) as nat);
    }
}

/// The magnitude of a component, as the bits the interleaving reads.
pub open spec fn component_magnitude(v: i64) -> u64 {
    if v == i64::MIN {
        9223372036854775808u64
    } else if v < 0 {
        (-v) as u64
    } else {
        v as u64
    }
}

/// The largest component magnitude of a coordinate.
pub open spec fn max_magnitude(c: Seq<i64>) -> u64
    decreases c.len(),
{
    if c.len() == 0 {
        0u64
    } else {
        let rest = max_magnitude(c.drop_last());
        if component_magnitude(c.last()) > rest {
            component_magnitude(c.last())
        } else {
            rest
        }
    }
}

/// Compute the largest component magnitude.
pub fn compute_max_magnitude(c: &Vec<i64>) -> (r: u64)
    ensures
        r == max_magnitude(c@),
{
    let n = c.len();
    let mut best: u64 = 0;
    let mut i: usize = 0;
    proof {
        assert(max_magnitude(c@.take(0)) == 0u64);
    }
    while i < n
        invariant
            n == c@.len(),
            i <= n,
            best == max_magnitude(c@.take(i as int)),
        decreases n - i,
    {
        let v = c[i];
        let mag: u64 = if v == i64::MIN {
            9223372036854775808u64
        } else if v < 0 {
            (-v) as u64
        } else {
            v as u64
        };
        proof {
            assert(c@.take(i + 1).drop_last() =~= c@.take(i as int));
            assert(c@.take(i + 1).last() == c@[i as int]);
            assert(mag == component_magnitude(c@[i as int]));
        }
        if mag > best {
            best = mag;
        }
        i += 1;
    }
    proof {
        assert(c@.take(n as int) =~= c@);
    }
    best
}

/// One bit of a component's two's-complement representation.
pub open spec fn coord_bit(v: i64, bit: nat) -> u64 {
    ((v as u64) >> (bit as u64)) & 1
}

/// The bits of one interleaving round: for each dimension, its bit at
/// position `bit`, placed at `dim * bits + bit`.
pub open spec fn z_round(c: Seq<i64>, bits: nat, bit: nat, dims: nat) -> u64
    decreases dims,
{
    if dims == 0 {
        0u64
    } else {
        z_round(c, bits, bit, (dims - 1) as nat) | (
        (coord_bit(c[dims - 1], bit) & 1) << (((dims - 1) * bits + bit) as u64))
    }
}

/// The Morton interleaving of the first `bit` rounds.
pub open spec fn z_value(c: Seq<i64>, bits: nat, bit: nat) -> u64
    decreases bit,
{
    if bit == 0 {
        0u64
    } else {
        z_value(c, bits, (bit - 1) as nat) | z_round(c, bits, (bit - 1) as nat, c.len())
    }
}

/// The Morton (Z-order) address of a coordinate: one bit of each component
/// in turn, low bits first, using one more binary digit than the largest
/// component magnitude needs. Defined when all the interleaved bit
/// positions fit one machine word.
pub open spec fn z_order_spec(c: Seq<i64>) -> u64 {
    z_value(c, bit_len(max_magnitude(c) as nat) + 1, bit_len(max_magnitude(c) as nat) + 1)
}

/// Compute the Morton (Z-order) address of a coordinate.
pub fn z_order_encode(c: &Vec<i64>) -> (r: u64)
    requires
        c@.len() * (bit_len(max_magnitude(c@) as nat) + 1) <= 64,
    ensures
        r == z_order_spec(c@),
{
    let max_coord = compute_max_magnitude(c);
    let bits_needed = compute_bit_len(max_coord) + 1;
    let dims = c.len();
    let mut result: u64 = 0;
    let mut bit: u64 = 0;
    proof {
        assert(forall|x: u64| #[trigger] (x | 0u64) == x) by (bit_vector);
    }
    while bit < bits_needed
        invariant
            bits_needed == bit_len(max_magnitude(c@) as nat) + 1,
            dims == c@.len(),
            dims * bits_needed <= 64,
            bit <= bits_needed,
            result == z_value(c@, bits_needed as nat, bit as nat),
        decreases bits_needed - bit,
    {
        let mut dim: usize = 0;
        proof {
            assert(z_round(c@, bits_needed as nat, bit as nat, 0) == 0u64);
            assert(result | 0u64 == result) by (bit_vector);
        }
        while dim < dims
            invariant
                bits_needed == bit_len(max_magnitude(c@) as nat) + 1,
                dims == c@.len(),
                dims * bits_needed <= 64,
                bit < bits_needed,
                dim <= dims,
                result == z_value(c@, bits_needed as nat, bit as nat) | z_round(
                    c@,
                    bits_needed as nat,
                    bit as nat,
                    dim as nat,
                ),
            decreases dims - dim,
        {
            proof {
                assert((dim as u64) * (bits_needed as u64) + bit < 64 && bit < 64)
                    by (nonlinear_arith)
                    requires
                        dims * bits_needed <= 64,
                        dim < dims,
                        bit < bits_needed,
                        dims == c@.len(),
                ;
            }
            let v = c[dim];
            let bit_val: u64 = ((v as u64) >> bit) & 1;
            let shift: u64 = (dim as u64) * bits_needed + bit;
            let ghost a = z_value(c@, bits_needed as nat, bit as nat);
            let ghost b = z_round(c@, bits_needed as nat, bit as nat, dim as nat);
            let ghost piece = (bit_val & 1) << shift;
            result = result | ((bit_val & 1) << shift);
            proof {
                assert(bit_val == coord_bit(c@[dim as int], bit as nat));
                assert(z_round(c@, bits_needed as nat, bit as nat, (dim + 1) as nat) == b | piece);
                assert((a | b) | piece == a | (b | piece)) by (bit_vector);
                assert(result == a | z_round(c@, bits_needed as nat, bit as nat, (dim + 1) as nat));
            }
            dim += 1;
        }
        proof {
            assert(result == z_value(c@, bits_needed as nat, (bit + 1) as nat));
        }
        bit += 1;
    }
    result
}

/// The interleaving of the low sixteen bits of two components: the bits of
/// the first at even positions, of the second at odd ones.
pub open spec fn pair_interleave(x: u64, y: u64, rounds: nat) -> u32
    decreases rounds,
{
    if rounds == 0 {
        0u32
    } else {
        let i = (rounds - 1) as nat;
        pair_interleave(x, y, i) | ((((x >> (i as u64)) & 1) as u32) << ((2 * i) as u32)) | ((((y
            >> (i as u64)) & 1) as u32) << ((2 * i + 1) as u32))
    }
}

/// The curve address of a coordinate: the interleaving of the low sixteen
/// bits of its first two components, and zero for coordinates with fewer
/// than two axes.
pub open spec fn hilbert_spec(c: Seq<i64>) -> u32 {
    if c.len() >= 2 {
        pair_interleave(c[0] as u64, c[1] as u64, 16)
    } else {
        0u32
    }
}

/// Compute the curve address over the first two components.
pub fn hilbert_encode(c: &Vec<i64>) -> (r: u32)
    ensures
        r == hilbert_spec(c@),
{
    if c.len() < 2 {
        return 0;
    }
    let x = c[0] as u64;
    let y = c[1] as u64;
    let mut result: u32 = 0;
    let mut i: u64 = 0;
    while i < 16
        invariant
            x == c@[0] as u64,
            y == c@[1] as u64,
            i <= 16,
            result == pair_interleave(x, y, i as nat),
        decreases 16 - i,
    {
        let xb: u32 = ((x >> i) & 1) as u32;
        let yb: u32 = ((y >> i) & 1) as u32;
        let si: u32 = (2 * i) as u32;
        result = result | (xb << si) | (yb << (si + 1));
        i += 1;
    }
    result
}

} // verus!
