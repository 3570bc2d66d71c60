//! Content identity: deterministic cryptographic hashing of coordinates into
//! a fixed-width identifier, and the immutable point (`Segment`) that pairs a
//! coordinate with its identity.

use vstd::prelude::*;
use vstd::bytes::{spec_u64_to_le_bytes, u64_to_le_bytes};
use crate::coords::SpaceCoordinates;

verus! {

/// The digest that the cryptographic hash assigns to a byte string.
/// Identical inputs always give identical digests; nothing else is assumed.
pub uninterp spec fn digest_of(bytes: Seq<u8>) -> Seq<u8>;

/// Relies on blake3::hash: a 32-byte digest that is a function of the input
/// bytes alone.
#[verifier::external_body]
pub(crate) fn blake3_digest(bytes: &Vec<u8>) -> (r: [u8; 32])
    ensures
        r@ == digest_of(bytes@),
{
    *blake3::hash(bytes.as_slice()).as_bytes()
}

/// One lowercase hexadecimal digit.
pub open spec fn hex_digit(n: int) -> char {
    seq!['0', '1', '2', '3', '4', '5', '6', '7', '8', '9', 'a', 'b', 'c', 'd', 'e', 'f'][n]
}

/// Lowercase hexadecimal rendering: two digits per byte, high nibble first.
pub open spec fn hex_of(bytes: Seq<u8>) -> Seq<char>
    decreases bytes.len(),
{
    if bytes.len() == 0 {
        Seq::empty()
    } else {
        seq![hex_digit(bytes[0] as int / 16), hex_digit(bytes[0] as int % 16)] + hex_of(
            bytes.drop_first(),
        )
    }
}

/// Relies on hex::encode: two lowercase hexadecimal digits per input byte,
/// high nibble first, in input order.
#[verifier::external_body]
pub(crate) fn hex_encode_bytes(bytes: &[u8]) -> (r: String)
    ensures
        r@ == hex_of(bytes@),
{
    hex::encode(bytes)
}

/// The canonical byte encoding of a coordinate: each component as eight
/// little-endian bytes of its two's-complement value, in axis order.
pub open spec fn coord_bytes(c: Seq<i64>) -> Seq<u8>
    decreases c.len(),
{
    if c.len() == 0 {
        Seq::empty()
    } else {
        spec_u64_to_le_bytes(c[0] as u64) + coord_bytes(c.drop_first())
    }
}

pub proof fn lemma_coord_bytes_push(c: Seq<i64>, x: i64)
    ensures
        coord_bytes(c.push(x)) == coord_bytes(c) + spec_u64_to_le_bytes(x as u64),
    decreases c.len(),
{
    assert(c.push(x)[0] == if c.len() == 0 { x } else { c[0] });
    if c.len() == 0 {
        assert(c.push(x).drop_first() =~= Seq::<i64>::empty());
        assert(coord_bytes(c.push(x).drop_first()) =~= Seq::<u8>::empty());
        assert(coord_bytes(c.push(x)) =~= coord_bytes(c) + spec_u64_to_le_bytes(x as u64));
    } else {
        assert(c.push(x).drop_first() =~= c.drop_first().push(x));
        lemma_coord_bytes_push(c.drop_first(), x);
        assert(coord_bytes(c.push(x)) =~= coord_bytes(c) + spec_u64_to_le_bytes(x as u64));
    }
}

/// Encode a coordinate into its canonical byte string.
pub fn encode_coordinates(coords: &SpaceCoordinates) -> (r: Vec<u8>)
    ensures
        r@ == coord_bytes(coords@),
{
    let mut out: Vec<u8> = Vec::new();
    let n = coords.raw.len();
    let mut i: usize = 0;
    proof {
        assert(coords@.take(0) =~= Seq::<i64>::empty());
    }
    while i < n
        invariant
            n == coords@.len(),
            i <= n,
            out@ == coord_bytes(coords@.take(i as int)),
        decreases n - i,
    {
        let mut chunk = u64_to_le_bytes(coords.raw[i] as u64);
        proof {
            lemma_coord_bytes_push(coords@.take(i as int), coords@[i as int]);
            assert(coords@.take(i as int).push(coords@[i as int]) =~= coords@.take(i + 1));
        }
        out.append(&mut chunk);
        i += 1;
    }
    proof {
        assert(coords@.take(n as int) =~= coords@);
    }
    out
}

/// Cryptographic identifier of a Segment, derived from its coordinates alone.
#[derive(Clone, Copy, Debug)]
pub struct SegmentId([u8; 32]);

impl View for SegmentId {
    type V = Seq<u8>;

    closed spec fn view(&self) -> Seq<u8> {
        self.0@
    }
}

impl PartialEq for SegmentId {
    fn eq(&self, other: &Self) -> (r: bool) {
        let mut i: usize = 0;
        while i < 32
            invariant
                i <= 32,
                self@.len() == 32,
                other@.len() == 32,
                forall|j: int| 0 <= j < i ==> self@[j] == other@[j],
            decreases 32 - i,
        {
            if self.0[i] != other.0[i] {
                proof {
                    assert(self@[i as int] != other@[i as int]);
                }
                return false;
            }
            i += 1;
        }
        proof {
            assert(self@ =~= other@);
        }
        true
    }
}

impl vstd::std_specs::cmp::PartialEqSpecImpl for SegmentId {
    open spec fn obeys_eq_spec() -> bool {
        true
    }

    open spec fn eq_spec(&self, other: &SegmentId) -> bool {
        self@ == other@
    }
}

impl SegmentId {
    pub(crate) fn from_array(bytes: [u8; 32]) -> (r: Self)
        ensures
            r@ == bytes@,
    {
        SegmentId(bytes)
    }

    /// The raw digest bytes.
    pub fn as_bytes(&self) -> (r: &[u8; 32])
        ensures
            r@ == self@,
    {
        &self.0
    }

    /// The digest as a lowercase hexadecimal string.
    pub fn to_hex(&self) -> (r: String)
        ensures
            r@ == hex_of(self@),
    {
        hex_encode_bytes(self.0.as_slice())
    }
}

/// The identity that the content-identity rule assigns to a coordinate.
pub open spec fn spec_segment_id(c: Seq<i64>) -> Seq<u8> {
    digest_of(coord_bytes(c))
}

/// Compute the identity of a coordinate: the digest of its canonical byte
/// encoding. Total and pure; identical coordinates always yield identical
/// identities.
pub fn segment_id_from_coords(coords: &SpaceCoordinates) -> (r: SegmentId)
    ensures
        r@ == spec_segment_id(coords@),
{
    let encoded = encode_coordinates(coords);
    SegmentId::from_array(blake3_digest(&encoded))
}

/// An immutable point in possibility space: a coordinate together with the
/// identity computed from it once, at construction.
#[derive(Clone, Debug)]
pub struct Segment {
    coords: SpaceCoordinates,
    id: SegmentId,
}

impl View for Segment {
    type V = Seq<i64>;

    closed spec fn view(&self) -> Seq<i64> {
        self.coords@
    }
}

impl Segment {
    /// The identity stored in this segment, as bytes.
    pub closed spec fn spec_id(&self) -> Seq<u8> {
        self.id@
    }

    /// A segment is well formed when its stored identity is the one its
    /// coordinates determine.
    pub open spec fn wf(&self) -> bool {
        self.spec_id() == spec_segment_id(self@)
    }

    /// Create a segment; its identity is derived from the coordinates.
    pub fn new(coords: SpaceCoordinates) -> (r: Self)
        ensures
            r@ == coords@,
            r.wf(),
    {
        let id = segment_id_from_coords(&coords);
        Self { coords, id }
    }

    /// An independent copy: cloning a segment preserves its identity.
    pub fn duplicate(&self) -> (r: Self)
        ensures
            r@ == self@,
            r.spec_id() == self.spec_id(),
            self.wf() ==> r.wf(),
    {
        Self { coords: self.coords.duplicate(), id: self.id }
    }

    /// The coordinates of this segment.
    pub fn coordinates(&self) -> (r: &SpaceCoordinates)
        ensures
            r@ == self@,
    {
        &self.coords
    }

    /// The cryptographic identity of this segment.
    pub fn id(&self) -> (r: &SegmentId)
        ensures
            r@ == self.spec_id(),
            self.wf() ==> r@ == spec_segment_id(self@),
    {
        &self.id
    }

    /// Create a segment in a one-dimensional space.
    pub fn from_value(value: i64) -> (r: Self)
        ensures
            r@ == seq![value],
            r.wf(),
    {
        let coords = SpaceCoordinates::new(vec![value]);
        proof {
            assert(coords@ =~= seq![value]);
        }
        Self::new(coords)
    }

    /// Create a segment from several components.
    pub fn from_values(values: Vec<i64>) -> (r: Self)
        ensures
            r@ == values@,
            r.wf(),
    {
        Self::new(SpaceCoordinates::new(values))
    }
}

} // verus!
