//! The binary container format for structural specifications: a four-byte
//! magic value and a one-byte version, followed by the structure sections.
//! A conformant reader rejects unknown magic bytes and unsupported versions
//! before any scheme is constructed; a malformed header never yields a
//! partially built scheme.

use vstd::prelude::*;
use crate::identity::{spec_segment_id, Segment};
use crate::scheme::{segment_id_views, Axis, AxisType, Scheme, SchemeBuilder};
use crate::text::dec_digits;

verus! {

/// The magic bytes that open the container: ".ss" and a zero byte.
pub open spec fn spec_magic() -> Seq<u8> {
    seq![0x2eu8, 0x73u8, 0x73u8, 0x00u8]
}

/// The one format version this reader accepts.
pub const FORMAT_VERSION: u8 = 1;

/// Why parsing failed.
#[derive(Clone, Debug)]
pub enum ParseError {
    /// The input does not hold a full header.
    Truncated,
    /// The magic bytes are not the format's.
    InvalidMagic,
    /// The version is one this reader does not support.
    UnsupportedVersion(u8),
}

impl ParseError {
    /// A human-readable account of the failure.
    pub open spec fn spec_description(&self) -> Seq<char> {
        match self {
            ParseError::Truncated => "truncated header"@,
            ParseError::InvalidMagic => "invalid magic number"@,
            ParseError::UnsupportedVersion(v) => "unsupported version: "@ + dec_digits(*v as nat),
        }
    }

    /// Describe the failure.
    pub fn describe(&self) -> (r: String)
        ensures
            r@ == self.spec_description(),
    {
        match self {
            ParseError::Truncated => String::from_str("truncated header"),
            ParseError::InvalidMagic => String::from_str("invalid magic number"),
            ParseError::UnsupportedVersion(v) => {
                let mut s = String::from_str("unsupported version: ");
                s.append(crate::text::u64_to_string(*v as u64).as_str());
                s
            },
        }
    }
}

/// Whether a byte string opens with a well-formed header: the magic bytes
/// and the supported version.
pub open spec fn header_ok(input: Seq<u8>) -> bool {
    input.len() >= 5 && input.subrange(0, 4) == spec_magic() && input[4] == FORMAT_VERSION
}

/// Parse a binary container: validate the header, then build the scheme the
/// body describes. Succeeds exactly on inputs with a well-formed header;
/// each failure names its cause: a short input, wrong magic bytes, or an
/// unsupported version. The section decoding is not populated yet, so a
/// well-formed container yields the placeholder scheme of one discrete axis
/// and one origin segment.
pub fn parse(input: &[u8]) -> (r: Result<Scheme, ParseError>)
    ensures
        r is Ok <==> header_ok(input@),
        r is Ok ==> {
            &&& (r->Ok_0).spec_axes().len() == 1
            &&& (r->Ok_0).spec_axes()[0].name@ == "x"@
            &&& segment_id_views((r->Ok_0).spec_segments()).contains(
                spec_segment_id(seq![0i64]),
            )
            &&& (r->Ok_0).wf()
        },
        r is Err ==> (match r->Err_0 {
            ParseError::Truncated => input@.len() < 5,
            ParseError::InvalidMagic => input@.len() >= 5 && input@.subrange(0, 4)
                != spec_magic(),
            ParseError::UnsupportedVersion(v) => input@.len() >= 5 && input@.subrange(0, 4)
                == spec_magic() && v == input@[4] && v != FORMAT_VERSION,
        }),
{
    if input.len() < 5 {
        return Err(ParseError::Truncated);
    }
    let magic_ok = input[0] == 0x2e && input[1] == 0x73 && input[2] == 0x73 && input[3] == 0x00;
    proof {
        if magic_ok {
            assert(input@.subrange(0, 4) =~= spec_magic());
        } else {
            assert(input@.subrange(0, 4) != spec_magic()) by {
                if input@.subrange(0, 4) == spec_magic() {
                    assert(input@[0] == 0x2eu8 && input@[1] == 0x73u8 && input@[2] == 0x73u8
                        && input@[3] == 0x00u8) by {
                        assert(input@.subrange(0, 4)[0] == input@[0]);
                        assert(input@.subrange(0, 4)[1] == input@[1]);
                        assert(input@.subrange(0, 4)[2] == input@[2]);
                        assert(input@.subrange(0, 4)[3] == input@[3]);
                    }
                }
            }
        }
    }
    if !magic_ok {
        return Err(ParseError::InvalidMagic);
    }
    let version = input[4];
    if version != FORMAT_VERSION {
        return Err(ParseError::UnsupportedVersion(version));
    }
    let origin = Segment::from_value(0);
    let ghost origin_id = origin.spec_id();
    let builder = SchemeBuilder::new().add_axis(
        Axis { name: String::from_str("x"), axis_type: AxisType::Discrete, range: None },
    ).add_segment(origin);
    proof {
        assert(segment_id_views(builder.spec_segments()).contains(spec_segment_id(seq![0i64])))
            by {
            assert(builder.spec_segments().len() == 1);
            assert(segment_id_views(builder.spec_segments())[0] == origin_id);
        }
    }
    Ok(builder.build())
}

} // verus!
