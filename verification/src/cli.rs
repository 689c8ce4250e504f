//! Parsing the command line's byte-count arguments, such as the shake
//! threshold.

use vstd::prelude::*;

verus! {

/// Default shake threshold: one mebibyte.
pub const DEFAULT_SHAKE: u64 = 1048576;

/// A byte count given on the command line, parsed from forms such as `1MiB`.
#[derive(Debug, Clone, Copy, PartialEq, Eq, Structural)]
pub struct Byte(pub u64);

/// The byte count that a size string such as `600KiB` or `10MB` denotes, or
/// nothing when the string denotes no size.
pub uninterp spec fn byte_parse(s: Seq<char>) -> Option<u64>;

/// Relies on byte_unit's `Byte::parse_str` (case respected, as `FromStr`
/// uses it) and `Byte::as_u64`: together a pure function of the input
/// string.
#[verifier::external_body]
fn parse_byte_str(s: &str) -> (r: Result<u64, String>)
    ensures
        r is Ok <==> byte_parse(s@) is Some,
        r is Ok ==> byte_parse(s@) == Some(r->Ok_0),
{
    match byte_unit::Byte::parse_str(s, false) {
        Ok(b) => Ok(b.as_u64()),
        Err(e) => Err(format!("{:?}", e)),
    }
}

impl Byte {
    /// Parse a byte count such as `1MiB`; inputs that denote no size are
    /// rejected with a message describing the failure.
    pub fn parse(s: &str) -> (r: Result<Byte, String>)
        ensures
            r is Ok <==> byte_parse(s@) is Some,
            r is Ok ==> byte_parse(s@) == Some(r->Ok_0.0),
    {
        match parse_byte_str(s) {
            Ok(v) => Ok(Byte(v)),
            Err(e) => Err(e),
        }
    }
}

} // verus!
