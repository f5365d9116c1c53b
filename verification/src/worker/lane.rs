//! Worklane lanes: the validated names that jobs are enqueued under.

use vstd::prelude::*;
use vstd::utf8::encode_utf8;

verus! {

/// A worklane lane: a name that passed worklane's validation.
#[verifier::external_type_specification]
#[verifier::external_body]
pub struct ExLane(worklane_core::Lane);

/// Why worklane refused a lane name.
#[verifier::external_type_specification]
#[verifier::external_body]
pub struct ExLaneError(worklane_core::LaneError);

/// The lane with the given name.
pub uninterp spec fn lane_named(name: Seq<char>) -> worklane_core::Lane;

/// Whether a character is a control character, as `char::is_control` has it: the
/// Unicode category `Cc`.
pub open spec fn is_control(c: char) -> bool {
    c as u32 <= 0x1f || 0x7f <= c as u32 <= 0x9f
}

/// Whether a character is white space, as `char::is_whitespace` has it: the Unicode
/// property `White_Space`.
pub open spec fn is_white_space(c: char) -> bool {
    let code = c as u32;
    ||| 0x09 <= code <= 0x0d
    ||| code == 0x20
    ||| code == 0x85
    ||| code == 0xa0
    ||| code == 0x1680
    ||| 0x2000 <= code <= 0x200a
    ||| code == 0x2028
    ||| code == 0x2029
    ||| code == 0x202f
    ||| code == 0x205f
    ||| code == 0x3000
}

/// Whether a name is that of a lane: not empty, at most 256 bytes long, without
/// control characters, and with no white space at its ends.
pub open spec fn is_lane_name(name: Seq<char>) -> bool {
    &&& 0 < name.len()
    &&& encode_utf8(name).len() <= 256
    &&& forall|i: int| 0 <= i < name.len() ==> !is_control(#[trigger] name[i])
    &&& !is_white_space(name.first())
    &&& !is_white_space(name.last())
}

/// `Lane::from_str`: it accepts exactly the names of [`is_lane_name`], and the lane
/// depends on the name alone.
#[verifier::external_body]
pub(crate) fn parse_lane(name: &str) -> (r: Result<worklane_core::Lane, worklane_core::LaneError>)
    ensures
        match r {
            Ok(lane) => is_lane_name(name@) && lane == lane_named(name@),
            Err(_) => !is_lane_name(name@),
        },
{
    name.parse::<worklane_core::Lane>()
}

} // verus!
