//! Predefined accent groupings for odd meters.

use vstd::prelude::*;
use crate::time::{AccentPattern, spec_level_of_value};

verus! {

/// The accent pattern a grouping's numeric values stand for.
pub open spec fn spec_grouping(values: Seq<u8>) -> Seq<crate::time::AccentLevel> {
    values.map_values(|v: u8| spec_level_of_value(v as int))
}

/// A 5-beat grouping of 3+2.
pub fn five_three_two() -> (r: AccentPattern)
    ensures
        r.accents@ == spec_grouping(seq![3u8, 1u8, 1u8, 2u8, 1u8]),
{
    let values: [u8; 5] = [3, 1, 1, 2, 1];
    let r = AccentPattern::from_values(values.as_slice());
    proof {
        assert(r.accents@ =~= spec_grouping(seq![3u8, 1u8, 1u8, 2u8, 1u8]));
    }
    r
}

/// A 5-beat grouping of 2+3.
pub fn five_two_three() -> (r: AccentPattern)
    ensures
        r.accents@ == spec_grouping(seq![3u8, 1u8, 2u8, 1u8, 1u8]),
{
    let values: [u8; 5] = [3, 1, 2, 1, 1];
    let r = AccentPattern::from_values(values.as_slice());
    proof {
        assert(r.accents@ =~= spec_grouping(seq![3u8, 1u8, 2u8, 1u8, 1u8]));
    }
    r
}

/// A 7-beat grouping of 3+2+2.
pub fn seven_three_two_two() -> (r: AccentPattern)
    ensures
        r.accents@ == spec_grouping(seq![3u8, 1u8, 1u8, 2u8, 1u8, 2u8, 1u8]),
{
    let values: [u8; 7] = [3, 1, 1, 2, 1, 2, 1];
    let r = AccentPattern::from_values(values.as_slice());
    proof {
        assert(r.accents@ =~= spec_grouping(seq![3u8, 1u8, 1u8, 2u8, 1u8, 2u8, 1u8]));
    }
    r
}

/// A 7-beat grouping of 2+2+3.
pub fn seven_two_two_three() -> (r: AccentPattern)
    ensures
        r.accents@ == spec_grouping(seq![3u8, 1u8, 2u8, 1u8, 2u8, 1u8, 1u8]),
{
    let values: [u8; 7] = [3, 1, 2, 1, 2, 1, 1];
    let r = AccentPattern::from_values(values.as_slice());
    proof {
        assert(r.accents@ =~= spec_grouping(seq![3u8, 1u8, 2u8, 1u8, 2u8, 1u8, 1u8]));
    }
    r
}

/// A 7-beat grouping of 2+3+2.
pub fn seven_two_three_two() -> (r: AccentPattern)
    ensures
        r.accents@ == spec_grouping(seq![3u8, 1u8, 2u8, 1u8, 1u8, 2u8, 1u8]),
{
    let values: [u8; 7] = [3, 1, 2, 1, 1, 2, 1];
    let r = AccentPattern::from_values(values.as_slice());
    proof {
        assert(r.accents@ =~= spec_grouping(seq![3u8, 1u8, 2u8, 1u8, 1u8, 2u8, 1u8]));
    }
    r
}

/// An 11-beat grouping of 3+3+3+2.
pub fn eleven_three_three_three_two() -> (r: AccentPattern)
    ensures
        r.accents@ == spec_grouping(
            seq![3u8, 1u8, 1u8, 2u8, 1u8, 1u8, 2u8, 1u8, 1u8, 2u8, 1u8],
        ),
{
    let values: [u8; 11] = [3, 1, 1, 2, 1, 1, 2, 1, 1, 2, 1];
    let r = AccentPattern::from_values(values.as_slice());
    proof {
        assert(r.accents@ =~= spec_grouping(
            seq![3u8, 1u8, 1u8, 2u8, 1u8, 1u8, 2u8, 1u8, 1u8, 2u8, 1u8],
        ));
    }
    r
}

/// An 11-beat grouping of 3+3+2+3.
pub fn eleven_three_three_two_three() -> (r: AccentPattern)
    ensures
        r.accents@ == spec_grouping(
            seq![3u8, 1u8, 1u8, 2u8, 1u8, 1u8, 2u8, 1u8, 2u8, 1u8, 1u8],
        ),
{
    let values: [u8; 11] = [3, 1, 1, 2, 1, 1, 2, 1, 2, 1, 1];
    let r = AccentPattern::from_values(values.as_slice());
    proof {
        assert(r.accents@ =~= spec_grouping(
            seq![3u8, 1u8, 1u8, 2u8, 1u8, 1u8, 2u8, 1u8, 2u8, 1u8, 1u8],
        ));
    }
    r
}

/// An 11-beat grouping of 3+2+3+3.
pub fn eleven_three_two_three_three() -> (r: AccentPattern)
    ensures
        r.accents@ == spec_grouping(
            seq![3u8, 1u8, 1u8, 2u8, 1u8, 2u8, 1u8, 1u8, 2u8, 1u8, 1u8],
        ),
{
    let values: [u8; 11] = [3, 1, 1, 2, 1, 2, 1, 1, 2, 1, 1];
    let r = AccentPattern::from_values(values.as_slice());
    proof {
        assert(r.accents@ =~= spec_grouping(
            seq![3u8, 1u8, 1u8, 2u8, 1u8, 2u8, 1u8, 1u8, 2u8, 1u8, 1u8],
        ));
    }
    r
}

/// An 11-beat grouping of 2+3+3+3.
pub fn eleven_two_three_three_three() -> (r: AccentPattern)
    ensures
        r.accents@ == spec_grouping(
            seq![3u8, 1u8, 2u8, 1u8, 1u8, 2u8, 1u8, 1u8, 2u8, 1u8, 1u8],
        ),
{
    let values: [u8; 11] = [3, 1, 2, 1, 1, 2, 1, 1, 2, 1, 1];
    let r = AccentPattern::from_values(values.as_slice());
    proof {
        assert(r.accents@ =~= spec_grouping(
            seq![3u8, 1u8, 2u8, 1u8, 1u8, 2u8, 1u8, 1u8, 2u8, 1u8, 1u8],
        ));
    }
    r
}

} // verus!
