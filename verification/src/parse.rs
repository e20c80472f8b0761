//! Reading a bounding box out of its `"N,E,S,W"` textual form.

use vstd::prelude::*;

verus! {

use vstd::string::StrSliceExecFns;
use vstd::string::StringExecFns;
use crate::errors::ExtractError;
use crate::mapper::BoundingBox;
use crate::numtext::{next_comma, num_valid, num_value_nano, find_comma, parse_field};

/// The text is exactly four comma-separated valid decimal fields.
pub open spec fn bbox_valid(s: Seq<char>) -> bool {
    let p1 = next_comma(s, 0);
    let p2 = next_comma(s, p1 + 1);
    let p3 = next_comma(s, p2 + 1);
    &&& p3 < s.len()
    &&& next_comma(s, p3 + 1) == s.len()
    &&& num_valid(s.subrange(0, p1))
    &&& num_valid(s.subrange(p1 + 1, p2))
    &&& num_valid(s.subrange(p2 + 1, p3))
    &&& num_valid(s.subrange(p3 + 1, s.len() as int))
}

/// The four field values in order: north, east, south, west.
pub open spec fn bbox_values(s: Seq<char>) -> (int, int, int, int) {
    let p1 = next_comma(s, 0);
    let p2 = next_comma(s, p1 + 1);
    let p3 = next_comma(s, p2 + 1);
    (
        num_value_nano(s.subrange(0, p1)),
        num_value_nano(s.subrange(p1 + 1, p2)),
        num_value_nano(s.subrange(p2 + 1, p3)),
        num_value_nano(s.subrange(p3 + 1, s.len() as int)),
    )
}

impl BoundingBox {
    /// Parse a bounding box given as `"N,E,S,W"`: four comma-separated
    /// decimal degree values, scientific notation accepted and whitespace
    /// around each value tolerated.  Succeeds exactly on well-formed input
    /// and otherwise reports [`ExtractError::InvalidBoundingBox`] naming
    /// the failing part; no range check is made beyond saturating each
    /// value to `[-400, 400]` degrees.
    pub fn parse(bbox_str: &str) -> (r: Result<BoundingBox, ExtractError>)
        ensures
            r is Ok <==> bbox_valid(bbox_str@),
            r matches Ok(bb) ==> ({
                let (n, e, s, w) = bbox_values(bbox_str@);
                bb.north_nano == n && bb.east_nano == e && bb.south_nano == s && bb.west_nano == w
                    && bb.wf()
            }),
            r matches Err(e) ==> e matches ExtractError::InvalidBoundingBox(_),
    {
        let len = bbox_str.unicode_len();
        let p1 = find_comma(bbox_str, 0, len);
        if p1 >= len {
            return Err(ExtractError::InvalidBoundingBox(String::from_str("must have 4 values: N,E,S,W")));
        }
        let p2 = find_comma(bbox_str, p1 + 1, len);
        if p2 >= len {
            return Err(ExtractError::InvalidBoundingBox(String::from_str("must have 4 values: N,E,S,W")));
        }
        let p3 = find_comma(bbox_str, p2 + 1, len);
        if p3 >= len {
            return Err(ExtractError::InvalidBoundingBox(String::from_str("must have 4 values: N,E,S,W")));
        }
        let p4 = find_comma(bbox_str, p3 + 1, len);
        if p4 < len {
            return Err(ExtractError::InvalidBoundingBox(String::from_str("must have 4 values: N,E,S,W")));
        }
        let north = match parse_field(bbox_str, 0, p1) {
            Some(v) => v,
            None => {
                return Err(ExtractError::InvalidBoundingBox(String::from_str("invalid north value")));
            },
        };
        let east = match parse_field(bbox_str, p1 + 1, p2) {
            Some(v) => v,
            None => {
                return Err(ExtractError::InvalidBoundingBox(String::from_str("invalid east value")));
            },
        };
        let south = match parse_field(bbox_str, p2 + 1, p3) {
            Some(v) => v,
            None => {
                return Err(ExtractError::InvalidBoundingBox(String::from_str("invalid south value")));
            },
        };
        let west = match parse_field(bbox_str, p3 + 1, len) {
            Some(v) => v,
            None => {
                return Err(ExtractError::InvalidBoundingBox(String::from_str("invalid west value")));
            },
        };
        Ok(
            BoundingBox {
                north_nano: north,
                east_nano: east,
                south_nano: south,
                west_nano: west,
            },
        )
    }
}

} // verus!
