//! The persistent metadata descriptor: a pretty-printed JSON document with
//! the format version and the cubic root bounding box, indented by four
//! spaces. The caller renders the six box coordinates and writes the
//! returned text to the metadata file.

use vstd::prelude::*;

verus! {

/// The metadata text: version first, then the root box, one field per line.
/// The version recorded is always `1`.
pub open spec fn spec_meta_json(
    min_x: Seq<char>,
    min_y: Seq<char>,
    min_z: Seq<char>,
    max_x: Seq<char>,
    max_y: Seq<char>,
    max_z: Seq<char>,
) -> Seq<char> {
    "{\n    \"version\": 1,\n    \"bounding_box\": {\n        \"min_x\": "@ + min_x
        + ",\n        \"min_y\": "@ + min_y + ",\n        \"min_z\": "@ + min_z
        + ",\n        \"max_x\": "@ + max_x + ",\n        \"max_y\": "@ + max_y
        + ",\n        \"max_z\": "@ + max_z + "\n    }\n}"@
}

/// Assembles the metadata document around the six rendered coordinates.
pub fn meta_json(
    min_x: &str,
    min_y: &str,
    min_z: &str,
    max_x: &str,
    max_y: &str,
    max_z: &str,
) -> (r: String)
    ensures
        r@ == spec_meta_json(min_x@, min_y@, min_z@, max_x@, max_y@, max_z@),
{
    let mut out = String::new();
    out.append("{\n    \"version\": 1,\n    \"bounding_box\": {\n        \"min_x\": ");
    out.append(min_x);
    out.append(",\n        \"min_y\": ");
    out.append(min_y);
    out.append(",\n        \"min_z\": ");
    out.append(min_z);
    out.append(",\n        \"max_x\": ");
    out.append(max_x);
    out.append(",\n        \"max_y\": ");
    out.append(max_y);
    out.append(",\n        \"max_z\": ");
    out.append(max_z);
    out.append("\n    }\n}");
    proof {
        assert(out@ =~= spec_meta_json(min_x@, min_y@, min_z@, max_x@, max_y@, max_z@));
    }
    out
}

} // verus!
