//! The error messages of the engine: spec-level text and verified builders.
//!
//! Every failure names its context: the root element at the first step, the
//! previous selector's display name afterwards.

use vstd::prelude::*;
use vstd::string::StringExecFns;

use crate::display::{dec_str, usize_to_string};

verus! {

/// "Index [i] is out of bound, <reference> has a length of <len>"
pub open spec fn index_oob_msg(idx: nat, reference: Seq<char>, len: nat) -> Seq<char> {
    "Index ["@ + dec_str(idx) + "] is out of bound, "@ + reference + " has a length of "@
        + dec_str(len)
}

/// "Range [s:e] is out of bound, <reference> has a length of <len>"
pub open spec fn range_oob_msg(start: nat, end: nat, reference: Seq<char>, len: nat) -> Seq<
    char,
> {
    "Range ["@ + dec_str(start) + ":"@ + dec_str(end) + "] is out of bound, "@ + reference
        + " has a length of "@ + dec_str(len)
}

/// "<reference> is not an array"
pub open spec fn not_array_msg(reference: Seq<char>) -> Seq<char> {
    reference + " is not an array"@
}

/// " property" or " properties", by count.
pub open spec fn property_word(count: nat) -> Seq<char> {
    if count == 1 {
        " property"@
    } else {
        " properties"@
    }
}

/// "Index [i] is out of bound, <reference> contains <count> property/properties"
pub open spec fn property_index_oob_msg(idx: nat, reference: Seq<char>, count: nat) -> Seq<
    char,
> {
    "Index ["@ + dec_str(idx) + "] is out of bound, "@ + reference + " contains "@ + dec_str(count)
        + property_word(count)
}

/// "Range [s:e] is out of bound, <reference> contains <count> property/properties"
pub open spec fn property_range_oob_msg(
    start: nat,
    end: nat,
    reference: Seq<char>,
    count: nat,
) -> Seq<char> {
    "Range ["@ + dec_str(start) + ":"@ + dec_str(end) + "] is out of bound, "@ + reference
        + " contains "@ + dec_str(count) + property_word(count)
}

/// "Node "k" not found on the parent element"
pub open spec fn key_not_found_root_msg(key: Seq<char>) -> Seq<char> {
    "Node \""@ + key + "\" not found on the parent element"@
}

/// "Node "k" not found on parent <previous selector>"
pub open spec fn key_not_found_msg(key: Seq<char>, previous_name: Seq<char>) -> Seq<char> {
    "Node \""@ + key + "\" not found on parent "@ + previous_name
}

/// Builds the out-of-bound index message for arrays.
pub fn index_oob_message(idx: usize, reference: &str, len: usize) -> (r: String)
    ensures
        r@ == index_oob_msg(idx as nat, reference@, len as nat),
{
    let mut r = String::from_str("Index [");
    let digits = usize_to_string(idx);
    r.append(digits.as_str());
    r.append("] is out of bound, ");
    r.append(reference);
    r.append(" has a length of ");
    let digits = usize_to_string(len);
    r.append(digits.as_str());
    proof {
        assert(r@ =~= index_oob_msg(idx as nat, reference@, len as nat));
    }
    r
}

/// Builds the out-of-bound range message for arrays.
pub fn range_oob_message(start: usize, end: usize, reference: &str, len: usize) -> (r: String)
    ensures
        r@ == range_oob_msg(start as nat, end as nat, reference@, len as nat),
{
    let mut r = String::from_str("Range [");
    let digits = usize_to_string(start);
    r.append(digits.as_str());
    r.append(":");
    let digits = usize_to_string(end);
    r.append(digits.as_str());
    r.append("] is out of bound, ");
    r.append(reference);
    r.append(" has a length of ");
    let digits = usize_to_string(len);
    r.append(digits.as_str());
    proof {
        assert(r@ =~= range_oob_msg(start as nat, end as nat, reference@, len as nat));
    }
    r
}

/// Builds the type-mismatch message.
pub fn not_array_message(reference: &str) -> (r: String)
    ensures
        r@ == not_array_msg(reference@),
{
    let mut r = String::from_str(reference);
    r.append(" is not an array");
    proof {
        assert(r@ =~= not_array_msg(reference@));
    }
    r
}

/// Builds the out-of-bound property-index message for object projections.
pub fn property_index_oob_message(idx: usize, reference: &str, count: usize) -> (r: String)
    ensures
        r@ == property_index_oob_msg(idx as nat, reference@, count as nat),
{
    let mut r = String::from_str("Index [");
    let digits = usize_to_string(idx);
    r.append(digits.as_str());
    r.append("] is out of bound, ");
    r.append(reference);
    r.append(" contains ");
    let digits = usize_to_string(count);
    r.append(digits.as_str());
    r.append(if count == 1 {
        " property"
    } else {
        " properties"
    });
    proof {
        assert(r@ =~= property_index_oob_msg(idx as nat, reference@, count as nat));
    }
    r
}

/// Builds the out-of-bound property-range message for object projections.
pub fn property_range_oob_message(start: usize, end: usize, reference: &str, count: usize) -> (r:
    String)
    ensures
        r@ == property_range_oob_msg(start as nat, end as nat, reference@, count as nat),
{
    let mut r = String::from_str("Range [");
    let digits = usize_to_string(start);
    r.append(digits.as_str());
    r.append(":");
    let digits = usize_to_string(end);
    r.append(digits.as_str());
    r.append("] is out of bound, ");
    r.append(reference);
    r.append(" contains ");
    let digits = usize_to_string(count);
    r.append(digits.as_str());
    r.append(if count == 1 {
        " property"
    } else {
        " properties"
    });
    proof {
        assert(r@ =~= property_range_oob_msg(start as nat, end as nat, reference@, count as nat));
    }
    r
}

/// Builds the missing-key message.
pub fn key_not_found_message(key: &str, previous_name: Option<&String>) -> (r: String)
    ensures
        r@ == match previous_name {
            Option::None => key_not_found_root_msg(key@),
            Option::Some(p) => key_not_found_msg(key@, p@),
        },
{
    let mut r = String::from_str("Node \"");
    r.append(key);
    match previous_name {
        Option::None => {
            r.append("\" not found on the parent element");
            proof {
                assert(r@ =~= key_not_found_root_msg(key@));
            }
        },
        Option::Some(p) => {
            r.append("\" not found on parent ");
            r.append(p.as_str());
            proof {
                assert(r@ =~= key_not_found_msg(key@, p@));
            }
        },
    }
    r
}

} // verus!
