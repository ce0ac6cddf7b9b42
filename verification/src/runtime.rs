use vstd::prelude::*;

use crate::text::{i64_to_string, int_decimal, owned};

verus! {

/// The tag of an integer in compiled code's tagged values.
pub const TAG_INT: i8 = 0;

/// The tag of a boolean in compiled code's tagged values.
pub const TAG_BOOL: i8 = 1;

/// How compiled code's `print` shows a tagged value: an integer in decimal, a boolean as
/// `#t` (any payload but 0) or `#f`, anything else as `nil`.
pub open spec fn spec_tagged_text(tag: i8, payload: i64) -> Seq<char> {
    if tag == TAG_INT {
        int_decimal(payload as int)
    } else if tag == TAG_BOOL {
        if payload != 0 {
            "#t"@
        } else {
            "#f"@
        }
    } else {
        "nil"@
    }
}

/// The text that compiled code's `print` shows for a tagged value.
pub fn tagged_text(tag: i8, payload: i64) -> (r: String)
    ensures
        r@ == spec_tagged_text(tag, payload),
{
    if tag == TAG_INT {
        i64_to_string(payload)
    } else if tag == TAG_BOOL {
        if payload != 0 {
            owned("#t")
        } else {
            owned("#f")
        }
    } else {
        owned("nil")
    }
}

} // verus!
