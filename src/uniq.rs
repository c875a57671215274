use vstd::prelude::*;
use crate::decimal::{pad_left, signed_decimal, signed_padded};

verus! {

/// The prefix before a line in counting mode: the count right-aligned in
/// four columns and a space; without counting, nothing.
pub open spec fn count_prefix(flag: bool, count: int) -> Seq<char> {
    if flag {
        pad_left(signed_decimal(count), 4) + seq![' ']
    } else {
        Seq::empty()
    }
}

/// The text written before a repeated line's content.
pub fn get_count_string(flag: bool, count: i32) -> (r: String)
    ensures
        r@ == count_prefix(flag, count as int),
{
    if !flag {
        return String::new();
    }
    let mut text = signed_padded(count as i64, 4);
    text.append(" ");
    proof {
        reveal_strlit(" ");
        assert(text@ =~= count_prefix(flag, count as int));
    }
    text
}

} // verus!
