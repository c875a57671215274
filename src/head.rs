use vstd::prelude::*;
use crate::decimal::{decimal_value, parse_decimal};

verus! {

/// The value of a count argument: a positive number that fits in an `i32`.
pub open spec fn positive_value(s: Seq<char>) -> Option<int> {
    match decimal_value(s) {
        Some(v) => if 0 < v <= i32::MAX {
            Some(v)
        } else {
            None
        },
        None => None,
    }
}

/// Reads a positive count; the error holds the text that was refused.
pub fn parse_positive_int(to_parse: &str) -> (r: Result<i32, String>)
    ensures
        r is Ok <==> positive_value(to_parse@) is Some,
        r matches Ok(v) ==> positive_value(to_parse@) == Some(v as int),
        r matches Err(e) ==> e@ == to_parse@,
{
    match parse_decimal(to_parse, 2147483647u64) {
        Some(v) => if v > 0 {
            Ok(v as i32)
        } else {
            Err(String::from_str(to_parse))
        },
        None => Err(String::from_str(to_parse)),
    }
}

} // verus!
