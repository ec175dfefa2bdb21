//! What the operations are for, said of their inputs and results alone.
//!
//! Each law here names the fields, the kinds and the texts that it speaks of, rather than the tables
//! by which the library looks them up.

pub mod acl;
pub mod behavioral;
pub mod chains;
pub mod collected;
pub mod declared;
pub mod findings;
pub mod meaning;
pub mod raw;
pub mod reach;
pub mod rules;
pub mod shown;
pub mod states;
pub mod values;

use vstd::prelude::*;

use crate::json::{Json, Numeral};

verus! {

/// `value` has a list under `key`, and `text` is in it.
pub open spec fn lists(value: Json, key: Seq<char>, text: Seq<char>) -> bool {
    value.get(key) matches Some(Json::Array(items)) && items.contains(Json::Text(text))
}

/// `value` has the text `text` under `key`.
pub open spec fn says(value: Json, key: Seq<char>, text: Seq<char>) -> bool {
    value.get(key) == Some(Json::Text(text))
}

/// `value` has the number `n` under `key`, or, for `0`, no 64-bit integer at all.
pub open spec fn counts(value: Json, key: Seq<char>, n: int) -> bool {
    match value.get(key) {
        Some(Json::Number(Numeral::Int(held))) => if i64::MIN <= held <= i64::MAX {
            n == held
        } else {
            n == 0
        },
        _ => n == 0,
    }
}

} // verus!
