//! The text of the persistent log: entry lines and rotated file names.

use vstd::prelude::*;
use crate::text::{decimal, push_char, push_decimal, push_str};

verus! {

/// `<timestamp> <level>: <message>` and a newline.
pub open spec fn log_entry(timestamp: nat, level: Seq<char>, message: Seq<char>) -> Seq<char> {
    decimal(timestamp) + seq![' '] + level + ": "@ + message + seq!['\n']
}

/// One line of the log file.
pub fn format_log_entry(timestamp: u64, level: &str, message: &str) -> (r: String)
    ensures
        r@ == log_entry(timestamp as nat, level@, message@),
{
    let mut s = String::new();
    push_decimal(&mut s, timestamp);
    push_char(&mut s, ' ');
    push_str(&mut s, level);
    push_str(&mut s, ": ");
    push_str(&mut s, message);
    push_char(&mut s, '\n');
    proof {
        reveal_strlit("");
    }
    assert(s@ =~= log_entry(timestamp as nat, level@, message@));
    s
}

/// The name a log file is moved to when rotated at `timestamp`.
pub fn rotated_log_path(log_path: &str, timestamp: u64) -> (r: String)
    ensures
        r@ == log_path@ + seq!['.'] + decimal(timestamp as nat),
{
    let mut s = log_path.to_owned();
    push_char(&mut s, '.');
    push_decimal(&mut s, timestamp);
    s
}

} // verus!
