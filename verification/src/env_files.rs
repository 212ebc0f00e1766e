//! `.env` files: which files count, where they are searched for, and
//! which of them are exposed.

use vstd::prelude::*;
use vstd::string::StringExecFns;
use crate::text::{chars_of, ends_with, has_suffix};
use crate::project::{is_exposed, readable_by_others};

verus! {

/// A file name that marks a `.env` file: `.env` itself or any name ending
/// in `.env`.
pub fn is_env_file_name(name: &str) -> (r: bool)
    ensures
        r == ends_with(name@, ".env"@),
{
    let suffix = chars_of(".env");
    has_suffix(&chars_of(name), &suffix)
}

/// The directory searched for `.env` files: one project's directory, or
/// all of `/var/www`.
pub fn env_search_root(domain: Option<&str>) -> (root: String)
    ensures
        root@ == (match domain {
            Some(d) => "/var/www/"@ + d@,
            None => "/var/www"@,
        }),
{
    match domain {
        Some(d) => String::from_str("/var/www/").concat(d),
        None => String::from_str("/var/www"),
    }
}

/// How many of the permission modes `modes` let group or others read.
pub open spec fn exposed_count(modes: Seq<u32>) -> nat
    decreases modes.len(),
{
    if modes.len() == 0 {
        0
    } else {
        exposed_count(modes.drop_last()) + (if readable_by_others(modes.last()) { 1nat } else { 0nat })
    }
}

/// The number of `.env` files, by their permission modes, that group or
/// others can read: those that `env secure` fixes; the rest are already
/// fine.
pub fn count_exposed(modes: &Vec<u32>) -> (n: usize)
    ensures
        n == exposed_count(modes@),
        n <= modes@.len(),
{
    let mut n: usize = 0;
    let mut i: usize = 0;
    while i < modes.len()
        invariant
            i <= modes@.len(),
            n == exposed_count(modes@.take(i as int)),
            n <= i,
        decreases modes@.len() - i,
    {
        assert(modes@.take(i + 1).drop_last() =~= modes@.take(i as int));
        if is_exposed(modes[i]) {
            n += 1;
        }
        i += 1;
    }
    assert(modes@.take(modes@.len() as int) =~= modes@);
    n
}

} // verus!
