//! Paths as text.
//!
//! The library computes where things live and leaves it to its caller to
//! touch the file system. Paths are strings with `/` between components.

use vstd::prelude::*;
use crate::text::{push_char, to_chars};

verus! {

/// The path `base` extended by `part`. An absolute `part` stands for itself;
/// otherwise it follows `base`, with a `/` between the two unless `base` is
/// empty or ends in one.
pub open spec fn joined(base: Seq<char>, part: Seq<char>) -> Seq<char> {
    if part.len() > 0 && part[0] == '/' {
        part
    } else if base.len() == 0 || base.last() == '/' {
        base + part
    } else {
        base + seq!['/'] + part
    }
}

/// The path `base` extended by `part`.
pub fn join_path(base: &str, part: &str) -> (out: String)
    ensures
        out@ == joined(base@, part@),
{
    let p = to_chars(part);
    if p.len() > 0 && p[0] == '/' {
        return String::from_str(part);
    }
    let b = to_chars(base);
    let mut out = String::from_str(base);
    if b.len() > 0 && b[b.len() - 1] != '/' {
        push_char(&mut out, '/');
    }
    out.append(part);
    out
}

} // verus!
