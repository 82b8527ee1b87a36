//! The toolchains rustup lists.

use vstd::prelude::*;
use crate::text::{occurs_in, contains_text};

verus! {

/// A toolchain, and whether it is the default one.
pub struct Toolchain {
    pub name: String,
    pub default: bool,
}

/// Reads the lines of `rustup toolchain list`: one toolchain per line, the
/// default one marked "(default)".
pub fn parse_toolchains(lines: Vec<String>) -> (r: Vec<Toolchain>)
    ensures
        r@.len() == lines@.len(),
        forall|i: int| 0 <= i < r@.len() ==> (#[trigger] r@[i]).name@ == lines@[i]@
            && r@[i].default == occurs_in("(default)"@, lines@[i]@),
{
    let mut r: Vec<Toolchain> = Vec::new();
    let mut i: usize = 0;
    while i < lines.len()
        invariant
            i <= lines@.len(),
            r@.len() == i,
            forall|k: int| 0 <= k < i ==> (#[trigger] r@[k]).name@ == lines@[k]@
                && r@[k].default == occurs_in("(default)"@, lines@[k]@),
        decreases lines@.len() - i,
    {
        let default = contains_text(lines[i].as_str(), "(default)");
        r.push(Toolchain { name: lines[i].clone(), default });
        i = i + 1;
    }
    r
}

} // verus!
