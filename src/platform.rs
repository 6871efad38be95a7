//! Host platforms and the path spelling each one uses.
use vstd::prelude::*;
use crate::text::{chars_of, push_char};

verus! {

broadcast use vstd::string::group_string_axioms;

/// The operating systems the tool runs on.
#[derive(Debug, Clone, Copy, PartialEq, Eq, Structural)]
pub enum Platform {
    Windows,
    MacOs,
    Linux,
}

/// The processor architectures the package index is asked about.
#[derive(Debug, Clone, Copy, PartialEq, Eq, Structural)]
pub enum Arch {
    X64,
    Aarch64,
}

/// The separator a platform writes between path components.
pub open spec fn separator(p: Platform) -> char {
    if p is Windows {
        '\\'
    } else {
        '/'
    }
}

/// Whether `c` ends a path component on platform `p`.
pub open spec fn is_separator(c: char, p: Platform) -> bool {
    c == '/' || (p is Windows && c == '\\')
}

/// `part` appended to `base` as a new path component.
pub open spec fn joined(base: Seq<char>, part: Seq<char>, p: Platform) -> Seq<char> {
    if base.len() == 0 || is_separator(base.last(), p) {
        base + part
    } else {
        base.push(separator(p)) + part
    }
}

/// `part` appended to `base` as a new path component.
pub fn join_path(base: &str, part: &str, p: Platform) -> (r: String)
    ensures
        r@ == joined(base@, part@, p),
{
    let b = chars_of(base);
    let mut out = base.to_owned();
    let n = b.len();
    if !(n == 0 || b[n - 1] == '/' || (p == Platform::Windows && b[n - 1] == '\\')) {
        let sep = if p == Platform::Windows {
            '\\'
        } else {
            '/'
        };
        push_char(&mut out, sep);
    }
    out.append(part);
    out
}

} // verus!
