use vstd::prelude::*;

use crate::fetch::version_text;
use crate::repo::FormulaStable;
use crate::text::{concat, decimal_u64, nat_decimal};

verus! {

/// The indentation in front of each package's progress line.
pub fn common_bar_prefix() -> (r: String)
    ensures
        r@ == seq![' ', ' '],
{
    proof {
        reveal_strlit("  ");
    }
    "  ".to_owned()
}

/// The label of a package's progress line: indentation, name and version.
pub fn progress_prefix(f: &FormulaStable) -> (r: String)
    ensures
        r@ == seq![' ', ' '] + f.name@ + seq![' '] + version_text(*f),
{
    proof {
        reveal_strlit(" ");
    }
    let indent = common_bar_prefix();
    let v = f.version_fmt();
    let a = concat(indent.as_str(), f.name.as_str());
    let b = concat(a.as_str(), " ");
    concat(b.as_str(), v.as_str())
}

/// The heading of the confirmation list.
pub fn install_prefix(n: u64) -> (r: String)
    ensures
        r@ == " -> will install "@ + nat_decimal(n as nat) + " pkgs: "@,
{
    let a = decimal_u64(n);
    let b = concat(" -> will install ", a.as_str());
    concat(b.as_str(), " pkgs: ")
}

/// How the confirmation list is laid out on a terminal `width` columns wide,
/// after a heading of `prefix_len` columns: the indentation of the lines after
/// the first, the width to wrap at, and whether the list starts on a new line.
pub open spec fn layout(width: int, prefix_len: int) -> (int, int, bool) {
    let wrap = width - prefix_len - 2;
    if 0 < wrap && wrap < 20 {
        (4, width - 6, true)
    } else if wrap <= 0 {
        (0, width, true)
    } else {
        (prefix_len, wrap, false)
    }
}

/// Computes `layout` for the confirmation list.
pub fn install_layout(width: i64, prefix_len: i64) -> (r: (i64, i64, bool))
    requires
        0 <= width <= 0x1_0000_0000,
        0 <= prefix_len <= 0x1_0000_0000,
    ensures
        (r.0 as int, r.1 as int, r.2) == layout(width as int, prefix_len as int),
{
    let wrap = width - prefix_len - 2;
    if 0 < wrap && wrap < 20 {
        (4, width - 6, true)
    } else if wrap <= 0 {
        (0, width, true)
    } else {
        (prefix_len, wrap, false)
    }
}

} // verus!
