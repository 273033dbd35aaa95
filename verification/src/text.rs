//! Diagnostic text for rejected writes: a verified decimal rendering of
//! coordinates and dimensions, and the exact out-of-bounds message that
//! [`crate::Grid::set`] returns.

use vstd::prelude::*;
use vstd::string::StringExecFns;

verus! {

/// The single decimal digit character for `d` (defined for `d < 10`).
pub open spec fn decimal_digit(d: nat) -> Seq<char> {
    if d == 0 {
        "0"@
    } else if d == 1 {
        "1"@
    } else if d == 2 {
        "2"@
    } else if d == 3 {
        "3"@
    } else if d == 4 {
        "4"@
    } else if d == 5 {
        "5"@
    } else if d == 6 {
        "6"@
    } else if d == 7 {
        "7"@
    } else if d == 8 {
        "8"@
    } else {
        "9"@
    }
}

/// The decimal rendering of `n`, most significant digit first, with no
/// leading zeros (except for `n == 0`, rendered as `"0"`).
pub open spec fn decimal(n: nat) -> Seq<char>
    decreases n,
{
    if n < 10 {
        decimal_digit(n)
    } else {
        decimal(n / 10) + decimal_digit(n % 10)
    }
}

/// The message carried by the error that a rejected write returns: it names
/// the requested coordinates and the grid's actual extent.
pub open spec fn out_of_bounds_text(x: u16, y: u16, w: u16, h: u16) -> Seq<char> {
    "Coordinates ("@ + decimal(x as nat) + ", "@ + decimal(y as nat)
        + ") out of bounds (grid is "@ + decimal(w as nat) + "x"@ + decimal(h as nat) + ")"@
}

/// The digit character for `d`, as a borrowed one-character string.
fn digit_str(d: u16) -> (s: &'static str)
    requires
        d < 10,
    ensures
        s@ == decimal_digit(d as nat),
{
    match d {
        0 => "0",
        1 => "1",
        2 => "2",
        3 => "3",
        4 => "4",
        5 => "5",
        6 => "6",
        7 => "7",
        8 => "8",
        _ => "9",
    }
}

/// Renders `n` in decimal, most significant digit first.
pub fn decimal_string(n: u16) -> (s: String)
    ensures
        s@ == decimal(n as nat),
    decreases n,
{
    if n < 10 {
        String::from_str(digit_str(n))
    } else {
        let mut s = decimal_string(n / 10);
        s.append(digit_str(n % 10));
        s
    }
}

/// Builds the out-of-bounds message for a write at `(x, y)` into a `w` by `h`
/// grid.
pub fn out_of_bounds_message(x: u16, y: u16, w: u16, h: u16) -> (s: String)
    ensures
        s@ == out_of_bounds_text(x, y, w, h),
{
    let mut s = String::from_str("Coordinates (");
    s.append(decimal_string(x).as_str());
    s.append(", ");
    s.append(decimal_string(y).as_str());
    s.append(") out of bounds (grid is ");
    s.append(decimal_string(w).as_str());
    s.append("x");
    s.append(decimal_string(h).as_str());
    s.append(")");
    proof {
        assert(s@ =~= out_of_bounds_text(x, y, w, h));
    }
    s
}

} // verus!
