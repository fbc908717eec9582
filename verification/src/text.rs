//! Building log message strings in verified code: decimal rendering and
//! concatenation, with the exact character sequences stated.

use vstd::prelude::*;
use vstd::string::StringExecFns;

verus! {

/// The digit character for a value below ten.
pub open spec fn dec_digit(d: int) -> char {
    if d == 0 {
        '0'
    } else if d == 1 {
        '1'
    } else if d == 2 {
        '2'
    } else if d == 3 {
        '3'
    } else if d == 4 {
        '4'
    } else if d == 5 {
        '5'
    } else if d == 6 {
        '6'
    } else if d == 7 {
        '7'
    } else if d == 8 {
        '8'
    } else {
        '9'
    }
}

/// The decimal rendering of a nonnegative value.
pub open spec fn dec_str(n: int) -> Seq<char>
    decreases n,
{
    if n < 10 {
        seq![dec_digit(n)]
    } else {
        dec_str(n / 10).push(dec_digit(n % 10))
    }
}

/// One decimal digit as a string slice.
fn digit_str(d: u32) -> (r: &'static str)
    requires
        d < 10,
    ensures
        r@ == seq![dec_digit(d as int)],
{
    proof {
        reveal_strlit("0");
        reveal_strlit("1");
        reveal_strlit("2");
        reveal_strlit("3");
        reveal_strlit("4");
        reveal_strlit("5");
        reveal_strlit("6");
        reveal_strlit("7");
        reveal_strlit("8");
        reveal_strlit("9");
    }
    match d {
        0 => "0",
        1 => "1",
        2 => "2",
        3 => "3",
        4 => "4",
        5 => "5",
        6 => "6",
        7 => "7",
        8 => "8",
        _ => "9",
    }
}

/// Render a nonnegative value in decimal.
pub fn u32_to_string(n: u32) -> (r: String)
    ensures
        r@ == dec_str(n as int),
    decreases n,
{
    if n < 10 {
        String::from_str(digit_str(n))
    } else {
        let mut s = u32_to_string(n / 10);
        s.append(digit_str(n % 10));
        proof {
            assert(s@ == dec_str(n as int / 10).push(dec_digit(n as int % 10)));
        }
        s
    }
}

/// Render a signed value in decimal, with a leading minus where needed.
pub fn i32_to_string(n: i32) -> (r: String)
    ensures
        n >= 0 ==> r@ == dec_str(n as int),
        n < 0 ==> r@ == seq!['-'] + dec_str(-(n as int)),
{
    if n >= 0 {
        u32_to_string(n as u32)
    } else {
        let mag: u32 = #[verifier::truncate] ((-(n as i64)) as u32);
        proof {
            assert(mag as int == -(n as int));
        }
        let mut s = String::from_str("-");
        let num = u32_to_string(mag);
        s.append(num.as_str());
        proof {
            reveal_strlit("-");
            assert(("-")@ =~= seq!['-']);
        }
        s
    }
}

/// `a + mid + b`, for gluing two names around a fixed phrase.
pub fn join3(a: &str, mid: &str, b: &str) -> (r: String)
    ensures
        r@ == a@ + mid@ + b@,
{
    let mut s = String::from_str(a);
    s.append(mid);
    s.append(b);
    s
}

} // verus!
