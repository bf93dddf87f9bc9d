//! Decimal and hexadecimal rendering of integers.

use vstd::prelude::*;
use vstd::string::*;

verus! {

/// The character of a digit below 16 (lower-case letters above 9).
pub open spec fn digit_char(d: nat) -> char {
    if d < 10 {
        ((48 + d) as u32) as char
    } else {
        ((97 + d - 10) as u32) as char
    }
}

/// The digits of `n` in base `b`, most significant first, without leading
/// zeros ("0" for zero).
pub open spec fn digits(n: nat, b: nat) -> Seq<char>
    recommends
        2 <= b <= 16,
    decreases n,
    when b >= 2
{
    if n < b {
        seq![digit_char(n)]
    } else {
        proof {
            vstd::arithmetic::div_mod::lemma_div_is_strictly_smaller(n as int, b as int);
        }
        digits(n / b, b).push(digit_char(n % b))
    }
}

/// The one-character string of a digit below 16.
fn digit_str(d: u64) -> (r: &'static str)
    requires
        d < 16,
    ensures
        r@ == seq![digit_char(d as nat)],
{
    proof {
        reveal_strlit("0");
        reveal_strlit("1");
        reveal_strlit("2");
        reveal_strlit("3");
        reveal_strlit("4");
        reveal_strlit("5");
        reveal_strlit("6");
        reveal_strlit("7");
        reveal_strlit("8");
        reveal_strlit("9");
        reveal_strlit("a");
        reveal_strlit("b");
        reveal_strlit("c");
        reveal_strlit("d");
        reveal_strlit("e");
        reveal_strlit("f");
    }
    let r = match d {
        0 => "0",
        1 => "1",
        2 => "2",
        3 => "3",
        4 => "4",
        5 => "5",
        6 => "6",
        7 => "7",
        8 => "8",
        9 => "9",
        10 => "a",
        11 => "b",
        12 => "c",
        13 => "d",
        14 => "e",
        _ => "f",
    };
    proof {
        assert(r@ =~= seq![digit_char(d as nat)]);
    }
    r
}

/// `n` in base `base` (2 to 16), lower-case, without leading zeros.
fn digits_string(n: u64, base: u64) -> (r: String)
    requires
        2 <= base <= 16,
    ensures
        r@ == digits(n as nat, base as nat),
    decreases n,
{
    if n < base {
        digit_str(n).to_owned()
    } else {
        proof {
            vstd::arithmetic::div_mod::lemma_div_is_strictly_smaller(n as int, base as int);
        }
        let mut s = digits_string(n / base, base);
        s.append(digit_str(n % base));
        s
    }
}

/// `n` in lower-case hexadecimal, as `format!("{:x}", n)` writes it.
pub fn to_hex(n: u64) -> (r: String)
    ensures
        r@ == digits(n as nat, 16),
{
    digits_string(n, 16)
}

/// `n` in decimal, as `format!("{}", n)` writes it.
pub fn to_decimal(n: usize) -> (r: String)
    ensures
        r@ == digits(n as nat, 10),
{
    digits_string(n as u64, 10)
}

} // verus!
