use vstd::prelude::*;

verus! {

/// Appends one character to a string: `String::push`. The contract claims what std
/// documents of it: the string afterwards is the old one followed by `c`.
#[verifier::external_body]
pub(crate) fn push_char(s: &mut String, c: char)
    ensures final(s)@ == old(s)@.push(c),
{
    s.push(c);
}

/// Appends a string slice: the string afterwards is the old one followed by `t`.
pub(crate) fn push_str(s: &mut String, t: &str)
    ensures final(s)@ == old(s)@ + t@,
{
    s.append(t);
}

/// The character of a decimal digit.
pub open spec fn digit_char(d: int) -> char {
    ('0' as int + d) as char
}

/// The decimal digits of a natural number, most significant first, without leading zeros
/// (a single `0` for zero).
pub open spec fn nat_digits(n: nat) -> Seq<char>
    decreases n,
{
    if n < 10 {
        seq![digit_char(n as int)]
    } else {
        nat_digits(n / 10).push(digit_char((n % 10) as int))
    }
}

/// The decimal notation of an integer, with a leading `-` when it is negative.
pub open spec fn int_decimal(n: int) -> Seq<char> {
    if n < 0 {
        seq!['-'] + nat_digits((-n) as nat)
    } else {
        nat_digits(n as nat)
    }
}

/// Integer division rounding toward zero, as Rust's `/` does.
pub open spec fn trunc_div(a: int, b: int) -> int {
    if a >= 0 {
        a / b
    } else {
        -((-a) / b)
    }
}

fn digit(d: u64) -> (c: char)
    requires d < 10,
    ensures c == digit_char(d as int),
{
    match d {
        0 => '0',
        1 => '1',
        2 => '2',
        3 => '3',
        4 => '4',
        5 => '5',
        6 => '6',
        7 => '7',
        8 => '8',
        _ => '9',
    }
}

/// Appends the decimal digits of `n`.
pub fn push_nat_digits(s: &mut String, n: u64)
    ensures final(s)@ == old(s)@ + nat_digits(n as nat),
    decreases n,
{
    if n >= 10 {
        push_nat_digits(s, n / 10);
    }
    let ghost mid = s@;
    push_char(s, digit(n % 10));
    proof {
        if n >= 10 {
            assert(mid == old(s)@ + nat_digits((n / 10) as nat));
            assert(final(s)@ =~= old(s)@ + nat_digits(n as nat));
        } else {
            assert(final(s)@ =~= old(s)@ + nat_digits(n as nat));
        }
    }
}

/// Appends the decimal notation of `n`.
pub fn push_decimal(s: &mut String, n: i64)
    ensures final(s)@ == old(s)@ + int_decimal(n as int),
{
    if n < 0 {
        push_char(s, '-');
        let m: u64 = if n == i64::MIN { 0x8000_0000_0000_0000u64 } else { (-n) as u64 };
        let ghost mid = s@;
        push_nat_digits(s, m);
        assert(final(s)@ =~= old(s)@ + int_decimal(n as int));
    } else {
        push_nat_digits(s, n as u64);
    }
}

} // verus!
