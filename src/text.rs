use vstd::prelude::*;
use vstd::string::*;

verus! {

/// The character of a digit below sixteen, upper case.
pub open spec fn hex_digit(d: nat) -> char {
    if d == 0 { '0' } else if d == 1 { '1' } else if d == 2 { '2' } else if d == 3 { '3' }
    else if d == 4 { '4' } else if d == 5 { '5' } else if d == 6 { '6' } else if d == 7 { '7' }
    else if d == 8 { '8' } else if d == 9 { '9' } else if d == 10 { 'A' } else if d == 11 { 'B' }
    else if d == 12 { 'C' } else if d == 13 { 'D' } else if d == 14 { 'E' } else { 'F' }
}

/// The character of a digit below sixteen, lower case.
pub open spec fn hex_digit_lower(d: nat) -> char {
    if d == 10 { 'a' } else if d == 11 { 'b' } else if d == 12 { 'c' }
    else if d == 13 { 'd' } else if d == 14 { 'e' } else if d == 15 { 'f' }
    else { hex_digit(d) }
}

/// Decimal representation of `n`, without leading zeros.
pub open spec fn dec(n: nat) -> Seq<char>
    decreases n,
{
    if n < 10 {
        seq![hex_digit(n)]
    } else {
        dec(n / 10) + seq![hex_digit(n % 10)]
    }
}

/// The low `width` hexadecimal digits of `n`, upper case, zero padded.
pub open spec fn hex(n: nat, width: nat) -> Seq<char>
    decreases width,
{
    if width == 0 {
        Seq::empty()
    } else {
        hex((n / 16) as nat, (width - 1) as nat) + seq![hex_digit(n % 16)]
    }
}

/// The low `width` hexadecimal digits of `n`, lower case, zero padded.
pub open spec fn hex_lower(n: nat, width: nat) -> Seq<char>
    decreases width,
{
    if width == 0 {
        Seq::empty()
    } else {
        hex_lower((n / 16) as nat, (width - 1) as nat) + seq![hex_digit_lower(n % 16)]
    }
}

fn digit_str(d: u64, lower: bool) -> (r: &'static str)
    requires
        d < 16,
    ensures
        r@ == (if lower { seq![hex_digit_lower(d as nat)] } else { seq![hex_digit(d as nat)] }),
{
    proof {
        reveal_strlit("0"); reveal_strlit("1"); reveal_strlit("2"); reveal_strlit("3");
        reveal_strlit("4"); reveal_strlit("5"); reveal_strlit("6"); reveal_strlit("7");
        reveal_strlit("8"); reveal_strlit("9"); reveal_strlit("A"); reveal_strlit("B");
        reveal_strlit("C"); reveal_strlit("D"); reveal_strlit("E"); reveal_strlit("F");
        reveal_strlit("a"); reveal_strlit("b"); reveal_strlit("c"); reveal_strlit("d");
        reveal_strlit("e"); reveal_strlit("f");
    }
    let r = match d {
        0 => "0", 1 => "1", 2 => "2", 3 => "3", 4 => "4", 5 => "5", 6 => "6", 7 => "7",
        8 => "8", 9 => "9",
        10 => if lower { "a" } else { "A" },
        11 => if lower { "b" } else { "B" },
        12 => if lower { "c" } else { "C" },
        13 => if lower { "d" } else { "D" },
        14 => if lower { "e" } else { "E" },
        _ => if lower { "f" } else { "F" },
    };
    assert(r@ =~= (if lower { seq![hex_digit_lower(d as nat)] } else { seq![hex_digit(d as nat)] }));
    r
}

/// Appends the decimal representation of `n`.
pub fn push_dec(s: &mut String, n: u128)
    ensures
        final(s)@ == old(s)@ + dec(n as nat),
    decreases n,
{
    if n >= 10 {
        push_dec(s, n / 10);
    }
    s.append(digit_str((n % 10) as u64, false));
    assert(final(s)@ =~= old(s)@ + dec(n as nat));
}

/// Appends the low `width` hexadecimal digits of `n`, zero padded.
pub fn push_hex(s: &mut String, n: u64, width: u64, lower: bool)
    ensures
        final(s)@ == old(s)@ + (if lower { hex_lower(n as nat, width as nat) } else { hex(
            n as nat,
            width as nat,
        ) }),
    decreases width,
{
    if width > 0 {
        push_hex(s, n / 16, width - 1, lower);
        s.append(digit_str(n % 16, lower));
    }
    assert(final(s)@ =~= old(s)@ + (if lower { hex_lower(n as nat, width as nat) } else { hex(
        n as nat,
        width as nat,
    ) }));
}

/// A fresh string holding `t`.
pub fn text(t: &str) -> (r: String)
    ensures
        r@ == t@,
{
    String::from_str(t)
}

} // verus!
