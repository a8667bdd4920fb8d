use vstd::prelude::*;
use vstd::string::StringExecFns;
use vstd::string::StringSliceAdditionalSpecFns;

verus! {

/// `String::push` of std appends one character to the string.
pub assume_specification[ String::push ](s: &mut String, ch: char)
    ensures
        final(s)@ == old(s)@.push(ch),
;

/// Copies a sequence of plain values, element by element.
pub fn copy_i32s(v: &Vec<i32>) -> (r: Vec<i32>)
    ensures
        r@ == v@,
{
    let mut r: Vec<i32> = Vec::new();
    let mut i: usize = 0;
    while i < v.len()
        invariant
            i <= v.len(),
            r@ == v@.subrange(0, i as int),
        decreases v.len() - i,
    {
        r.push(v[i]);
        i = i + 1;
    }
    r
}

/// The character of a decimal digit.
pub open spec fn digit_char(d: nat) -> char {
    if d == 0 { '0' } else if d == 1 { '1' } else if d == 2 { '2' } else if d == 3 { '3' } else if d == 4 { '4' }
    else if d == 5 { '5' } else if d == 6 { '6' } else if d == 7 { '7' } else if d == 8 { '8' } else { '9' }
}

/// The decimal writing of a natural number, without leading zeros.
pub open spec fn decimal_digits(n: nat) -> Seq<char>
    decreases n,
{
    if n < 10 {
        seq![digit_char(n)]
    } else {
        decimal_digits(n / 10).push(digit_char(n % 10))
    }
}

/// The decimal writing of an integer, with a minus sign when negative.
pub open spec fn decimal(x: int) -> Seq<char> {
    if x < 0 {
        seq!['-'] + decimal_digits((-x) as nat)
    } else {
        decimal_digits(x as nat)
    }
}

fn digit_to_char(d: u64) -> (c: char)
    requires
        d < 10,
    ensures
        c == digit_char(d as nat),
{
    if d == 0 { '0' } else if d == 1 { '1' } else if d == 2 { '2' } else if d == 3 { '3' } else if d == 4 { '4' }
    else if d == 5 { '5' } else if d == 6 { '6' } else if d == 7 { '7' } else if d == 8 { '8' } else { '9' }
}

/// Appends the decimal writing of `n` to `s`.
fn push_digits(s: &mut String, n: u64)
    ensures
        final(s)@ == old(s)@ + decimal_digits(n as nat),
    decreases n,
{
    if n < 10 {
        s.push(digit_to_char(n));
    } else {
        push_digits(s, n / 10);
        s.push(digit_to_char(n % 10));
    }
}

/// The decimal writing of an integer, as `to_string` gives it.
pub fn int_to_string(x: i64) -> (r: String)
    requires
        x > i64::MIN,
    ensures
        r@ == decimal(x as int),
{
    let mut s = String::new();
    if x < 0 {
        s.push('-');
        push_digits(&mut s, (-x) as u64);
    } else {
        push_digits(&mut s, x as u64);
    }
    s
}

/// Pads a string with a character on the left to reach the target length,
/// counted in bytes.
pub fn left_pad(string: &str, char: char, target_length: usize) -> (r: String)
    requires
        string.spec_bytes().len() <= target_length,
    ensures
        r@ == Seq::new((target_length - string.spec_bytes().len()) as nat, |i: int| char) + string@,
{
    let mut res = String::new();
    let n = target_length - string.len();
    let mut k: usize = 0;
    while k < n
        invariant
            k <= n,
            res@ == Seq::new(k as nat, |i: int| char),
        decreases n - k,
    {
        res.push(char);
        k = k + 1;
        assert(res@ =~= Seq::new(k as nat, |i: int| char));
    }
    res.append(string);
    res
}

} // verus!
