use vstd::prelude::*;

verus! {

pub open spec fn digit_char(d: int) -> char {
    seq!['0', '1', '2', '3', '4', '5', '6', '7', '8', '9'][d]
}

/// The decimal digits of a natural number, without leading zeros.
pub open spec fn nat_text(n: nat) -> Seq<char>
    decreases n,
{
    if n < 10 {
        seq![digit_char(n as int)]
    } else {
        nat_text(n / 10) + seq![digit_char((n % 10) as int)]
    }
}

/// The decimal form of an integer, with a leading `-` when it is negative.
pub open spec fn int_text(n: int) -> Seq<char> {
    if n < 0 {
        seq!['-'] + nat_text((-n) as nat)
    } else {
        nat_text(n as nat)
    }
}

/// Exactly two digits for a number below one hundred.
pub open spec fn two_digits(n: nat) -> Seq<char> {
    seq![digit_char((n / 10) as int), digit_char((n % 10) as int)]
}

fn digit_string(d: u64) -> (r: String)
    requires
        d < 10,
    ensures
        r@ == seq![digit_char(d as int)],
{
    let table = "0123456789";
    proof {
        reveal_strlit("0123456789");
    }
    let r = String::from_str(table.substring_char(d as usize, d as usize + 1));
    assert(r@ =~= seq![digit_char(d as int)]);
    r
}

/// Writes a natural number in decimal.
pub fn u64_text(n: u64) -> (r: String)
    ensures
        r@ == nat_text(n as nat),
    decreases n,
{
    if n < 10 {
        digit_string(n)
    } else {
        let front = u64_text(n / 10);
        let last = digit_string(n % 10);
        front.concat(last.as_str())
    }
}

/// Writes an integer in decimal.
pub fn i64_text(n: i64) -> (r: String)
    ensures
        r@ == int_text(n as int),
{
    if n < 0 {
        let m: u64 = ((-(n as i128)) as u64);
        let digits = u64_text(m);
        let minus = String::from_str("-");
        proof {
            reveal_strlit("-");
        }
        minus.concat(digits.as_str())
    } else {
        u64_text(n as u64)
    }
}

/// Writes a number below one hundred as two digits.
pub fn two_digit_text(n: u64) -> (r: String)
    requires
        n < 100,
    ensures
        r@ == two_digits(n as nat),
{
    let a = digit_string(n / 10);
    let b = digit_string(n % 10);
    let r = a.concat(b.as_str());
    assert(r@ =~= two_digits(n as nat));
    r
}

} // verus!
