//! The canonical text of an account: `client,available,held,total,locked`, the
//! balances with exactly four decimal places.
use vstd::prelude::*;

use crate::models::{Account, AccountView};

verus! {

/// The ASCII character of decimal digit `d`.
pub open spec fn digit_char(d: int) -> char {
    (d + 48) as char
}

/// The decimal digits of `n`, without leading zeros.
pub open spec fn decimal(n: nat) -> Seq<char>
    decreases n,
{
    if n < 10 {
        seq![digit_char(n as int)]
    } else {
        decimal(n / 10).push(digit_char((n % 10) as int))
    }
}

/// A fixed-point value in ten-thousandths, written with four decimal places and
/// a leading `-` when negative.
pub open spec fn fixed4(v: int) -> Seq<char> {
    let m: nat = if v < 0 { (-v) as nat } else { v as nat };
    let f: nat = m % 10000;
    let sign = if v < 0 { seq!['-'] } else { Seq::<char>::empty() };
    sign + decimal(m / 10000) + seq![
        '.',
        digit_char((f / 1000) as int),
        digit_char((f / 100 % 10) as int),
        digit_char((f / 10 % 10) as int),
        digit_char((f % 10) as int),
    ]
}

pub open spec fn bool_text(b: bool) -> Seq<char> {
    if b {
        seq!['t', 'r', 'u', 'e']
    } else {
        seq!['f', 'a', 'l', 's', 'e']
    }
}

/// The row of an account: `client,available,held,total,locked`.
pub open spec fn row_text(a: AccountView) -> Seq<char> {
    decimal(a.client_id as nat) + seq![','] + fixed4(a.available) + seq![','] + fixed4(a.held)
        + seq![','] + fixed4(a.total) + seq![','] + bool_text(a.locked)
}

fn digit_str(d: u128) -> (r: &'static str)
    requires
        d < 10,
    ensures
        r@ == seq![digit_char(d as int)],
{
    if d == 0 {
        proof { reveal_strlit("0"); }
        "0"
    } else if d == 1 {
        proof { reveal_strlit("1"); }
        "1"
    } else if d == 2 {
        proof { reveal_strlit("2"); }
        "2"
    } else if d == 3 {
        proof { reveal_strlit("3"); }
        "3"
    } else if d == 4 {
        proof { reveal_strlit("4"); }
        "4"
    } else if d == 5 {
        proof { reveal_strlit("5"); }
        "5"
    } else if d == 6 {
        proof { reveal_strlit("6"); }
        "6"
    } else if d == 7 {
        proof { reveal_strlit("7"); }
        "7"
    } else if d == 8 {
        proof { reveal_strlit("8"); }
        "8"
    } else {
        proof { reveal_strlit("9"); }
        "9"
    }
}

/// Appends the decimal digits of `n` to `out`.
fn push_decimal(out: &mut String, n: u128)
    ensures
        final(out)@ == old(out)@ + decimal(n as nat),
    decreases n,
{
    if n >= 10 {
        push_decimal(out, n / 10);
    }
    out.append(digit_str(n % 10));
    assert(n >= 10 ==> decimal(n as nat) == decimal((n / 10) as nat).push(
        digit_char((n % 10) as int),
    ));
}

/// Appends `v`, counted in ten-thousandths, with four decimal places.
fn push_fixed4(out: &mut String, v: i128)
    ensures
        final(out)@ == old(out)@ + fixed4(v as int),
{
    let m: u128 = if v < 0 {
        (-(v + 1)) as u128 + 1
    } else {
        v as u128
    };
    let ghost start = out@;
    if v < 0 {
        proof { reveal_strlit("-"); }
        out.append("-");
    }
    push_decimal(out, m / 10000);
    let f = m % 10000;
    proof { reveal_strlit("."); }
    out.append(".");
    out.append(digit_str(f / 1000));
    out.append(digit_str(f / 100 % 10));
    out.append(digit_str(f / 10 % 10));
    out.append(digit_str(f % 10));
    assert(out@ =~= start + fixed4(v as int));
}

impl Account {
    /// The canonical text of this account: `client,available,held,total,locked`,
    /// each balance with exactly four decimal places.
    pub fn to_csv_row(&self) -> (r: String)
        ensures
            r@ == row_text(self@),
    {
        let mut out = String::new();
        push_decimal(&mut out, self.client_id as u128);
        proof { reveal_strlit(","); }
        out.append(",");
        push_fixed4(&mut out, self.available);
        out.append(",");
        push_fixed4(&mut out, self.held);
        out.append(",");
        push_fixed4(&mut out, self.total);
        out.append(",");
        if self.locked {
            proof { reveal_strlit("true"); }
            out.append("true");
        } else {
            proof { reveal_strlit("false"); }
            out.append("false");
        }
        assert(out@ =~= row_text(self@));
        out
    }
}

} // verus!
