//! Reading one input record from its four fields, `type`, `client`, `tx` and
//! `amount`, each already trimmed.
//!
//! An amount is an optional `-`, one or more decimal digits, and optionally a `.`
//! followed by one to four digits. It is read as a count of ten-thousandths.
use vstd::prelude::*;

use crate::models::{Transaction, TransactionType};

verus! {

/// Why a record could not be read.
#[derive(Clone, Copy, Debug, PartialEq, Eq, Structural)]
pub enum ParseError {
    UnknownType,
    BadClient,
    BadTx,
    BadAmount,
}

pub open spec fn is_digit(b: u8) -> bool {
    48 <= b <= 57
}

pub open spec fn all_digits(s: Seq<u8>) -> bool {
    forall|i: int| 0 <= i < s.len() ==> is_digit(#[trigger] s[i])
}

/// The number that the decimal digits `s` spell.
pub open spec fn digits_value(s: Seq<u8>) -> nat
    decreases s.len(),
{
    if s.len() == 0 {
        0
    } else {
        digits_value(s.drop_last()) * 10 + (s.last() - 48) as nat
    }
}

/// The value of a non-empty run of digits, when it is at most `max`.
pub open spec fn unsigned_of(s: Seq<u8>, max: nat) -> Option<nat> {
    if s.len() > 0 && all_digits(s) && digits_value(s) <= max {
        Some(digits_value(s))
    } else {
        None
    }
}

/// `s` starts with exactly `k` digits.
pub open spec fn digit_prefix(s: Seq<u8>, k: int) -> bool {
    &&& 0 <= k <= s.len()
    &&& all_digits(s.take(k))
    &&& (k == s.len() || !is_digit(s[k]))
}

/// The number of digits `s` starts with.
pub open spec fn leading_digits(s: Seq<u8>) -> int {
    choose|k: int| digit_prefix(s, k)
}

/// The weight, in ten-thousandths, of the last digit of a fraction of `n` digits.
pub open spec fn fraction_scale(n: int) -> int {
    if n == 1 {
        1000
    } else if n == 2 {
        100
    } else if n == 3 {
        10
    } else {
        1
    }
}

/// An unsigned amount in ten-thousandths: digits, then optionally `.` and one to
/// four digits.
pub open spec fn magnitude_of(s: Seq<u8>) -> Option<int> {
    let k = leading_digits(s);
    let frac = s.skip(k + 1);
    if k == 0 {
        None
    } else if k == s.len() {
        Some(digits_value(s) * 10000int)
    } else if s[k] == 46 && 1 <= frac.len() <= 4 && all_digits(frac) {
        Some(digits_value(s.take(k)) * 10000int + digits_value(frac) * fraction_scale(frac.len() as int))
    } else {
        None
    }
}

/// An amount with an optional leading `-`, when it fits in an `i64`.
pub open spec fn amount_of(s: Seq<u8>) -> Option<i64> {
    let negative = s.len() > 0 && s[0] == 45;
    let body = if negative { s.skip(1) } else { s };
    match magnitude_of(body) {
        Some(m) => if m <= i64::MAX {
            Some((if negative { -m } else { m }) as i64)
        } else {
            None
        },
        None => None,
    }
}

/// The kind named by `s`, in lower case.
pub open spec fn type_of(s: Seq<u8>) -> Option<TransactionType> {
    if s == seq![100u8, 101, 112, 111, 115, 105, 116] {
        Some(TransactionType::Deposit)
    } else if s == seq![119u8, 105, 116, 104, 100, 114, 97, 119, 97, 108] {
        Some(TransactionType::Withdrawal)
    } else if s == seq![100u8, 105, 115, 112, 117, 116, 101] {
        Some(TransactionType::Dispute)
    } else if s == seq![114u8, 101, 115, 111, 108, 118, 101] {
        Some(TransactionType::Resolve)
    } else if s == seq![99u8, 104, 97, 114, 103, 101, 98, 97, 99, 107] {
        Some(TransactionType::Chargeback)
    } else {
        None
    }
}

/// The record spelled by the four fields; an empty amount is an absent one.
pub open spec fn transaction_of(
    kind: Seq<u8>,
    client: Seq<u8>,
    tx: Seq<u8>,
    amount: Seq<u8>,
) -> Result<Transaction, ParseError> {
    if type_of(kind) is None {
        Err(ParseError::UnknownType)
    } else if unsigned_of(client, u16::MAX as nat) is None {
        Err(ParseError::BadClient)
    } else if unsigned_of(tx, u32::MAX as nat) is None {
        Err(ParseError::BadTx)
    } else if amount.len() > 0 && amount_of(amount) is None {
        Err(ParseError::BadAmount)
    } else {
        Ok(
            Transaction {
                transaction_type: type_of(kind).unwrap(),
                client_id: unsigned_of(client, u16::MAX as nat).unwrap() as u16,
                id: unsigned_of(tx, u32::MAX as nat).unwrap() as u32,
                amount: if amount.len() == 0 {
                    None
                } else {
                    Some(amount_of(amount).unwrap())
                },
            },
        )
    }
}

proof fn lemma_digits_value_grows(s: Seq<u8>, i: int)
    requires
        0 <= i <= s.len(),
        all_digits(s),
    ensures
        digits_value(s.take(i)) <= digits_value(s),
    decreases s.len(),
{
    if i < s.len() {
        let shorter = s.drop_last();
        assert(shorter.take(i) =~= s.take(i));
        lemma_digits_value_grows(shorter, i);
    } else {
        assert(s.take(i) =~= s);
    }
}

proof fn lemma_digit_prefix_unique(s: Seq<u8>, k: int, j: int)
    requires
        digit_prefix(s, k),
        digit_prefix(s, j),
    ensures
        k == j,
{
    if k < j {
        assert(s.take(j)[k] == s[k]);
    } else if j < k {
        assert(s.take(k)[j] == s[j]);
    }
}

/// Reads the digits `s[start..end]` as a number no larger than `max`.
fn parse_unsigned(s: &[u8], start: usize, end: usize, max: u64) -> (r: Option<u64>)
    requires
        start <= end <= s@.len(),
    ensures
        match r {
            Some(v) => unsigned_of(s@.subrange(start as int, end as int), max as nat) == Some(
                v as nat,
            ),
            None => unsigned_of(s@.subrange(start as int, end as int), max as nat) is None,
        },
{
    let ghost digits = s@.subrange(start as int, end as int);
    if start == end {
        return None;
    }
    let mut acc: u64 = 0;
    let mut i: usize = start;
    while i < end
        invariant
            start <= i <= end <= s@.len(),
            digits == s@.subrange(start as int, end as int),
            all_digits(digits.take(i - start)),
            acc as nat == digits_value(digits.take(i - start)),
            acc <= max,
        decreases end - i,
    {
        let b = s[i];
        let ghost next = digits.take(i - start + 1);
        proof {
            assert(next.drop_last() =~= digits.take(i - start));
            assert(digits[i - start] == b);
        }
        if b < 48 || b > 57 {
            assert(!all_digits(digits));
            return None;
        }
        let d = (b - 48) as u64;
        if d > max || acc > (max - d) / 10 {
            proof {
                assert(acc * 10 + d > max) by (nonlinear_arith)
                    requires
                        d > max || acc > (max - d) / 10,
                        d <= 9,
                ;
                assert(all_digits(next));
                if all_digits(digits) {
                    lemma_digits_value_grows(digits, i - start + 1);
                }
            }
            return None;
        }
        assert(acc * 10 + d <= max) by (nonlinear_arith)
            requires
                d <= max,
                acc <= (max - d) / 10,
        ;
        acc = acc * 10 + d;
        i = i + 1;
    }
    assert(digits.take(end - start) =~= digits);
    Some(acc)
}

/// Ten to the power `n`.
pub open spec fn pow10(n: nat) -> nat
    decreases n,
{
    if n == 0 {
        1
    } else {
        10 * pow10((n - 1) as nat)
    }
}

proof fn lemma_digits_value_below_pow10(s: Seq<u8>)
    requires
        all_digits(s),
    ensures
        digits_value(s) < pow10(s.len()),
    decreases s.len(),
{
    if s.len() > 0 {
        let shorter = s.drop_last();
        assert(all_digits(shorter)) by {
            assert forall|i: int| 0 <= i < shorter.len() implies is_digit(#[trigger] shorter[i]) by {
                assert(shorter[i] == s[i]);
            }
        }
        lemma_digits_value_below_pow10(shorter);
        assert(is_digit(s[s.len() - 1]));
    }
}

/// A fraction of at most four digits is below 10000.
proof fn lemma_fraction_small(s: Seq<u8>)
    requires
        all_digits(s),
        s.len() <= 4,
    ensures
        digits_value(s) <= 9999,
{
    lemma_digits_value_below_pow10(s);
    reveal_with_fuel(pow10, 5);
    assert(pow10(s.len()) <= 10000);
}

/// The end of the run of digits that starts at `start`.
fn find_digit_end(s: &[u8], start: usize) -> (k: usize)
    requires
        start <= s@.len(),
    ensures
        start <= k <= s@.len(),
        digit_prefix(s@.skip(start as int), k - start),
{
    let mut k: usize = start;
    while k < s.len() && s[k] >= 48 && s[k] <= 57
        invariant
            start <= k <= s@.len(),
            all_digits(s@.skip(start as int).take(k - start)),
        decreases s@.len() - k,
    {
        proof {
            let body = s@.skip(start as int);
            assert forall|i: int| 0 <= i < k + 1 - start implies is_digit(
                #[trigger] body.take(k + 1 - start)[i],
            ) by {
                if i < k - start {
                    assert(body.take(k + 1 - start)[i] == body.take(k - start)[i]);
                }
            }
        }
        k = k + 1;
    }
    k
}

/// Reads an amount in ten-thousandths.
pub fn parse_amount(s: &[u8]) -> (r: Option<i64>)
    ensures
        r == amount_of(s@),
{
    let negative = s.len() > 0 && s[0] == 45;
    let start: usize = if negative {
        1
    } else {
        0
    };
    let ghost body = if negative {
        s@.skip(1)
    } else {
        s@
    };
    assert(body =~= s@.skip(start as int));
    let k = find_digit_end(s, start);
    proof {
        assert(digit_prefix(body, k - start));
        lemma_digit_prefix_unique(body, leading_digits(body), k - start);
        assert(body.take(k - start) =~= s@.subrange(start as int, k as int));
    }
    if k == start {
        return None;
    }
    let fraction: u64;
    if k == s.len() {
        fraction = 0;
        assert(body =~= body.take(k - start));
    } else if s[k] == 46 && s.len() - k - 1 >= 1 && s.len() - k - 1 <= 4 {
        let ghost frac = body.skip(k - start + 1);
        assert(frac =~= s@.subrange(k + 1, s@.len() as int));
        match parse_unsigned(s, k + 1, s.len(), 9999) {
            Some(f) => {
                let n = s.len() - k - 1;
                let scale: u64 = if n == 1 {
                    1000
                } else if n == 2 {
                    100
                } else if n == 3 {
                    10
                } else {
                    1
                };
                proof {
                    lemma_digits_value_below_pow10(frac);
                    reveal_with_fuel(pow10, 5);
                    assert(scale * pow10(n as nat) == 10000);
                    assert(f * scale <= 9999) by (nonlinear_arith)
                        requires
                            f < pow10(n as nat),
                            scale * pow10(n as nat) == 10000,
                            scale >= 1,
                    ;
                }
                fraction = f * scale;
            },
            None => {
                proof {
                    if all_digits(frac) {
                        lemma_fraction_small(frac);
                    }
                }
                return None;
            },
        }
    } else {
        return None;
    }
    let whole = match parse_unsigned(s, start, k, i64::MAX as u64) {
        Some(w) => w,
        None => {
            return None;
        },
    };
    if whole > (i64::MAX as u64 - fraction) / 10000 {
        assert(whole * 10000 + fraction > i64::MAX) by (nonlinear_arith)
            requires
                whole > (i64::MAX as u64 - fraction) / 10000,
                fraction <= 9999,
        ;
        return None;
    }
    assert(whole * 10000 + fraction <= i64::MAX) by (nonlinear_arith)
        requires
            whole <= (i64::MAX as u64 - fraction) / 10000,
            fraction <= 9999,
    ;
    let magnitude = (whole * 10000 + fraction) as i64;
    if negative {
        Some(-magnitude)
    } else {
        Some(magnitude)
    }
}

/// Reads a transaction kind, written in lower case.
pub fn parse_type(s: &[u8]) -> (r: Option<TransactionType>)
    ensures
        r == type_of(s@),
{
    let n = s.len();
    if n == 7 && s[0] == 100 && s[1] == 101 && s[2] == 112 && s[3] == 111 && s[4] == 115 && s[5]
        == 105 && s[6] == 116 {
        assert(s@ =~= seq![100u8, 101, 112, 111, 115, 105, 116]);
        Some(TransactionType::Deposit)
    } else if n == 10 && s[0] == 119 && s[1] == 105 && s[2] == 116 && s[3] == 104 && s[4] == 100
        && s[5] == 114 && s[6] == 97 && s[7] == 119 && s[8] == 97 && s[9] == 108 {
        assert(s@ =~= seq![119u8, 105, 116, 104, 100, 114, 97, 119, 97, 108]);
        Some(TransactionType::Withdrawal)
    } else if n == 7 && s[0] == 100 && s[1] == 105 && s[2] == 115 && s[3] == 112 && s[4] == 117
        && s[5] == 116 && s[6] == 101 {
        assert(s@ =~= seq![100u8, 105, 115, 112, 117, 116, 101]);
        Some(TransactionType::Dispute)
    } else if n == 7 && s[0] == 114 && s[1] == 101 && s[2] == 115 && s[3] == 111 && s[4] == 108
        && s[5] == 118 && s[6] == 101 {
        assert(s@ =~= seq![114u8, 101, 115, 111, 108, 118, 101]);
        Some(TransactionType::Resolve)
    } else if n == 10 && s[0] == 99 && s[1] == 104 && s[2] == 97 && s[3] == 114 && s[4] == 103
        && s[5] == 101 && s[6] == 98 && s[7] == 97 && s[8] == 99 && s[9] == 107 {
        assert(s@ =~= seq![99u8, 104, 97, 114, 103, 101, 98, 97, 99, 107]);
        Some(TransactionType::Chargeback)
    } else {
        None
    }
}

/// Reads a record from its fields `type`, `client`, `tx` and `amount`; an empty
/// amount is an absent one.
pub fn parse_transaction(kind: &[u8], client: &[u8], tx: &[u8], amount: &[u8]) -> (r: Result<
    Transaction,
    ParseError,
>)
    ensures
        r == transaction_of(kind@, client@, tx@, amount@),
{
    let transaction_type = match parse_type(kind) {
        Some(t) => t,
        None => {
            return Err(ParseError::UnknownType);
        },
    };
    assert(client@.subrange(0, client@.len() as int) =~= client@);
    assert(tx@.subrange(0, tx@.len() as int) =~= tx@);
    let client_id = match parse_unsigned(client, 0, client.len(), u16::MAX as u64) {
        Some(c) => c as u16,
        None => {
            return Err(ParseError::BadClient);
        },
    };
    let id = match parse_unsigned(tx, 0, tx.len(), u32::MAX as u64) {
        Some(t) => t as u32,
        None => {
            return Err(ParseError::BadTx);
        },
    };
    let value = if amount.len() == 0 {
        None
    } else {
        match parse_amount(amount) {
            Some(a) => Some(a),
            None => {
                return Err(ParseError::BadAmount);
            },
        }
    };
    Ok(Transaction { transaction_type, client_id, id, amount: value })
}

} // verus!
