use vstd::prelude::*;

verus! {

/// One spending event.
///
/// `amount` is kept in hundredths of the currency unit (cents), so that
/// sums are exact; it may be zero or negative. `category` and `date` are
/// free-form labels, stored verbatim and compared by exact equality.
#[derive(Debug, Clone)]
pub struct Expense {
    pub amount: i64,
    pub category: String,
    pub date: String,
}

impl Expense {
    /// Creates an expense from its parts, stored as given.
    pub fn new(amount: i64, category: &str, date: &str) -> (r: Expense)
        ensures
            r.amount == amount,
            r.category@ == category@,
            r.date@ == date@,
    {
        Expense { amount, category: category.to_owned(), date: date.to_owned() }
    }

    /// Renders the expense as `$<amount with two decimals> - <category> (<date>)`.
    pub fn display(&self) -> (r: String)
        ensures
            r@ == display_text(*self),
    {
        proof {
            reveal_strlit("$");
            reveal_strlit(" - ");
            reveal_strlit(" (");
            reveal_strlit(")");
        }
        let mut out = String::new();
        out.append("$");
        let amount = format_amount(self.amount as i128);
        out.append(amount.as_str());
        out.append(" - ");
        out.append(self.category.as_str());
        out.append(" (");
        out.append(self.date.as_str());
        out.append(")");
        assert(out@ =~= display_text(*self));
        out
    }
}

/// Writes an amount in cents in currency units with two decimals
/// (`-1234.56` for -123456), with a minus sign only below zero.
pub fn format_amount(cents: i128) -> (r: String)
    ensures
        r@ == amount_text(cents as int),
{
    proof {
        reveal_strlit("-");
        reveal_strlit(".");
    }
    let m: u128 = if cents < 0 { (-(cents + 1)) as u128 + 1 } else { cents as u128 };
    let mut out = String::new();
    if cents < 0 {
        out.append("-");
    }
    push_decimal(&mut out, m / 100);
    out.append(".");
    out.append(digit_str(((m % 100) / 10) as u64));
    out.append(digit_str((m % 10) as u64));
    assert(out@ =~= amount_text(cents as int));
    out
}

/// The character of decimal digit `d`.
pub open spec fn digit_char(d: nat) -> char
    recommends
        d < 10,
{
    seq!['0', '1', '2', '3', '4', '5', '6', '7', '8', '9'][d as int]
}

/// The decimal numeral of `n`, without leading zeros.
pub open spec fn decimal(n: nat) -> Seq<char>
    decreases n,
{
    if n < 10 {
        seq![digit_char(n)]
    } else {
        decimal(n / 10).push(digit_char(n % 10))
    }
}

/// An amount in cents written in currency units with two decimals: `-12.05`.
pub open spec fn amount_text(a: int) -> Seq<char> {
    let m: nat = if a < 0 { (-a) as nat } else { a as nat };
    let sign = if a < 0 { seq!['-'] } else { Seq::<char>::empty() };
    sign + decimal(m / 100) + seq!['.', digit_char((m % 100) / 10), digit_char(m % 10)]
}

/// The text of an expense: `$<amount> - <category> (<date>)`.
pub open spec fn display_text(e: Expense) -> Seq<char> {
    seq!['$'] + amount_text(e.amount as int) + seq![' ', '-', ' '] + e.category@ + seq![' ', '(']
        + e.date@ + seq![')']
}

fn digit_str(d: u64) -> (r: &'static str)
    requires
        d < 10,
    ensures
        r@ == seq![digit_char(d as nat)],
{
    proof {
        reveal_strlit("0");
        reveal_strlit("1");
        reveal_strlit("2");
        reveal_strlit("3");
        reveal_strlit("4");
        reveal_strlit("5");
        reveal_strlit("6");
        reveal_strlit("7");
        reveal_strlit("8");
        reveal_strlit("9");
    }
    match d {
        0 => "0",
        1 => "1",
        2 => "2",
        3 => "3",
        4 => "4",
        5 => "5",
        6 => "6",
        7 => "7",
        8 => "8",
        _ => "9",
    }
}

fn push_decimal(out: &mut String, n: u128)
    ensures
        final(out)@ == old(out)@ + decimal(n as nat),
    decreases n,
{
    if n >= 10 {
        push_decimal(out, n / 10);
    }
    out.append(digit_str((n % 10) as u64));
    assert(out@ =~= old(out)@ + decimal(n as nat));
}

} // verus!
