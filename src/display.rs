use vstd::prelude::*;
use crate::db::Payment;

verus! {

pub open spec fn digit_char(d: int) -> char {
    if d == 0 {
        '0'
    } else if d == 1 {
        '1'
    } else if d == 2 {
        '2'
    } else if d == 3 {
        '3'
    } else if d == 4 {
        '4'
    } else if d == 5 {
        '5'
    } else if d == 6 {
        '6'
    } else if d == 7 {
        '7'
    } else if d == 8 {
        '8'
    } else {
        '9'
    }
}

/// Decimal digits of `n`, without leading zeros.
pub open spec fn decimal_text(n: nat) -> Seq<char>
    decreases n,
{
    if n < 10 {
        seq![digit_char(n as int)]
    } else {
        decimal_text(n / 10).push(digit_char((n % 10) as int))
    }
}

/// A payment amount of `c` cents as shown in the history: the whole units,
/// then the cents only where they are not zero, without a trailing zero.
pub open spec fn amount_text(c: int) -> Seq<char> {
    let m = if c < 0 {
        -c
    } else {
        c
    };
    let f = m % 100;
    let sign = if c < 0 {
        seq!['-']
    } else {
        Seq::empty()
    };
    let frac = if f == 0 {
        Seq::empty()
    } else if f % 10 == 0 {
        seq!['.', digit_char(f / 10)]
    } else {
        seq!['.', digit_char(f / 10), digit_char(f % 10)]
    };
    sign + decimal_text((m / 100) as nat) + frac
}

/// A magnitude of `m` cents with exactly two decimals.
pub open spec fn fixed_text(m: nat) -> Seq<char> {
    decimal_text(m / 100) + seq!['.', digit_char(((m % 100) / 10) as int), digit_char((m % 10) as int)]
}

/// One line of the payment history.
pub open spec fn history_text(description: Seq<char>, amount: int, payee_name: Seq<char>) -> Seq<
    char,
> {
    description + ": "@ + amount_text(amount) + " ("@ + payee_name + ")"@
}

/// What a balance means for the user.
pub open spec fn status_text(balance: int) -> Seq<char> {
    if balance > 0 {
        "owes you "@ + fixed_text(balance as nat)
    } else if balance < 0 {
        "you owe "@ + fixed_text((-balance) as nat)
    } else {
        "settled"@
    }
}

/// One line of the balance list.
pub open spec fn balance_text(name: Seq<char>, balance: int) -> Seq<char> {
    name + ": "@ + status_text(balance)
}

fn digit_str(d: u128) -> (r: &'static str)
    requires
        d < 10,
    ensures
        r@ == seq![digit_char(d as int)],
{
    proof {
        reveal_strlit("0");
        reveal_strlit("1");
        reveal_strlit("2");
        reveal_strlit("3");
        reveal_strlit("4");
        reveal_strlit("5");
        reveal_strlit("6");
        reveal_strlit("7");
        reveal_strlit("8");
        reveal_strlit("9");
    }
    let r = if d == 0 {
        "0"
    } else if d == 1 {
        "1"
    } else if d == 2 {
        "2"
    } else if d == 3 {
        "3"
    } else if d == 4 {
        "4"
    } else if d == 5 {
        "5"
    } else if d == 6 {
        "6"
    } else if d == 7 {
        "7"
    } else if d == 8 {
        "8"
    } else {
        "9"
    };
    assert(r@ =~= seq![digit_char(d as int)]);
    r
}

/// Decimal digits of `n`.
pub fn decimal_string(n: u128) -> (r: String)
    ensures
        r@ == decimal_text(n as nat),
    decreases n,
{
    if n < 10 {
        String::from_str(digit_str(n))
    } else {
        let mut s = decimal_string(n / 10);
        s.append(digit_str(n % 10));
        s
    }
}

/// A payment amount in cents as the history shows it (`10`, `-10`, `10.5`, `0.05`).
pub fn amount_string(c: i64) -> (r: String)
    ensures
        r@ == amount_text(c as int),
{
    let m: u128 = if c < 0 {
        (0i128 - c as i128) as u128
    } else {
        c as u128
    };
    let f = m % 100;
    let mut s = if c < 0 {
        proof {
            reveal_strlit("-");
        }
        String::from_str("-")
    } else {
        String::new()
    };
    let ghost sign = s@;
    let whole = decimal_string(m / 100);
    s.append(whole.as_str());
    let ghost before = s@;
    if f != 0 {
        proof {
            reveal_strlit(".");
        }
        s.append(".");
        s.append(digit_str(f / 10));
        if f % 10 != 0 {
            s.append(digit_str(f % 10));
        }
    }
    proof {
        let frac = s@.subrange(before.len() as int, s@.len() as int);
        assert(s@ =~= before + frac);
        if f == 0 {
            assert(frac =~= Seq::<char>::empty());
        } else if f % 10 == 0 {
            assert(frac =~= seq!['.', digit_char((f / 10) as int)]);
        } else {
            assert(frac =~= seq!['.', digit_char((f / 10) as int), digit_char((f % 10) as int)]);
        }
        assert(sign =~= (if c < 0 {
            seq!['-']
        } else {
            Seq::<char>::empty()
        }));
    }
    s
}

/// A magnitude in cents with exactly two decimals (`10.00`, `0.05`).
pub fn fixed_string(m: u128) -> (r: String)
    ensures
        r@ == fixed_text(m as nat),
{
    let mut s = decimal_string(m / 100);
    let ghost whole = s@;
    proof {
        reveal_strlit(".");
    }
    s.append(".");
    s.append(digit_str((m % 100) / 10));
    s.append(digit_str(m % 10));
    assert(s@ =~= fixed_text(m as nat));
    s
}

/// The history line of a payment: `description: amount (payee)`.
pub fn history_line(p: &Payment) -> (r: String)
    ensures
        r@ == history_text(p.description@, p.amount as int, p.payee_name@),
{
    let mut s = p.description.clone();
    s.append(": ");
    let a = amount_string(p.amount);
    s.append(a.as_str());
    s.append(" (");
    s.append(p.payee_name.as_str());
    s.append(")");
    s
}

/// The status of a balance in cents: what the friend owes, what the user
/// owes, or that it is settled.
pub fn status_string(balance: i128) -> (r: String)
    ensures
        r@ == status_text(balance as int),
{
    if balance > 0 {
        let mut s = String::from_str("owes you ");
        let t = fixed_string(balance as u128);
        s.append(t.as_str());
        s
    } else if balance < 0 {
        let mut s = String::from_str("you owe ");
        let t = fixed_string((-(balance + 1)) as u128 + 1);
        s.append(t.as_str());
        s
    } else {
        String::from_str("settled")
    }
}

/// The line of a friend in the balance list: `name: status`.
pub fn balance_line(name: &str, balance: i128) -> (r: String)
    ensures
        r@ == balance_text(name@, balance as int),
{
    let mut s = String::from_str(name);
    s.append(": ");
    let t = status_string(balance);
    s.append(t.as_str());
    s
}

} // verus!
