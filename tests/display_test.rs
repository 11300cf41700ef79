use splitwise::db::Payment;
use splitwise::display::{amount_string, balance_line, decimal_string, fixed_string, history_line, status_string};

#[test]
fn decimal_digits() {
    assert_eq!(decimal_string(0), "0");
    assert_eq!(decimal_string(7), "7");
    assert_eq!(decimal_string(1203), "1203");
}

#[test]
fn amounts_as_in_history() {
    assert_eq!(amount_string(1000), "10");
    assert_eq!(amount_string(-1000), "-10");
    assert_eq!(amount_string(1050), "10.5");
    assert_eq!(amount_string(1005), "10.05");
    assert_eq!(amount_string(5), "0.05");
    assert_eq!(amount_string(0), "0");
    assert_eq!(amount_string(i64::MIN), "-92233720368547758.08");
}

#[test]
fn fixed_two_decimals() {
    assert_eq!(fixed_string(1000), "10.00");
    assert_eq!(fixed_string(5), "0.05");
    assert_eq!(fixed_string(1234), "12.34");
}

#[test]
fn balance_statuses() {
    assert_eq!(status_string(1000), "owes you 10.00");
    assert_eq!(status_string(-250), "you owe 2.50");
    assert_eq!(status_string(0), "settled");
    assert_eq!(status_string(i128::MIN), "you owe 1701411834604692317316873037158841057.28");
    assert_eq!(balance_line("Bob", 1000), "Bob: owes you 10.00");
}

#[test]
fn history_line_of_payment() {
    let p = Payment {
        id: 1,
        description: "Taxi".to_string(),
        amount: 1250,
        payee_id: 1,
        is_settled: false,
        payee_name: "Ann".to_string(),
    };
    assert_eq!(history_line(&p), "Taxi: 12.5 (Ann)");
}
