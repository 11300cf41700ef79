use splitwise::app::{App, Tab};
use splitwise::display::history_line;
use splitwise::messages::Message;
use splitwise::update::update;

#[test]
fn test_app_initial_state() {
    let app = App::new();
    assert!(app.payments.is_empty());
    assert!(app.balances.is_empty());
    assert!(app.split_with_input.is_empty());
    assert!(matches!(app.active_tab, Tab::Payments));
}

#[test]
fn test_update_input_fields() {
    let mut app = App::new();

    update(&mut app, Message::SplitWithInputChanged("Alice".to_string()));
    assert_eq!(app.split_with_input, "Alice");

    update(&mut app, Message::AmountInputChanged("50".to_string()));
    assert_eq!(app.amount_input, "50");

    update(&mut app, Message::DescriptionInputChanged("Dinner".to_string()));
    assert_eq!(app.description_input, "Dinner");
}

#[test]
fn update_test_switch_tabs() {
    let mut app = App::new();

    update(&mut app, Message::SwitchToHistory);
    assert!(matches!(app.active_tab, Tab::History));

    update(&mut app, Message::SwitchToPayments);
    assert!(matches!(app.active_tab, Tab::Payments));
}

#[test]
fn test_input_changes() {
    let mut app = App::new();

    update(&mut app, Message::SplitWithInputChanged("Alice".to_string()));
    assert_eq!(app.split_with_input, "Alice");

    update(&mut app, Message::AmountInputChanged("50".to_string()));
    assert_eq!(app.amount_input, "50");

    update(&mut app, Message::DescriptionInputChanged("Dinner".to_string()));
    assert_eq!(app.description_input, "Dinner");
}

#[test]
fn update_test_test_switch_tabs() {
    let mut app = App::new();
    update(&mut app, Message::SwitchToHistory);
    assert!(matches!(app.active_tab, Tab::History));
}

#[test]
fn settle_up_then_confirm_or_cancel_returns_to_payments() {
    let mut app = App::new();
    update(&mut app, Message::SettleUp("Bob".to_string()));
    assert!(matches!(&app.active_tab, Tab::SettleUp(u) if u == "Bob"));
    assert_eq!(app.settle_with.as_deref(), Some("Bob"));
    update(&mut app, Message::ConfirmSettleUp);
    assert!(matches!(app.active_tab, Tab::Payments));
    assert!(app.settle_with.is_none());

    update(&mut app, Message::SwitchToHistory);
    update(&mut app, Message::SettleUp("Ann".to_string()));
    assert!(matches!(&app.active_tab, Tab::SettleUp(u) if u == "Ann"));
    update(&mut app, Message::SwitchToPayments);
    assert!(matches!(app.active_tab, Tab::Payments));
    assert!(app.db.get_all_payments().is_empty());
}

#[test]
fn settle_up_clears_settle_amount() {
    let mut app = App::new();
    update(&mut app, Message::SettleAmountChanged("12".to_string()));
    assert_eq!(app.settle_amount_input, "12");
    update(&mut app, Message::SettleUp("Bob".to_string()));
    assert_eq!(app.settle_amount_input, "");
}

#[test]
fn split_with_unreadable_amount_records_zero() {
    let mut app = App::new();
    update(&mut app, Message::SplitWithInputChanged("Eve".to_string()));
    update(&mut app, Message::AmountInputChanged("lots".to_string()));
    update(&mut app, Message::DescriptionInputChanged("Gift".to_string()));
    update(&mut app, Message::SplitPayment);
    assert_eq!(app.payments.len(), 1);
    assert_eq!(app.payments[0].amount, 0);
    assert_eq!(app.balances, vec![("Eve".to_string(), 0i128)]);
    assert_eq!(app.amount_input, "");
}

#[test]
fn settle_with_unreadable_amount_changes_no_balance() {
    let mut app = App::new();
    update(&mut app, Message::SplitWithInputChanged("Eve".to_string()));
    update(&mut app, Message::AmountInputChanged("8".to_string()));
    update(&mut app, Message::SplitPayment);
    update(&mut app, Message::SettleUp("Eve".to_string()));
    update(&mut app, Message::SettleAmountChanged("x".to_string()));
    update(&mut app, Message::ConfirmSettleUp);
    assert_eq!(app.balances, vec![("Eve".to_string(), 400i128)]);
    assert!(matches!(app.active_tab, Tab::Payments));
}

#[test]
fn settle_with_unknown_friend_is_silent() {
    let mut app = App::new();
    update(&mut app, Message::SettleUp("Nobody".to_string()));
    update(&mut app, Message::SettleAmountChanged("5".to_string()));
    update(&mut app, Message::ConfirmSettleUp);
    assert!(app.payments.is_empty());
    assert!(app.balances.is_empty());
    assert!(app.db.get_all_users().is_empty());
    assert!(matches!(app.active_tab, Tab::Payments));
}

#[test]
fn split_needs_name_and_amount() {
    let mut app = App::new();
    update(&mut app, Message::AmountInputChanged("20".to_string()));
    update(&mut app, Message::SplitPayment);
    assert!(app.payments.is_empty());
    assert_eq!(app.amount_input, "20");
    update(&mut app, Message::AmountInputChanged(String::new()));
    update(&mut app, Message::SplitWithInputChanged("Bob".to_string()));
    update(&mut app, Message::SplitPayment);
    assert!(app.payments.is_empty());
    assert!(app.db.get_all_users().is_empty());
}

#[test]
fn friend_without_payments_has_no_balance_row() {
    let mut app = App::new();
    app.db.add_user("Quiet").unwrap();
    update(&mut app, Message::SplitWithInputChanged("Loud".to_string()));
    update(&mut app, Message::AmountInputChanged("3".to_string()));
    update(&mut app, Message::SplitPayment);
    assert_eq!(app.balances, vec![("Loud".to_string(), 150i128)]);
}

#[test]
fn lunch_with_bob_end_to_end() {
    let mut app = App::new();
    update(&mut app, Message::SplitPayment);
    assert!(app.payments.is_empty());

    update(&mut app, Message::SplitWithInputChanged("Bob".to_string()));
    update(&mut app, Message::AmountInputChanged("20".to_string()));
    update(&mut app, Message::DescriptionInputChanged("Lunch".to_string()));
    update(&mut app, Message::SplitPayment);
    assert_eq!(app.payments.len(), 1);
    assert_eq!(app.payments[0].amount, 1000);
    assert_eq!(app.payments[0].payee_name, "Bob");
    assert_eq!(app.balances, vec![("Bob".to_string(), 1000i128)]);
    assert_eq!(app.split_with_input, "");
    assert_eq!(app.description_input, "");

    update(&mut app, Message::SettleUp("Bob".to_string()));
    update(&mut app, Message::SettleAmountChanged("10".to_string()));
    update(&mut app, Message::ConfirmSettleUp);
    assert_eq!(app.balances, vec![("Bob".to_string(), 0i128)]);

    update(&mut app, Message::SwitchToHistory);
    let lines: Vec<String> = app.payments.iter().map(history_line).collect();
    assert_eq!(lines, vec!["Lunch: 10 (Bob)".to_string(), "Settlement with Bob: -10 (Bob)".to_string()]);
}
