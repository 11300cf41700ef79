use vstd::prelude::*;
use crate::amount::{amount_or_zero, amount_or_zero_of, split_share, split_share_of};
use crate::app::{App, Tab};
use crate::amount::amount_of;
use crate::db::{
    Database,
    balance_of,
    lemma_no_payments_zero_balance,
    lemma_payment_moves_balance,
    lemma_settlement_moves_balance,
    lemma_unreferenced_count_zero,
    payment_count,
    appended,
    has_room_for,
    has_user,
    lemma_add_user_result,
    user_index,
    user_added,
    user_id_of,
};
use crate::messages::Message;

verus! {

/// One more user and one more payment can be given identities.
pub open spec fn store_has_room(db: Database) -> bool {
    has_room_for(db.users().len()) && has_room_for(db.payments().len())
}

/// Splitting a payment: the friend is found or added, and half the entered
/// total (zero where it cannot be read) is recorded for the friend.
pub open spec fn split_recorded(
    old: Database,
    new: Database,
    friend: Seq<char>,
    description: Seq<char>,
    amount_text: Seq<char>,
) -> bool {
    &&& user_added(old.users(), new.users(), friend)
    &&& has_user(new.users(), friend)
    &&& appended(
        old.payments(),
        new.payments(),
        description,
        split_share(amount_or_zero(amount_text)),
        user_id_of(new.users(), friend),
        friend,
    )
}

/// The state after `message`. A write that the store has no room for is
/// left out, with the state it would have changed.
pub open spec fn update_post(old: App, message: Message, new: App) -> bool {
    match message {
        Message::SplitWithInputChanged(v) => new == (App { split_with_input: v, ..old }),
        Message::AmountInputChanged(v) => new == (App { amount_input: v, ..old }),
        Message::DescriptionInputChanged(v) => new == (App { description_input: v, ..old }),
        Message::SplitPayment => if old.split_with_input@.len() > 0 && old.amount_input@.len() > 0
            && store_has_room(old.db) {
            &&& split_recorded(
                old.db,
                new.db,
                old.split_with_input@,
                old.description_input@,
                old.amount_input@,
            )
            &&& new.snapshots_fresh()
            &&& new.split_with_input@.len() == 0
            &&& new.amount_input@.len() == 0
            &&& new.description_input@.len() == 0
            &&& new.settle_amount_input == old.settle_amount_input
            &&& new.settle_with == old.settle_with
            &&& new.active_tab == old.active_tab
        } else {
            new == old
        },
        Message::SettleUp(u) => {
            &&& new.settle_amount_input@.len() == 0
            &&& new == (App {
                settle_with: Some(u),
                settle_amount_input: new.settle_amount_input,
                active_tab: Tab::SettleUp(u),
                ..old
            })
        },
        Message::SettleAmountChanged(v) => new == (App { settle_amount_input: v, ..old }),
        Message::ConfirmSettleUp => match old.settle_with {
            None => new == old,
            Some(u) => {
                &&& new.settle_with is None
                &&& new.settle_amount_input@.len() == 0
                &&& new.active_tab is Payments
                &&& new.split_with_input == old.split_with_input
                &&& new.amount_input == old.amount_input
                &&& new.description_input == old.description_input
                &&& if old.settle_amount_input@.len() > 0 && store_has_room(old.db) {
                    &&& old.db.settle_post(
                        u@,
                        amount_or_zero(old.settle_amount_input@),
                        new.db,
                        Ok(()),
                    )
                    &&& new.snapshots_fresh()
                } else {
                    &&& new.db == old.db
                    &&& new.payments == old.payments
                    &&& new.balances == old.balances
                }
            },
        },
        Message::SwitchToPayments => new == (App { active_tab: Tab::Payments, ..old }),
        Message::SwitchToHistory => new == (App { active_tab: Tab::History, ..old }),
    }
}

/// Applies one message to the state, writing to the store where it asks for it.
pub fn update(app: &mut App, message: Message)
    requires
        old(app).db.wf(),
    ensures
        final(app).db.wf(),
        update_post(*old(app), message, *final(app)),
{
    match message {
        Message::SplitWithInputChanged(value) => {
            app.split_with_input = value;
        },
        Message::AmountInputChanged(value) => {
            app.amount_input = value;
        },
        Message::DescriptionInputChanged(value) => {
            app.description_input = value;
        },
        Message::SplitPayment => {
            if !app.split_with_input.as_str().is_empty() && !app.amount_input.as_str().is_empty()
                && app.db.has_room() {
                let ghost d0 = app.db;
                let r = app.db.add_user(app.split_with_input.as_str());
                proof {
                    lemma_add_user_result(d0, app.split_with_input@, app.db, r);
                }
                let friend_id = r.unwrap();
                let amount = split_share_of(amount_or_zero_of(app.amount_input.as_str()));
                let r2 = app.db.add_payment(app.description_input.as_str(), amount, friend_id);
                assert(r2 is Ok);
                app.payments = app.db.get_all_payments();
                app.balances = app.db.get_balances_with_users();
                app.split_with_input = String::new();
                app.amount_input = String::new();
                app.description_input = String::new();
            }
        },
        Message::SettleUp(user) => {
            app.settle_with = Some(user.clone());
            app.settle_amount_input = String::new();
            app.active_tab = Tab::SettleUp(user);
        },
        Message::SettleAmountChanged(value) => {
            app.settle_amount_input = value;
        },
        Message::ConfirmSettleUp => {
            let user = match &app.settle_with {
                Some(u) => u.clone(),
                None => return ,
            };
            if !app.settle_amount_input.as_str().is_empty() && app.db.has_room() {
                let amount = amount_or_zero_of(app.settle_amount_input.as_str());
                let _ = app.db.settle_payment(user.as_str(), amount);
                app.payments = app.db.get_all_payments();
                app.balances = app.db.get_balances_with_users();
            }
            app.settle_with = None;
            app.settle_amount_input = String::new();
            app.active_tab = Tab::Payments;
        },
        Message::SwitchToPayments => app.active_tab = Tab::Payments,
        Message::SwitchToHistory => app.active_tab = Tab::History,
    }
}

/// The settle-up view is on show only together with the user it settles with.
pub open spec fn tab_consistent(app: App) -> bool {
    match app.active_tab {
        Tab::SettleUp(u) => app.settle_with == Some(u),
        _ => true,
    }
}

/// Asking to settle up with `u` always lands on `SettleUp(u)`; from the
/// settle-up view, confirming or cancelling always lands on `Payments`; and
/// the settle-up view keeps its user.
pub proof fn lemma_tab_transitions(a: App, m: Message, b: App)
    requires
        update_post(a, m, b),
    ensures
        m is SettleUp ==> b.active_tab == Tab::SettleUp(m->SettleUp_0),
        a.active_tab is SettleUp && tab_consistent(a) && (m is ConfirmSettleUp
            || m is SwitchToPayments) ==> b.active_tab is Payments,
        tab_consistent(a) ==> tab_consistent(b),
{
}

/// An entered total that cannot be read is split as zero: the payment
/// recorded has amount zero.
pub proof fn lemma_unreadable_split_is_zero(a: App, b: App)
    requires
        update_post(a, Message::SplitPayment, b),
        a.split_with_input@.len() > 0,
        a.amount_input@.len() > 0,
        store_has_room(a.db),
        amount_of(a.amount_input@) is None,
    ensures
        b.db.payments().len() == a.db.payments().len() + 1,
        b.db.payments().last().amount == 0,
{
}

/// A settlement amount that cannot be read settles nothing: every balance
/// stays as it was.
pub proof fn lemma_unreadable_settlement_is_void(a: App, b: App, id: int)
    requires
        update_post(a, Message::ConfirmSettleUp, b),
        amount_of(a.settle_amount_input@) is None,
    ensures
        balance_of(b.db.payments(), id) == balance_of(a.db.payments(), id),
{
    if let Some(u) = a.settle_with {
        if a.settle_amount_input@.len() > 0 && store_has_room(a.db) {
            lemma_settlement_moves_balance(a.db, u@, 0, b.db, Ok(()), id);
        }
    }
}

/// Splitting an entered total `T` with a friend who has no payments yet,
/// then settling up with that friend for an entered amount worth `T/2`,
/// leaves the friend's balance at zero.
pub proof fn lemma_split_then_settle_zeroes(
    a: App,
    b: App,
    c: App,
    d: App,
    e: App,
    friend: String,
    settle_text: String,
)
    requires
        a.db.wf(),
        friend@.len() > 0,
        a.split_with_input@ == friend@,
        a.amount_input@.len() > 0,
        store_has_room(a.db),
        !has_user(a.db.users(), friend@) || payment_count(
            a.db.payments(),
            user_id_of(a.db.users(), friend@),
        ) == 0,
        update_post(a, Message::SplitPayment, b),
        update_post(b, Message::SettleUp(friend), c),
        update_post(c, Message::SettleAmountChanged(settle_text), d),
        amount_or_zero(settle_text@) == split_share(amount_or_zero(a.amount_input@)),
        store_has_room(d.db),
        update_post(d, Message::ConfirmSettleUp, e),
    ensures
        has_user(e.db.users(), friend@),
        balance_of(e.db.payments(), user_id_of(e.db.users(), friend@)) == 0,
{
    let f = friend@;
    let share = split_share(amount_or_zero(a.amount_input@));
    let id = user_id_of(b.db.users(), f);
    if has_user(a.db.users(), f) {
        assert(user_id_of(a.db.users(), f) == id);
    } else {
        assert(id == a.db.users().len() + 1) by {
            let us = b.db.users();
            let l = us.len() - 1;
            assert(us[l].name@ == f);
            assert(us.drop_last() == a.db.users());
            let i = user_index(us, f);
            if i != l {
                assert(us[i] == a.db.users()[i]);
                assert(has_user(a.db.users(), f));
            }
        }
        assert forall|j: int| 0 <= j < a.db.payments().len() implies (
        #[trigger] a.db.payments()[j]).payee_id != id by {}
        lemma_unreferenced_count_zero(a.db.payments(), id);
    }
    lemma_no_payments_zero_balance(a.db.payments(), id);
    assert(balance_of(b.db.payments(), id) == share) by {
        assert(b.db.payments().drop_last() == a.db.payments());
    }
    assert(d.db == b.db);
    if settle_text@.len() > 0 {
        lemma_settlement_moves_balance(d.db, f, share, e.db, Ok(()), id);
    }
}

} // verus!
