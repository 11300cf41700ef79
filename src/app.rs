use vstd::prelude::*;
use crate::db::{Database, Payment, rows_view, balance_rows};

verus! {

/// The view on show.
#[derive(Debug, Clone)]
pub enum Tab {
    Payments,
    SettleUp(String),
    History,
}

/// The application state: input buffers, the store, and snapshots of its
/// payments and balances.
pub struct App {
    pub db: Database,
    pub split_with_input: String,
    pub amount_input: String,
    pub description_input: String,
    pub settle_amount_input: String,
    pub settle_with: Option<String>,
    pub payments: Vec<Payment>,
    pub balances: Vec<(String, i128)>,
    pub active_tab: Tab,
}

impl App {
    /// The snapshots agree with the store.
    pub open spec fn snapshots_fresh(&self) -> bool {
        &&& self.payments@ == self.db.payments()
        &&& rows_view(self.balances@) == balance_rows(self.db.users(), self.db.payments())
    }

    /// A fresh state over an empty store.
    pub fn new() -> (r: App)
        ensures
            r.db.wf(),
            r.db.users().len() == 0,
            r.db.payments().len() == 0,
            r.snapshots_fresh(),
            r.payments@.len() == 0,
            r.balances@.len() == 0,
            r.split_with_input@.len() == 0,
            r.amount_input@.len() == 0,
            r.description_input@.len() == 0,
            r.settle_amount_input@.len() == 0,
            r.settle_with is None,
            r.active_tab is Payments,
    {
        let db = Database::new().unwrap();
        let r = App::with_database(db);
        proof {
            assert(rows_view(r.balances@).len() == r.balances@.len());
            assert(balance_rows(r.db.users(), r.db.payments()).len() == 0);
        }
        r
    }

    /// A fresh state over the given store, with its payments and balances loaded.
    pub fn with_database(db: Database) -> (r: App)
        requires
            db.wf(),
        ensures
            r.db == db,
            r.snapshots_fresh(),
            r.split_with_input@.len() == 0,
            r.amount_input@.len() == 0,
            r.description_input@.len() == 0,
            r.settle_amount_input@.len() == 0,
            r.settle_with is None,
            r.active_tab is Payments,
    {
        let payments = db.get_all_payments();
        let balances = db.get_balances_with_users();
        App {
            db,
            split_with_input: String::new(),
            amount_input: String::new(),
            description_input: String::new(),
            settle_amount_input: String::new(),
            settle_with: None,
            payments,
            balances,
            active_tab: Tab::Payments,
        }
    }
}

} // verus!
