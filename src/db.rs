use vstd::prelude::*;
use crate::amount::split_share;

verus! {

/// A friend, known by a unique name.
pub struct User {
    pub id: i64,
    pub name: String,
}

/// One recorded amount owed by (positive) or to (negative) a friend, in cents.
pub struct Payment {
    pub id: i64,
    pub description: String,
    pub amount: i64,
    pub payee_id: i64,
    pub is_settled: bool,
    pub payee_name: String,
}

#[derive(Debug, Clone, Copy, PartialEq, Eq, Structural)]
pub enum StoreError {
    /// No further identity fits in an `i64`.
    Full,
    /// The payment names a user that the store does not hold.
    UnknownPayee,
}

/// The store of users and payments.
pub struct Database {
    users: Vec<User>,
    payments: Vec<Payment>,
}

/// Identities are 1, 2, ... in order of creation, and names are unique.
pub open spec fn users_wf(us: Seq<User>) -> bool {
    &&& forall|i: int| 0 <= i < us.len() ==> (#[trigger] us[i]).id == i + 1
    &&& forall|i: int, j: int|
        0 <= i < us.len() && 0 <= j < us.len() && i != j ==> (#[trigger] us[i]).name@
            != (#[trigger] us[j]).name@
}

/// Every payment refers to a stored user and carries that user's name.
pub open spec fn payments_wf(ps: Seq<Payment>, us: Seq<User>) -> bool {
    forall|j: int|
        0 <= j < ps.len() ==> {
            &&& (#[trigger] ps[j]).id == j + 1
            &&& 1 <= ps[j].payee_id <= us.len()
            &&& ps[j].payee_name@ == us[ps[j].payee_id - 1].name@
            &&& !ps[j].is_settled
        }
}

pub open spec fn has_user(us: Seq<User>, name: Seq<char>) -> bool {
    exists|i: int| 0 <= i < us.len() && (#[trigger] us[i]).name@ == name
}

/// The position of the user with the given name.
pub open spec fn user_index(us: Seq<User>, name: Seq<char>) -> int {
    choose|i: int| 0 <= i < us.len() && (#[trigger] us[i]).name@ == name
}

pub open spec fn user_id_of(us: Seq<User>, name: Seq<char>) -> int {
    us[user_index(us, name)].id as int
}

/// A further identity fits in an `i64`.
pub open spec fn has_room_for(len: nat) -> bool {
    len < i64::MAX
}

/// Net balance with the user of identity `id`: the sum of that user's amounts.
pub open spec fn balance_of(ps: Seq<Payment>, id: int) -> int
    decreases ps.len(),
{
    if ps.len() == 0 {
        0
    } else {
        balance_of(ps.drop_last(), id) + if ps.last().payee_id == id {
            ps.last().amount as int
        } else {
            0
        }
    }
}

/// Number of payments of the user of identity `id`.
pub open spec fn payment_count(ps: Seq<Payment>, id: int) -> nat
    decreases ps.len(),
{
    if ps.len() == 0 {
        0
    } else {
        payment_count(ps.drop_last(), id) + if ps.last().payee_id == id {
            1nat
        } else {
            0nat
        }
    }
}

/// One row per user with at least one payment, in order of creation:
/// the user's name and net balance.
pub open spec fn balance_rows(us: Seq<User>, ps: Seq<Payment>) -> Seq<(Seq<char>, int)>
    decreases us.len(),
{
    if us.len() == 0 {
        Seq::empty()
    } else {
        let rest = balance_rows(us.drop_last(), ps);
        let u = us.last();
        if payment_count(ps, u.id as int) > 0 {
            rest.push((u.name@, balance_of(ps, u.id as int)))
        } else {
            rest
        }
    }
}

pub open spec fn rows_view(rows: Seq<(String, i128)>) -> Seq<(Seq<char>, int)> {
    rows.map_values(|r: (String, i128)| (r.0@, r.1 as int))
}

/// `new` is `old` with one more payment at the end, with the next identity.
pub open spec fn appended(
    old: Seq<Payment>,
    new: Seq<Payment>,
    description: Seq<char>,
    amount: int,
    payee_id: int,
    payee_name: Seq<char>,
) -> bool {
    &&& new.len() == old.len() + 1
    &&& new.drop_last() == old
    &&& new.last().id == old.len() + 1
    &&& new.last().description@ == description
    &&& new.last().amount == amount
    &&& new.last().payee_id == payee_id
    &&& new.last().payee_name@ == payee_name
    &&& !new.last().is_settled
}

/// Description recorded for a settlement with `name`.
pub open spec fn settlement_description(name: Seq<char>) -> Seq<char> {
    "Settlement with "@ + name
}

/// `new` holds the users of `old`, with a user of this name added at the end
/// where `old` had none.
pub open spec fn user_added(old: Seq<User>, new: Seq<User>, name: Seq<char>) -> bool {
    if has_user(old, name) {
        new == old
    } else {
        &&& new.len() == old.len() + 1
        &&& new.drop_last() == old
        &&& new.last().id == old.len() + 1
        &&& new.last().name@ == name
    }
}

impl Database {
    pub closed spec fn users(&self) -> Seq<User> {
        self.users@
    }

    pub closed spec fn payments(&self) -> Seq<Payment> {
        self.payments@
    }

    pub open spec fn wf(&self) -> bool {
        users_wf(self.users()) && payments_wf(self.payments(), self.users())
    }

    /// What `add_user` does: the existing identity for a known name, else a
    /// new user at the end.
    pub open spec fn add_user_post(
        self,
        name: Seq<char>,
        new: Database,
        r: Result<i64, StoreError>,
    ) -> bool {
        if has_user(self.users(), name) {
            r == Ok::<i64, StoreError>(user_id_of(self.users(), name) as i64) && new == self
        } else if has_room_for(self.users().len()) {
            &&& r == Ok::<i64, StoreError>((self.users().len() + 1) as i64)
            &&& new.users().len() == self.users().len() + 1
            &&& new.users().drop_last() == self.users()
            &&& new.users().last().id == self.users().len() + 1
            &&& new.users().last().name@ == name
            &&& new.payments() == self.payments()
        } else {
            r == Err::<i64, StoreError>(StoreError::Full) && new == self
        }
    }

    /// What `add_payment` does: one payment appended for a stored payee.
    pub open spec fn add_payment_post(
        self,
        description: Seq<char>,
        amount: int,
        payee_id: int,
        new: Database,
        r: Result<(), StoreError>,
    ) -> bool {
        if !(1 <= payee_id <= self.users().len()) {
            r == Err::<(), StoreError>(StoreError::UnknownPayee) && new == self
        } else if !has_room_for(self.payments().len()) {
            r == Err::<(), StoreError>(StoreError::Full) && new == self
        } else {
            &&& r == Ok::<(), StoreError>(())
            &&& new.users() == self.users()
            &&& appended(
                self.payments(),
                new.payments(),
                description,
                amount,
                payee_id,
                self.users()[payee_id - 1].name@,
            )
        }
    }

    /// What `settle_payment` does: nothing for an unknown name, else a
    /// payment of the negated amount.
    pub open spec fn settle_post(
        self,
        name: Seq<char>,
        amount: int,
        new: Database,
        r: Result<(), StoreError>,
    ) -> bool {
        if !has_user(self.users(), name) {
            r == Ok::<(), StoreError>(()) && new == self
        } else if !has_room_for(self.payments().len()) {
            r == Err::<(), StoreError>(StoreError::Full) && new == self
        } else {
            &&& r == Ok::<(), StoreError>(())
            &&& new.users() == self.users()
            &&& appended(
                self.payments(),
                new.payments(),
                settlement_description(name),
                -amount,
                user_id_of(self.users(), name),
                name,
            )
        }
    }

    /// An empty store.
    pub fn new() -> (r: Result<Database, StoreError>)
        ensures
            r is Ok,
            r.unwrap().wf(),
            r.unwrap().users().len() == 0,
            r.unwrap().payments().len() == 0,
    {
        Ok(Database { users: Vec::new(), payments: Vec::new() })
    }

    /// Whether one more user and one more payment can be given identities.
    pub fn has_room(&self) -> (r: bool)
        ensures
            r == (has_room_for(self.users().len()) && has_room_for(self.payments().len())),
    {
        (self.users.len() as u64) < (i64::MAX as u64) && (self.payments.len() as u64) < (
        i64::MAX as u64)
    }

    fn find_user(&self, name: &str) -> (r: Option<usize>)
        requires
            self.wf(),
        ensures
            r is Some == has_user(self.users(), name@),
            r is Some ==> r.unwrap() == user_index(self.users(), name@) && r.unwrap()
                < self.users().len(),
    {
        let key = name.to_owned();
        let mut i: usize = 0;
        while i < self.users.len()
            invariant
                i <= self.users@.len(),
                self.wf(),
                key@ == name@,
                forall|k: int| 0 <= k < i ==> (#[trigger] self.users@[k]).name@ != name@,
            decreases self.users@.len() - i,
        {
            if self.users[i].name == key {
                assert(has_user(self.users(), name@));
                assert(user_index(self.users(), name@) == i) by {
                    let c = user_index(self.users(), name@);
                    assert(self.users@[i as int].name@ == name@);
                    assert(0 <= c < self.users@.len());
                    assert(self.users@[c].name@ == name@);
                    if c != i {
                        assert(self.users@[c].name@ != self.users@[i as int].name@);
                    }
                }
                return Some(i);
            }
            i = i + 1;
        }
        None
    }

    /// The user with the given name, if any.
    pub fn get_user_by_name(&self, name: &str) -> (r: Option<User>)
        requires
            self.wf(),
        ensures
            r is Some == has_user(self.users(), name@),
            r is Some ==> r.unwrap() == self.users()[user_index(self.users(), name@)],
    {
        match self.find_user(name) {
            Some(i) => Some(User { id: self.users[i].id, name: self.users[i].name.clone() }),
            None => None,
        }
    }

    /// The identity of the user with this name, created if absent.
    pub fn add_user(&mut self, name: &str) -> (r: Result<i64, StoreError>)
        requires
            old(self).wf(),
        ensures
            final(self).wf(),
            old(self).add_user_post(name@, *final(self), r),
    {
        if let Some(i) = self.find_user(name) {
            return Ok(self.users[i].id);
        }
        if (self.users.len() as u64) >= (i64::MAX as u64) {
            return Err(StoreError::Full);
        }
        let id: i64 = self.users.len() as i64 + 1;
        let ghost before = self.users@;
        self.users.push(User { id, name: name.to_owned() });
        assert(self.users@.drop_last() =~= before);
        assert forall|j: int| 0 <= j < self.payments@.len() implies (#[trigger] self.payments@[j]).payee_name@
            == self.users@[self.payments@[j].payee_id - 1].name@ by {
            assert(self.users@[self.payments@[j].payee_id - 1] == before[self.payments@[j].payee_id - 1]);
        }
        Ok(id)
    }

    /// Records a payment of `amount` cents for the user of identity `payee_id`.
    pub fn add_payment(&mut self, description: &str, amount: i64, payee_id: i64) -> (r: Result<
        (),
        StoreError,
    >)
        requires
            old(self).wf(),
        ensures
            final(self).wf(),
            old(self).add_payment_post(description@, amount as int, payee_id as int, *final(self), r),
    {
        if payee_id < 1 || payee_id as u64 > self.users.len() as u64 {
            return Err(StoreError::UnknownPayee);
        }
        if (self.payments.len() as u64) >= (i64::MAX as u64) {
            return Err(StoreError::Full);
        }
        let idx = (payee_id - 1) as usize;
        self.push_payment(description.to_owned(), amount, idx);
        Ok(())
    }

    fn push_payment(&mut self, description: String, amount: i64, idx: usize)
        requires
            old(self).wf(),
            idx < old(self).users().len(),
            has_room_for(old(self).payments().len()),
        ensures
            final(self).wf(),
            final(self).users() == old(self).users(),
            appended(
                old(self).payments(),
                final(self).payments(),
                description@,
                amount as int,
                idx + 1,
                old(self).users()[idx as int].name@,
            ),
    {
        let id: i64 = self.payments.len() as i64 + 1;
        let payee_name = self.users[idx].name.clone();
        let payee_id = self.users[idx].id;
        let ghost before = self.payments@;
        self.payments.push(
            Payment { id, description, amount, payee_id, is_settled: false, payee_name },
        );
        assert(self.payments@.drop_last() =~= before);
        assert forall|j: int| 0 <= j < self.payments@.len() implies {
            &&& (#[trigger] self.payments@[j]).id == j + 1
            &&& 1 <= self.payments@[j].payee_id <= self.users@.len()
            &&& self.payments@[j].payee_name@ == self.users@[self.payments@[j].payee_id - 1].name@
            &&& !self.payments@[j].is_settled
        } by {
            if j < before.len() {
                assert(self.payments@[j] == before[j]);
            }
        }
    }

    /// Records a settlement of `amount` cents with the named user, as a payment
    /// of the negated amount; does nothing when no user has that name.
    pub fn settle_payment(&mut self, user_name: &str, amount: i64) -> (r: Result<(), StoreError>)
        requires
            old(self).wf(),
            amount != i64::MIN,
        ensures
            final(self).wf(),
            old(self).settle_post(user_name@, amount as int, *final(self), r),
    {
        let idx = match self.find_user(user_name) {
            Some(i) => i,
            None => return Ok(()),
        };
        if (self.payments.len() as u64) >= (i64::MAX as u64) {
            return Err(StoreError::Full);
        }
        let mut description = String::from_str("Settlement with ");
        description.append(user_name);
        proof {
            let c = user_index(self.users(), user_name@);
            assert(self.users@[c].name@ == user_name@);
        }
        self.push_payment(description, -amount, idx);
        Ok(())
    }

    /// All users, in order of creation.
    pub fn get_all_users(&self) -> (r: Vec<User>)
        ensures
            r@ == self.users(),
    {
        let mut out: Vec<User> = Vec::new();
        let mut i: usize = 0;
        while i < self.users.len()
            invariant
                i <= self.users@.len(),
                out@ == self.users@.subrange(0, i as int),
            decreases self.users@.len() - i,
        {
            let u = &self.users[i];
            out.push(User { id: u.id, name: u.name.clone() });
            i = i + 1;
            assert(out@ =~= self.users@.subrange(0, i as int));
        }
        assert(self.users@.subrange(0, i as int) =~= self.users@);
        out
    }

    /// All payments with their payee's name, in order of recording.
    pub fn get_all_payments(&self) -> (r: Vec<Payment>)
        ensures
            r@ == self.payments(),
    {
        let mut out: Vec<Payment> = Vec::new();
        let mut i: usize = 0;
        while i < self.payments.len()
            invariant
                i <= self.payments@.len(),
                out@ == self.payments@.subrange(0, i as int),
            decreases self.payments@.len() - i,
        {
            let p = &self.payments[i];
            out.push(
                Payment {
                    id: p.id,
                    description: p.description.clone(),
                    amount: p.amount,
                    payee_id: p.payee_id,
                    is_settled: p.is_settled,
                    payee_name: p.payee_name.clone(),
                },
            );
            i = i + 1;
            assert(out@ =~= self.payments@.subrange(0, i as int));
        }
        assert(self.payments@.subrange(0, i as int) =~= self.payments@);
        out
    }

    /// Net balance and whether any payment exists, for one identity.
    fn balance_for(&self, id: i64) -> (r: (i128, bool))
        ensures
            r.0 == balance_of(self.payments(), id as int),
            r.1 == (payment_count(self.payments(), id as int) > 0),
    {
        let mut sum: i128 = 0;
        let mut seen = false;
        let mut j: usize = 0;
        while j < self.payments.len()
            invariant
                j <= self.payments@.len(),
                sum == balance_of(self.payments@.subrange(0, j as int), id as int),
                seen == (payment_count(self.payments@.subrange(0, j as int), id as int) > 0),
                -(j as int) * 0x8000_0000_0000_0000 <= sum <= (j as int) * 0x8000_0000_0000_0000,
            decreases self.payments@.len() - j,
        {
            let p = &self.payments[j];
            assert(self.payments@.subrange(0, j + 1).drop_last() =~= self.payments@.subrange(
                0,
                j as int,
            ));
            if p.payee_id == id {
                sum = sum + p.amount as i128;
                seen = true;
            }
            j = j + 1;
        }
        assert(self.payments@.subrange(0, j as int) =~= self.payments@);
        (sum, seen)
    }

    /// For each user with at least one payment, in order of creation, the
    /// name and the net balance in cents. Users without payments do not appear.
    pub fn get_balances_with_users(&self) -> (r: Vec<(String, i128)>)
        ensures
            rows_view(r@) == balance_rows(self.users(), self.payments()),
    {
        let mut out: Vec<(String, i128)> = Vec::new();
        let mut i: usize = 0;
        while i < self.users.len()
            invariant
                i <= self.users@.len(),
                rows_view(out@) == balance_rows(self.users@.subrange(0, i as int), self.payments@),
            decreases self.users@.len() - i,
        {
            let (sum, seen) = self.balance_for(self.users[i].id);
            assert(self.users@.subrange(0, i + 1).drop_last() =~= self.users@.subrange(0, i as int));
            if seen {
                let ghost prev = out@;
                out.push((self.users[i].name.clone(), sum));
                assert(rows_view(out@) =~= rows_view(prev).push((self.users@[i as int].name@, sum as int)));
            }
            i = i + 1;
        }
        assert(self.users@.subrange(0, i as int) =~= self.users@);
        out
    }
}

/// The identity that `add_user` returns is the one the store then holds
/// for that name.
pub proof fn lemma_add_user_result(
    d: Database,
    name: Seq<char>,
    new: Database,
    r: Result<i64, StoreError>,
)
    requires
        d.wf(),
        new.wf(),
        d.add_user_post(name, new, r),
        r is Ok,
    ensures
        has_user(new.users(), name),
        r.unwrap() == user_id_of(new.users(), name),
        1 <= r.unwrap() <= new.users().len(),
        new.users()[r.unwrap() - 1].name@ == name,
        user_added(d.users(), new.users(), name),
        new.payments() == d.payments(),
{
    let us = new.users();
    if has_user(d.users(), name) {
        let c = user_index(us, name);
        assert(us[c].id == c + 1);
    } else {
        let l = us.len() - 1;
        assert(us[l].name@ == name);
        assert(has_user(us, name));
        let c = user_index(us, name);
        if c != l {
            assert(us[c].name@ != us[l].name@);
        }
    }
}

/// Adding the same name twice gives the same identity, and the second call
/// changes nothing.
pub proof fn lemma_add_user_idempotent(
    d0: Database,
    d1: Database,
    d2: Database,
    name: Seq<char>,
    r1: Result<i64, StoreError>,
    r2: Result<i64, StoreError>,
)
    requires
        d0.wf(),
        d1.wf(),
        d0.add_user_post(name, d1, r1),
        d1.add_user_post(name, d2, r2),
        r1 is Ok,
    ensures
        r2 == r1,
        d2 == d1,
{
    lemma_add_user_result(d0, name, d1, r1);
}

/// Recording a payment moves its payee's balance by its amount and leaves
/// every other balance as it was.
pub proof fn lemma_payment_moves_balance(
    d: Database,
    description: Seq<char>,
    amount: int,
    payee_id: int,
    new: Database,
    r: Result<(), StoreError>,
    id: int,
)
    requires
        d.add_payment_post(description, amount, payee_id, new, r),
        r is Ok,
    ensures
        balance_of(new.payments(), id) == balance_of(d.payments(), id) + if id == payee_id {
            amount
        } else {
            0
        },
{
}

/// Settling with a known user moves that user's balance by the negated
/// amount; nothing else moves, and nothing at all for an unknown name.
pub proof fn lemma_settlement_moves_balance(
    d: Database,
    name: Seq<char>,
    amount: int,
    new: Database,
    r: Result<(), StoreError>,
    id: int,
)
    requires
        d.settle_post(name, amount, new, r),
        r is Ok,
    ensures
        balance_of(new.payments(), id) == balance_of(d.payments(), id) - if has_user(
            d.users(),
            name,
        ) && id == user_id_of(d.users(), name) {
            amount
        } else {
            0
        },
{
}

/// Without payments a balance is zero.
pub proof fn lemma_no_payments_zero_balance(ps: Seq<Payment>, id: int)
    requires
        payment_count(ps, id) == 0,
    ensures
        balance_of(ps, id) == 0,
    decreases ps.len(),
{
    if ps.len() > 0 {
        lemma_no_payments_zero_balance(ps.drop_last(), id);
    }
}

/// No payment refers to `id`, so it has none.
pub proof fn lemma_unreferenced_count_zero(ps: Seq<Payment>, id: int)
    requires
        forall|j: int| 0 <= j < ps.len() ==> (#[trigger] ps[j]).payee_id != id,
    ensures
        payment_count(ps, id) == 0,
    decreases ps.len(),
{
    if ps.len() > 0 {
        assert forall|j: int| 0 <= j < ps.drop_last().len() implies (
        #[trigger] ps.drop_last()[j]).payee_id != id by {
            assert(ps.drop_last()[j] == ps[j]);
        }
        assert(ps[ps.len() - 1].payee_id != id);
        lemma_unreferenced_count_zero(ps.drop_last(), id);
    }
}

/// Splitting a total with a friend and then settling the friend's share
/// brings the friend's balance back to where it was: to zero for a friend
/// without earlier payments.
pub proof fn lemma_split_then_settle(
    d0: Database,
    d1: Database,
    d2: Database,
    name: Seq<char>,
    description: Seq<char>,
    total: int,
    r1: Result<(), StoreError>,
    r2: Result<(), StoreError>,
)
    requires
        d0.wf(),
        has_user(d0.users(), name),
        d0.add_payment_post(
            description,
            split_share(total),
            user_id_of(d0.users(), name),
            d1,
            r1,
        ),
        r1 is Ok,
        d1.settle_post(name, split_share(total), d2, r2),
        r2 is Ok,
    ensures
        balance_of(d2.payments(), user_id_of(d0.users(), name)) == balance_of(
            d0.payments(),
            user_id_of(d0.users(), name),
        ),
        payment_count(d0.payments(), user_id_of(d0.users(), name)) == 0 ==> balance_of(
            d2.payments(),
            user_id_of(d0.users(), name),
        ) == 0,
{
    let id = user_id_of(d0.users(), name);
    lemma_payment_moves_balance(d0, description, split_share(total), id, d1, r1, id);
    lemma_settlement_moves_balance(d1, name, split_share(total), d2, r2, id);
    if payment_count(d0.payments(), id) == 0 {
        lemma_no_payments_zero_balance(d0.payments(), id);
    }
}

/// Some user with at least one payment has this name.
pub open spec fn named_with_payments(us: Seq<User>, ps: Seq<Payment>, name: Seq<char>) -> bool {
    exists|j: int|
        0 <= j < us.len() && (#[trigger] us[j]).name@ == name && payment_count(ps, us[j].id as int)
            > 0
}

/// Every balance row names a user with at least one payment.
proof fn lemma_rows_referenced(us: Seq<User>, ps: Seq<Payment>)
    ensures
        forall|k: int|
            0 <= k < balance_rows(us, ps).len() ==> #[trigger] named_with_payments(
                us,
                ps,
                balance_rows(us, ps)[k].0,
            ),
    decreases us.len(),
{
    if us.len() > 0 {
        let prev = us.drop_last();
        lemma_rows_referenced(prev, ps);
        let rest = balance_rows(prev, ps);
        let rows = balance_rows(us, ps);
        assert forall|k: int| 0 <= k < rows.len() implies #[trigger] named_with_payments(
            us,
            ps,
            rows[k].0,
        ) by {
            if k < rest.len() {
                assert(rows[k] == rest[k]);
                assert(named_with_payments(prev, ps, rest[k].0));
                let j = choose|j: int|
                    0 <= j < prev.len() && (#[trigger] prev[j]).name@ == rest[k].0
                        && payment_count(ps, prev[j].id as int) > 0;
                assert(us[j] == prev[j]);
            } else {
                assert(us[us.len() - 1].name@ == rows[k].0);
            }
        }
    }
}

/// A user without payments never appears among the balances.
pub proof fn lemma_unreferenced_invisible(us: Seq<User>, ps: Seq<Payment>, i: int)
    requires
        users_wf(us),
        0 <= i < us.len(),
        payment_count(ps, us[i].id as int) == 0,
    ensures
        forall|k: int|
            0 <= k < balance_rows(us, ps).len() ==> (#[trigger] balance_rows(us, ps)[k]).0
                != us[i].name@,
{
    lemma_rows_referenced(us, ps);
    assert forall|k: int| 0 <= k < balance_rows(us, ps).len() implies (#[trigger] balance_rows(
        us,
        ps,
    )[k]).0 != us[i].name@ by {
        if balance_rows(us, ps)[k].0 == us[i].name@ {
            assert(named_with_payments(us, ps, balance_rows(us, ps)[k].0));
            let j = choose|j: int|
                0 <= j < us.len() && (#[trigger] us[j]).name@ == balance_rows(us, ps)[k].0
                    && payment_count(ps, us[j].id as int) > 0;
            if j != i {
                assert(us[j].name@ != us[i].name@);
            }
        }
    }
}

} // verus!
