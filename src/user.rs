use vstd::prelude::*;

verus! {

/// One registered user: an identity, the account tied to it, and a balance
/// in the smallest unit (e8s).
#[derive(Debug, PartialEq, Eq)]
pub struct User {
    pub principal_id: String,
    pub account_id: String,
    pub balance_e8s: u64,
}

/// The mathematical value of a `User`.
pub ghost struct UserView {
    pub principal_id: Seq<char>,
    pub account_id: Seq<char>,
    pub balance_e8s: u64,
}

/// What the registry keeps under one identity.
pub ghost struct AccountEntry {
    pub account_id: Seq<char>,
    pub balance_e8s: u64,
}

impl View for User {
    type V = UserView;

    open spec fn view(&self) -> UserView {
        UserView {
            principal_id: self.principal_id@,
            account_id: self.account_id@,
            balance_e8s: self.balance_e8s,
        }
    }
}

impl UserView {
    /// The entry that this record stands for under its identity.
    pub open spec fn entry(self) -> AccountEntry {
        AccountEntry { account_id: self.account_id, balance_e8s: self.balance_e8s }
    }
}

/// The views of a sequence of users.
pub open spec fn views(s: Seq<User>) -> Seq<UserView> {
    s.map_values(|u: User| u@)
}

impl User {
    pub fn new(principal_id: String, account_id: String, balance_e8s: u64) -> (r: User)
        ensures
            r@ == (UserView {
                principal_id: principal_id@,
                account_id: account_id@,
                balance_e8s,
            }),
    {
        User { principal_id, account_id, balance_e8s }
    }

    /// A copy of this record that shares nothing with it.
    pub fn copy(&self) -> (r: User)
        ensures
            r@ == self@,
    {
        User {
            principal_id: self.principal_id.clone(),
            account_id: self.account_id.clone(),
            balance_e8s: self.balance_e8s,
        }
    }
}

} // verus!
