use vstd::prelude::*;
use vstd::string::StringExecFns;

use crate::user::{views, AccountEntry, User, UserView};

verus! {

/// The registry's map after storing `(account_id, balance_e8s)` under
/// `principal_id`, replacing whatever was stored there.
pub open spec fn upserted(
    m: Map<Seq<char>, AccountEntry>,
    principal_id: Seq<char>,
    account_id: Seq<char>,
    balance_e8s: u64,
) -> Map<Seq<char>, AccountEntry> {
    m.insert(principal_id, AccountEntry { account_id, balance_e8s })
}

/// `s` lists every entry of `m` exactly once, as a record under its identity.
pub open spec fn is_listing_of(m: Map<Seq<char>, AccountEntry>, s: Seq<UserView>) -> bool {
    &&& s.len() == m.dom().len()
    &&& forall|i: int, j: int|
        0 <= i < j < s.len() ==> (#[trigger] s[i]).principal_id != (#[trigger] s[j]).principal_id
    &&& forall|i: int|
        0 <= i < s.len() ==> {
            &&& m.contains_key((#[trigger] s[i]).principal_id)
            &&& m[s[i].principal_id] == s[i].entry()
        }
    &&& forall|k: Seq<char>|
        #[trigger] m.contains_key(k) ==> exists|i: int| 0 <= i < s.len() && s[i].principal_id == k
}

/// The message returned after a user is stored.
pub open spec fn confirmation(principal_id: Seq<char>) -> Seq<char> {
    "User "@ + principal_id + " stored successfully"@
}

/// All users of the service, at most one per identity.
pub struct BackendState {
    users: Vec<User>,
    entries: Ghost<Map<Seq<char>, AccountEntry>>,
}

impl View for BackendState {
    type V = Map<Seq<char>, AccountEntry>;

    closed spec fn view(&self) -> Map<Seq<char>, AccountEntry> {
        self.entries@
    }
}

impl BackendState {
    /// The stored records list the model's entries, one per identity, and
    /// the model is finite.
    pub closed spec fn wf(&self) -> bool {
        &&& self.entries@.dom().finite()
        &&& is_listing_of(self.entries@, views(self.users@))
    }

    /// An empty registry.
    pub fn new() -> (r: BackendState)
        ensures
            r.wf(),
            r@ == Map::<Seq<char>, AccountEntry>::empty(),
    {
        BackendState { users: Vec::new(), entries: Ghost(Map::empty()) }
    }

    /// How many users are stored.
    pub fn user_count(&self) -> (r: usize)
        requires
            self.wf(),
        ensures
            r == self@.dom().len(),
    {
        self.users.len()
    }

    /// Copies of all stored records, one per identity, in no promised order.
    pub fn get_all_users(&self) -> (r: Vec<User>)
        requires
            self.wf(),
        ensures
            is_listing_of(self@, views(r@)),
    {
        let mut r: Vec<User> = Vec::new();
        let mut i: usize = 0;
        while i < self.users.len()
            invariant
                i <= self.users@.len(),
                r@.len() == i,
                views(r@) == views(self.users@).subrange(0, i as int),
            decreases self.users@.len() - i,
        {
            let ghost before = r@;
            let u = self.users[i].copy();
            r.push(u);
            assert(r@ =~= before.push(u));
            assert(views(self.users@)[i as int] == self.users@[i as int]@);
            assert forall|k: int| 0 <= k < r@.len() implies #[trigger] views(r@)[k] == views(
                self.users@,
            )[k] by {
                if k < i {
                    assert(views(before)[k] == views(self.users@).subrange(0, i as int)[k]);
                }
            }
            i += 1;
            assert(views(r@) =~= views(self.users@).subrange(0, i as int));
        }
        assert(views(r@) =~= views(self.users@));
        r
    }

    /// The position of the record stored under `principal_id`, if any.
    fn position_of(&self, principal_id: &String) -> (r: Option<usize>)
        requires
            self.wf(),
        ensures
            match r {
                Some(i) => i < self.users@.len() && self.users@[i as int].principal_id@
                    == principal_id@,
                None => !self@.contains_key(principal_id@),
            },
    {
        let mut i: usize = 0;
        while i < self.users.len()
            invariant
                self.wf(),
                i <= self.users@.len(),
                forall|j: int| 0 <= j < i ==> self.users@[j].principal_id@ != principal_id@,
            decreases self.users@.len() - i,
        {
            if self.users[i].principal_id == *principal_id {
                return Some(i);
            }
            i += 1;
        }
        proof {
            if self@.contains_key(principal_id@) {
                let j = choose|j: int|
                    0 <= j < views(self.users@).len() && views(self.users@)[j].principal_id
                        == principal_id@;
                assert(self.users@[j].principal_id@ == principal_id@);
            }
        }
        None
    }

    /// Stores `(account_id, balance_e8s)` under `principal_id`, replacing any
    /// record already stored there, and returns a confirmation naming the
    /// identity.
    pub fn add_or_update_user(&mut self, principal_id: String, account_id: String, balance_e8s: u64)
        -> (r: String)
        requires
            old(self).wf(),
        ensures
            final(self).wf(),
            final(self)@ == upserted(old(self)@, principal_id@, account_id@, balance_e8s),
            r@ == confirmation(principal_id@),
    {
        let ghost id = principal_id@;
        let ghost entry = AccountEntry { account_id: account_id@, balance_e8s };
        let r = String::from_str("User ").concat(principal_id.as_str()).concat(
            " stored successfully",
        );
        let pos = self.position_of(&principal_id);
        let user = User { principal_id, account_id, balance_e8s };
        let ghost old_users = views(self.users@);
        match pos {
            Some(i) => {
                self.users[i] = user;
            },
            None => {
                self.users.push(user);
            },
        }
        self.entries = Ghost(self.entries@.insert(id, entry));
        proof {
            let s = views(self.users@);
            let m = self@;
            let m0 = old(self)@;
            match pos {
                Some(i) => {
                    assert(s =~= old_users.update(i as int, user@));
                    assert(old_users[i as int].principal_id == id);
                    assert(m0.contains_key(id));
                    assert(m.dom() =~= m0.dom());
                    assert forall|a: int| 0 <= a < s.len() implies #[trigger] s[a].principal_id
                        == old_users[a].principal_id by {}
                    assert forall|a: int| 0 <= a < s.len() implies {
                        &&& m.contains_key((#[trigger] s[a]).principal_id)
                        &&& m[s[a].principal_id] == s[a].entry()
                    } by {
                        if a != i {
                            assert(old_users[a].principal_id != old_users[i as int].principal_id);
                        }
                    }
                    assert forall|k: Seq<char>| #[trigger] m.contains_key(k) implies exists|
                        a: int,
                    | 0 <= a < s.len() && s[a].principal_id == k by {
                        let a = choose|a: int|
                            0 <= a < old_users.len() && old_users[a].principal_id == k;
                        assert(s[a].principal_id == k);
                    }
                },
                None => {
                    let last = s.len() - 1;
                    assert(s =~= old_users.push(user@));
                    assert(!m0.dom().contains(id));
                    assert(m.dom() =~= m0.dom().insert(id));
                    assert forall|a: int| 0 <= a < last implies #[trigger] s[a].principal_id
                        == old_users[a].principal_id && m0.contains_key(s[a].principal_id) by {
                        assert(m0.contains_key(old_users[a].principal_id));
                    }
                    assert(s[last].principal_id == id);
                    assert forall|a: int| 0 <= a < s.len() implies {
                        &&& m.contains_key((#[trigger] s[a]).principal_id)
                        &&& m[s[a].principal_id] == s[a].entry()
                    } by {
                        if a < last {
                            assert(m0.contains_key(old_users[a].principal_id));
                        }
                    }
                    assert forall|k: Seq<char>| #[trigger] m.contains_key(k) implies exists|
                        a: int,
                    | 0 <= a < s.len() && s[a].principal_id == k by {
                        if k == id {
                            assert(s[last].principal_id == k);
                        } else {
                            let a = choose|a: int|
                                0 <= a < old_users.len() && old_users[a].principal_id == k;
                            assert(s[a].principal_id == k);
                        }
                    }
                },
            }
        }
        r
    }
}

impl Default for BackendState {
    fn default() -> (r: BackendState)
        ensures
            r.wf(),
            r@ == Map::<Seq<char>, AccountEntry>::empty(),
    {
        BackendState::new()
    }
}

} // verus!
