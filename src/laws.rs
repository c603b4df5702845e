use vstd::prelude::*;

use crate::registry::{is_listing_of, upserted};
use crate::user::{AccountEntry, UserView};

verus! {

/// The registry's model after the calls `ops` of `add_or_update_user` on a
/// new registry, each call given as the record it stores.
pub open spec fn replay(ops: Seq<UserView>) -> Map<Seq<char>, AccountEntry>
    decreases ops.len(),
{
    if ops.len() == 0 {
        Map::empty()
    } else {
        let u = ops.last();
        upserted(replay(ops.drop_last()), u.principal_id, u.account_id, u.balance_e8s)
    }
}

/// `ops[j]` is the last call in `ops` that stores under `principal_id`.
pub open spec fn is_last_upsert_of(ops: Seq<UserView>, j: int, principal_id: Seq<char>) -> bool {
    &&& 0 <= j < ops.len()
    &&& ops[j].principal_id == principal_id
    &&& forall|k: int| j < k < ops.len() ==> (#[trigger] ops[k]).principal_id != principal_id
}

/// Storing a user under an identity that is not yet present adds exactly one
/// to the number of users.
pub proof fn lemma_upsert_new_identity_adds_one(
    m: Map<Seq<char>, AccountEntry>,
    principal_id: Seq<char>,
    account_id: Seq<char>,
    balance_e8s: u64,
)
    requires
        m.dom().finite(),
        !m.contains_key(principal_id),
    ensures
        upserted(m, principal_id, account_id, balance_e8s).dom().len() == m.dom().len() + 1,
{
}

/// Storing a user under an identity that is already present keeps the number
/// of users, replaces both the account and the balance stored there, and
/// leaves every other identity as it was.
pub proof fn lemma_upsert_existing_identity_replaces(
    m: Map<Seq<char>, AccountEntry>,
    principal_id: Seq<char>,
    account_id: Seq<char>,
    balance_e8s: u64,
)
    requires
        m.dom().finite(),
        m.contains_key(principal_id),
    ensures
        upserted(m, principal_id, account_id, balance_e8s).dom().len() == m.dom().len(),
        upserted(m, principal_id, account_id, balance_e8s)[principal_id] == (AccountEntry {
            account_id,
            balance_e8s,
        }),
        forall|k: Seq<char>|
            k != principal_id ==> #[trigger] upserted(
                m,
                principal_id,
                account_id,
                balance_e8s,
            ).contains_key(k) == m.contains_key(k) && upserted(
                m,
                principal_id,
                account_id,
                balance_e8s,
            )[k] == m[k],
{
    assert(upserted(m, principal_id, account_id, balance_e8s).dom() =~= m.dom());
}

/// Storing the same user twice in a row leaves the registry as storing it once.
pub proof fn lemma_upsert_idempotent(
    m: Map<Seq<char>, AccountEntry>,
    principal_id: Seq<char>,
    account_id: Seq<char>,
    balance_e8s: u64,
)
    ensures
        upserted(upserted(m, principal_id, account_id, balance_e8s), principal_id, account_id, balance_e8s)
            == upserted(m, principal_id, account_id, balance_e8s),
{
    assert(upserted(upserted(m, principal_id, account_id, balance_e8s), principal_id, account_id, balance_e8s)
        =~= upserted(m, principal_id, account_id, balance_e8s));
}

/// The model after `ops` is finite, holds exactly the identities that `ops`
/// stores under, and holds under each the entry of the last call for it.
proof fn lemma_replay(ops: Seq<UserView>)
    ensures
        replay(ops).dom().finite(),
        forall|k: Seq<char>|
            #[trigger] replay(ops).contains_key(k) <==> exists|j: int|
                0 <= j < ops.len() && ops[j].principal_id == k,
        forall|k: Seq<char>|
            #[trigger] replay(ops).contains_key(k) ==> exists|j: int|
                is_last_upsert_of(ops, j, k) && replay(ops)[k] == ops[j].entry(),
    decreases ops.len(),
{
    if ops.len() > 0 {
        let pre = ops.drop_last();
        let n = ops.len() - 1;
        let u = ops[n];
        lemma_replay(pre);
        assert forall|k: Seq<char>|
            #[trigger] replay(ops).contains_key(k) <==> exists|j: int|
                0 <= j < ops.len() && ops[j].principal_id == k by {
            if k == u.principal_id {
                assert(ops[n].principal_id == k);
            } else if replay(pre).contains_key(k) {
                let j = choose|j: int| 0 <= j < pre.len() && pre[j].principal_id == k;
                assert(ops[j].principal_id == k);
            } else if exists|j: int| 0 <= j < ops.len() && ops[j].principal_id == k {
                let j = choose|j: int| 0 <= j < ops.len() && ops[j].principal_id == k;
                assert(pre[j].principal_id == k);
            }
        }
        assert forall|k: Seq<char>| #[trigger] replay(ops).contains_key(k) implies exists|j: int|
            is_last_upsert_of(ops, j, k) && replay(ops)[k] == ops[j].entry() by {
            if k == u.principal_id {
                assert(is_last_upsert_of(ops, n, k));
            } else {
                let j = choose|j: int|
                    is_last_upsert_of(pre, j, k) && replay(pre)[k] == pre[j].entry();
                assert(ops[j] == pre[j]);
                assert forall|i: int| j < i < ops.len() implies (#[trigger] ops[i]).principal_id
                    != k by {
                    if i < n {
                        assert(ops[i] == pre[i]);
                    }
                }
                assert(is_last_upsert_of(ops, j, k));
            }
        }
    }
}

/// After any sequence of calls of `add_or_update_user` on a new registry,
/// every record of a listing of it is exactly the record of the last call for
/// its identity, and every identity that was stored under is listed.
pub proof fn lemma_listing_matches_last_upserts(ops: Seq<UserView>, s: Seq<UserView>)
    requires
        is_listing_of(replay(ops), s),
    ensures
        forall|i: int|
            0 <= i < s.len() ==> exists|j: int|
                is_last_upsert_of(ops, j, (#[trigger] s[i]).principal_id) && ops[j] == s[i],
        forall|j: int|
            0 <= j < ops.len() ==> exists|i: int|
                0 <= i < s.len() && s[i].principal_id == (#[trigger] ops[j]).principal_id,
{
    lemma_replay(ops);
    assert forall|i: int| 0 <= i < s.len() implies exists|j: int|
        is_last_upsert_of(ops, j, (#[trigger] s[i]).principal_id) && ops[j] == s[i] by {
        let k = s[i].principal_id;
        assert(replay(ops).contains_key(k));
        let j = choose|j: int| is_last_upsert_of(ops, j, k) && replay(ops)[k] == ops[j].entry();
        assert(ops[j] == s[i]);
    }
    assert forall|j: int| 0 <= j < ops.len() implies exists|i: int|
        0 <= i < s.len() && s[i].principal_id == (#[trigger] ops[j]).principal_id by {
        assert(replay(ops).contains_key(ops[j].principal_id));
    }
}

} // verus!
