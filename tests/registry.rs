use icp_dsatke_backend::registry::BackendState;
use icp_dsatke_backend::user::User;

fn store(state: &mut BackendState, id: &str, account: &str, balance: u64) -> String {
    state.add_or_update_user(id.to_string(), account.to_string(), balance)
}

fn sorted(mut users: Vec<User>) -> Vec<User> {
    users.sort_by(|a, b| a.principal_id.cmp(&b.principal_id));
    users
}

fn user(id: &str, account: &str, balance: u64) -> User {
    User::new(id.to_string(), account.to_string(), balance)
}

#[test]
fn new_identity_adds_one_to_count() {
    let mut state = BackendState::new();
    assert_eq!(state.user_count(), 0);
    store(&mut state, "p1", "a1", 1);
    assert_eq!(state.user_count(), 1);
    store(&mut state, "p2", "a2", 2);
    assert_eq!(state.user_count(), 2);
}

#[test]
fn existing_identity_keeps_count_and_replaces_values() {
    let mut state = BackendState::new();
    store(&mut state, "p1", "a1", 1);
    store(&mut state, "p2", "a2", 2);
    store(&mut state, "p1", "a9", 9);
    assert_eq!(state.user_count(), 2);
    assert_eq!(
        sorted(state.get_all_users()),
        vec![user("p1", "a9", 9), user("p2", "a2", 2)]
    );
}

#[test]
fn one_upsert_lists_one_record() {
    let mut state = BackendState::new();
    store(&mut state, "p1", "a1", 100);
    assert_eq!(state.get_all_users(), vec![user("p1", "a1", 100)]);
}

#[test]
fn second_upsert_overwrites_whole_record() {
    let mut state = BackendState::new();
    store(&mut state, "p1", "a1", 100);
    store(&mut state, "p1", "a2", 200);
    assert_eq!(state.get_all_users(), vec![user("p1", "a2", 200)]);
}

#[test]
fn two_identities_list_two_records() {
    let mut state = BackendState::new();
    store(&mut state, "p1", "a1", 1);
    store(&mut state, "p2", "a2", 2);
    let all = state.get_all_users();
    assert_eq!(all.len(), 2);
    assert_eq!(sorted(all), vec![user("p1", "a1", 1), user("p2", "a2", 2)]);
}

#[test]
fn fresh_registry_lists_nothing() {
    let state = BackendState::new();
    assert!(state.get_all_users().is_empty());
    let default_state = BackendState::default();
    assert!(default_state.get_all_users().is_empty());
    assert_eq!(default_state.user_count(), 0);
}

#[test]
fn listing_matches_last_upsert_per_identity() {
    let ops = [
        ("p1", "a1", 1u64),
        ("p2", "a2", 2),
        ("p3", "a3", 3),
        ("p2", "b2", 20),
        ("p1", "b1", 10),
        ("p2", "c2", 200),
    ];
    let mut state = BackendState::new();
    for (id, account, balance) in ops.iter() {
        store(&mut state, id, account, *balance);
    }
    assert_eq!(
        sorted(state.get_all_users()),
        vec![user("p1", "b1", 10), user("p2", "c2", 200), user("p3", "a3", 3)]
    );
}

#[test]
fn repeated_identical_upsert_is_idempotent() {
    let mut once = BackendState::new();
    store(&mut once, "p1", "a1", 5);
    let mut twice = BackendState::new();
    store(&mut twice, "p1", "a1", 5);
    store(&mut twice, "p1", "a1", 5);
    assert_eq!(once.get_all_users(), twice.get_all_users());
    assert_eq!(twice.user_count(), 1);
}

#[test]
fn confirmation_names_identity() {
    let mut state = BackendState::new();
    assert_eq!(store(&mut state, "p1", "a1", 100), "User p1 stored successfully");
    assert_eq!(store(&mut state, "", "a1", 100), "User  stored successfully");
}

#[test]
fn empty_strings_and_largest_balance_are_stored() {
    let mut state = BackendState::new();
    store(&mut state, "", "", u64::MAX);
    store(&mut state, "p1", "", 0);
    assert_eq!(
        sorted(state.get_all_users()),
        vec![user("", "", u64::MAX), user("p1", "", 0)]
    );
}

#[test]
fn accounts_need_not_be_unique() {
    let mut state = BackendState::new();
    store(&mut state, "p1", "shared", 1);
    store(&mut state, "p2", "shared", 2);
    assert_eq!(state.user_count(), 2);
}

#[test]
fn listing_is_a_copy() {
    let mut state = BackendState::new();
    store(&mut state, "p1", "a1", 1);
    let mut all = state.get_all_users();
    all[0].balance_e8s = 999;
    all[0].account_id.push_str("x");
    all.clear();
    assert_eq!(state.get_all_users(), vec![user("p1", "a1", 1)]);
}

#[test]
fn user_copy_keeps_fields() {
    let u = user("p1", "a1", 7);
    assert_eq!(u.copy(), u);
}
