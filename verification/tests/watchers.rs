use notify_registry::project_store::{get_project_by_project_id, upsert_project_at};
use notify_registry::records::Registry;
use notify_registry::watcher_store::{
    delete_expired_subscription_watchers, delete_expired_subscription_watchers_at,
    get_subscription_watchers_for_account_by_app_or_all_app,
    get_subscription_watchers_for_account_by_app_or_all_app_at, upsert_subscription_watcher,
    upsert_subscription_watcher_at,
};
use notify_registry::StoreError;

fn s(v: &str) -> String {
    v.to_string()
}

fn seed_project(reg: &mut Registry, pid: &str, dom: &str, topic: &str) -> u128 {
    upsert_project_at(
        &s(pid),
        &s(dom),
        &s(topic),
        &s("auth-pub"),
        &s("auth-priv"),
        &s("sub-pub"),
        &s("sub-priv"),
        100,
        reg,
    )
    .unwrap();
    get_project_by_project_id(&s(pid), reg).unwrap().id
}

#[test]
fn watcher_upsert_overwrites_by_did_key() {
    let mut reg = Registry::new();
    let p = seed_project(&mut reg, "p1", "app.com", "topic-1");
    upsert_subscription_watcher_at(&s("acct-1"), None, &s("did-1"), &s("sym-a"), 500, 10, &mut reg)
        .unwrap();
    upsert_subscription_watcher_at(
        &s("acct-1"),
        Some(p),
        &s("did-1"),
        &s("sym-b"),
        900,
        20,
        &mut reg,
    )
    .unwrap();
    let active =
        get_subscription_watchers_for_account_by_app_or_all_app_at(&s("acct-1"), &s("app.com"), 30, &reg)
            .unwrap();
    assert_eq!(active.len(), 1);
    assert_eq!(active[0].did_key, "did-1");
    assert_eq!(active[0].sym_key, "sym-b");
    assert_eq!(active[0].project, Some(p));
}

#[test]
fn watcher_upsert_rejects_unknown_project() {
    let mut reg = Registry::new();
    let r = upsert_subscription_watcher_at(
        &s("acct-1"),
        Some(77),
        &s("did-1"),
        &s("sym"),
        500,
        10,
        &mut reg,
    );
    assert_eq!(r.unwrap_err(), StoreError::Conflict);
}

#[test]
fn active_listing_serves_global_and_matching_app_only() {
    let mut reg = Registry::new();
    let p1 = seed_project(&mut reg, "p1", "app.com", "topic-1");
    let p2 = seed_project(&mut reg, "p2", "other.com", "topic-2");
    // global watcher, live
    upsert_subscription_watcher_at(&s("acct-1"), None, &s("did-g"), &s("sg"), 1000, 0, &mut reg)
        .unwrap();
    // scoped to app.com, live
    upsert_subscription_watcher_at(&s("acct-1"), Some(p1), &s("did-a"), &s("sa"), 1000, 0, &mut reg)
        .unwrap();
    // scoped to other.com, live: other app, excluded
    upsert_subscription_watcher_at(&s("acct-1"), Some(p2), &s("did-o"), &s("so"), 1000, 0, &mut reg)
        .unwrap();
    // expired at the query moment, excluded
    upsert_subscription_watcher_at(&s("acct-1"), None, &s("did-x"), &s("sx"), 50, 0, &mut reg)
        .unwrap();
    // other account, excluded
    upsert_subscription_watcher_at(&s("acct-2"), None, &s("did-y"), &s("sy"), 1000, 0, &mut reg)
        .unwrap();
    let active =
        get_subscription_watchers_for_account_by_app_or_all_app_at(&s("acct-1"), &s("app.com"), 50, &reg)
            .unwrap();
    let keys: Vec<&str> = active.iter().map(|q| q.did_key.as_str()).collect();
    assert_eq!(keys, vec!["did-g", "did-a"]);
}

#[test]
fn sweep_removes_exactly_expired_and_is_idempotent() {
    let mut reg = Registry::new();
    upsert_subscription_watcher_at(&s("a"), None, &s("did-1"), &s("s1"), 100, 0, &mut reg)
        .unwrap();
    upsert_subscription_watcher_at(&s("a"), None, &s("did-2"), &s("s2"), 200, 0, &mut reg)
        .unwrap();
    upsert_subscription_watcher_at(&s("a"), None, &s("did-3"), &s("s3"), 300, 0, &mut reg)
        .unwrap();
    let removed = delete_expired_subscription_watchers_at(200, &mut reg).unwrap();
    assert_eq!(removed, 2);
    let again = delete_expired_subscription_watchers_at(200, &mut reg).unwrap();
    assert_eq!(again, 0);
    let active =
        get_subscription_watchers_for_account_by_app_or_all_app_at(&s("a"), &s("any.com"), 200, &reg)
            .unwrap();
    assert_eq!(active.len(), 1);
    assert_eq!(active[0].did_key, "did-3");
}

#[test]
fn fresh_upsert_after_sweep_is_a_new_session() {
    let mut reg = Registry::new();
    upsert_subscription_watcher_at(&s("a"), None, &s("did-1"), &s("s1"), 100, 0, &mut reg)
        .unwrap();
    assert_eq!(delete_expired_subscription_watchers_at(100, &mut reg).unwrap(), 1);
    upsert_subscription_watcher_at(&s("a"), None, &s("did-1"), &s("s2"), 400, 150, &mut reg)
        .unwrap();
    let active =
        get_subscription_watchers_for_account_by_app_or_all_app_at(&s("a"), &s("x.com"), 150, &reg)
            .unwrap();
    assert_eq!(active.len(), 1);
    assert_eq!(active[0].sym_key, "s2");
}

#[test]
fn clocked_watcher_operations_run_against_wall_clock() {
    let mut reg = Registry::new();
    upsert_subscription_watcher(&s("acct-1"), None, &s("did-1"), &s("sym"), i64::MAX, &mut reg)
        .unwrap();
    let removed = delete_expired_subscription_watchers(&mut reg).unwrap();
    assert_eq!(removed, 0);
    let active =
        get_subscription_watchers_for_account_by_app_or_all_app(&s("acct-1"), &s("app.com"), &reg)
            .unwrap();
    assert_eq!(active.len(), 1);
    assert_eq!(active[0].sym_key, "sym");
}
