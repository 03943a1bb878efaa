use notify_registry::codec::parse_scopes_and_ignore_invalid;
use notify_registry::project_store::{
    get_project_by_app_domain, get_project_by_id, get_project_by_project_id, get_project_by_topic,
    get_project_topics, upsert_project, upsert_project_at,
};
use notify_registry::queries::{
    decode_subscriber_with_scope, get_subscriber_accounts_and_scopes_by_project_id,
    get_subscriber_accounts_by_project_id, get_subscriber_by_topic, get_subscriber_topics,
    get_subscribers_for_project_in, get_subscriptions_by_account,
    get_subscriptions_by_account_and_app, SubscriberWithScopeResult,
};
use notify_registry::records::Registry;
use notify_registry::subscriber_store::{
    delete_subscriber, update_subscriber, update_subscriber_at, update_subscriber_scope,
    upsert_subscriber, upsert_subscriber_at,
};
use notify_registry::{StoreError, THIRTY_DAYS_SECS};

fn s(v: &str) -> String {
    v.to_string()
}

fn seed_project(reg: &mut Registry, pid: &str, dom: &str, topic: &str) -> u128 {
    upsert_project_at(
        &s(pid),
        &s(dom),
        &s(topic),
        &s("auth-pub"),
        &s("auth-priv"),
        &s("sub-pub"),
        &s("sub-priv"),
        100,
        reg,
    )
    .unwrap();
    get_project_by_project_id(&s(pid), reg).unwrap().id
}

#[test]
fn project_upsert_keeps_first_keys() {
    let mut reg = Registry::new();
    let k1 = upsert_project_at(
        &s("p1"),
        &s("one.example"),
        &s("topic-1"),
        &s("auth-pub-a"),
        &s("auth-priv-a"),
        &s("sub-pub-a"),
        &s("sub-priv-a"),
        100,
        &mut reg,
    )
    .unwrap();
    assert_eq!(k1.authentication_public_key, "auth-pub-a");
    assert_eq!(k1.subscribe_public_key, "sub-pub-a");
    let k2 = upsert_project_at(
        &s("p1"),
        &s("two.example"),
        &s("topic-other"),
        &s("auth-pub-b"),
        &s("auth-priv-b"),
        &s("sub-pub-b"),
        &s("sub-priv-b"),
        200,
        &mut reg,
    )
    .unwrap();
    assert_eq!(k2.authentication_public_key, "auth-pub-a");
    assert_eq!(k2.subscribe_public_key, "sub-pub-a");
    let p = get_project_by_project_id(&s("p1"), &reg).unwrap();
    assert_eq!(p.app_domain, "two.example");
    assert_eq!(p.topic, "topic-1");
    assert_eq!(p.authentication_private_key, "auth-priv-a");
    assert_eq!(p.updated_at, 200);
    assert_eq!(p.created_at, 100);
}

#[test]
fn project_upsert_conflicts_on_taken_app_domain() {
    let mut reg = Registry::new();
    seed_project(&mut reg, "p1", "one.example", "topic-1");
    let r = upsert_project_at(
        &s("p2"),
        &s("one.example"),
        &s("topic-2"),
        &s("a"),
        &s("b"),
        &s("c"),
        &s("d"),
        100,
        &mut reg,
    );
    assert_eq!(r.unwrap_err(), StoreError::Conflict);
}

#[test]
fn project_lookups_hit_and_miss() {
    let mut reg = Registry::new();
    let id = seed_project(&mut reg, "p1", "one.example", "topic-1");
    assert_eq!(get_project_by_id(id, &reg).unwrap().project_id, "p1");
    assert_eq!(
        get_project_by_app_domain(&s("one.example"), &reg).unwrap().project_id,
        "p1"
    );
    assert_eq!(get_project_by_topic(&s("topic-1"), &reg).unwrap().project_id, "p1");
    assert_eq!(get_project_by_id(id + 1, &reg).unwrap_err(), StoreError::NotFound);
    assert_eq!(
        get_project_by_project_id(&s("absent"), &reg).unwrap_err(),
        StoreError::NotFound
    );
    assert_eq!(
        get_project_by_app_domain(&s("absent.example"), &reg).unwrap_err(),
        StoreError::NotFound
    );
    assert_eq!(get_project_by_topic(&s("absent"), &reg).unwrap_err(), StoreError::NotFound);
}

#[test]
fn project_topics_listed_in_order() {
    let mut reg = Registry::new();
    seed_project(&mut reg, "p1", "one.example", "topic-1");
    seed_project(&mut reg, "p2", "two.example", "topic-2");
    assert_eq!(get_project_topics(&reg).unwrap(), vec![s("topic-1"), s("topic-2")]);
}

#[test]
fn subscriber_upsert_stores_hex_key_and_expiry() {
    let mut reg = Registry::new();
    let pid = seed_project(&mut reg, "p1", "one.example", "topic-1");
    upsert_subscriber_at(pid, &s("acct-1"), &vec![7], &[0xabu8; 32], &s("nt-1"), 1000, &mut reg)
        .unwrap();
    let q = get_subscriber_by_topic(&s("nt-1"), &reg).unwrap();
    assert_eq!(q.sym_key, "ab".repeat(32));
    assert_eq!(q.expiry, 1000 + THIRTY_DAYS_SECS);
    assert_eq!(q.account, "acct-1");
    assert_eq!(q.scope, vec![7]);
}

#[test]
fn subscriber_upsert_needs_existing_project() {
    let mut reg = Registry::new();
    let r = upsert_subscriber_at(42, &s("acct-1"), &vec![7], &[0u8; 32], &s("nt-1"), 0, &mut reg);
    assert_eq!(r.unwrap_err(), StoreError::Conflict);
}

#[test]
fn update_replaces_scope_set_exactly() {
    let mut reg = Registry::new();
    let pid = seed_project(&mut reg, "p1", "one.example", "topic-1");
    let x = 11u128;
    let y = 22u128;
    let z = 33u128;
    upsert_subscriber_at(pid, &s("acct-1"), &vec![x, y], &[1u8; 32], &s("nt-1"), 1000, &mut reg)
        .unwrap();
    let updated = update_subscriber_at(pid, &s("acct-1"), &vec![y, z], 2000, &mut reg).unwrap();
    assert_eq!(updated.expiry, 2000 + THIRTY_DAYS_SECS);
    assert_eq!(updated.sym_key, "01".repeat(32));
    let q = get_subscriber_by_topic(&s("nt-1"), &reg).unwrap();
    let mut got = q.scope.clone();
    got.sort();
    assert_eq!(got, vec![y, z]);
}

#[test]
fn update_of_absent_subscriber_is_not_found() {
    let mut reg = Registry::new();
    let pid = seed_project(&mut reg, "p1", "one.example", "topic-1");
    let r = update_subscriber_at(pid, &s("acct-1"), &vec![1], 0, &mut reg);
    assert_eq!(r.unwrap_err(), StoreError::NotFound);
}

#[test]
fn scope_replace_alone_rejects_unknown_subscriber() {
    let mut reg = Registry::new();
    let r = update_subscriber_scope(9, &vec![1, 2], &mut reg);
    assert_eq!(r.unwrap_err(), StoreError::Conflict);
}

#[test]
fn read_by_topic_returns_upserted_set_in_any_order() {
    let mut reg = Registry::new();
    let pid = seed_project(&mut reg, "p1", "one.example", "topic-1");
    upsert_subscriber_at(
        pid,
        &s("acct-1"),
        &vec![5, 3, 9, 3],
        &[2u8; 32],
        &s("nt-1"),
        0,
        &mut reg,
    )
    .unwrap();
    let q = get_subscriber_by_topic(&s("nt-1"), &reg).unwrap();
    let mut got = q.scope.clone();
    got.sort();
    assert_eq!(got, vec![3, 5, 9]);
}

#[test]
fn delete_subscriber_is_idempotent_and_hides_reads() {
    let mut reg = Registry::new();
    let pid = seed_project(&mut reg, "p1", "one.example", "topic-1");
    let sid =
        upsert_subscriber_at(pid, &s("acct-1"), &vec![4], &[3u8; 32], &s("nt-1"), 0, &mut reg)
            .unwrap();
    assert!(delete_subscriber(sid, &mut reg).is_ok());
    assert!(delete_subscriber(sid, &mut reg).is_ok());
    assert_eq!(
        get_subscriber_by_topic(&s("nt-1"), &reg).unwrap_err(),
        StoreError::NotFound
    );
}

#[test]
fn parse_scopes_drops_malformed_entries() {
    let valid = "936da01f-9abd-4d9d-80c7-02af85c822a8";
    let raw = vec![s(valid), s("not-a-uuid")];
    let parsed = parse_scopes_and_ignore_invalid(&raw);
    assert_eq!(parsed, vec![uuid::Uuid::parse_str(valid).unwrap().as_u128()]);
}

#[test]
fn decode_subscriber_result_keeps_fields_and_drops_bad_scope() {
    let valid = "936da01f-9abd-4d9d-80c7-02af85c822a8";
    let raw = SubscriberWithScopeResult {
        id: 1,
        project: 2,
        account: s("acct-1"),
        sym_key: s("ff"),
        topic: s("nt-1"),
        scope: vec![s("garbage"), s(valid)],
        expiry: 77,
    };
    let decoded = decode_subscriber_with_scope(&raw);
    assert_eq!(decoded.account, "acct-1");
    assert_eq!(decoded.scope, vec![uuid::Uuid::parse_str(valid).unwrap().as_u128()]);
    assert_eq!(decoded.expiry, 77);
}

#[test]
fn accounts_and_scopes_listed_per_project() {
    let mut reg = Registry::new();
    let p1 = seed_project(&mut reg, "p1", "one.example", "topic-1");
    let p2 = seed_project(&mut reg, "p2", "two.example", "topic-2");
    upsert_subscriber_at(p1, &s("acct-a"), &vec![1], &[0u8; 32], &s("nt-a"), 0, &mut reg)
        .unwrap();
    upsert_subscriber_at(p1, &s("acct-b"), &vec![2, 8], &[0u8; 32], &s("nt-b"), 0, &mut reg)
        .unwrap();
    upsert_subscriber_at(p2, &s("acct-c"), &vec![3], &[0u8; 32], &s("nt-c"), 0, &mut reg)
        .unwrap();
    let accounts = get_subscriber_accounts_by_project_id(&s("p1"), &reg).unwrap();
    assert_eq!(accounts, vec![s("acct-a"), s("acct-b")]);
    let rows = get_subscriber_accounts_and_scopes_by_project_id(&s("p1"), &reg).unwrap();
    assert_eq!(rows.len(), 2);
    assert_eq!(rows[0].account, "acct-a");
    assert_eq!(rows[0].scope, vec![1]);
    assert_eq!(rows[1].account, "acct-b");
    let mut second = rows[1].scope.clone();
    second.sort();
    assert_eq!(second, vec![2, 8]);
    let topics = get_subscriber_topics(&reg).unwrap();
    assert_eq!(topics, vec![s("nt-a"), s("nt-b"), s("nt-c")]);
}

#[test]
fn subscribers_for_project_filtered_by_account_list() {
    let mut reg = Registry::new();
    let p1 = seed_project(&mut reg, "p1", "one.example", "topic-1");
    upsert_subscriber_at(p1, &s("acct-a"), &vec![1], &[0u8; 32], &s("nt-a"), 0, &mut reg)
        .unwrap();
    upsert_subscriber_at(p1, &s("acct-b"), &vec![2], &[0u8; 32], &s("nt-b"), 0, &mut reg)
        .unwrap();
    let hits =
        get_subscribers_for_project_in(p1, &[s("acct-b"), s("acct-x")], &reg).unwrap();
    assert_eq!(hits.len(), 1);
    assert_eq!(hits[0].account, "acct-b");
    assert_eq!(hits[0].topic, "nt-b");
}

#[test]
fn subscriptions_by_account_join_project_fields() {
    let mut reg = Registry::new();
    let p1 = seed_project(&mut reg, "p1", "one.example", "topic-1");
    let p2 = seed_project(&mut reg, "p2", "two.example", "topic-2");
    upsert_subscriber_at(p1, &s("acct-a"), &vec![1], &[0u8; 32], &s("nt-a"), 0, &mut reg)
        .unwrap();
    upsert_subscriber_at(p2, &s("acct-a"), &vec![2], &[0u8; 32], &s("nt-b"), 0, &mut reg)
        .unwrap();
    let all = get_subscriptions_by_account(&s("acct-a"), &reg).unwrap();
    assert_eq!(all.len(), 2);
    assert_eq!(all[0].app_domain, "one.example");
    assert_eq!(all[0].authentication_public_key, "auth-pub");
    let only = get_subscriptions_by_account_and_app(&s("acct-a"), &s("two.example"), &reg)
        .unwrap();
    assert_eq!(only.len(), 1);
    assert_eq!(only[0].app_domain, "two.example");
}

#[test]
fn clocked_subscriber_operations_run_against_wall_clock() {
    let mut reg = Registry::new();
    let keys = upsert_project(
        &s("p1"),
        &s("one.example"),
        &s("topic-1"),
        &s("auth-pub"),
        &s("auth-priv"),
        &s("sub-pub"),
        &s("sub-priv"),
        &mut reg,
    )
    .unwrap();
    assert_eq!(keys.authentication_public_key, "auth-pub");
    let pid = get_project_by_project_id(&s("p1"), &reg).unwrap().id;
    upsert_subscriber(pid, &s("acct-1"), &vec![6], &[0x5au8; 32], &s("nt-1"), &mut reg).unwrap();
    let renewed = update_subscriber(pid, &s("acct-1"), &vec![8], &mut reg).unwrap();
    assert_eq!(renewed.sym_key, "5a".repeat(32));
    let q = get_subscriber_by_topic(&s("nt-1"), &reg).unwrap();
    assert_eq!(q.scope, vec![8]);
}
