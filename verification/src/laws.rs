//! The registry's cross-operation guarantees, proved once over the
//! transition functions: key stability under repeated registration, exact
//! scope replacement, the sweep's precision and idempotence, the
//! active-watcher visibility rule, read-after-write agreement, and
//! idempotent deletion.

use vstd::prelude::*;

use crate::project_store::spec_upsert_project;
use crate::records::{
    lemma_filter_all, lemma_filter_elements_contained, lemma_scope_names_iff_set, RegistryV,
    SubscriberV, WatcherV,
};
use crate::subscriber_store::{
    lemma_replace_rows_set, lemma_upsert_subscriber_wf, spec_delete_subscriber,
    spec_update_subscriber, spec_upsert_subscriber, subscriber_keep_pred, scope_keep_pred,
};
use crate::watcher_store::{
    spec_active_watchers, spec_sweep_expired, watcher_live_pred, watcher_query_of,
    watcher_visible_pred, WatcherQueryV,
};
use crate::StoreError;

verus! {

broadcast use
    vstd::seq_lib::group_seq_properties,
    vstd::seq_lib::group_filter_ensures,
;

/// Registering the same external project identifier twice returns the same
/// key pair both times — the keys written by the first call — while the
/// stored row takes the second call's app domain. Key material supplied by
/// the second call is ignored.
pub proof fn lemma_project_upsert_keeps_keys(
    r0: RegistryV,
    pid: Seq<char>,
    d1: Seq<char>,
    t1: Seq<char>,
    a1pub: Seq<char>,
    a1priv: Seq<char>,
    s1pub: Seq<char>,
    s1priv: Seq<char>,
    n1: i64,
    d2: Seq<char>,
    t2: Seq<char>,
    a2pub: Seq<char>,
    a2priv: Seq<char>,
    s2pub: Seq<char>,
    s2priv: Seq<char>,
    n2: i64,
)
    requires
        r0.wf(),
        r0.next_id < u128::MAX,
        spec_upsert_project(r0, pid, d1, t1, a1pub, a1priv, s1pub, s1priv, n1).1 is Ok,
        spec_upsert_project(
            spec_upsert_project(r0, pid, d1, t1, a1pub, a1priv, s1pub, s1priv, n1).0,
            pid,
            d2,
            t2,
            a2pub,
            a2priv,
            s2pub,
            s2priv,
            n2,
        ).1 is Ok,
    ensures
        ({
            let (r1, k1) = spec_upsert_project(r0, pid, d1, t1, a1pub, a1priv, s1pub, s1priv, n1);
            let (r2, k2) = spec_upsert_project(r1, pid, d2, t2, a2pub, a2priv, s2pub, s2priv, n2);
            &&& k2 == k1
            &&& r2.has_project_id(pid)
            &&& ({
                let p2 = r2.projects[r2.project_idx_by_project_id(pid)];
                let p1 = r1.projects[r1.project_idx_by_project_id(pid)];
                &&& p2.app_domain == d2
                &&& p2.authentication_public_key == p1.authentication_public_key
                &&& p2.authentication_private_key == p1.authentication_private_key
                &&& p2.subscribe_public_key == p1.subscribe_public_key
                &&& p2.subscribe_private_key == p1.subscribe_private_key
                &&& p2.project_id == pid
            })
        }),
{
    let (r1, k1) = spec_upsert_project(r0, pid, d1, t1, a1pub, a1priv, s1pub, s1priv, n1);
    let (r2, k2) = spec_upsert_project(r1, pid, d2, t2, a2pub, a2priv, s2pub, s2priv, n2);
    crate::project_store::lemma_upsert_project_wf(
        r0,
        pid,
        d1,
        t1,
        a1pub,
        a1priv,
        s1pub,
        s1priv,
        n1,
    );
    if r0.has_project_id(pid) {
        let i1 = r0.project_idx_by_project_id(pid);
        assert(0 <= i1 < r0.projects.len() && r0.projects[i1].project_id == pid);
        assert(r1.projects[i1].project_id == pid);
        assert(r1.has_project_id(pid));
        let j1 = r1.project_idx_by_project_id(pid);
        assert(0 <= j1 < r1.projects.len() && r1.projects[j1].project_id == pid);
        if j1 != i1 {
            assert(r1.projects[j1].project_id != r1.projects[i1].project_id);
        }
        assert(r2.projects[j1].project_id == pid);
        assert(r2.has_project_id(pid));
        let j3 = r2.project_idx_by_project_id(pid);
        assert(0 <= j3 < r2.projects.len() && r2.projects[j3].project_id == pid);
        if j3 != j1 {
            assert(r2.projects[j3].project_id == r1.projects[j3].project_id);
            assert(r1.projects[j3].project_id != r1.projects[j1].project_id);
        }
    } else {
        let n = r0.projects.len() as int;
        assert(r1.projects[n].project_id == pid);
        assert(r1.has_project_id(pid));
        let j1 = r1.project_idx_by_project_id(pid);
        assert(0 <= j1 < r1.projects.len() && r1.projects[j1].project_id == pid);
        if j1 != n {
            assert(r0.projects[j1].project_id == pid);
            assert(r0.has_project_id(pid));
        }
        assert(r2.projects[j1].project_id == pid);
        assert(r2.has_project_id(pid));
        let j3 = r2.project_idx_by_project_id(pid);
        assert(0 <= j3 < r2.projects.len() && r2.projects[j3].project_id == pid);
        if j3 != j1 {
            assert(r2.projects[j3].project_id == r1.projects[j3].project_id);
            assert(r1.projects[j3].project_id != r1.projects[j1].project_id);
        }
    }
}

/// Upserting a subscriber with one scope set and then updating it with
/// another leaves the stored set exactly the second one — not the union,
/// and, each call being one transition, never a transiently empty set in
/// any reachable state. The first call's set is exact too, and every other
/// subscriber's set is untouched by both calls.
pub proof fn lemma_update_replaces_scope(
    r0: RegistryV,
    project: u128,
    account: Seq<char>,
    scope1: Seq<u128>,
    key: Seq<u8>,
    topic: Seq<char>,
    n1: i64,
    scope2: Seq<u128>,
    n2: i64,
)
    requires
        r0.wf(),
        r0.next_id < u128::MAX,
        spec_upsert_subscriber(r0, project, account, scope1, key, topic, n1).1 is Ok,
    ensures
        ({
            let (r1, res1) = spec_upsert_subscriber(r0, project, account, scope1, key, topic, n1);
            let sid = res1->Ok_0;
            let (r2, res2) = spec_update_subscriber(r1, project, account, scope2, n2);
            &&& res2 is Ok
            &&& forall|u: u128| r1.scopes_of(sid).contains(u) <==> scope1.contains(u)
            &&& forall|u: u128| r2.scopes_of(sid).contains(u) <==> scope2.contains(u)
            &&& forall|x: u128, u: u128|
                x != sid ==> (r2.scopes_of(x).contains(u) <==> r0.scopes_of(x).contains(u))
        }),
{
    let (r1, res1) = spec_upsert_subscriber(r0, project, account, scope1, key, topic, n1);
    let sid = res1->Ok_0;
    lemma_upsert_subscriber_wf(r0, project, account, scope1, key, topic, n1);
    if r0.has_subscriber(project, account) {
        let i = r0.subscriber_idx(project, account);
        assert(0 <= i < r0.subscribers.len() && r0.subscribers[i].project == project
            && r0.subscribers[i].account == account);
        assert(sid == r0.subscribers[i].id);
        assert(r1.subscribers[i].project == project && r1.subscribers[i].account == account);
        assert(r1.has_subscriber(project, account));
        lemma_replace_rows_set(r0.scopes, sid, scope1);
        let (r2, res2) = spec_update_subscriber(r1, project, account, scope2, n2);
        let j = r1.subscriber_idx(project, account);
        assert(0 <= j < r1.subscribers.len() && r1.subscribers[j].project == project
            && r1.subscribers[j].account == account);
        if j != i {
            assert(!(r1.subscribers[j].project == r1.subscribers[i].project
                && r1.subscribers[j].account == r1.subscribers[i].account));
        }
        assert(r1.subscribers[j].id == sid);
        lemma_replace_rows_set(r1.scopes, sid, scope2);
        assert forall|x: u128, u: u128| x != sid implies (r2.scopes_of(x).contains(u)
            <==> r0.scopes_of(x).contains(u)) by {}
    } else {
        let n = r0.subscribers.len() as int;
        assert(sid == r0.next_id);
        assert(r1.subscribers[n].project == project && r1.subscribers[n].account == account
            && r1.subscribers[n].id == sid);
        assert(r1.has_subscriber(project, account));
        lemma_replace_rows_set(r0.scopes, sid, scope1);
        let (r2, res2) = spec_update_subscriber(r1, project, account, scope2, n2);
        let j = r1.subscriber_idx(project, account);
        assert(0 <= j < r1.subscribers.len() && r1.subscribers[j].project == project
            && r1.subscribers[j].account == account);
        if j != n {
            assert(!(r1.subscribers[j].project == r1.subscribers[n].project
                && r1.subscribers[j].account == r1.subscribers[n].account));
        }
        assert(r1.subscribers[j].id == sid);
        lemma_replace_rows_set(r1.scopes, sid, scope2);
        assert forall|x: u128, u: u128| x != sid implies (r2.scopes_of(x).contains(u)
            <==> r0.scopes_of(x).contains(u)) by {}
    }
}

/// Upserting a subscriber twice with identical inputs at the same moment
/// returns the same identifier both times and leaves the same visible
/// state: the second call overwrites every field with the value it already
/// has and replaces the scope rows with themselves.
pub proof fn lemma_subscriber_upsert_idempotent(
    r0: RegistryV,
    project: u128,
    account: Seq<char>,
    scope: Seq<u128>,
    key: Seq<u8>,
    topic: Seq<char>,
    now: i64,
)
    requires
        r0.wf(),
        r0.next_id < u128::MAX,
        spec_upsert_subscriber(r0, project, account, scope, key, topic, now).1 is Ok,
    ensures
        ({
            let (r1, res1) = spec_upsert_subscriber(r0, project, account, scope, key, topic, now);
            let (r2, res2) = spec_upsert_subscriber(r1, project, account, scope, key, topic, now);
            res2 == res1 && r2 == r1
        }),
{
    broadcast use Seq::filter_distributes_over_add;

    let (r1, res1) = spec_upsert_subscriber(r0, project, account, scope, key, topic, now);
    let sid = res1->Ok_0;
    lemma_upsert_subscriber_wf(r0, project, account, scope, key, topic, now);
    let pw = choose|w: int|
        0 <= w < r0.projects.len() && (#[trigger] r0.projects[w]).id == project;
    assert(r1.projects[pw].id == project);
    assert(r1.has_project(project));
    let i = if r0.has_subscriber(project, account) {
        r0.subscriber_idx(project, account)
    } else {
        r0.subscribers.len() as int
    };
    assert(r1.subscribers[i].project == project && r1.subscribers[i].account == account
        && r1.subscribers[i].id == sid);
    assert(r1.has_subscriber(project, account));
    let j = r1.subscriber_idx(project, account);
    assert(0 <= j < r1.subscribers.len() && r1.subscribers[j].project == project
        && r1.subscribers[j].account == account);
    if j != i {
        assert(!(r1.subscribers[j].project == r1.subscribers[i].project
            && r1.subscribers[j].account == r1.subscribers[i].account));
    }
    let s = r1.subscribers[j];
    let s2 = SubscriberV {
        sym_key: crate::codec::hex_of(key),
        topic: topic,
        expiry: crate::spec_expiry_after(now),
        updated_at: now,
        ..s
    };
    assert(s2 == s);
    assert(r1.subscribers.update(j, s2) =~= r1.subscribers);
    let kept0 = r0.scopes.filter(scope_keep_pred(sid));
    let fresh = crate::codec::dedup_names(scope).map_values(
        crate::subscriber_store::scope_row_of(sid),
    );
    assert(r1.scopes == kept0 + fresh);
    assert forall|k: int| 0 <= k < kept0.len() implies scope_keep_pred(sid)(
        #[trigger] kept0[k],
    ) by {}
    lemma_filter_all(kept0, scope_keep_pred(sid));
    lemma_filter_elements_contained(fresh, scope_keep_pred(sid));
    let ff = fresh.filter(scope_keep_pred(sid));
    assert(ff.len() == 0) by {
        if ff.len() > 0 {
            assert(scope_keep_pred(sid)(ff[0]));
            assert(fresh.contains(ff[0]));
            let k = choose|k: int| 0 <= k < fresh.len() && fresh[k] == ff[0];
            assert(fresh[k].subscriber == sid);
        }
    }
    assert(r1.scopes.filter(scope_keep_pred(sid)) =~= kept0);
    let (r2, res2) = spec_upsert_subscriber(r1, project, account, scope, key, topic, now);
    assert(r2.scopes == r1.scopes.filter(scope_keep_pred(sid)) + fresh);
    assert(r2.scopes =~= r1.scopes);
    assert(r2 =~= r1);
    assert(res2 == Ok::<u128, StoreError>(s.id));
}

/// A sweep at `t` removes exactly the watchers whose expiry is at or before
/// `t` and keeps every other watcher untouched; sweeping again at the same
/// moment removes nothing.
pub proof fn lemma_sweep_exact_and_idempotent(r: RegistryV, t: i64)
    requires
        r.wf(),
    ensures
        ({
            let r1 = spec_sweep_expired(r, t);
            &&& forall|w: WatcherV|
                r1.watchers.contains(w) <==> (r.watchers.contains(w) && w.expiry > t)
            &&& spec_sweep_expired(r1, t) == r1
        }),
{
    let r1 = spec_sweep_expired(r, t);
    lemma_filter_elements_contained(r.watchers, watcher_live_pred(t));
    assert forall|w: WatcherV| r1.watchers.contains(w) implies (r.watchers.contains(w)
        && w.expiry > t) by {
        let k = choose|k: int| 0 <= k < r1.watchers.len() && r1.watchers[k] == w;
        assert(watcher_live_pred(t)(r1.watchers[k]));
    }
    assert forall|w: WatcherV| r.watchers.contains(w) && w.expiry > t implies r1.watchers
        .contains(w) by {
        let k = choose|k: int| 0 <= k < r.watchers.len() && r.watchers[k] == w;
        assert(watcher_live_pred(t)(r.watchers[k]));
        assert(r.watchers.filter(watcher_live_pred(t)).contains(r.watchers[k]));
    }
    assert forall|i: int| 0 <= i < r1.watchers.len() implies watcher_live_pred(t)(
        #[trigger] r1.watchers[i],
    ) by {}
    lemma_filter_all(r1.watchers, watcher_live_pred(t));
    assert(spec_sweep_expired(r1, t) =~= r1);
}

/// The active listing for an account and app serves exactly the live
/// watchers of that account that are global or scoped to the project owning
/// the app domain — expired watchers and watchers of other apps never
/// appear.
pub proof fn lemma_active_watchers_membership(
    r: RegistryV,
    account: Seq<char>,
    dom: Seq<char>,
    t: i64,
)
    requires
        r.wf(),
    ensures
        forall|q: WatcherQueryV|
            #![trigger spec_active_watchers(r, account, dom, t).contains(q)]
            spec_active_watchers(r, account, dom, t).contains(q) <==> exists|i: int|
                0 <= i < r.watchers.len() && watcher_visible_pred(r, account, dom, t)(
                    #[trigger] r.watchers[i],
                ) && q == watcher_query_of()(r.watchers[i]),
{
    let pred = watcher_visible_pred(r, account, dom, t);
    let filtered = r.watchers.filter(pred);
    let active = spec_active_watchers(r, account, dom, t);
    lemma_filter_elements_contained(r.watchers, pred);
    assert forall|q: WatcherQueryV|
        #![trigger spec_active_watchers(r, account, dom, t).contains(q)]
        spec_active_watchers(r, account, dom, t).contains(q) <==> exists|i: int|
            0 <= i < r.watchers.len() && watcher_visible_pred(r, account, dom, t)(
                #[trigger] r.watchers[i],
            ) && q == watcher_query_of()(r.watchers[i]) by {
        if active.contains(q) {
            let k = choose|k: int| 0 <= k < active.len() && active[k] == q;
            assert(active[k] == watcher_query_of()(filtered[k]));
            assert(r.watchers.contains(filtered[k]));
            let i = choose|i: int| 0 <= i < r.watchers.len() && r.watchers[i] == filtered[k];
            assert(pred(r.watchers[i]));
            assert(0 <= i < r.watchers.len() && watcher_visible_pred(r, account, dom, t)(
                r.watchers[i],
            ) && q == watcher_query_of()(r.watchers[i]));
        }
        if exists|i: int|
            0 <= i < r.watchers.len() && watcher_visible_pred(r, account, dom, t)(
                #[trigger] r.watchers[i],
            ) && q == watcher_query_of()(r.watchers[i]) {
            let i = choose|i: int|
                0 <= i < r.watchers.len() && watcher_visible_pred(r, account, dom, t)(
                    #[trigger] r.watchers[i],
                ) && q == watcher_query_of()(r.watchers[i]);
            assert(filtered.contains(r.watchers[i]));
            let k = choose|k: int| 0 <= k < filtered.len() && filtered[k] == r.watchers[i];
            assert(active[k] == q);
            assert(active.contains(q));
        }
    }
}

/// A read by topic straight after an upsert serves that subscriber with a
/// scope set equal to the upserted one — whatever order the set was given
/// in — provided the set is not empty and the topic is the subscriber's
/// alone.
pub proof fn lemma_read_by_topic_after_upsert(
    r0: RegistryV,
    project: u128,
    account: Seq<char>,
    scope: Seq<u128>,
    key: Seq<u8>,
    topic: Seq<char>,
    now: i64,
    res: Result<crate::queries::SubscriberWithScopeV, StoreError>,
)
    requires
        r0.wf(),
        r0.next_id < u128::MAX,
        scope.len() > 0,
        spec_upsert_subscriber(r0, project, account, scope, key, topic, now).1 is Ok,
        ({
            let (r1, res1) = spec_upsert_subscriber(r0, project, account, scope, key, topic, now);
            &&& forall|j: int|
                0 <= j < r1.subscribers.len() && (#[trigger] r1.subscribers[j]).topic == topic
                    ==> r1.subscribers[j].id == res1->Ok_0
            &&& crate::queries::read_by_topic_post(r1, topic, res)
        }),
    ensures
        res is Ok,
        ({
            let (r1, res1) = spec_upsert_subscriber(r0, project, account, scope, key, topic, now);
            &&& res->Ok_0.id == res1->Ok_0
            &&& forall|u: u128| res->Ok_0.scope.contains(u) <==> scope.contains(u)
        }),
{
    let (r1, res1) = spec_upsert_subscriber(r0, project, account, scope, key, topic, now);
    let sid = res1->Ok_0;
    lemma_upsert_subscriber_wf(r0, project, account, scope, key, topic, now);
    lemma_scope_names_iff_set(r1, sid);
    if r0.has_subscriber(project, account) {
        let i0 = r0.subscriber_idx(project, account);
        assert(sid == r0.subscribers[i0].id);
    } else {
        assert(sid == r0.next_id);
    }
    lemma_replace_rows_set(r0.scopes, sid, scope);
    assert(scope.contains(scope[0]));
    assert(r1.scopes_of(sid).contains(scope[0]));
    let w = choose|w: int|
        0 <= w < r1.scopes.len() && (#[trigger] r1.scopes[w]).subscriber == sid
            && r1.scopes[w].name == scope[0];
    assert(r1.has_scope_rows(sid));
    if r0.has_subscriber(project, account) {
        let i = r0.subscriber_idx(project, account);
        assert(r1.subscribers[i].topic == topic && r1.subscribers[i].id == sid);
        match res {
            Ok(q) => {
                let j = choose|j: int|
                    0 <= j < r1.subscribers.len() && (#[trigger] r1.subscribers[j]).topic == topic
                        && r1.has_scope_rows(r1.subscribers[j].id) && q
                        == crate::queries::subscriber_with_scope_shape(r1, r1.subscribers[j]);
                assert(r1.subscribers[j].id == sid);
            },
            Err(e) => {
                assert(!(r1.subscribers[i].topic == topic && r1.has_scope_rows(
                    r1.subscribers[i].id,
                )));
            },
        }
    } else {
        let n = r0.subscribers.len() as int;
        assert(r1.subscribers[n].topic == topic && r1.subscribers[n].id == sid);
        match res {
            Ok(q) => {
                let j = choose|j: int|
                    0 <= j < r1.subscribers.len() && (#[trigger] r1.subscribers[j]).topic == topic
                        && r1.has_scope_rows(r1.subscribers[j].id) && q
                        == crate::queries::subscriber_with_scope_shape(r1, r1.subscribers[j]);
                assert(r1.subscribers[j].id == sid);
            },
            Err(e) => {
                assert(!(r1.subscribers[n].topic == topic && r1.has_scope_rows(
                    r1.subscribers[n].id,
                )));
            },
        }
    }
}

/// Deleting a subscriber is idempotent — a second deletion of the same
/// identifier changes nothing and, like the first, reports no error — and
/// afterwards a read for that subscriber's topic reports not found,
/// provided the topic was the subscriber's alone.
pub proof fn lemma_delete_idempotent(r: RegistryV, sid: u128)
    requires
        r.wf(),
    ensures
        spec_delete_subscriber(spec_delete_subscriber(r, sid), sid) == spec_delete_subscriber(
            r,
            sid,
        ),
{
    let r1 = spec_delete_subscriber(r, sid);
    assert forall|i: int| 0 <= i < r1.subscribers.len() implies subscriber_keep_pred(sid)(
        #[trigger] r1.subscribers[i],
    ) by {}
    lemma_filter_all(r1.subscribers, subscriber_keep_pred(sid));
    assert forall|i: int| 0 <= i < r1.scopes.len() implies scope_keep_pred(sid)(
        #[trigger] r1.scopes[i],
    ) by {}
    lemma_filter_all(r1.scopes, scope_keep_pred(sid));
    assert(spec_delete_subscriber(r1, sid) =~= r1);
}

/// After a subscriber is deleted, a read for its topic reports not found,
/// provided no other subscriber sits on that topic.
pub proof fn lemma_read_after_delete(
    r: RegistryV,
    sid: u128,
    topic: Seq<char>,
    res: Result<crate::queries::SubscriberWithScopeV, StoreError>,
)
    requires
        r.wf(),
        forall|j: int|
            0 <= j < r.subscribers.len() && (#[trigger] r.subscribers[j]).topic == topic
                ==> r.subscribers[j].id == sid,
        crate::queries::read_by_topic_post(spec_delete_subscriber(r, sid), topic, res),
    ensures
        res == Err::<crate::queries::SubscriberWithScopeV, StoreError>(StoreError::NotFound),
{
    let r1 = spec_delete_subscriber(r, sid);
    lemma_filter_elements_contained(r.subscribers, subscriber_keep_pred(sid));
    assert forall|j: int|
        0 <= j < r1.subscribers.len() implies (#[trigger] r1.subscribers[j]).topic != topic by {
        assert(subscriber_keep_pred(sid)(r1.subscribers[j]));
        assert(r.subscribers.contains(r1.subscribers[j]));
        let i = choose|i: int|
            0 <= i < r.subscribers.len() && r.subscribers[i] == r1.subscribers[j];
        if r1.subscribers[j].topic == topic {
            assert(r.subscribers[i].id == sid);
        }
    }
    match res {
        Ok(q) => {
            let j = choose|j: int|
                0 <= j < r1.subscribers.len() && (#[trigger] r1.subscribers[j]).topic == topic
                    && r1.has_scope_rows(r1.subscribers[j].id) && q
                    == crate::queries::subscriber_with_scope_shape(r1, r1.subscribers[j]);
            assert(false);
        },
        Err(e) => {
        },
    }
}

} // verus!
