//! Subscription lifecycle: transactional upsert and update of a subscriber
//! row together with the atomic replacement of its scope set, and idempotent
//! deletion. Each mutating operation is one transition of the registry
//! state, so no intermediate scope state is ever observable.

use vstd::prelude::*;

use crate::codec::{dedup_names, dedup_scope_names, hex_of};
use crate::records::{
    lemma_filter_elements_contained, lemma_filter_keeps_pairwise, Registry, RegistryV, ScopeRow,
    Subscriber, SubscriberV,
};
use crate::{spec_expiry_after, StoreError};

verus! {

broadcast use
    vstd::seq_lib::group_seq_properties,
    vstd::seq_lib::group_filter_ensures,
    Seq::lemma_filter_push,
;

/// The rows that survive a scope replacement for `sid`: those of every other
/// subscriber.
pub open spec fn scope_keep_pred(sid: u128) -> spec_fn(ScopeRow) -> bool {
    |row: ScopeRow| row.subscriber != sid
}

/// A fresh scope row of `sid`.
pub open spec fn scope_row_of(sid: u128) -> spec_fn(u128) -> ScopeRow {
    |u: u128| ScopeRow { subscriber: sid, name: u }
}

/// The rows that survive deleting subscriber `sid`.
pub open spec fn subscriber_keep_pred(sid: u128) -> spec_fn(SubscriberV) -> bool {
    |s: SubscriberV| s.id != sid
}

/// A full scope replacement, not a diff: every row of `sid` goes, then one
/// row per distinct element of `names` is written, in first-occurrence
/// order. Rows of other subscribers are untouched.
pub open spec fn spec_replace_scope_rows(
    rows: Seq<ScopeRow>,
    sid: u128,
    names: Seq<u128>,
) -> Seq<ScopeRow> {
    rows.filter(scope_keep_pred(sid)) + dedup_names(names).map_values(scope_row_of(sid))
}

/// What upserting a subscriber does to the store, all in one transition:
/// the row keyed by (project, account) is created or overwritten with the
/// new symmetric key, topic and a thirty-day expiry, and its scope rows are
/// replaced by the given set. A missing project is a constraint violation.
pub open spec fn spec_upsert_subscriber(
    r: RegistryV,
    project: u128,
    account: Seq<char>,
    scope: Seq<u128>,
    key: Seq<u8>,
    topic: Seq<char>,
    now: i64,
) -> (RegistryV, Result<u128, StoreError>) {
    if !r.has_project(project) {
        (r, Err(StoreError::Conflict))
    } else if r.has_subscriber(project, account) {
        let i = r.subscriber_idx(project, account);
        let s = r.subscribers[i];
        let s2 = SubscriberV {
            sym_key: hex_of(key),
            topic: topic,
            expiry: spec_expiry_after(now),
            updated_at: now,
            ..s
        };
        (
            RegistryV {
                subscribers: r.subscribers.update(i, s2),
                scopes: spec_replace_scope_rows(r.scopes, s.id, scope),
                ..r
            },
            Ok(s.id),
        )
    } else {
        let s2 = SubscriberV {
            id: r.next_id,
            project: project,
            account: account,
            sym_key: hex_of(key),
            topic: topic,
            expiry: spec_expiry_after(now),
            created_at: now,
            updated_at: now,
        };
        (
            RegistryV {
                subscribers: r.subscribers.push(s2),
                scopes: spec_replace_scope_rows(r.scopes, r.next_id, scope),
                next_id: (r.next_id + 1) as u128,
                ..r
            },
            Ok(r.next_id),
        )
    }
}

/// What updating a subscription does: only the expiry and update stamp of
/// the row change — key and topic stay — and the scope rows are replaced.
/// Unlike upsert, a missing row is reported, not created.
pub open spec fn spec_update_subscriber(
    r: RegistryV,
    project: u128,
    account: Seq<char>,
    scope: Seq<u128>,
    now: i64,
) -> (RegistryV, Result<SubscriberV, StoreError>) {
    if r.has_subscriber(project, account) {
        let i = r.subscriber_idx(project, account);
        let s = r.subscribers[i];
        let s2 = SubscriberV { expiry: spec_expiry_after(now), updated_at: now, ..s };
        (
            RegistryV {
                subscribers: r.subscribers.update(i, s2),
                scopes: spec_replace_scope_rows(r.scopes, s.id, scope),
                ..r
            },
            Ok(s2),
        )
    } else {
        (r, Err(StoreError::NotFound))
    }
}

/// What deleting a subscriber does: its row and all of its scope rows go,
/// everything else stays. Deleting an absent row changes nothing, by
/// design, so the operation is idempotent.
pub open spec fn spec_delete_subscriber(r: RegistryV, sid: u128) -> RegistryV {
    RegistryV {
        subscribers: r.subscribers.filter(subscriber_keep_pred(sid)),
        scopes: r.scopes.filter(scope_keep_pred(sid)),
        ..r
    }
}

/// Replacing the scope rows of an existing subscriber preserves every
/// registry invariant.
pub proof fn lemma_replace_scope_wf(r: RegistryV, sid: u128, names: Seq<u128>)
    requires
        r.wf(),
        r.has_subscriber_id(sid),
    ensures
        (RegistryV { scopes: spec_replace_scope_rows(r.scopes, sid, names), ..r }).wf(),
{
    let r2 = RegistryV { scopes: spec_replace_scope_rows(r.scopes, sid, names), ..r };
    let kept = r.scopes.filter(scope_keep_pred(sid));
    let fresh = dedup_names(names).map_values(scope_row_of(sid));
    let rel = |a: ScopeRow, b: ScopeRow| !(a.subscriber == b.subscriber && a.name == b.name);
    assert forall|i: int, j: int|
        0 <= i < r.scopes.len() && 0 <= j < r.scopes.len() && i != j implies #[trigger] rel(
        r.scopes[i],
        r.scopes[j],
    ) by {}
    lemma_filter_keeps_pairwise(r.scopes, scope_keep_pred(sid), rel);
    lemma_filter_elements_contained(r.scopes, scope_keep_pred(sid));
    crate::codec::lemma_dedup_distinct(names);
    assert forall|a: int, b: int|
        0 <= a < r2.scopes.len() && 0 <= b < r2.scopes.len() && a != b implies !((
    #[trigger] r2.scopes[a]).subscriber == (#[trigger] r2.scopes[b]).subscriber
        && r2.scopes[a].name == r2.scopes[b].name) by {
        if a < kept.len() && b < kept.len() {
            assert(rel(kept[a], kept[b]));
        } else if a < kept.len() {
            assert(scope_keep_pred(sid)(kept[a]));
            assert(r2.scopes[b] == fresh[b - kept.len()]);
            assert(fresh[b - kept.len()].subscriber == sid);
        } else if b < kept.len() {
            assert(scope_keep_pred(sid)(kept[b]));
            assert(r2.scopes[a] == fresh[a - kept.len()]);
            assert(fresh[a - kept.len()].subscriber == sid);
        } else {
            assert(r2.scopes[a] == fresh[a - kept.len()]);
            assert(r2.scopes[b] == fresh[b - kept.len()]);
            assert(fresh[a - kept.len()].name == dedup_names(names)[a - kept.len()]);
            assert(fresh[b - kept.len()].name == dedup_names(names)[b - kept.len()]);
        }
    }
    assert forall|k: int| 0 <= k < r2.subscribers.len() implies {
        &&& (#[trigger] r2.subscribers[k]).id < r2.next_id
        &&& r2.has_project(r2.subscribers[k].project)
    } by {
        let pr = r2.subscribers[k].project;
        let w = choose|w: int| 0 <= w < r.projects.len() && (#[trigger] r.projects[w]).id == pr;
        assert(r2.projects[w].id == pr);
    }
    assert forall|k: int|
        0 <= k < r2.watchers.len() && (#[trigger] r2.watchers[k]).project is Some implies r2
            .has_project(r2.watchers[k].project->0) by {
        let pr = r2.watchers[k].project->0;
        let w = choose|w: int| 0 <= w < r.projects.len() && (#[trigger] r.projects[w]).id == pr;
        assert(r2.projects[w].id == pr);
    }
    assert forall|k: int| 0 <= k < r2.scopes.len() implies r2.has_subscriber_id(
        (#[trigger] r2.scopes[k]).subscriber,
    ) by {
        if k < kept.len() {
            assert(r.scopes.contains(kept[k]));
            let i = choose|i: int| 0 <= i < r.scopes.len() && r.scopes[i] == kept[k];
            assert(r.has_subscriber_id(r.scopes[i].subscriber));
            let w = choose|w: int|
                0 <= w < r.subscribers.len() && (#[trigger] r.subscribers[w]).id
                    == r.scopes[i].subscriber;
            assert(r2.subscribers[w].id == r2.scopes[k].subscriber);
        } else {
            assert(r2.scopes[k] == fresh[k - kept.len()]);
            assert(r2.scopes[k].subscriber == sid);
            let w = choose|w: int|
                0 <= w < r.subscribers.len() && (#[trigger] r.subscribers[w]).id == sid;
            assert(r2.subscribers[w].id == sid);
        }
    }
}

/// Overwriting one subscriber row in place — same identifier, same project
/// and account — preserves every registry invariant.
pub proof fn lemma_set_subscriber_row_wf(r: RegistryV, i: int, s2: SubscriberV)
    requires
        r.wf(),
        0 <= i < r.subscribers.len(),
        s2.id == r.subscribers[i].id,
        s2.project == r.subscribers[i].project,
        s2.account == r.subscribers[i].account,
    ensures
        (RegistryV { subscribers: r.subscribers.update(i, s2), ..r }).wf(),
{
    let r2 = RegistryV { subscribers: r.subscribers.update(i, s2), ..r };
    assert forall|k: int| 0 <= k < r2.subscribers.len() implies {
        &&& (#[trigger] r2.subscribers[k]).id < r2.next_id
        &&& r2.has_project(r2.subscribers[k].project)
    } by {
        let pr = r2.subscribers[k].project;
        assert(pr == r.subscribers[k].project);
        let w = choose|w: int| 0 <= w < r.projects.len() && (#[trigger] r.projects[w]).id == pr;
        assert(r2.projects[w].id == pr);
    }
    assert forall|k: int| 0 <= k < r2.scopes.len() implies r2.has_subscriber_id(
        (#[trigger] r2.scopes[k]).subscriber,
    ) by {
        let sub = r2.scopes[k].subscriber;
        assert(r.has_subscriber_id(sub));
        let w = choose|w: int|
            0 <= w < r.subscribers.len() && (#[trigger] r.subscribers[w]).id == sub;
        assert(r2.subscribers[w].id == sub);
    }
    assert forall|k: int|
        0 <= k < r2.watchers.len() && (#[trigger] r2.watchers[k]).project is Some implies r2
            .has_project(r2.watchers[k].project->0) by {
        let pr = r2.watchers[k].project->0;
        let w = choose|w: int| 0 <= w < r.projects.len() && (#[trigger] r.projects[w]).id == pr;
        assert(r2.projects[w].id == pr);
    }
}

/// Appending a fresh subscriber row — new identifier, a live project, a
/// (project, account) pair not yet present — preserves every invariant.
pub proof fn lemma_push_subscriber_row_wf(r: RegistryV, s2: SubscriberV)
    requires
        r.wf(),
        r.next_id < u128::MAX,
        s2.id == r.next_id,
        r.has_project(s2.project),
        !r.has_subscriber(s2.project, s2.account),
    ensures
        (RegistryV {
            subscribers: r.subscribers.push(s2),
            next_id: (r.next_id + 1) as u128,
            ..r
        }).wf(),
{
    let r2 = RegistryV {
        subscribers: r.subscribers.push(s2),
        next_id: (r.next_id + 1) as u128,
        ..r
    };
    let n = r.subscribers.len() as int;
    assert forall|a: int, b: int|
        0 <= a < r2.subscribers.len() && 0 <= b < r2.subscribers.len() && a != b implies {
        &&& (#[trigger] r2.subscribers[a]).id != (#[trigger] r2.subscribers[b]).id
        &&& !(r2.subscribers[a].project == r2.subscribers[b].project && r2.subscribers[a].account
            == r2.subscribers[b].account)
    } by {
        if a == n {
            if r2.subscribers[b].project == s2.project && r2.subscribers[b].account
                == s2.account {
                assert(r.has_subscriber(s2.project, s2.account));
            }
        } else if b == n {
            if r2.subscribers[a].project == s2.project && r2.subscribers[a].account
                == s2.account {
                assert(r.has_subscriber(s2.project, s2.account));
            }
        }
    }
    assert forall|k: int| 0 <= k < r2.subscribers.len() implies {
        &&& (#[trigger] r2.subscribers[k]).id < r2.next_id
        &&& r2.has_project(r2.subscribers[k].project)
    } by {
        let pr = r2.subscribers[k].project;
        let w = choose|w: int| 0 <= w < r.projects.len() && (#[trigger] r.projects[w]).id == pr;
        assert(r2.projects[w].id == pr);
    }
    assert forall|k: int| 0 <= k < r2.scopes.len() implies r2.has_subscriber_id(
        (#[trigger] r2.scopes[k]).subscriber,
    ) by {
        let sub = r2.scopes[k].subscriber;
        assert(r.has_subscriber_id(sub));
        let w = choose|w: int|
            0 <= w < r.subscribers.len() && (#[trigger] r.subscribers[w]).id == sub;
        assert(r2.subscribers[w].id == sub);
    }
    assert forall|k: int|
        0 <= k < r2.watchers.len() && (#[trigger] r2.watchers[k]).project is Some implies r2
            .has_project(r2.watchers[k].project->0) by {
        let pr = r2.watchers[k].project->0;
        let w = choose|w: int| 0 <= w < r.projects.len() && (#[trigger] r.projects[w]).id == pr;
        assert(r2.projects[w].id == pr);
    }
}

/// Deleting a subscriber preserves every registry invariant.
pub proof fn lemma_delete_subscriber_wf(r: RegistryV, sid: u128)
    requires
        r.wf(),
    ensures
        spec_delete_subscriber(r, sid).wf(),
{
    let r2 = spec_delete_subscriber(r, sid);
    let srel = |a: SubscriberV, b: SubscriberV|
        a.id != b.id && !(a.project == b.project && a.account == b.account);
    assert forall|i: int, j: int|
        0 <= i < r.subscribers.len() && 0 <= j < r.subscribers.len() && i != j implies
        #[trigger] srel(r.subscribers[i], r.subscribers[j]) by {}
    lemma_filter_keeps_pairwise(r.subscribers, subscriber_keep_pred(sid), srel);
    lemma_filter_elements_contained(r.subscribers, subscriber_keep_pred(sid));
    let crel = |a: ScopeRow, b: ScopeRow| !(a.subscriber == b.subscriber && a.name == b.name);
    assert forall|i: int, j: int|
        0 <= i < r.scopes.len() && 0 <= j < r.scopes.len() && i != j implies #[trigger] crel(
        r.scopes[i],
        r.scopes[j],
    ) by {}
    lemma_filter_keeps_pairwise(r.scopes, scope_keep_pred(sid), crel);
    lemma_filter_elements_contained(r.scopes, scope_keep_pred(sid));
    assert forall|a: int, b: int|
        0 <= a < r2.subscribers.len() && 0 <= b < r2.subscribers.len() && a != b implies {
        &&& (#[trigger] r2.subscribers[a]).id != (#[trigger] r2.subscribers[b]).id
        &&& !(r2.subscribers[a].project == r2.subscribers[b].project && r2.subscribers[a].account
            == r2.subscribers[b].account)
    } by {
        assert(srel(r2.subscribers[a], r2.subscribers[b]));
    }
    assert forall|k: int| 0 <= k < r2.subscribers.len() implies {
        &&& (#[trigger] r2.subscribers[k]).id < r2.next_id
        &&& r2.has_project(r2.subscribers[k].project)
    } by {
        assert(r.subscribers.contains(r2.subscribers[k]));
        let i = choose|i: int|
            0 <= i < r.subscribers.len() && r.subscribers[i] == r2.subscribers[k];
        assert(r.subscribers[i].id < r.next_id);
        let pr = r.subscribers[i].project;
        let w = choose|w: int| 0 <= w < r.projects.len() && (#[trigger] r.projects[w]).id == pr;
        assert(r2.projects[w].id == pr);
    }
    assert forall|a: int, b: int|
        0 <= a < r2.scopes.len() && 0 <= b < r2.scopes.len() && a != b implies !((
    #[trigger] r2.scopes[a]).subscriber == (#[trigger] r2.scopes[b]).subscriber
        && r2.scopes[a].name == r2.scopes[b].name) by {
        assert(crel(r2.scopes[a], r2.scopes[b]));
    }
    assert forall|k: int| 0 <= k < r2.scopes.len() implies r2.has_subscriber_id(
        (#[trigger] r2.scopes[k]).subscriber,
    ) by {
        assert(r.scopes.contains(r2.scopes[k]));
        let i = choose|i: int| 0 <= i < r.scopes.len() && r.scopes[i] == r2.scopes[k];
        let sub = r.scopes[i].subscriber;
        assert(r.has_subscriber_id(sub));
        let w = choose|w: int|
            0 <= w < r.subscribers.len() && (#[trigger] r.subscribers[w]).id == sub;
        assert(scope_keep_pred(sid)(r2.scopes[k]));
        assert(sub != sid);
        assert(subscriber_keep_pred(sid)(r.subscribers[w]));
        assert(r.subscribers.filter(subscriber_keep_pred(sid)).contains(r.subscribers[w]));
        let w2 = choose|w2: int|
            0 <= w2 < r2.subscribers.len() && r2.subscribers[w2] == r.subscribers[w];
        assert(r2.subscribers[w2].id == sub);
    }
    assert forall|k: int|
        0 <= k < r2.watchers.len() && (#[trigger] r2.watchers[k]).project is Some implies r2
            .has_project(r2.watchers[k].project->0) by {
        let pr = r2.watchers[k].project->0;
        let w = choose|w: int| 0 <= w < r.projects.len() && (#[trigger] r.projects[w]).id == pr;
        assert(r2.projects[w].id == pr);
    }
}

fn replace_scope_rows_exec(scopes: &mut Vec<ScopeRow>, sid: u128, names: &Vec<u128>)
    ensures
        final(scopes)@ == spec_replace_scope_rows(old(scopes)@, sid, names@),
{
    let ghost orig = old(scopes)@;
    let mut kept: Vec<ScopeRow> = Vec::new();
    let n = scopes.len();
    let mut i: usize = 0;
    while i < n
        invariant
            i <= n,
            scopes@ == orig,
            n == orig.len(),
            kept@ =~= orig.take(i as int).filter(scope_keep_pred(sid)),
        decreases n - i,
    {
        proof {
            assert(orig.take(i + 1) =~= orig.take(i as int).push(orig[i as int]));
        }
        if scopes[i].subscriber != sid {
            kept.push(scopes[i]);
            proof {
                assert(scope_keep_pred(sid)(orig[i as int]));
            }
        } else {
            proof {
                assert(!scope_keep_pred(sid)(orig[i as int]));
            }
        }
        i += 1;
    }
    proof {
        assert(orig.take(n as int) =~= orig);
    }
    let deduped = dedup_scope_names(names);
    let m = deduped.len();
    let mut j: usize = 0;
    while j < m
        invariant
            j <= m,
            m == deduped@.len(),
            deduped@ == dedup_names(names@),
            kept@ =~= orig.filter(scope_keep_pred(sid)) + deduped@.take(j as int).map_values(
                scope_row_of(sid),
            ),
        decreases m - j,
    {
        kept.push(ScopeRow { subscriber: sid, name: deduped[j] });
        proof {
            assert(deduped@.take(j + 1) =~= deduped@.take(j as int).push(deduped@[j as int]));
            assert(deduped@.take(j + 1).map_values(scope_row_of(sid)) =~= deduped@.take(
                j as int,
            ).map_values(scope_row_of(sid)).push(scope_row_of(sid)(deduped@[j as int])));
        }
        j += 1;
    }
    proof {
        assert(deduped@.take(m as int) =~= deduped@);
    }
    *scopes = kept;
}

pub(crate) fn find_project_idx_by_id(reg: &Registry, id: u128) -> (r: Option<usize>)
    ensures
        match r {
            Some(i) => 0 <= i < reg@.projects.len() && (#[trigger] reg@.projects[i as int]).id
                == id,
            None => !reg@.has_project(id),
        },
{
    let n = reg.projects.len();
    let mut i: usize = 0;
    while i < n
        invariant
            i <= n,
            n == reg@.projects.len(),
            forall|j: int| 0 <= j < i ==> (#[trigger] reg@.projects[j]).id != id,
        decreases n - i,
    {
        if reg.projects[i].id == id {
            return Some(i);
        }
        i += 1;
    }
    None
}

fn find_subscriber_idx(reg: &Registry, project: u128, account: &String) -> (r: Option<usize>)
    ensures
        match r {
            Some(i) => 0 <= i < reg@.subscribers.len() && (
            #[trigger] reg@.subscribers[i as int]).project == project
                && reg@.subscribers[i as int].account == account@,
            None => !reg@.has_subscriber(project, account@),
        },
{
    let n = reg.subscribers.len();
    let mut i: usize = 0;
    while i < n
        invariant
            i <= n,
            n == reg@.subscribers.len(),
            forall|j: int|
                0 <= j < i ==> !((#[trigger] reg@.subscribers[j]).project == project
                    && reg@.subscribers[j].account == account@),
        decreases n - i,
    {
        if reg.subscribers[i].project == project && reg.subscribers[i].account == *account {
            return Some(i);
        }
        i += 1;
    }
    None
}

pub(crate) fn find_subscriber_idx_by_id(reg: &Registry, sid: u128) -> (r: Option<usize>)
    ensures
        match r {
            Some(i) => 0 <= i < reg@.subscribers.len() && (
            #[trigger] reg@.subscribers[i as int]).id == sid,
            None => !reg@.has_subscriber_id(sid),
        },
{
    let n = reg.subscribers.len();
    let mut i: usize = 0;
    while i < n
        invariant
            i <= n,
            n == reg@.subscribers.len(),
            forall|j: int| 0 <= j < i ==> (#[trigger] reg@.subscribers[j]).id != sid,
        decreases n - i,
    {
        if reg.subscribers[i].id == sid {
            return Some(i);
        }
        i += 1;
    }
    None
}

/// Replaces the whole scope set of one subscriber, as one step of the
/// enclosing transition: delete every row it owns, insert one row per
/// element of the new set. A subscriber that does not exist is a foreign-key
/// violation.
pub fn update_subscriber_scope(subscriber: u128, scope: &Vec<u128>, reg: &mut Registry) -> (r:
    Result<(), StoreError>)
    requires
        old(reg)@.wf(),
    ensures
        final(reg)@.wf(),
        old(reg)@.has_subscriber_id(subscriber) ==> final(reg)@ == (RegistryV {
            scopes: spec_replace_scope_rows(old(reg)@.scopes, subscriber, scope@),
            ..old(reg)@
        }) && r == Ok::<(), StoreError>(()),
        !old(reg)@.has_subscriber_id(subscriber) ==> final(reg)@ == old(reg)@ && r == Err::<
            (),
            StoreError,
        >(StoreError::Conflict),
{
    match find_subscriber_idx_by_id(reg, subscriber) {
        Some(i) => {
            proof {
                assert(reg@.subscribers[i as int].id == subscriber);
                assert(reg@.has_subscriber_id(subscriber));
                lemma_replace_scope_wf(reg@, subscriber, scope@);
            }
            replace_scope_rows_exec(&mut reg.scopes, subscriber, scope);
            proof {
                assert(reg@ =~= (RegistryV {
                    scopes: spec_replace_scope_rows(old(reg)@.scopes, subscriber, scope@),
                    ..old(reg)@
                }));
            }
            Ok(())
        },
        None => Err(StoreError::Conflict),
    }
}

/// After a replacement the subscriber's stored scope set is exactly the
/// given set — never the union with what was there, never a partial write —
/// and every other subscriber's set is untouched.
pub proof fn lemma_replace_rows_set(rows: Seq<ScopeRow>, sid: u128, names: Seq<u128>)
    ensures
        forall|u: u128|
            crate::records::rows_name_set(
                spec_replace_scope_rows(rows, sid, names),
                sid,
            ).contains(u) <==> names.contains(u),
        forall|x: u128, u: u128|
            x != sid ==> (crate::records::rows_name_set(
                spec_replace_scope_rows(rows, sid, names),
                x,
            ).contains(u) <==> crate::records::rows_name_set(rows, x).contains(u)),
{
    let kept = rows.filter(scope_keep_pred(sid));
    let fresh = dedup_names(names).map_values(scope_row_of(sid));
    let replaced = spec_replace_scope_rows(rows, sid, names);
    lemma_filter_elements_contained(rows, scope_keep_pred(sid));
    crate::codec::lemma_dedup_contains(names);
    assert forall|u: u128| crate::records::rows_name_set(replaced, sid).contains(u) implies names
        .contains(u) by {
        let i = choose|i: int|
            0 <= i < replaced.len() && (#[trigger] replaced[i]).subscriber == sid
                && replaced[i].name == u;
        if i < kept.len() {
            assert(scope_keep_pred(sid)(kept[i]));
        } else {
            assert(replaced[i] == fresh[i - kept.len()]);
            assert(dedup_names(names)[i - kept.len()] == u);
            assert(dedup_names(names).contains(u));
        }
    }
    assert forall|u: u128| names.contains(u) implies crate::records::rows_name_set(
        replaced,
        sid,
    ).contains(u) by {
        assert(dedup_names(names).contains(u));
        let j = choose|j: int|
            0 <= j < dedup_names(names).len() && dedup_names(names)[j] == u;
        assert(replaced[kept.len() + j] == fresh[j]);
        assert(fresh[j].subscriber == sid && fresh[j].name == u);
    }
    assert forall|x: u128, u: u128| x != sid implies (crate::records::rows_name_set(
        replaced,
        x,
    ).contains(u) <==> crate::records::rows_name_set(rows, x).contains(u)) by {
        if crate::records::rows_name_set(replaced, x).contains(u) {
            let i = choose|i: int|
                0 <= i < replaced.len() && (#[trigger] replaced[i]).subscriber == x
                    && replaced[i].name == u;
            if i < kept.len() {
                assert(rows.contains(kept[i]));
                let w = choose|w: int| 0 <= w < rows.len() && rows[w] == kept[i];
                assert(rows[w].subscriber == x && rows[w].name == u);
            } else {
                assert(replaced[i] == fresh[i - kept.len()]);
                assert(fresh[i - kept.len()].subscriber == sid);
            }
            assert(crate::records::rows_name_set(rows, x).contains(u));
        }
        if crate::records::rows_name_set(rows, x).contains(u) {
            let i = choose|i: int|
                0 <= i < rows.len() && (#[trigger] rows[i]).subscriber == x && rows[i].name
                    == u;
            assert(scope_keep_pred(sid)(rows[i]));
            assert(kept.contains(rows[i]));
            let k = choose|k: int| 0 <= k < kept.len() && kept[k] == rows[i];
            assert(replaced[k] == rows[i]);
            assert(crate::records::rows_name_set(replaced, x).contains(u));
        }
    }
}

/// Subscriber upsert preserves every registry invariant.
pub proof fn lemma_upsert_subscriber_wf(
    r: RegistryV,
    project: u128,
    account: Seq<char>,
    scope: Seq<u128>,
    key: Seq<u8>,
    topic: Seq<char>,
    now: i64,
)
    requires
        r.wf(),
        r.next_id < u128::MAX,
    ensures
        spec_upsert_subscriber(r, project, account, scope, key, topic, now).0.wf(),
{
    let (r2, res) = spec_upsert_subscriber(r, project, account, scope, key, topic, now);
    if !r.has_project(project) {
    } else if r.has_subscriber(project, account) {
        let i = r.subscriber_idx(project, account);
        let s = r.subscribers[i];
        let s2 = SubscriberV {
            sym_key: hex_of(key),
            topic: topic,
            expiry: spec_expiry_after(now),
            updated_at: now,
            ..s
        };
        lemma_set_subscriber_row_wf(r, i, s2);
        let r_mid = RegistryV { subscribers: r.subscribers.update(i, s2), ..r };
        assert(r_mid.subscribers[i].id == s.id);
        assert(r_mid.has_subscriber_id(s.id));
        lemma_replace_scope_wf(r_mid, s.id, scope);
        assert(r2 == (RegistryV {
            scopes: spec_replace_scope_rows(r_mid.scopes, s.id, scope),
            ..r_mid
        }));
    } else {
        let s2 = SubscriberV {
            id: r.next_id,
            project: project,
            account: account,
            sym_key: hex_of(key),
            topic: topic,
            expiry: spec_expiry_after(now),
            created_at: now,
            updated_at: now,
        };
        lemma_push_subscriber_row_wf(r, s2);
        let r_mid = RegistryV {
            subscribers: r.subscribers.push(s2),
            next_id: (r.next_id + 1) as u128,
            ..r
        };
        assert(r_mid.subscribers[r_mid.subscribers.len() - 1].id == r.next_id);
        assert(r_mid.has_subscriber_id(r.next_id));
        lemma_replace_scope_wf(r_mid, r.next_id, scope);
        assert(r2 == (RegistryV {
            scopes: spec_replace_scope_rows(r_mid.scopes, r.next_id, scope),
            ..r_mid
        }));
    }
}

pub open spec fn subscriber_result_view(r: Result<Subscriber, StoreError>) -> Result<
    SubscriberV,
    StoreError,
> {
    match r {
        Ok(s) => Ok(s@),
        Err(e) => Err(e),
    }
}

pub(crate) fn clone_subscriber(s: &Subscriber) -> (r: Subscriber)
    ensures
        r@ == s@,
{
    Subscriber {
        id: s.id,
        project: s.project,
        account: s.account.clone(),
        sym_key: s.sym_key.clone(),
        topic: s.topic.clone(),
        expiry: s.expiry,
        created_at: s.created_at,
        updated_at: s.updated_at,
    }
}

/// Creates or overwrites the subscription of `account` to `project` and
/// replaces its scope set, all as one transition taken at the moment `now`:
/// the row gets the hex encoding of `notify_key`, the caller-derived topic
/// and a thirty-day expiry. Repeating the call with the same inputs leaves
/// the same visible state.
pub fn upsert_subscriber_at(
    project: u128,
    account: &String,
    scope: &Vec<u128>,
    notify_key: &[u8; 32],
    notify_topic: &String,
    now: i64,
    reg: &mut Registry,
) -> (r: Result<u128, StoreError>)
    requires
        old(reg)@.wf(),
        old(reg).next_id < u128::MAX,
    ensures
        final(reg)@.wf(),
        spec_upsert_subscriber(
            old(reg)@,
            project,
            account@,
            scope@,
            notify_key@,
            notify_topic@,
            now,
        ) == (final(reg)@, r),
{
    let ghost rv = old(reg)@;
    if find_project_idx_by_id(reg, project).is_none() {
        return Err(StoreError::Conflict);
    }
    proof {
        let w = choose|w: int|
            0 <= w < reg@.projects.len() && (#[trigger] reg@.projects[w]).id == project;
        assert(rv.has_project(project));
    }
    let sym = crate::codec::encode_key_hex(notify_key);
    let expiry = crate::expiry_after(now);
    match find_subscriber_idx(reg, project, account) {
        Some(i) => {
            proof {
                let ci = rv.subscriber_idx(project, account@);
                assert(rv.has_subscriber(project, account@));
                assert(0 <= ci < rv.subscribers.len() && rv.subscribers[ci].project == project
                    && rv.subscribers[ci].account == account@);
                if ci != i as int {
                    assert(!(rv.subscribers[ci].project == rv.subscribers[i as int].project
                        && rv.subscribers[ci].account == rv.subscribers[i as int].account));
                }
            }
            let s_old = reg.subscribers.remove(i);
            let sid = s_old.id;
            let s2 = Subscriber {
                sym_key: sym,
                topic: notify_topic.clone(),
                expiry: expiry,
                updated_at: now,
                ..s_old
            };
            reg.subscribers.insert(i, s2);
            proof {
                let ci = rv.subscriber_idx(project, account@);
                let s2v = SubscriberV {
                    sym_key: hex_of(notify_key@),
                    topic: notify_topic@,
                    expiry: spec_expiry_after(now),
                    updated_at: now,
                    ..rv.subscribers[ci]
                };
                assert(reg@.subscribers =~= rv.subscribers.update(ci, s2v));
                lemma_set_subscriber_row_wf(rv, ci, s2v);
                let r_mid = RegistryV { subscribers: rv.subscribers.update(ci, s2v), ..rv };
                assert(reg@ =~= r_mid);
                assert(r_mid.subscribers[ci].id == sid);
                assert(r_mid.has_subscriber_id(sid));
                lemma_replace_scope_wf(r_mid, sid, scope@);
            }
            replace_scope_rows_exec(&mut reg.scopes, sid, scope);
            proof {
                let (r2, res) = spec_upsert_subscriber(
                    rv,
                    project,
                    account@,
                    scope@,
                    notify_key@,
                    notify_topic@,
                    now,
                );
                assert(reg@ =~= r2);
            }
            Ok(sid)
        },
        None => {
            let sid = reg.next_id;
            let s2 = Subscriber {
                id: sid,
                project: project,
                account: account.clone(),
                sym_key: sym,
                topic: notify_topic.clone(),
                expiry: expiry,
                created_at: now,
                updated_at: now,
            };
            reg.subscribers.push(s2);
            reg.next_id = reg.next_id + 1;
            proof {
                let s2v = SubscriberV {
                    id: sid,
                    project: project,
                    account: account@,
                    sym_key: hex_of(notify_key@),
                    topic: notify_topic@,
                    expiry: spec_expiry_after(now),
                    created_at: now,
                    updated_at: now,
                };
                assert(reg@.subscribers =~= rv.subscribers.push(s2v));
                lemma_push_subscriber_row_wf(rv, s2v);
                let r_mid = RegistryV {
                    subscribers: rv.subscribers.push(s2v),
                    next_id: (rv.next_id + 1) as u128,
                    ..rv
                };
                assert(reg@ =~= r_mid);
                assert(r_mid.subscribers[r_mid.subscribers.len() - 1].id == sid);
                assert(r_mid.has_subscriber_id(sid));
                lemma_replace_scope_wf(r_mid, sid, scope@);
            }
            replace_scope_rows_exec(&mut reg.scopes, sid, scope);
            proof {
                let (r2, res) = spec_upsert_subscriber(
                    rv,
                    project,
                    account@,
                    scope@,
                    notify_key@,
                    notify_topic@,
                    now,
                );
                assert(reg@ =~= r2);
            }
            Ok(sid)
        },
    }
}

/// Creates or overwrites a subscription as of the wall clock's present
/// moment.
pub fn upsert_subscriber(
    project: u128,
    account: &String,
    scope: &Vec<u128>,
    notify_key: &[u8; 32],
    notify_topic: &String,
    reg: &mut Registry,
) -> (r: Result<u128, StoreError>)
    requires
        old(reg)@.wf(),
        old(reg).next_id < u128::MAX,
    ensures
        final(reg)@.wf(),
        exists|t: i64|
            #[trigger] spec_upsert_subscriber(
                old(reg)@,
                project,
                account@,
                scope@,
                notify_key@,
                notify_topic@,
                t,
            ) == (final(reg)@, r),
{
    let now = crate::clock::now_unix();
    upsert_subscriber_at(project, account, scope, notify_key, notify_topic, now, reg)
}

/// Renews the subscription of `account` to `project` — expiry thirty days
/// from `now`, key and topic untouched — and replaces its scope set, as one
/// transition. A missing subscription is reported as not found, never
/// created: this is an update, not an upsert.
pub fn update_subscriber_at(
    project: u128,
    account: &String,
    scope: &Vec<u128>,
    now: i64,
    reg: &mut Registry,
) -> (r: Result<Subscriber, StoreError>)
    requires
        old(reg)@.wf(),
    ensures
        final(reg)@.wf(),
        spec_update_subscriber(old(reg)@, project, account@, scope@, now) == (
            final(reg)@,
            subscriber_result_view(r),
        ),
{
    let ghost rv = old(reg)@;
    let expiry = crate::expiry_after(now);
    match find_subscriber_idx(reg, project, account) {
        Some(i) => {
            proof {
                assert(rv.has_subscriber(project, account@));
                let ci = rv.subscriber_idx(project, account@);
                assert(0 <= ci < rv.subscribers.len() && rv.subscribers[ci].project == project
                    && rv.subscribers[ci].account == account@);
                if ci != i as int {
                    assert(!(rv.subscribers[ci].project == rv.subscribers[i as int].project
                        && rv.subscribers[ci].account == rv.subscribers[i as int].account));
                }
            }
            let s_old = reg.subscribers.remove(i);
            let sid = s_old.id;
            let s2 = Subscriber { expiry: expiry, updated_at: now, ..s_old };
            let out = clone_subscriber(&s2);
            reg.subscribers.insert(i, s2);
            proof {
                let ci = rv.subscriber_idx(project, account@);
                let s2v = SubscriberV {
                    expiry: spec_expiry_after(now),
                    updated_at: now,
                    ..rv.subscribers[ci]
                };
                assert(out@ == s2v);
                assert(reg@.subscribers =~= rv.subscribers.update(ci, s2v));
                lemma_set_subscriber_row_wf(rv, ci, s2v);
                let r_mid = RegistryV { subscribers: rv.subscribers.update(ci, s2v), ..rv };
                assert(reg@ =~= r_mid);
                assert(r_mid.subscribers[ci].id == sid);
                assert(r_mid.has_subscriber_id(sid));
                lemma_replace_scope_wf(r_mid, sid, scope@);
            }
            replace_scope_rows_exec(&mut reg.scopes, sid, scope);
            proof {
                let (r2, res) = spec_update_subscriber(rv, project, account@, scope@, now);
                assert(reg@ =~= r2);
            }
            Ok(out)
        },
        None => Err(StoreError::NotFound),
    }
}

/// Renews a subscription as of the wall clock's present moment.
pub fn update_subscriber(
    project: u128,
    account: &String,
    scope: &Vec<u128>,
    reg: &mut Registry,
) -> (r: Result<Subscriber, StoreError>)
    requires
        old(reg)@.wf(),
    ensures
        final(reg)@.wf(),
        exists|t: i64|
            #[trigger] spec_update_subscriber(old(reg)@, project, account@, scope@, t) == (
                final(reg)@,
                subscriber_result_view(r),
            ),
{
    let now = crate::clock::now_unix();
    update_subscriber_at(project, account, scope, now, reg)
}

/// Removes a subscriber row and, with it, every scope row it owns. A row
/// that is already gone is no error: deletion is idempotent by design.
pub fn delete_subscriber(subscriber: u128, reg: &mut Registry) -> (r: Result<(), StoreError>)
    requires
        old(reg)@.wf(),
    ensures
        final(reg)@.wf(),
        final(reg)@ == spec_delete_subscriber(old(reg)@, subscriber),
        r == Ok::<(), StoreError>(()),
{
    let ghost rv = old(reg)@;
    let mut kept: Vec<Subscriber> = Vec::new();
    let n = reg.subscribers.len();
    let mut i: usize = 0;
    while i < n
        invariant
            i <= n,
            n == reg@.subscribers.len(),
            reg@ == rv,
            kept@.map_values(|s: Subscriber| s@) =~= rv.subscribers.take(i as int).filter(
                subscriber_keep_pred(subscriber),
            ),
        decreases n - i,
    {
        proof {
            assert(rv.subscribers.take(i + 1) =~= rv.subscribers.take(i as int).push(
                rv.subscribers[i as int],
            ));
        }
        if reg.subscribers[i].id != subscriber {
            let ghost kept_prev = kept@;
            kept.push(clone_subscriber(&reg.subscribers[i]));
            proof {
                assert(subscriber_keep_pred(subscriber)(rv.subscribers[i as int]));
                assert(kept@.map_values(|s: Subscriber| s@) =~= kept_prev.map_values(
                    |s: Subscriber| s@,
                ).push(rv.subscribers[i as int]));
            }
        } else {
            proof {
                assert(!subscriber_keep_pred(subscriber)(rv.subscribers[i as int]));
            }
        }
        i += 1;
    }
    proof {
        assert(rv.subscribers.take(n as int) =~= rv.subscribers);
    }
    reg.subscribers = kept;
    let mut kept_rows: Vec<ScopeRow> = Vec::new();
    let m = reg.scopes.len();
    let mut j: usize = 0;
    while j < m
        invariant
            j <= m,
            m == reg@.scopes.len(),
            reg@.scopes == rv.scopes,
            kept_rows@ =~= rv.scopes.take(j as int).filter(scope_keep_pred(subscriber)),
        decreases m - j,
    {
        proof {
            assert(rv.scopes.take(j + 1) =~= rv.scopes.take(j as int).push(
                rv.scopes[j as int],
            ));
        }
        if reg.scopes[j].subscriber != subscriber {
            kept_rows.push(reg.scopes[j]);
            proof {
                assert(scope_keep_pred(subscriber)(rv.scopes[j as int]));
            }
        } else {
            proof {
                assert(!scope_keep_pred(subscriber)(rv.scopes[j as int]));
            }
        }
        j += 1;
    }
    proof {
        assert(rv.scopes.take(m as int) =~= rv.scopes);
    }
    reg.scopes = kept_rows;
    proof {
        lemma_delete_subscriber_wf(rv, subscriber);
        assert(reg@ =~= spec_delete_subscriber(rv, subscriber));
    }
    Ok(())
}

} // verus!
