//! Ephemeral watcher sessions: upsert keyed on the delegation key, the
//! read that serves only live watchers of one account and app (or global
//! ones), and the expiry sweep that garbage-collects the rest.

use vstd::prelude::*;

use crate::records::{
    lemma_filter_elements_contained, lemma_filter_keeps_pairwise, Registry, RegistryV, Watcher,
    WatcherV,
};
use crate::StoreError;

verus! {

broadcast use
    vstd::seq_lib::group_seq_properties,
    vstd::seq_lib::group_filter_ensures,
    Seq::lemma_filter_push,
;

/// One row of the active-watcher listing: which project it is scoped to (or
/// none, for a global watcher), its delegation key and its symmetric key.
#[derive(Debug)]
pub struct SubscriptionWatcherQuery {
    pub project: Option<u128>,
    pub did_key: String,
    pub sym_key: String,
}

pub ghost struct WatcherQueryV {
    pub project: Option<u128>,
    pub did_key: Seq<char>,
    pub sym_key: Seq<char>,
}

impl View for SubscriptionWatcherQuery {
    type V = WatcherQueryV;

    open spec fn view(&self) -> WatcherQueryV {
        WatcherQueryV {
            project: self.project,
            did_key: self.did_key@,
            sym_key: self.sym_key@,
        }
    }
}

/// A watcher that has outlived `t` is no longer served nor kept.
pub open spec fn watcher_live_pred(t: i64) -> spec_fn(WatcherV) -> bool {
    |w: WatcherV| w.expiry > t
}

/// The watchers of `account` served at `t` for one app: still live, and
/// either global or scoped to the project owning that app domain.
pub open spec fn watcher_visible_pred(
    r: RegistryV,
    account: Seq<char>,
    dom: Seq<char>,
    t: i64,
) -> spec_fn(WatcherV) -> bool {
    |w: WatcherV|
        w.expiry > t && w.account == account && match w.project {
            None => true,
            Some(p) => r.has_project(p) && r.project_by_id(p).app_domain == dom,
        }
}

pub open spec fn watcher_query_of() -> spec_fn(WatcherV) -> WatcherQueryV {
    |w: WatcherV| WatcherQueryV { project: w.project, did_key: w.did_key, sym_key: w.sym_key }
}

/// What upserting a watcher does: insert, or on conflict on the delegation
/// key overwrite account, project, symmetric key and expiry; the creation
/// stamp stays. A project reference that does not exist is a constraint
/// violation.
pub open spec fn spec_upsert_watcher(
    r: RegistryV,
    account: Seq<char>,
    project: Option<u128>,
    did_key: Seq<char>,
    sym_key: Seq<char>,
    expiry: i64,
    now: i64,
) -> (RegistryV, Result<(), StoreError>) {
    if (match project {
        Some(p) => !r.has_project(p),
        None => false,
    }) {
        (r, Err(StoreError::Conflict))
    } else if r.has_watcher(did_key) {
        let i = r.watcher_idx(did_key);
        let w = r.watchers[i];
        let w2 = WatcherV {
            account: account,
            project: project,
            sym_key: sym_key,
            expiry: expiry,
            updated_at: now,
            ..w
        };
        (RegistryV { watchers: r.watchers.update(i, w2), ..r }, Ok(()))
    } else {
        let w2 = WatcherV {
            account: account,
            project: project,
            did_key: did_key,
            sym_key: sym_key,
            expiry: expiry,
            created_at: now,
            updated_at: now,
        };
        (RegistryV { watchers: r.watchers.push(w2), ..r }, Ok(()))
    }
}

/// What the sweep does to the state: every watcher at or past its expiry
/// goes, every live one stays, in order.
pub open spec fn spec_sweep_expired(r: RegistryV, t: i64) -> RegistryV {
    RegistryV { watchers: r.watchers.filter(watcher_live_pred(t)), ..r }
}

/// The active-watcher listing as a function of the state: the visible rows,
/// in storage order, projected to the query shape.
pub open spec fn spec_active_watchers(
    r: RegistryV,
    account: Seq<char>,
    dom: Seq<char>,
    t: i64,
) -> Seq<WatcherQueryV> {
    r.watchers.filter(watcher_visible_pred(r, account, dom, t)).map_values(watcher_query_of())
}

/// Watcher upsert preserves every registry invariant.
pub proof fn lemma_upsert_watcher_wf(
    r: RegistryV,
    account: Seq<char>,
    project: Option<u128>,
    did_key: Seq<char>,
    sym_key: Seq<char>,
    expiry: i64,
    now: i64,
)
    requires
        r.wf(),
    ensures
        spec_upsert_watcher(r, account, project, did_key, sym_key, expiry, now).0.wf(),
{
    let r2 = spec_upsert_watcher(r, account, project, did_key, sym_key, expiry, now).0;
    assert forall|k: int| 0 <= k < r2.subscribers.len() implies {
        &&& (#[trigger] r2.subscribers[k]).id < r2.next_id
        &&& r2.has_project(r2.subscribers[k].project)
    } by {
        let pr = r2.subscribers[k].project;
        let w = choose|w: int| 0 <= w < r.projects.len() && (#[trigger] r.projects[w]).id == pr;
        assert(r2.projects[w].id == pr);
    }
    assert forall|k: int| 0 <= k < r2.scopes.len() implies r2.has_subscriber_id(
        (#[trigger] r2.scopes[k]).subscriber,
    ) by {
        let sub = r2.scopes[k].subscriber;
        assert(r.has_subscriber_id(sub));
        let w = choose|w: int|
            0 <= w < r.subscribers.len() && (#[trigger] r.subscribers[w]).id == sub;
        assert(r2.subscribers[w].id == sub);
    }
    if (match project {
        Some(p) => !r.has_project(p),
        None => false,
    }) {
    } else {
        assert forall|k: int|
            0 <= k < r2.watchers.len() && (#[trigger] r2.watchers[k]).project is Some implies r2
                .has_project(r2.watchers[k].project->0) by {
            let pr = r2.watchers[k].project->0;
            assert(r.has_project(pr));
            let w = choose|w: int| 0 <= w < r.projects.len() && (#[trigger] r.projects[w]).id == pr;
            assert(r2.projects[w].id == pr);
        }
        if r.has_watcher(did_key) {
        } else {
            let n = r.watchers.len() as int;
            assert forall|a: int, b: int|
                0 <= a < r2.watchers.len() && 0 <= b < r2.watchers.len() && a != b implies (
            #[trigger] r2.watchers[a]).did_key != (#[trigger] r2.watchers[b]).did_key by {
                if a == n {
                    if r2.watchers[b].did_key == did_key {
                        assert(r.has_watcher(did_key));
                    }
                } else if b == n {
                    if r2.watchers[a].did_key == did_key {
                        assert(r.has_watcher(did_key));
                    }
                }
            }
        }
    }
}

/// The sweep preserves every registry invariant.
pub proof fn lemma_sweep_expired_wf(r: RegistryV, t: i64)
    requires
        r.wf(),
    ensures
        spec_sweep_expired(r, t).wf(),
{
    let r2 = spec_sweep_expired(r, t);
    assert forall|k: int| 0 <= k < r2.subscribers.len() implies {
        &&& (#[trigger] r2.subscribers[k]).id < r2.next_id
        &&& r2.has_project(r2.subscribers[k].project)
    } by {
        let pr = r2.subscribers[k].project;
        let w = choose|w: int| 0 <= w < r.projects.len() && (#[trigger] r.projects[w]).id == pr;
        assert(r2.projects[w].id == pr);
    }
    assert forall|k: int| 0 <= k < r2.scopes.len() implies r2.has_subscriber_id(
        (#[trigger] r2.scopes[k]).subscriber,
    ) by {
        let sub = r2.scopes[k].subscriber;
        assert(r.has_subscriber_id(sub));
        let w = choose|w: int|
            0 <= w < r.subscribers.len() && (#[trigger] r.subscribers[w]).id == sub;
        assert(r2.subscribers[w].id == sub);
    }
    let rel = |a: WatcherV, b: WatcherV| a.did_key != b.did_key;
    assert forall|i: int, j: int|
        0 <= i < r.watchers.len() && 0 <= j < r.watchers.len() && i != j implies #[trigger] rel(
        r.watchers[i],
        r.watchers[j],
    ) by {}
    lemma_filter_keeps_pairwise(r.watchers, watcher_live_pred(t), rel);
    lemma_filter_elements_contained(r.watchers, watcher_live_pred(t));
    assert forall|a: int, b: int|
        0 <= a < r2.watchers.len() && 0 <= b < r2.watchers.len() && a != b implies (
    #[trigger] r2.watchers[a]).did_key != (#[trigger] r2.watchers[b]).did_key by {
        assert(rel(r2.watchers[a], r2.watchers[b]));
    }
    assert forall|k: int|
        0 <= k < r2.watchers.len() && (#[trigger] r2.watchers[k]).project is Some implies r2
            .has_project(r2.watchers[k].project->0) by {
        assert(r.watchers.contains(r2.watchers[k]));
        let i = choose|i: int| 0 <= i < r.watchers.len() && r.watchers[i] == r2.watchers[k];
        let pr = r.watchers[i].project->0;
        let w = choose|w: int| 0 <= w < r.projects.len() && (#[trigger] r.projects[w]).id == pr;
        assert(r2.projects[w].id == pr);
    }
}

fn find_watcher_idx(reg: &Registry, did_key: &String) -> (r: Option<usize>)
    ensures
        match r {
            Some(i) => 0 <= i < reg@.watchers.len() && (
            #[trigger] reg@.watchers[i as int]).did_key == did_key@,
            None => !reg@.has_watcher(did_key@),
        },
{
    let n = reg.watchers.len();
    let mut i: usize = 0;
    while i < n
        invariant
            i <= n,
            n == reg@.watchers.len(),
            forall|j: int| 0 <= j < i ==> (#[trigger] reg@.watchers[j]).did_key != did_key@,
        decreases n - i,
    {
        if reg.watchers[i].did_key == *did_key {
            return Some(i);
        }
        i += 1;
    }
    None
}

/// Creates or refreshes a watcher session keyed on its delegation key, as
/// of the moment `now`: on conflict the account, project, symmetric key and
/// expiry are overwritten — a fresh expiry starts a new logical session.
pub fn upsert_subscription_watcher_at(
    account: &String,
    project: Option<u128>,
    did_key: &String,
    sym_key: &String,
    expiry: i64,
    now: i64,
    reg: &mut Registry,
) -> (r: Result<(), StoreError>)
    requires
        old(reg)@.wf(),
    ensures
        final(reg)@.wf(),
        spec_upsert_watcher(old(reg)@, account@, project, did_key@, sym_key@, expiry, now) == (
            final(reg)@,
            r,
        ),
{
    let ghost rv = old(reg)@;
    proof {
        lemma_upsert_watcher_wf(rv, account@, project, did_key@, sym_key@, expiry, now);
    }
    match project {
        Some(p) => {
            if crate::subscriber_store::find_project_idx_by_id(reg, p).is_none() {
                return Err(StoreError::Conflict);
            }
            proof {
                let w = choose|w: int|
                    0 <= w < reg@.projects.len() && (#[trigger] reg@.projects[w]).id == p;
                assert(rv.has_project(p));
            }
        },
        None => {},
    }
    match find_watcher_idx(reg, did_key) {
        Some(i) => {
            proof {
                assert(rv.has_watcher(did_key@));
                let ci = rv.watcher_idx(did_key@);
                assert(0 <= ci < rv.watchers.len() && rv.watchers[ci].did_key == did_key@);
                if ci != i as int {
                    assert(rv.watchers[ci].did_key != rv.watchers[i as int].did_key);
                }
            }
            let w_old = reg.watchers.remove(i);
            let w2 = Watcher {
                account: account.clone(),
                project: project,
                sym_key: sym_key.clone(),
                expiry: expiry,
                updated_at: now,
                ..w_old
            };
            reg.watchers.insert(i, w2);
            proof {
                let ci = rv.watcher_idx(did_key@);
                let w2v = WatcherV {
                    account: account@,
                    project: project,
                    sym_key: sym_key@,
                    expiry: expiry,
                    updated_at: now,
                    ..rv.watchers[ci]
                };
                assert(reg@.watchers =~= rv.watchers.update(ci, w2v));
                let (r2, res) = spec_upsert_watcher(
                    rv,
                    account@,
                    project,
                    did_key@,
                    sym_key@,
                    expiry,
                    now,
                );
                assert(reg@ =~= r2);
            }
            Ok(())
        },
        None => {
            let w2 = Watcher {
                account: account.clone(),
                project: project,
                did_key: did_key.clone(),
                sym_key: sym_key.clone(),
                expiry: expiry,
                created_at: now,
                updated_at: now,
            };
            reg.watchers.push(w2);
            proof {
                let (r2, res) = spec_upsert_watcher(
                    rv,
                    account@,
                    project,
                    did_key@,
                    sym_key@,
                    expiry,
                    now,
                );
                assert(reg@.watchers =~= r2.watchers);
                assert(reg@ =~= r2);
            }
            Ok(())
        },
    }
}

/// Creates or refreshes a watcher session, stamping it with the wall
/// clock's present moment.
pub fn upsert_subscription_watcher(
    account: &String,
    project: Option<u128>,
    did_key: &String,
    sym_key: &String,
    expiry: i64,
    reg: &mut Registry,
) -> (r: Result<(), StoreError>)
    requires
        old(reg)@.wf(),
    ensures
        final(reg)@.wf(),
        exists|t: i64|
            #[trigger] spec_upsert_watcher(
                old(reg)@,
                account@,
                project,
                did_key@,
                sym_key@,
                expiry,
                t,
            ) == (final(reg)@, r),
{
    let now = crate::clock::now_unix();
    upsert_subscription_watcher_at(account, project, did_key, sym_key, expiry, now, reg)
}

/// Serves the watchers of one account visible at `t` for one app domain:
/// global watchers plus those scoped to the project owning the domain,
/// expired rows and rows of other apps excluded.
pub fn get_subscription_watchers_for_account_by_app_or_all_app_at(
    account: &String,
    app_domain: &String,
    now: i64,
    reg: &Registry,
) -> (r: Result<Vec<SubscriptionWatcherQuery>, StoreError>)
    requires
        reg@.wf(),
    ensures
        match r {
            Ok(v) => v@.map_values(|q: SubscriptionWatcherQuery| q@) == spec_active_watchers(
                reg@,
                account@,
                app_domain@,
                now,
            ),
            Err(_) => false,
        },
{
    let ghost rv = reg@;
    let ghost pred = watcher_visible_pred(rv, account@, app_domain@, now);
    let mut out: Vec<SubscriptionWatcherQuery> = Vec::new();
    let n = reg.watchers.len();
    let mut i: usize = 0;
    while i < n
        invariant
            i <= n,
            rv == reg@,
            rv.wf(),
            pred == watcher_visible_pred(rv, account@, app_domain@, now),
            n == rv.watchers.len(),
            out@.map_values(|q: SubscriptionWatcherQuery| q@) =~= rv.watchers.take(
                i as int,
            ).filter(pred).map_values(watcher_query_of()),
        decreases n - i,
    {
        proof {
            assert(rv.watchers.take(i + 1) =~= rv.watchers.take(i as int).push(
                rv.watchers[i as int],
            ));
        }
        let w = &reg.watchers[i];
        let mut visible = false;
        if w.expiry > now && w.account == *account {
            match w.project {
                None => {
                    visible = true;
                },
                Some(p) => {
                    match crate::subscriber_store::find_project_idx_by_id(reg, p) {
                        Some(pi) => {
                            proof {
                                assert(rv.has_project(p));
                                let cw = rv.project_idx(p);
                                assert(0 <= cw < rv.projects.len() && rv.projects[cw].id == p);
                                if cw != pi as int {
                                    assert(rv.projects[cw].id != rv.projects[pi as int].id);
                                }
                            }
                            if reg.projects[pi].app_domain == *app_domain {
                                visible = true;
                            }
                        },
                        None => {},
                    }
                },
            }
        }
        proof {
            assert(visible == pred(rv.watchers[i as int]));
        }
        if visible {
            let ghost out_prev = out@;
            out.push(
                SubscriptionWatcherQuery {
                    project: w.project,
                    did_key: w.did_key.clone(),
                    sym_key: w.sym_key.clone(),
                },
            );
            proof {
                assert(out@.map_values(|q: SubscriptionWatcherQuery| q@) =~= out_prev.map_values(
                    |q: SubscriptionWatcherQuery| q@,
                ).push(watcher_query_of()(rv.watchers[i as int])));
            }
        }
        i += 1;
    }
    proof {
        assert(rv.watchers.take(n as int) =~= rv.watchers);
    }
    Ok(out)
}

/// Serves the watchers of one account that are active now, for one app
/// domain.
pub fn get_subscription_watchers_for_account_by_app_or_all_app(
    account: &String,
    app_domain: &String,
    reg: &Registry,
) -> (r: Result<Vec<SubscriptionWatcherQuery>, StoreError>)
    requires
        reg@.wf(),
    ensures
        match r {
            Ok(v) => exists|t: i64|
                v@.map_values(|q: SubscriptionWatcherQuery| q@) == #[trigger] spec_active_watchers(
                    reg@,
                    account@,
                    app_domain@,
                    t,
                ),
            Err(_) => false,
        },
{
    let now = crate::clock::now_unix();
    get_subscription_watchers_for_account_by_app_or_all_app_at(account, app_domain, now, reg)
}

/// Hard-deletes every watcher whose expiry is at or before `t` and returns
/// how many went. Live watchers are untouched; a second sweep at the same
/// moment therefore removes nothing.
pub fn delete_expired_subscription_watchers_at(now: i64, reg: &mut Registry) -> (r: Result<
    usize,
    StoreError,
>)
    requires
        old(reg)@.wf(),
    ensures
        final(reg)@.wf(),
        final(reg)@ == spec_sweep_expired(old(reg)@, now),
        match r {
            Ok(count) => count == old(reg)@.watchers.len() - final(reg)@.watchers.len(),
            Err(_) => false,
        },
{
    let ghost rv = old(reg)@;
    let mut kept: Vec<Watcher> = Vec::new();
    let n = reg.watchers.len();
    let mut i: usize = 0;
    while i < n
        invariant
            i <= n,
            reg@ == rv,
            n == rv.watchers.len(),
            kept@.map_values(|w: Watcher| w@) =~= rv.watchers.take(i as int).filter(
                watcher_live_pred(now),
            ),
            kept@.len() <= i,
        decreases n - i,
    {
        proof {
            assert(rv.watchers.take(i + 1) =~= rv.watchers.take(i as int).push(
                rv.watchers[i as int],
            ));
        }
        if reg.watchers[i].expiry > now {
            let ghost kept_prev = kept@;
            let w = &reg.watchers[i];
            kept.push(
                Watcher {
                    account: w.account.clone(),
                    project: w.project,
                    did_key: w.did_key.clone(),
                    sym_key: w.sym_key.clone(),
                    expiry: w.expiry,
                    created_at: w.created_at,
                    updated_at: w.updated_at,
                },
            );
            proof {
                assert(watcher_live_pred(now)(rv.watchers[i as int]));
                assert(kept@.map_values(|w: Watcher| w@) =~= kept_prev.map_values(
                    |w: Watcher| w@,
                ).push(rv.watchers[i as int]));
            }
        } else {
            proof {
                assert(!watcher_live_pred(now)(rv.watchers[i as int]));
            }
        }
        i += 1;
    }
    proof {
        assert(rv.watchers.take(n as int) =~= rv.watchers);
    }
    let count = n - kept.len();
    reg.watchers = kept;
    proof {
        lemma_sweep_expired_wf(rv, now);
        assert(reg@ =~= spec_sweep_expired(rv, now));
    }
    Ok(count)
}

/// Sweeps as of the wall clock's present moment, for the periodic caller.
pub fn delete_expired_subscription_watchers(reg: &mut Registry) -> (r: Result<usize, StoreError>)
    requires
        old(reg)@.wf(),
    ensures
        final(reg)@.wf(),
        exists|t: i64|
            #[trigger] spec_sweep_expired(old(reg)@, t) == final(reg)@ && match r {
                Ok(count) => count == old(reg)@.watchers.len() - final(reg)@.watchers.len(),
                Err(_) => false,
            },
{
    let now = crate::clock::now_unix();
    delete_expired_subscription_watchers_at(now, reg)
}

} // verus!
