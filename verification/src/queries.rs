//! The read side: joins over subscribers, projects and scope rows,
//! aggregated back into one record per subscriber. A subscriber is served
//! by these joins only while it owns at least one scope row, as the store's
//! inner join has it.

use vstd::prelude::*;

use crate::records::{
    scope_name_of, scope_of_pred, Registry, RegistryV, ScopeRow, SubscriberV,
};
use crate::StoreError;

verus! {

broadcast use
    vstd::seq_lib::group_seq_properties,
    vstd::seq_lib::group_filter_ensures,
    Seq::lemma_filter_push,
;

/// One subscriber of a project, with its account and decoded scope set.
#[derive(Debug)]
pub struct SubscriberAccountAndScopes {
    pub account: String,
    pub scope: Vec<u128>,
}

pub ghost struct SubscriberAccountAndScopesV {
    pub account: Seq<char>,
    pub scope: Seq<u128>,
}

impl View for SubscriberAccountAndScopes {
    type V = SubscriberAccountAndScopesV;

    open spec fn view(&self) -> SubscriberAccountAndScopesV {
        SubscriberAccountAndScopesV { account: self.account@, scope: self.scope@ }
    }
}

/// A subscriber row joined with its aggregated scope set.
#[derive(Debug)]
pub struct SubscriberWithScope {
    pub id: u128,
    pub project: u128,
    pub account: String,
    pub sym_key: String,
    pub topic: String,
    pub scope: Vec<u128>,
    pub expiry: i64,
}

pub ghost struct SubscriberWithScopeV {
    pub id: u128,
    pub project: u128,
    pub account: Seq<char>,
    pub sym_key: Seq<char>,
    pub topic: Seq<char>,
    pub scope: Seq<u128>,
    pub expiry: i64,
}

impl View for SubscriberWithScope {
    type V = SubscriberWithScopeV;

    open spec fn view(&self) -> SubscriberWithScopeV {
        SubscriberWithScopeV {
            id: self.id,
            project: self.project,
            account: self.account@,
            sym_key: self.sym_key@,
            topic: self.topic@,
            scope: self.scope@,
            expiry: self.expiry,
        }
    }
}

/// The same join as the store's wire format hands it back: the scope
/// aggregated as raw strings, not yet decoded.
#[derive(Debug)]
pub struct SubscriberWithScopeResult {
    pub id: u128,
    pub project: u128,
    pub account: String,
    pub sym_key: String,
    pub topic: String,
    pub scope: Vec<String>,
    pub expiry: i64,
}

/// The one shared decode step from the wire shape: identifiers are parsed
/// from their textual form, and an entry that does not parse is silently
/// dropped rather than failing the read.
pub fn decode_subscriber_with_scope(raw: &SubscriberWithScopeResult) -> (r: SubscriberWithScope)
    ensures
        r@.id == raw.id,
        r@.project == raw.project,
        r@.account == raw.account@,
        r@.sym_key == raw.sym_key@,
        r@.topic == raw.topic@,
        r@.expiry == raw.expiry,
        crate::codec::distinct_names(r@.scope),
        forall|u: u128|
            r@.scope.contains(u) <==> crate::codec::spec_valid_scopes(
                raw.scope@.map_values(|s: String| s@),
            ).contains(u),
{
    SubscriberWithScope {
        id: raw.id,
        project: raw.project,
        account: raw.account.clone(),
        sym_key: raw.sym_key.clone(),
        topic: raw.topic.clone(),
        scope: crate::codec::parse_scopes_and_ignore_invalid(raw.scope.as_slice()),
        expiry: raw.expiry,
    }
}

/// A subscription joined with its project, as served to an account.
#[derive(Debug)]
pub struct SubscriberWithProject {
    pub app_domain: String,
    pub authentication_public_key: String,
    pub account: String,
    pub sym_key: String,
    pub scope: Vec<u128>,
    pub expiry: i64,
}

pub ghost struct SubscriberWithProjectV {
    pub app_domain: Seq<char>,
    pub authentication_public_key: Seq<char>,
    pub account: Seq<char>,
    pub sym_key: Seq<char>,
    pub scope: Seq<u128>,
    pub expiry: i64,
}

impl View for SubscriberWithProject {
    type V = SubscriberWithProjectV;

    open spec fn view(&self) -> SubscriberWithProjectV {
        SubscriberWithProjectV {
            app_domain: self.app_domain@,
            authentication_public_key: self.authentication_public_key@,
            account: self.account@,
            sym_key: self.sym_key@,
            scope: self.scope@,
            expiry: self.expiry,
        }
    }
}

/// Collects the scope names of one subscriber, in storage order.
fn collect_scope_names(reg: &Registry, sid: u128) -> (r: Vec<u128>)
    ensures
        r@ == reg@.scope_names_of(sid),
{
    let ghost rv = reg@;
    let mut out: Vec<u128> = Vec::new();
    let n = reg.scopes.len();
    let mut i: usize = 0;
    while i < n
        invariant
            i <= n,
            rv == reg@,
            n == rv.scopes.len(),
            out@ =~= rv.scopes.take(i as int).filter(scope_of_pred(sid)).map_values(
                scope_name_of(),
            ),
        decreases n - i,
    {
        proof {
            assert(rv.scopes.take(i + 1) =~= rv.scopes.take(i as int).push(rv.scopes[i as int]));
        }
        if reg.scopes[i].subscriber == sid {
            out.push(reg.scopes[i].name);
            proof {
                assert(scope_of_pred(sid)(rv.scopes[i as int]));
                assert(rv.scopes.take(i + 1).filter(scope_of_pred(sid)) =~= rv.scopes.take(
                    i as int,
                ).filter(scope_of_pred(sid)).push(rv.scopes[i as int]));
            }
        } else {
            proof {
                assert(!scope_of_pred(sid)(rv.scopes[i as int]));
            }
        }
        i += 1;
    }
    proof {
        assert(rv.scopes.take(n as int) =~= rv.scopes);
    }
    out
}

/// Whether a subscriber owns scope rows, decided from the names collected
/// for it.
proof fn lemma_scope_names_empty_iff_no_rows(r: RegistryV, sid: u128)
    ensures
        r.scope_names_of(sid).len() == 0 <==> !r.has_scope_rows(sid),
{
    let rows = r.scopes.filter(scope_of_pred(sid));
    if rows.len() > 0 {
        crate::records::lemma_filter_elements_contained(r.scopes, scope_of_pred(sid));
        assert(r.scopes.contains(rows[0]));
        let i = choose|i: int| 0 <= i < r.scopes.len() && r.scopes[i] == rows[0];
        assert(scope_of_pred(sid)(rows[0]));
        assert(r.scopes[i].subscriber == sid);
        assert(r.has_scope_rows(sid));
    }
    if r.has_scope_rows(sid) {
        let i = choose|i: int|
            0 <= i < r.scopes.len() && (#[trigger] r.scopes[i]).subscriber == sid;
        assert(scope_of_pred(sid)(r.scopes[i]));
        assert(r.scopes.filter(scope_of_pred(sid)).contains(r.scopes[i]));
        assert(rows.len() > 0);
    }
}

/// The subscribers of the project named by an external identifier.
pub open spec fn project_member_pred(r: RegistryV, pid: Seq<char>) -> spec_fn(SubscriberV) -> bool {
    |s: SubscriberV|
        r.has_project(s.project) && r.project_by_id(s.project).project_id == pid
}

pub open spec fn account_of() -> spec_fn(SubscriberV) -> Seq<char> {
    |s: SubscriberV| s.account
}

/// Every account subscribed to the project with the given external
/// identifier, in storage order; an unknown project has no subscribers.
pub fn get_subscriber_accounts_by_project_id(project_id: &String, reg: &Registry) -> (r: Result<
    Vec<String>,
    StoreError,
>)
    requires
        reg@.wf(),
    ensures
        match r {
            Ok(v) => v@.map_values(|s: String| s@) == reg@.subscribers.filter(
                project_member_pred(reg@, project_id@),
            ).map_values(account_of()),
            Err(_) => false,
        },
{
    let ghost rv = reg@;
    let ghost pred = project_member_pred(rv, project_id@);
    let mut out: Vec<String> = Vec::new();
    let n = reg.subscribers.len();
    let mut i: usize = 0;
    while i < n
        invariant
            i <= n,
            rv == reg@,
            rv.wf(),
            pred == project_member_pred(rv, project_id@),
            n == rv.subscribers.len(),
            out@.map_values(|s: String| s@) =~= rv.subscribers.take(i as int).filter(
                pred,
            ).map_values(account_of()),
        decreases n - i,
    {
        proof {
            assert(rv.subscribers.take(i + 1) =~= rv.subscribers.take(i as int).push(
                rv.subscribers[i as int],
            ));
        }
        let mut member = false;
        match crate::subscriber_store::find_project_idx_by_id(reg, reg.subscribers[i].project) {
            Some(pi) => {
                proof {
                    assert(rv.has_project(rv.subscribers[i as int].project));
                    let cw = rv.project_idx(rv.subscribers[i as int].project);
                    assert(0 <= cw < rv.projects.len() && rv.projects[cw].id
                        == rv.subscribers[i as int].project);
                    if cw != pi as int {
                        assert(rv.projects[cw].id != rv.projects[pi as int].id);
                    }
                }
                if reg.projects[pi].project_id == *project_id {
                    member = true;
                }
            },
            None => {
                proof {
                    assert(rv.has_project(rv.subscribers[i as int].project));
                    assert(false);
                }
            },
        }
        proof {
            assert(member == pred(rv.subscribers[i as int]));
        }
        if member {
            let ghost out_prev = out@;
            out.push(reg.subscribers[i].account.clone());
            proof {
                assert(out@.map_values(|s: String| s@) =~= out_prev.map_values(
                    |s: String| s@,
                ).push(account_of()(rv.subscribers[i as int])));
            }
        }
        i += 1;
    }
    proof {
        assert(rv.subscribers.take(n as int) =~= rv.subscribers);
    }
    Ok(out)
}

/// The subscribers of a project that own scope rows, as the aggregating
/// join serves them.
pub open spec fn project_member_with_rows_pred(r: RegistryV, pid: Seq<char>) -> spec_fn(
    SubscriberV,
) -> bool {
    |s: SubscriberV|
        r.has_project(s.project) && r.project_by_id(s.project).project_id == pid
            && r.has_scope_rows(s.id)
}

pub open spec fn account_and_scopes_of(r: RegistryV) -> spec_fn(SubscriberV) ->
    SubscriberAccountAndScopesV {
    |s: SubscriberV|
        SubscriberAccountAndScopesV { account: s.account, scope: r.scope_names_of(s.id) }
}

/// Every account subscribed to the project, each with its scope set. A
/// subscriber without scope rows is not served, as the inner join has it.
pub fn get_subscriber_accounts_and_scopes_by_project_id(
    project_id: &String,
    reg: &Registry,
) -> (r: Result<Vec<SubscriberAccountAndScopes>, StoreError>)
    requires
        reg@.wf(),
    ensures
        match r {
            Ok(v) => v@.map_values(|q: SubscriberAccountAndScopes| q@) == reg@.subscribers.filter(
                project_member_with_rows_pred(reg@, project_id@),
            ).map_values(account_and_scopes_of(reg@)),
            Err(_) => false,
        },
{
    let ghost rv = reg@;
    let ghost pred = project_member_with_rows_pred(rv, project_id@);
    let mut out: Vec<SubscriberAccountAndScopes> = Vec::new();
    let n = reg.subscribers.len();
    let mut i: usize = 0;
    while i < n
        invariant
            i <= n,
            rv == reg@,
            rv.wf(),
            pred == project_member_with_rows_pred(rv, project_id@),
            n == rv.subscribers.len(),
            out@.map_values(|q: SubscriberAccountAndScopes| q@) =~= rv.subscribers.take(
                i as int,
            ).filter(pred).map_values(account_and_scopes_of(rv)),
        decreases n - i,
    {
        proof {
            assert(rv.subscribers.take(i + 1) =~= rv.subscribers.take(i as int).push(
                rv.subscribers[i as int],
            ));
        }
        let mut member = false;
        match crate::subscriber_store::find_project_idx_by_id(reg, reg.subscribers[i].project) {
            Some(pi) => {
                proof {
                    assert(rv.has_project(rv.subscribers[i as int].project));
                    let cw = rv.project_idx(rv.subscribers[i as int].project);
                    assert(0 <= cw < rv.projects.len() && rv.projects[cw].id
                        == rv.subscribers[i as int].project);
                    if cw != pi as int {
                        assert(rv.projects[cw].id != rv.projects[pi as int].id);
                    }
                }
                if reg.projects[pi].project_id == *project_id {
                    member = true;
                }
            },
            None => {
                proof {
                    assert(rv.has_project(rv.subscribers[i as int].project));
                    assert(false);
                }
            },
        }
        if member {
            let names = collect_scope_names(reg, reg.subscribers[i].id);
            proof {
                lemma_scope_names_empty_iff_no_rows(rv, rv.subscribers[i as int].id);
            }
            if names.len() > 0 {
                let ghost out_prev = out@;
                let row = SubscriberAccountAndScopes {
                    account: reg.subscribers[i].account.clone(),
                    scope: names,
                };
                out.push(row);
                proof {
                    assert(pred(rv.subscribers[i as int]));
                    assert(out@.map_values(|q: SubscriberAccountAndScopes| q@)
                        =~= out_prev.map_values(|q: SubscriberAccountAndScopes| q@).push(
                        account_and_scopes_of(rv)(rv.subscribers[i as int]),
                    ));
                }
            } else {
                proof {
                    assert(!pred(rv.subscribers[i as int]));
                }
            }
        } else {
            proof {
                assert(!pred(rv.subscribers[i as int]));
            }
        }
        i += 1;
    }
    proof {
        assert(rv.subscribers.take(n as int) =~= rv.subscribers);
    }
    Ok(out)
}

/// Every subscriber topic, in storage order.
pub fn get_subscriber_topics(reg: &Registry) -> (r: Result<Vec<String>, StoreError>)
    ensures
        match r {
            Ok(v) => v@.len() == reg@.subscribers.len() && forall|k: int|
                0 <= k < v@.len() ==> (#[trigger] v@[k])@ == reg@.subscribers[k].topic,
            Err(_) => false,
        },
{
    let n = reg.subscribers.len();
    let mut out: Vec<String> = Vec::new();
    let mut i: usize = 0;
    while i < n
        invariant
            i <= n,
            n == reg@.subscribers.len(),
            out@.len() == i,
            forall|k: int| 0 <= k < i ==> (#[trigger] out@[k])@ == reg@.subscribers[k].topic,
        decreases n - i,
    {
        out.push(reg.subscribers[i].topic.clone());
        i += 1;
    }
    Ok(out)
}

/// The record a topic lookup serves: the subscriber row with its aggregated
/// scope names.
pub open spec fn subscriber_with_scope_shape(r: RegistryV, s: SubscriberV) -> SubscriberWithScopeV {
    SubscriberWithScopeV {
        id: s.id,
        project: s.project,
        account: s.account,
        sym_key: s.sym_key,
        topic: s.topic,
        scope: r.scope_names_of(s.id),
        expiry: s.expiry,
    }
}

/// What a read by topic may return: some subscriber on that topic that owns
/// scope rows, with its aggregated scope; not found exactly when no such
/// subscriber exists.
pub open spec fn read_by_topic_post(
    r: RegistryV,
    topic: Seq<char>,
    res: Result<SubscriberWithScopeV, StoreError>,
) -> bool {
    match res {
        Ok(q) => exists|i: int|
            0 <= i < r.subscribers.len() && (#[trigger] r.subscribers[i]).topic == topic
                && r.has_scope_rows(r.subscribers[i].id) && q == subscriber_with_scope_shape(
                r,
                r.subscribers[i],
            ),
        Err(e) => e == StoreError::NotFound && forall|i: int|
            0 <= i < r.subscribers.len() ==> !((#[trigger] r.subscribers[i]).topic == topic
                && r.has_scope_rows(r.subscribers[i].id)),
    }
}

/// Serves the subscriber on a notify topic, with its scope set; a topic
/// nobody with scope rows sits on is not found.
pub fn get_subscriber_by_topic(topic: &String, reg: &Registry) -> (r: Result<
    SubscriberWithScope,
    StoreError,
>)
    ensures
        read_by_topic_post(
            reg@,
            topic@,
            match r {
                Ok(q) => Ok(q@),
                Err(e) => Err(e),
            },
        ),
{
    let ghost rv = reg@;
    let n = reg.subscribers.len();
    let mut i: usize = 0;
    while i < n
        invariant
            i <= n,
            rv == reg@,
            n == rv.subscribers.len(),
            forall|j: int|
                0 <= j < i ==> !((#[trigger] rv.subscribers[j]).topic == topic@
                    && rv.has_scope_rows(rv.subscribers[j].id)),
        decreases n - i,
    {
        if reg.subscribers[i].topic == *topic {
            let names = collect_scope_names(reg, reg.subscribers[i].id);
            proof {
                lemma_scope_names_empty_iff_no_rows(rv, rv.subscribers[i as int].id);
            }
            if names.len() > 0 {
                let s = &reg.subscribers[i];
                let q = SubscriberWithScope {
                    id: s.id,
                    project: s.project,
                    account: s.account.clone(),
                    sym_key: s.sym_key.clone(),
                    topic: s.topic.clone(),
                    scope: names,
                    expiry: s.expiry,
                };
                proof {
                    assert(q@ == subscriber_with_scope_shape(rv, rv.subscribers[i as int]));
                }
                return Ok(q);
            }
        }
        i += 1;
    }
    Err(StoreError::NotFound)
}

/// Membership of an account string in a listing.
pub open spec fn str_seq_contains(seqs: Seq<Seq<char>>, x: Seq<char>) -> bool {
    exists|k: int| 0 <= k < seqs.len() && seqs[k] == x
}

fn contains_string(v: &[String], x: &String) -> (r: bool)
    ensures
        r == str_seq_contains(v@.map_values(|s: String| s@), x@),
{
    let ghost seqs = v@.map_values(|s: String| s@);
    let n = v.len();
    let mut i: usize = 0;
    while i < n
        invariant
            i <= n,
            n == v@.len(),
            seqs == v@.map_values(|s: String| s@),
            forall|k: int| 0 <= k < i ==> seqs[k] != x@,
        decreases n - i,
    {
        if v[i] == *x {
            proof {
                assert(seqs[i as int] == x@);
            }
            return true;
        }
        i += 1;
    }
    false
}

/// The subscribers of one project among a listed set of accounts, that own
/// scope rows.
pub open spec fn project_accounts_pred(r: RegistryV, project: u128, accts: Seq<Seq<char>>) -> spec_fn(
    SubscriberV,
) -> bool {
    |s: SubscriberV|
        s.project == project && str_seq_contains(accts, s.account) && r.has_scope_rows(s.id)
}

pub open spec fn subscriber_scope_shape_of(r: RegistryV) -> spec_fn(SubscriberV) ->
    SubscriberWithScopeV {
    |s: SubscriberV| subscriber_with_scope_shape(r, s)
}

/// Serves the subscribers of one project whose accounts stand in the given
/// listing, each with its scope set.
pub fn get_subscribers_for_project_in(
    project: u128,
    accounts: &[String],
    reg: &Registry,
) -> (r: Result<Vec<SubscriberWithScope>, StoreError>)
    ensures
        match r {
            Ok(v) => v@.map_values(|q: SubscriberWithScope| q@) == reg@.subscribers.filter(
                project_accounts_pred(reg@, project, accounts@.map_values(|s: String| s@)),
            ).map_values(subscriber_scope_shape_of(reg@)),
            Err(_) => false,
        },
{
    let ghost rv = reg@;
    let ghost accts = accounts@.map_values(|s: String| s@);
    let ghost pred = project_accounts_pred(rv, project, accts);
    let mut out: Vec<SubscriberWithScope> = Vec::new();
    let n = reg.subscribers.len();
    let mut i: usize = 0;
    while i < n
        invariant
            i <= n,
            rv == reg@,
            accts == accounts@.map_values(|s: String| s@),
            pred == project_accounts_pred(rv, project, accts),
            n == rv.subscribers.len(),
            out@.map_values(|q: SubscriberWithScope| q@) =~= rv.subscribers.take(
                i as int,
            ).filter(pred).map_values(subscriber_scope_shape_of(rv)),
        decreases n - i,
    {
        proof {
            assert(rv.subscribers.take(i + 1) =~= rv.subscribers.take(i as int).push(
                rv.subscribers[i as int],
            ));
        }
        let mut member = false;
        if reg.subscribers[i].project == project {
            if contains_string(accounts, &reg.subscribers[i].account) {
                member = true;
            }
        }
        if member {
            let names = collect_scope_names(reg, reg.subscribers[i].id);
            proof {
                lemma_scope_names_empty_iff_no_rows(rv, rv.subscribers[i as int].id);
            }
            if names.len() > 0 {
                let ghost out_prev = out@;
                let s = &reg.subscribers[i];
                let q = SubscriberWithScope {
                    id: s.id,
                    project: s.project,
                    account: s.account.clone(),
                    sym_key: s.sym_key.clone(),
                    topic: s.topic.clone(),
                    scope: names,
                    expiry: s.expiry,
                };
                out.push(q);
                proof {
                    assert(pred(rv.subscribers[i as int]));
                    assert(out@.map_values(|q: SubscriberWithScope| q@) =~= out_prev.map_values(
                        |q: SubscriberWithScope| q@,
                    ).push(subscriber_scope_shape_of(rv)(rv.subscribers[i as int])));
                }
            } else {
                proof {
                    assert(!pred(rv.subscribers[i as int]));
                }
            }
        } else {
            proof {
                assert(!pred(rv.subscribers[i as int]));
            }
        }
        i += 1;
    }
    proof {
        assert(rv.subscribers.take(n as int) =~= rv.subscribers);
    }
    Ok(out)
}

/// The subscriptions of one account that own scope rows.
pub open spec fn account_pred(r: RegistryV, account: Seq<char>) -> spec_fn(SubscriberV) -> bool {
    |s: SubscriberV| s.account == account && r.has_scope_rows(s.id)
}

/// The subscriptions of one account under one app domain.
pub open spec fn account_and_app_pred(r: RegistryV, account: Seq<char>, dom: Seq<char>) -> spec_fn(
    SubscriberV,
) -> bool {
    |s: SubscriberV|
        s.account == account && r.has_scope_rows(s.id) && r.has_project(s.project)
            && r.project_by_id(s.project).app_domain == dom
}

/// The record an account listing serves: the subscription joined with its
/// project's app domain and authentication key.
pub open spec fn subscriber_with_project_shape_of(r: RegistryV) -> spec_fn(SubscriberV) ->
    SubscriberWithProjectV {
    |s: SubscriberV|
        SubscriberWithProjectV {
            app_domain: r.project_by_id(s.project).app_domain,
            authentication_public_key: r.project_by_id(s.project).authentication_public_key,
            account: s.account,
            sym_key: s.sym_key,
            scope: r.scope_names_of(s.id),
            expiry: s.expiry,
        }
}

fn build_subscriber_with_project(reg: &Registry, i: usize, pi: usize, names: Vec<u128>) -> (q:
    SubscriberWithProject)
    requires
        i < reg.subscribers@.len(),
        pi < reg.projects@.len(),
        names@ == reg@.scope_names_of(reg@.subscribers[i as int].id),
    ensures
        q@ == (SubscriberWithProjectV {
            app_domain: reg@.projects[pi as int].app_domain,
            authentication_public_key: reg@.projects[pi as int].authentication_public_key,
            account: reg@.subscribers[i as int].account,
            sym_key: reg@.subscribers[i as int].sym_key,
            scope: reg@.scope_names_of(reg@.subscribers[i as int].id),
            expiry: reg@.subscribers[i as int].expiry,
        }),
{
    let s = &reg.subscribers[i];
    SubscriberWithProject {
        app_domain: reg.projects[pi].app_domain.clone(),
        authentication_public_key: reg.projects[pi].authentication_public_key.clone(),
        account: s.account.clone(),
        sym_key: s.sym_key.clone(),
        scope: names,
        expiry: s.expiry,
    }
}

/// Serves every subscription of an account, joined with its project's app
/// domain and authentication key.
pub fn get_subscriptions_by_account(account: &String, reg: &Registry) -> (r: Result<
    Vec<SubscriberWithProject>,
    StoreError,
>)
    requires
        reg@.wf(),
    ensures
        match r {
            Ok(v) => v@.map_values(|q: SubscriberWithProject| q@) == reg@.subscribers.filter(
                account_pred(reg@, account@),
            ).map_values(subscriber_with_project_shape_of(reg@)),
            Err(_) => false,
        },
{
    let ghost rv = reg@;
    let ghost pred = account_pred(rv, account@);
    let mut out: Vec<SubscriberWithProject> = Vec::new();
    let n = reg.subscribers.len();
    let mut i: usize = 0;
    while i < n
        invariant
            i <= n,
            rv == reg@,
            rv.wf(),
            pred == account_pred(rv, account@),
            n == rv.subscribers.len(),
            out@.map_values(|q: SubscriberWithProject| q@) =~= rv.subscribers.take(
                i as int,
            ).filter(pred).map_values(subscriber_with_project_shape_of(rv)),
        decreases n - i,
    {
        proof {
            assert(rv.subscribers.take(i + 1) =~= rv.subscribers.take(i as int).push(
                rv.subscribers[i as int],
            ));
        }
        if reg.subscribers[i].account == *account {
            let names = collect_scope_names(reg, reg.subscribers[i].id);
            proof {
                lemma_scope_names_empty_iff_no_rows(rv, rv.subscribers[i as int].id);
            }
            if names.len() > 0 {
                match crate::subscriber_store::find_project_idx_by_id(
                    reg,
                    reg.subscribers[i].project,
                ) {
                    Some(pi) => {
                        proof {
                            let cw = rv.project_idx(rv.subscribers[i as int].project);
                            assert(0 <= cw < rv.projects.len() && rv.projects[cw].id
                                == rv.subscribers[i as int].project);
                            if cw != pi as int {
                                assert(rv.projects[cw].id != rv.projects[pi as int].id);
                            }
                        }
                        let ghost out_prev = out@;
                        let q = build_subscriber_with_project(reg, i, pi, names);
                        out.push(q);
                        proof {
                            assert(pred(rv.subscribers[i as int]));
                            assert(out@.map_values(|q: SubscriberWithProject| q@)
                                =~= out_prev.map_values(|q: SubscriberWithProject| q@).push(
                                subscriber_with_project_shape_of(rv)(rv.subscribers[i as int]),
                            ));
                        }
                    },
                    None => {
                        proof {
                            assert(rv.has_project(rv.subscribers[i as int].project));
                            assert(false);
                        }
                    },
                }
            } else {
                proof {
                    assert(!pred(rv.subscribers[i as int]));
                }
            }
        } else {
            proof {
                assert(!pred(rv.subscribers[i as int]));
            }
        }
        i += 1;
    }
    proof {
        assert(rv.subscribers.take(n as int) =~= rv.subscribers);
    }
    Ok(out)
}

/// Serves the subscriptions of an account under one app domain.
pub fn get_subscriptions_by_account_and_app(
    account: &String,
    app_domain: &String,
    reg: &Registry,
) -> (r: Result<Vec<SubscriberWithProject>, StoreError>)
    requires
        reg@.wf(),
    ensures
        match r {
            Ok(v) => v@.map_values(|q: SubscriberWithProject| q@) == reg@.subscribers.filter(
                account_and_app_pred(reg@, account@, app_domain@),
            ).map_values(subscriber_with_project_shape_of(reg@)),
            Err(_) => false,
        },
{
    let ghost rv = reg@;
    let ghost pred = account_and_app_pred(rv, account@, app_domain@);
    let mut out: Vec<SubscriberWithProject> = Vec::new();
    let n = reg.subscribers.len();
    let mut i: usize = 0;
    while i < n
        invariant
            i <= n,
            rv == reg@,
            rv.wf(),
            pred == account_and_app_pred(rv, account@, app_domain@),
            n == rv.subscribers.len(),
            out@.map_values(|q: SubscriberWithProject| q@) =~= rv.subscribers.take(
                i as int,
            ).filter(pred).map_values(subscriber_with_project_shape_of(rv)),
        decreases n - i,
    {
        proof {
            assert(rv.subscribers.take(i + 1) =~= rv.subscribers.take(i as int).push(
                rv.subscribers[i as int],
            ));
        }
        let mut served = false;
        if reg.subscribers[i].account == *account {
            match crate::subscriber_store::find_project_idx_by_id(
                reg,
                reg.subscribers[i].project,
            ) {
                Some(pi) => {
                    proof {
                        let cw = rv.project_idx(rv.subscribers[i as int].project);
                        assert(0 <= cw < rv.projects.len() && rv.projects[cw].id
                            == rv.subscribers[i as int].project);
                        if cw != pi as int {
                            assert(rv.projects[cw].id != rv.projects[pi as int].id);
                        }
                    }
                    if reg.projects[pi].app_domain == *app_domain {
                        let names = collect_scope_names(reg, reg.subscribers[i].id);
                        proof {
                            lemma_scope_names_empty_iff_no_rows(rv, rv.subscribers[i as int].id);
                        }
                        if names.len() > 0 {
                            let ghost out_prev = out@;
                            let q = build_subscriber_with_project(reg, i, pi, names);
                            out.push(q);
                            served = true;
                            proof {
                                assert(pred(rv.subscribers[i as int]));
                                assert(out@.map_values(|q: SubscriberWithProject| q@)
                                    =~= out_prev.map_values(|q: SubscriberWithProject| q@).push(
                                    subscriber_with_project_shape_of(rv)(
                                        rv.subscribers[i as int],
                                    ),
                                ));
                            }
                        }
                    }
                },
                None => {
                    proof {
                        assert(rv.has_project(rv.subscribers[i as int].project));
                        assert(false);
                    }
                },
            }
        }
        proof {
            if !served {
                assert(!pred(rv.subscribers[i as int]));
            }
        }
        i += 1;
    }
    proof {
        assert(rv.subscribers.take(n as int) =~= rv.subscribers);
    }
    Ok(out)
}

} // verus!
