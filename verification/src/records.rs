//! Row records of the four logical tables and the in-memory registry state,
//! with its well-formedness invariant: the unique keys and foreign-key
//! references that every committed state preserves.

use vstd::prelude::*;

verus! {

/// A notification publisher: external identifier, app domain, pub/sub topic
/// and the two encoded key pairs, which are fixed at creation.
#[derive(Debug)]
pub struct Project {
    pub id: u128,
    pub project_id: String,
    pub app_domain: String,
    pub topic: String,
    pub authentication_public_key: String,
    pub authentication_private_key: String,
    pub subscribe_public_key: String,
    pub subscribe_private_key: String,
    pub created_at: i64,
    pub updated_at: i64,
}

pub ghost struct ProjectV {
    pub id: u128,
    pub project_id: Seq<char>,
    pub app_domain: Seq<char>,
    pub topic: Seq<char>,
    pub authentication_public_key: Seq<char>,
    pub authentication_private_key: Seq<char>,
    pub subscribe_public_key: Seq<char>,
    pub subscribe_private_key: Seq<char>,
    pub created_at: i64,
    pub updated_at: i64,
}

impl View for Project {
    type V = ProjectV;

    open spec fn view(&self) -> ProjectV {
        ProjectV {
            id: self.id,
            project_id: self.project_id@,
            app_domain: self.app_domain@,
            topic: self.topic@,
            authentication_public_key: self.authentication_public_key@,
            authentication_private_key: self.authentication_private_key@,
            subscribe_public_key: self.subscribe_public_key@,
            subscribe_private_key: self.subscribe_private_key@,
            created_at: self.created_at,
            updated_at: self.updated_at,
        }
    }
}

/// An account's subscription to a project, with the symmetric key, the notify
/// topic derived from it by the caller, and a thirty-day rolling expiry.
#[derive(Debug)]
pub struct Subscriber {
    pub id: u128,
    pub project: u128,
    pub account: String,
    pub sym_key: String,
    pub topic: String,
    pub expiry: i64,
    pub created_at: i64,
    pub updated_at: i64,
}

pub ghost struct SubscriberV {
    pub id: u128,
    pub project: u128,
    pub account: Seq<char>,
    pub sym_key: Seq<char>,
    pub topic: Seq<char>,
    pub expiry: i64,
    pub created_at: i64,
    pub updated_at: i64,
}

impl View for Subscriber {
    type V = SubscriberV;

    open spec fn view(&self) -> SubscriberV {
        SubscriberV {
            id: self.id,
            project: self.project,
            account: self.account@,
            sym_key: self.sym_key@,
            topic: self.topic@,
            expiry: self.expiry,
            created_at: self.created_at,
            updated_at: self.updated_at,
        }
    }
}

/// One enabled notification type of one subscriber; the rows of a subscriber
/// together form its scope set.
#[derive(Clone, Copy, Debug, PartialEq, Eq, Structural)]
pub struct ScopeRow {
    pub subscriber: u128,
    pub name: u128,
}

/// An ephemeral delegated key-management session, keyed by its delegation key
/// and visible only until its expiry. A watcher without a project is global.
#[derive(Debug)]
pub struct Watcher {
    pub account: String,
    pub project: Option<u128>,
    pub did_key: String,
    pub sym_key: String,
    pub expiry: i64,
    pub created_at: i64,
    pub updated_at: i64,
}

pub ghost struct WatcherV {
    pub account: Seq<char>,
    pub project: Option<u128>,
    pub did_key: Seq<char>,
    pub sym_key: Seq<char>,
    pub expiry: i64,
    pub created_at: i64,
    pub updated_at: i64,
}

impl View for Watcher {
    type V = WatcherV;

    open spec fn view(&self) -> WatcherV {
        WatcherV {
            account: self.account@,
            project: self.project,
            did_key: self.did_key@,
            sym_key: self.sym_key@,
            expiry: self.expiry,
            created_at: self.created_at,
            updated_at: self.updated_at,
        }
    }
}

/// The whole registry state: one handle stands for the backing store and is
/// passed explicitly into every operation. `next_id` models the store's
/// generation of fresh row identifiers.
pub struct Registry {
    pub projects: Vec<Project>,
    pub subscribers: Vec<Subscriber>,
    pub scopes: Vec<ScopeRow>,
    pub watchers: Vec<Watcher>,
    pub next_id: u128,
}

pub ghost struct RegistryV {
    pub projects: Seq<ProjectV>,
    pub subscribers: Seq<SubscriberV>,
    pub scopes: Seq<ScopeRow>,
    pub watchers: Seq<WatcherV>,
    pub next_id: u128,
}

impl View for Registry {
    type V = RegistryV;

    open spec fn view(&self) -> RegistryV {
        RegistryV {
            projects: self.projects@.map_values(|p: Project| p@),
            subscribers: self.subscribers@.map_values(|s: Subscriber| s@),
            scopes: self.scopes@,
            watchers: self.watchers@.map_values(|w: Watcher| w@),
            next_id: self.next_id,
        }
    }
}

impl RegistryV {
    pub open spec fn has_project(self, id: u128) -> bool {
        exists|i: int| 0 <= i < self.projects.len() && (#[trigger] self.projects[i]).id == id
    }

    pub open spec fn project_idx(self, id: u128) -> int {
        choose|i: int| 0 <= i < self.projects.len() && (#[trigger] self.projects[i]).id == id
    }

    pub open spec fn project_by_id(self, id: u128) -> ProjectV {
        self.projects[self.project_idx(id)]
    }

    pub open spec fn has_project_id(self, pid: Seq<char>) -> bool {
        exists|i: int|
            0 <= i < self.projects.len() && (#[trigger] self.projects[i]).project_id == pid
    }

    pub open spec fn project_idx_by_project_id(self, pid: Seq<char>) -> int {
        choose|i: int|
            0 <= i < self.projects.len() && (#[trigger] self.projects[i]).project_id == pid
    }

    pub open spec fn has_app_domain(self, dom: Seq<char>) -> bool {
        exists|i: int|
            0 <= i < self.projects.len() && (#[trigger] self.projects[i]).app_domain == dom
    }

    pub open spec fn has_subscriber(self, project: u128, account: Seq<char>) -> bool {
        exists|i: int|
            0 <= i < self.subscribers.len() && (#[trigger] self.subscribers[i]).project == project
                && self.subscribers[i].account == account
    }

    pub open spec fn subscriber_idx(self, project: u128, account: Seq<char>) -> int {
        choose|i: int|
            0 <= i < self.subscribers.len() && (#[trigger] self.subscribers[i]).project == project
                && self.subscribers[i].account == account
    }

    pub open spec fn has_subscriber_id(self, sid: u128) -> bool {
        exists|i: int|
            0 <= i < self.subscribers.len() && (#[trigger] self.subscribers[i]).id == sid
    }

    pub open spec fn has_watcher(self, did_key: Seq<char>) -> bool {
        exists|i: int|
            0 <= i < self.watchers.len() && (#[trigger] self.watchers[i]).did_key == did_key
    }

    pub open spec fn watcher_idx(self, did_key: Seq<char>) -> int {
        choose|i: int|
            0 <= i < self.watchers.len() && (#[trigger] self.watchers[i]).did_key == did_key
    }

    /// The scope rows owned by one subscriber, in storage order.
    pub open spec fn scope_rows_of(self, sid: u128) -> Seq<ScopeRow> {
        self.scopes.filter(scope_of_pred(sid))
    }

    /// The scope set of one subscriber as the row names in storage order.
    pub open spec fn scope_names_of(self, sid: u128) -> Seq<u128> {
        self.scope_rows_of(sid).map_values(scope_name_of())
    }

    /// Whether a subscriber owns at least one scope row: the reads that join
    /// on scope rows serve a subscriber only if it does.
    pub open spec fn has_scope_rows(self, sid: u128) -> bool {
        exists|i: int|
            0 <= i < self.scopes.len() && (#[trigger] self.scopes[i]).subscriber == sid
    }

    /// The scope set of one subscriber: the names of its rows.
    pub open spec fn scopes_of(self, sid: u128) -> Set<u128> {
        rows_name_set(self.scopes, sid)
    }

    /// Unique keys of every table, foreign-key references, and freshness of
    /// `next_id`: what every committed registry state preserves.
    pub open spec fn wf(self) -> bool {
        &&& forall|i: int, j: int|
            0 <= i < self.projects.len() && 0 <= j < self.projects.len() && i != j ==> {
                &&& (#[trigger] self.projects[i]).id != (#[trigger] self.projects[j]).id
                &&& self.projects[i].project_id != self.projects[j].project_id
                &&& self.projects[i].app_domain != self.projects[j].app_domain
            }
        &&& forall|i: int|
            0 <= i < self.projects.len() ==> (#[trigger] self.projects[i]).id < self.next_id
        &&& forall|i: int, j: int|
            0 <= i < self.subscribers.len() && 0 <= j < self.subscribers.len() && i != j ==> {
                &&& (#[trigger] self.subscribers[i]).id != (#[trigger] self.subscribers[j]).id
                &&& !(self.subscribers[i].project == self.subscribers[j].project
                    && self.subscribers[i].account == self.subscribers[j].account)
            }
        &&& forall|i: int|
            0 <= i < self.subscribers.len() ==> {
                &&& (#[trigger] self.subscribers[i]).id < self.next_id
                &&& self.has_project(self.subscribers[i].project)
            }
        &&& forall|i: int, j: int|
            0 <= i < self.scopes.len() && 0 <= j < self.scopes.len() && i != j ==> !((
            #[trigger] self.scopes[i]).subscriber == (#[trigger] self.scopes[j]).subscriber
                && self.scopes[i].name == self.scopes[j].name)
        &&& forall|i: int|
            0 <= i < self.scopes.len() ==> self.has_subscriber_id(
                (#[trigger] self.scopes[i]).subscriber,
            )
        &&& forall|i: int, j: int|
            0 <= i < self.watchers.len() && 0 <= j < self.watchers.len() && i != j ==> (
            #[trigger] self.watchers[i]).did_key != (#[trigger] self.watchers[j]).did_key
        &&& forall|i: int|
            0 <= i < self.watchers.len() ==> match (#[trigger] self.watchers[i]).project {
                Some(p) => self.has_project(p),
                None => true,
            }
    }
}

/// The set of scope names that a row listing holds for one subscriber.
pub open spec fn rows_name_set(rows: Seq<ScopeRow>, sid: u128) -> Set<u128> {
    Set::new(
        |u: u128|
            exists|i: int|
                0 <= i < rows.len() && (#[trigger] rows[i]).subscriber == sid && rows[i].name
                    == u,
    )
}

/// The rows owned by subscriber `sid`.
pub open spec fn scope_of_pred(sid: u128) -> spec_fn(ScopeRow) -> bool {
    |row: ScopeRow| row.subscriber == sid
}

/// The name a scope row carries.
pub open spec fn scope_name_of() -> spec_fn(ScopeRow) -> u128 {
    |row: ScopeRow| row.name
}

/// Filtering by a predicate that every element meets changes nothing.
pub proof fn lemma_filter_all<A>(s: Seq<A>, p: spec_fn(A) -> bool)
    requires
        forall|i: int| 0 <= i < s.len() ==> p(#[trigger] s[i]),
    ensures
        s.filter(p) == s,
    decreases s.len(),
{
    reveal(Seq::filter);
    if s.len() > 0 {
        let dl = s.drop_last();
        assert forall|i: int| 0 <= i < dl.len() implies p(#[trigger] dl[i]) by {
            assert(dl[i] == s[i]);
        }
        lemma_filter_all(dl, p);
        assert(p(s[s.len() - 1]));
        assert(s.filter(p) =~= s);
    }
}

/// A subscriber's scope-name listing and its scope set hold the same
/// identifiers.
pub proof fn lemma_scope_names_iff_set(r: RegistryV, sid: u128)
    ensures
        forall|u: u128| r.scope_names_of(sid).contains(u) <==> r.scopes_of(sid).contains(u),
{
    broadcast use vstd::seq_lib::group_seq_properties, vstd::seq_lib::group_filter_ensures;

    let rows = r.scopes.filter(scope_of_pred(sid));
    lemma_filter_elements_contained(r.scopes, scope_of_pred(sid));
    assert forall|u: u128| r.scope_names_of(sid).contains(u) implies r.scopes_of(sid).contains(
        u,
    ) by {
        let k = choose|k: int|
            0 <= k < r.scope_names_of(sid).len() && r.scope_names_of(sid)[k] == u;
        assert(r.scope_names_of(sid)[k] == scope_name_of()(rows[k]));
        assert(scope_of_pred(sid)(rows[k]));
        assert(r.scopes.contains(rows[k]));
        let i = choose|i: int| 0 <= i < r.scopes.len() && r.scopes[i] == rows[k];
        assert(r.scopes[i].subscriber == sid && r.scopes[i].name == u);
    }
    assert forall|u: u128| r.scopes_of(sid).contains(u) implies r.scope_names_of(sid).contains(
        u,
    ) by {
        let i = choose|i: int|
            0 <= i < r.scopes.len() && (#[trigger] r.scopes[i]).subscriber == sid
                && r.scopes[i].name == u;
        assert(scope_of_pred(sid)(r.scopes[i]));
        assert(rows.contains(r.scopes[i]));
        let k = choose|k: int| 0 <= k < rows.len() && rows[k] == r.scopes[i];
        assert(r.scope_names_of(sid)[k] == u);
    }
}

/// Every element of a filtered sequence stands somewhere in the original.
pub proof fn lemma_filter_elements_contained<A>(s: Seq<A>, p: spec_fn(A) -> bool)
    ensures
        forall|k: int| 0 <= k < s.filter(p).len() ==> s.contains(#[trigger] s.filter(p)[k]),
    decreases s.len(),
{
    reveal(Seq::filter);
    broadcast use vstd::seq_lib::group_seq_properties;

    if s.len() > 0 {
        let dl = s.drop_last();
        lemma_filter_elements_contained(dl, p);
        assert forall|k: int| 0 <= k < s.filter(p).len() implies s.contains(
            #[trigger] s.filter(p)[k],
        ) by {
            if k < dl.filter(p).len() {
                assert(dl.contains(dl.filter(p)[k]));
                let i = choose|i: int| 0 <= i < dl.len() && dl[i] == dl.filter(p)[k];
                assert(s[i] == s.filter(p)[k]);
            } else {
                assert(s.filter(p)[k] == s.last());
                assert(s[s.len() - 1] == s.last());
            }
        }
    }
}

/// A relation that holds of every pair of distinct positions survives
/// filtering.
pub proof fn lemma_filter_keeps_pairwise<A>(
    s: Seq<A>,
    p: spec_fn(A) -> bool,
    rel: spec_fn(A, A) -> bool,
)
    requires
        forall|i: int, j: int|
            0 <= i < s.len() && 0 <= j < s.len() && i != j ==> #[trigger] rel(s[i], s[j]),
    ensures
        forall|i: int, j: int|
            0 <= i < s.filter(p).len() && 0 <= j < s.filter(p).len() && i != j ==> #[trigger] rel(
                s.filter(p)[i],
                s.filter(p)[j],
            ),
    decreases s.len(),
{
    reveal(Seq::filter);
    broadcast use vstd::seq_lib::group_seq_properties;

    if s.len() > 0 {
        let dl = s.drop_last();
        assert forall|i: int, j: int|
            0 <= i < dl.len() && 0 <= j < dl.len() && i != j implies #[trigger] rel(
            dl[i],
            dl[j],
        ) by {
            assert(dl[i] == s[i]);
            assert(dl[j] == s[j]);
        }
        lemma_filter_keeps_pairwise(dl, p, rel);
        lemma_filter_elements_contained(dl, p);
        let f = s.filter(p);
        let fd = dl.filter(p);
        if p(s.last()) {
            assert(f == fd.push(s.last()));
            assert forall|i: int, j: int|
                0 <= i < f.len() && 0 <= j < f.len() && i != j implies #[trigger] rel(
                f[i],
                f[j],
            ) by {
                if i < fd.len() && j < fd.len() {
                    assert(rel(fd[i], fd[j]));
                } else if i < fd.len() {
                    let a = choose|a: int| 0 <= a < dl.len() && dl[a] == fd[i];
                    assert(rel(s[a], s[s.len() - 1]));
                } else if j < fd.len() {
                    let b = choose|b: int| 0 <= b < dl.len() && dl[b] == fd[j];
                    assert(rel(s[s.len() - 1], s[b]));
                }
            }
        }
    }
}

impl Registry {
    /// A fresh, empty registry, as the backing store starts out.
    pub fn new() -> (r: Registry)
        ensures
            r@.wf(),
            r@.projects =~= Seq::<ProjectV>::empty(),
            r@.subscribers =~= Seq::<SubscriberV>::empty(),
            r@.scopes =~= Seq::<ScopeRow>::empty(),
            r@.watchers =~= Seq::<WatcherV>::empty(),
            r@.next_id == 1,
    {
        Registry {
            projects: Vec::new(),
            subscribers: Vec::new(),
            scopes: Vec::new(),
            watchers: Vec::new(),
            next_id: 1,
        }
    }
}

} // verus!
