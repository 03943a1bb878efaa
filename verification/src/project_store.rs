//! Identity and key-pair persistence for projects: idempotent registration
//! keyed on the external project identifier, exact single-row lookups, and
//! the topic listing.

use vstd::prelude::*;

use crate::records::{Project, ProjectV, Registry, RegistryV};
use crate::StoreError;

verus! {

broadcast use vstd::seq_lib::group_seq_properties;

/// The stored public halves of a project's two key pairs, as registration
/// returns them.
#[derive(Debug)]
pub struct ProjectWithPublicKeys {
    pub authentication_public_key: String,
    pub subscribe_public_key: String,
}

pub ghost struct ProjectKeysV {
    pub authentication_public_key: Seq<char>,
    pub subscribe_public_key: Seq<char>,
}

impl View for ProjectWithPublicKeys {
    type V = ProjectKeysV;

    open spec fn view(&self) -> ProjectKeysV {
        ProjectKeysV {
            authentication_public_key: self.authentication_public_key@,
            subscribe_public_key: self.subscribe_public_key@,
        }
    }
}

pub open spec fn keys_result_view(r: Result<ProjectWithPublicKeys, StoreError>) -> Result<
    ProjectKeysV,
    StoreError,
> {
    match r {
        Ok(k) => Ok(k@),
        Err(e) => Err(e),
    }
}

/// What registering a project does to the store: a new row on first sight of
/// the external identifier; on conflict only the app domain and the update
/// stamp change, the key material stays as first written. Either way the
/// stored public keys come back. A second project claiming a taken app
/// domain is a conflict.
pub open spec fn spec_upsert_project(
    r: RegistryV,
    pid: Seq<char>,
    dom: Seq<char>,
    top: Seq<char>,
    apub: Seq<char>,
    apriv: Seq<char>,
    spub: Seq<char>,
    spriv: Seq<char>,
    now: i64,
) -> (RegistryV, Result<ProjectKeysV, StoreError>) {
    if r.has_project_id(pid) {
        let i = r.project_idx_by_project_id(pid);
        let p = r.projects[i];
        if exists|j: int|
            0 <= j < r.projects.len() && j != i && (#[trigger] r.projects[j]).app_domain
                == dom {
            (r, Err(StoreError::Conflict))
        } else {
            let p2 = ProjectV {
                app_domain: dom,
                updated_at: now,
                ..p
            };
            (
                RegistryV { projects: r.projects.update(i, p2), ..r },
                Ok(
                    ProjectKeysV {
                        authentication_public_key: p.authentication_public_key,
                        subscribe_public_key: p.subscribe_public_key,
                    },
                ),
            )
        }
    } else if r.has_app_domain(dom) {
        (r, Err(StoreError::Conflict))
    } else {
        let p = ProjectV {
            id: r.next_id,
            project_id: pid,
            app_domain: dom,
            topic: top,
            authentication_public_key: apub,
            authentication_private_key: apriv,
            subscribe_public_key: spub,
            subscribe_private_key: spriv,
            created_at: now,
            updated_at: now,
        };
        (
            RegistryV {
                projects: r.projects.push(p),
                next_id: (r.next_id + 1) as u128,
                ..r
            },
            Ok(ProjectKeysV { authentication_public_key: apub, subscribe_public_key: spub }),
        )
    }
}

/// Registration preserves every registry invariant.
pub proof fn lemma_upsert_project_wf(
    r: RegistryV,
    pid: Seq<char>,
    dom: Seq<char>,
    top: Seq<char>,
    apub: Seq<char>,
    apriv: Seq<char>,
    spub: Seq<char>,
    spriv: Seq<char>,
    now: i64,
)
    requires
        r.wf(),
        r.next_id < u128::MAX,
    ensures
        spec_upsert_project(r, pid, dom, top, apub, apriv, spub, spriv, now).0.wf(),
{
    let (r2, res) = spec_upsert_project(r, pid, dom, top, apub, apriv, spub, spriv, now);
    if r.has_project_id(pid) {
        let i = r.project_idx_by_project_id(pid);
        if exists|j: int|
            0 <= j < r.projects.len() && j != i && (#[trigger] r.projects[j]).app_domain
                == dom {
        } else {
            assert forall|k: int|
                0 <= k < r2.subscribers.len() implies r2.has_project(
                (#[trigger] r2.subscribers[k]).project,
            ) by {
                let w = choose|w: int|
                    0 <= w < r.projects.len() && (#[trigger] r.projects[w]).id
                        == r.subscribers[k].project;
                assert(r2.projects[w].id == r.subscribers[k].project);
            }
            assert forall|k: int|
                0 <= k < r2.watchers.len() && (#[trigger] r2.watchers[k]).project is Some implies
                r2.has_project(r2.watchers[k].project->0) by {
                let pr = r2.watchers[k].project->0;
                let w = choose|w: int|
                    0 <= w < r.projects.len() && (#[trigger] r.projects[w]).id == pr;
                assert(r2.projects[w].id == pr);
            }
        }
    } else if r.has_app_domain(dom) {
    } else {
        let n = r.projects.len() as int;
        assert forall|a: int, b: int|
            0 <= a < r2.projects.len() && 0 <= b < r2.projects.len() && a != b implies {
            &&& (#[trigger] r2.projects[a]).id != (#[trigger] r2.projects[b]).id
            &&& r2.projects[a].project_id != r2.projects[b].project_id
            &&& r2.projects[a].app_domain != r2.projects[b].app_domain
        } by {
            if a == n {
                if r2.projects[b].project_id == pid {
                    assert(r.has_project_id(pid));
                }
                if r2.projects[b].app_domain == dom {
                    assert(r.has_app_domain(dom));
                }
            } else if b == n {
                if r2.projects[a].project_id == pid {
                    assert(r.has_project_id(pid));
                }
                if r2.projects[a].app_domain == dom {
                    assert(r.has_app_domain(dom));
                }
            }
        }
        assert forall|k: int|
            0 <= k < r2.subscribers.len() implies r2.has_project(
            (#[trigger] r2.subscribers[k]).project,
        ) by {
            let w = choose|w: int|
                0 <= w < r.projects.len() && (#[trigger] r.projects[w]).id
                    == r.subscribers[k].project;
            assert(r2.projects[w].id == r.subscribers[k].project);
        }
        assert forall|k: int|
            0 <= k < r2.watchers.len() && (#[trigger] r2.watchers[k]).project is Some implies r2
                .has_project(r2.watchers[k].project->0) by {
            let pr = r2.watchers[k].project->0;
            let w = choose|w: int| 0 <= w < r.projects.len() && (#[trigger] r.projects[w]).id == pr;
            assert(r2.projects[w].id == pr);
        }
    }
}

fn find_project_by_project_id(v: &Vec<Project>, pid: &String) -> (r: Option<usize>)
    ensures
        match r {
            Some(i) => 0 <= i < v@.len() && (#[trigger] v@[i as int])@.project_id == pid@,
            None => forall|j: int| 0 <= j < v@.len() ==> (#[trigger] v@[j])@.project_id != pid@,
        },
{
    let mut i: usize = 0;
    while i < v.len()
        invariant
            i <= v.len(),
            forall|j: int| 0 <= j < i ==> (#[trigger] v@[j])@.project_id != pid@,
        decreases v.len() - i,
    {
        if v[i].project_id == *pid {
            return Some(i);
        }
        i += 1;
    }
    None
}

fn find_project_by_app_domain_idx(v: &Vec<Project>, dom: &String) -> (r: Option<usize>)
    ensures
        match r {
            Some(i) => 0 <= i < v@.len() && (#[trigger] v@[i as int])@.app_domain == dom@,
            None => forall|j: int| 0 <= j < v@.len() ==> (#[trigger] v@[j])@.app_domain != dom@,
        },
{
    let mut i: usize = 0;
    while i < v.len()
        invariant
            i <= v.len(),
            forall|j: int| 0 <= j < i ==> (#[trigger] v@[j])@.app_domain != dom@,
        decreases v.len() - i,
    {
        if v[i].app_domain == *dom {
            return Some(i);
        }
        i += 1;
    }
    None
}

fn other_project_has_app_domain(v: &Vec<Project>, dom: &String, excl: usize) -> (r: bool)
    ensures
        r == exists|j: int|
            0 <= j < v@.len() && j != excl && (#[trigger] v@[j])@.app_domain == dom@,
{
    let mut i: usize = 0;
    while i < v.len()
        invariant
            i <= v.len(),
            forall|j: int| 0 <= j < i && j != excl ==> (#[trigger] v@[j])@.app_domain != dom@,
        decreases v.len() - i,
    {
        if i != excl && v[i].app_domain == *dom {
            return true;
        }
        i += 1;
    }
    false
}

fn clone_project(p: &Project) -> (r: Project)
    ensures
        r@ == p@,
{
    Project {
        id: p.id,
        project_id: p.project_id.clone(),
        app_domain: p.app_domain.clone(),
        topic: p.topic.clone(),
        authentication_public_key: p.authentication_public_key.clone(),
        authentication_private_key: p.authentication_private_key.clone(),
        subscribe_public_key: p.subscribe_public_key.clone(),
        subscribe_private_key: p.subscribe_private_key.clone(),
        created_at: p.created_at,
        updated_at: p.updated_at,
    }
}

/// Registers a project as of the moment `now`: inserts it, or, when the
/// external identifier is already present, updates only its app domain and
/// update stamp, keeping the stored key material. Returns the stored public
/// keys, which on a repeated registration are those of the first call.
#[allow(clippy::too_many_arguments)]
pub fn upsert_project_at(
    project_id: &String,
    app_domain: &String,
    topic: &String,
    authentication_public_key: &String,
    authentication_private_key: &String,
    subscribe_public_key: &String,
    subscribe_private_key: &String,
    now: i64,
    reg: &mut Registry,
) -> (r: Result<ProjectWithPublicKeys, StoreError>)
    requires
        old(reg)@.wf(),
        old(reg).next_id < u128::MAX,
    ensures
        final(reg)@.wf(),
        spec_upsert_project(
            old(reg)@,
            project_id@,
            app_domain@,
            topic@,
            authentication_public_key@,
            authentication_private_key@,
            subscribe_public_key@,
            subscribe_private_key@,
            now,
        ) == (final(reg)@, keys_result_view(r)),
{
    proof {
        lemma_upsert_project_wf(
            old(reg)@,
            project_id@,
            app_domain@,
            topic@,
            authentication_public_key@,
            authentication_private_key@,
            subscribe_public_key@,
            subscribe_private_key@,
            now,
        );
    }
    match find_project_by_project_id(&reg.projects, project_id) {
        Some(i) => {
            proof {
                let rv = old(reg)@;
                assert(rv.projects[i as int].project_id == project_id@);
                assert(rv.has_project_id(project_id@));
                let ci = rv.project_idx_by_project_id(project_id@);
                assert(0 <= ci < rv.projects.len() && rv.projects[ci].project_id == project_id@);
                if ci != i {
                    assert(rv.projects[ci].project_id != rv.projects[i as int].project_id);
                }
            }
            if other_project_has_app_domain(&reg.projects, app_domain, i) {
                proof {
                    let rv = old(reg)@;
                    assert(rv.projects[i as int].project_id == project_id@);
                    assert(rv.has_project_id(project_id@));
                    let ci = rv.project_idx_by_project_id(project_id@);
                    if ci != i as int {
                        assert(rv.projects[ci].project_id != rv.projects[i as int].project_id);
                    }
                    let j0 = choose|j: int|
                        0 <= j < reg.projects@.len() && j != i as int && (
                        #[trigger] reg.projects@[j])@.app_domain == app_domain@;
                    assert(rv.projects[j0].app_domain == app_domain@);
                    assert(exists|j: int|
                        0 <= j < rv.projects.len() && j != ci && (
                        #[trigger] rv.projects[j]).app_domain == app_domain@);
                }
                return Err(StoreError::Conflict);
            }
            let p = reg.projects.remove(i);
            let keys = ProjectWithPublicKeys {
                authentication_public_key: p.authentication_public_key.clone(),
                subscribe_public_key: p.subscribe_public_key.clone(),
            };
            let p2 = Project {
                app_domain: app_domain.clone(),
                updated_at: now,
                ..p
            };
            reg.projects.insert(i, p2);
            proof {
                let rv = old(reg)@;
                let (r2, res) = spec_upsert_project(
                    rv,
                    project_id@,
                    app_domain@,
                    topic@,
                    authentication_public_key@,
                    authentication_private_key@,
                    subscribe_public_key@,
                    subscribe_private_key@,
                    now,
                );
                assert(reg@.projects =~= r2.projects);
                assert(reg@ =~= r2);
            }
            Ok(keys)
        },
        None => {
            proof {
                let rv = old(reg)@;
                if rv.has_project_id(project_id@) {
                    let ci = rv.project_idx_by_project_id(project_id@);
                    assert(rv.projects[ci].project_id == project_id@);
                }
            }
            match find_project_by_app_domain_idx(&reg.projects, app_domain) {
                Some(j) => {
                    proof {
                        let rv = old(reg)@;
                        assert(rv.projects[j as int] == reg.projects@[j as int]@);
                        assert(rv.projects[j as int].app_domain == app_domain@);
                        assert(rv.has_app_domain(app_domain@));
                    }
                    Err(StoreError::Conflict)
                },
                None => {
                    proof {
                        let rv = old(reg)@;
                        if rv.has_app_domain(app_domain@) {
                            let cj = choose|k: int|
                                0 <= k < rv.projects.len() && (
                                #[trigger] rv.projects[k]).app_domain == app_domain@;
                            assert(rv.projects[cj].app_domain == app_domain@);
                        }
                    }
                    let p = Project {
                        id: reg.next_id,
                        project_id: project_id.clone(),
                        app_domain: app_domain.clone(),
                        topic: topic.clone(),
                        authentication_public_key: authentication_public_key.clone(),
                        authentication_private_key: authentication_private_key.clone(),
                        subscribe_public_key: subscribe_public_key.clone(),
                        subscribe_private_key: subscribe_private_key.clone(),
                        created_at: now,
                        updated_at: now,
                    };
                    reg.projects.push(p);
                    reg.next_id = reg.next_id + 1;
                    let keys = ProjectWithPublicKeys {
                        authentication_public_key: authentication_public_key.clone(),
                        subscribe_public_key: subscribe_public_key.clone(),
                    };
                    proof {
                        let rv = old(reg)@;
                        let (r2, res) = spec_upsert_project(
                            rv,
                            project_id@,
                            app_domain@,
                            topic@,
                            authentication_public_key@,
                            authentication_private_key@,
                            subscribe_public_key@,
                            subscribe_private_key@,
                            now,
                        );
                        assert(reg@.projects =~= r2.projects);
                        assert(reg@ =~= r2);
                    }
                    Ok(keys)
                },
            }
        },
    }
}

/// Registers a project as of the wall clock's present moment.
#[allow(clippy::too_many_arguments)]
pub fn upsert_project(
    project_id: &String,
    app_domain: &String,
    topic: &String,
    authentication_public_key: &String,
    authentication_private_key: &String,
    subscribe_public_key: &String,
    subscribe_private_key: &String,
    reg: &mut Registry,
) -> (r: Result<ProjectWithPublicKeys, StoreError>)
    requires
        old(reg)@.wf(),
        old(reg).next_id < u128::MAX,
    ensures
        final(reg)@.wf(),
        exists|t: i64|
            #[trigger] spec_upsert_project(
                old(reg)@,
                project_id@,
                app_domain@,
                topic@,
                authentication_public_key@,
                authentication_private_key@,
                subscribe_public_key@,
                subscribe_private_key@,
                t,
            ) == (final(reg)@, keys_result_view(r)),
{
    let now = crate::clock::now_unix();
    let r = upsert_project_at(
        project_id,
        app_domain,
        topic,
        authentication_public_key,
        authentication_private_key,
        subscribe_public_key,
        subscribe_private_key,
        now,
        reg,
    );
    r
}

/// Exact lookup of one project row by its store identifier.
pub fn get_project_by_id(id: u128, reg: &Registry) -> (r: Result<Project, StoreError>)
    ensures
        match r {
            Ok(p) => exists|i: int|
                0 <= i < reg@.projects.len() && (#[trigger] reg@.projects[i]) == p@ && p@.id == id,
            Err(e) => e == StoreError::NotFound && forall|i: int|
                0 <= i < reg@.projects.len() ==> (#[trigger] reg@.projects[i]).id != id,
        },
{
    let n = reg.projects.len();
    let mut i: usize = 0;
    while i < n
        invariant
            i <= n,
            n == reg@.projects.len(),
            forall|j: int| 0 <= j < i ==> (#[trigger] reg@.projects[j]).id != id,
        decreases n - i,
    {
        if reg.projects[i].id == id {
            let p = clone_project(&reg.projects[i]);
            proof {
                assert(reg@.projects[i as int] == p@);
            }
            return Ok(p);
        }
        i += 1;
    }
    Err(StoreError::NotFound)
}

/// Exact lookup by the external project identifier.
pub fn get_project_by_project_id(project_id: &String, reg: &Registry) -> (r: Result<
    Project,
    StoreError,
>)
    ensures
        match r {
            Ok(p) => exists|i: int|
                0 <= i < reg@.projects.len() && (#[trigger] reg@.projects[i]) == p@
                    && p@.project_id == project_id@,
            Err(e) => e == StoreError::NotFound && forall|i: int|
                0 <= i < reg@.projects.len() ==> (#[trigger] reg@.projects[i]).project_id
                    != project_id@,
        },
{
    match find_project_by_project_id(&reg.projects, project_id) {
        Some(i) => {
            let p = clone_project(&reg.projects[i]);
            proof {
                assert(reg@.projects[i as int] == p@);
            }
            Ok(p)
        },
        None => Err(StoreError::NotFound),
    }
}

/// Exact lookup by app domain.
pub fn get_project_by_app_domain(app_domain: &String, reg: &Registry) -> (r: Result<
    Project,
    StoreError,
>)
    ensures
        match r {
            Ok(p) => exists|i: int|
                0 <= i < reg@.projects.len() && (#[trigger] reg@.projects[i]) == p@
                    && p@.app_domain == app_domain@,
            Err(e) => e == StoreError::NotFound && forall|i: int|
                0 <= i < reg@.projects.len() ==> (#[trigger] reg@.projects[i]).app_domain
                    != app_domain@,
        },
{
    match find_project_by_app_domain_idx(&reg.projects, app_domain) {
        Some(i) => {
            let p = clone_project(&reg.projects[i]);
            proof {
                assert(reg@.projects[i as int] == p@);
            }
            Ok(p)
        },
        None => Err(StoreError::NotFound),
    }
}

/// Exact lookup by pub/sub topic.
pub fn get_project_by_topic(topic: &String, reg: &Registry) -> (r: Result<Project, StoreError>)
    ensures
        match r {
            Ok(p) => exists|i: int|
                0 <= i < reg@.projects.len() && (#[trigger] reg@.projects[i]) == p@ && p@.topic
                    == topic@,
            Err(e) => e == StoreError::NotFound && forall|i: int|
                0 <= i < reg@.projects.len() ==> (#[trigger] reg@.projects[i]).topic != topic@,
        },
{
    let n = reg.projects.len();
    let mut i: usize = 0;
    while i < n
        invariant
            i <= n,
            n == reg@.projects.len(),
            forall|j: int| 0 <= j < i ==> (#[trigger] reg@.projects[j]).topic != topic@,
        decreases n - i,
    {
        if reg.projects[i].topic == *topic {
            let p = clone_project(&reg.projects[i]);
            proof {
                assert(reg@.projects[i as int] == p@);
            }
            return Ok(p);
        }
        i += 1;
    }
    Err(StoreError::NotFound)
}

/// Every project topic, in storage order.
pub fn get_project_topics(reg: &Registry) -> (r: Result<Vec<String>, StoreError>)
    ensures
        match r {
            Ok(v) => v@.len() == reg@.projects.len() && forall|k: int|
                0 <= k < v@.len() ==> (#[trigger] v@[k])@ == reg@.projects[k].topic,
            Err(_) => false,
        },
{
    let n = reg.projects.len();
    let mut out: Vec<String> = Vec::new();
    let mut i: usize = 0;
    while i < n
        invariant
            i <= n,
            n == reg@.projects.len(),
            out@.len() == i,
            forall|k: int| 0 <= k < i ==> (#[trigger] out@[k])@ == reg@.projects[k].topic,
        decreases n - i,
    {
        out.push(reg.projects[i].topic.clone());
        i += 1;
    }
    Ok(out)
}

} // verus!
