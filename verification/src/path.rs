//! The path use-case: registering, reading, renaming and deleting the nodes
//! of the hierarchical namespace, under the tree invariants.

use vstd::prelude::*;

use crate::claim::NebulaClaim;
use crate::claim::Role;
use crate::path_text::is_strict_descendant;
use crate::path_text::root_path;
use crate::path_text::spec_parent;
use crate::path_text::valid_path;
use crate::path_text::last_slash;
use crate::path_text::rename_one;
use crate::secret;
pub use crate::secret::PathData;
use crate::secret::PostgresSecretService;
use crate::secret::ancestors_allow;
use crate::secret::check_ancestors;
use crate::store::AppliedPolicy;
use crate::store::WorkspaceStore;
use crate::store::bindings_wf;

verus! {

/// What a path operation can report.
#[derive(Debug)]
pub enum Error {
    PathIsInUse { entered_path: String },
    PathNotExists { entered_path: String },
    PathDuplicated { entered_path: String },
    ParentPathNotExists { entered_path: String },
    InvalidPath { entered_path: String },
    InvalidPathPolicy,
    AccessDenied,
    Anyhow(String),
}

impl Error {
    /// Lifts a lower-layer error: path-shaped errors pass through, the
    /// secret-shaped ones are infrastructure surprises here and are wrapped.
    pub fn from_secret_error(value: secret::Error) -> (r: Error)
        ensures
            match value {
                secret::Error::InvalidPath { ref entered_path } => r matches Error::InvalidPath {
                    entered_path: ref p,
                } && p@ == entered_path@,
                secret::Error::ParentPathNotExists { ref entered_path } => r matches
                    Error::ParentPathNotExists { entered_path: ref p } && p@ == entered_path@,
                secret::Error::PathDuplicated { ref entered_path } => r matches
                    Error::PathDuplicated { entered_path: ref p } && p@ == entered_path@,
                secret::Error::PathIsInUse { ref entered_path } => r matches Error::PathIsInUse {
                    entered_path: ref p,
                } && p@ == entered_path@,
                secret::Error::InvalidPathPolicy => r is InvalidPathPolicy,
                secret::Error::AccessDenied => r is AccessDenied,
                secret::Error::InvalidSecretIdentifier { ref entered_identifier } => r matches
                    Error::Anyhow(ref m) && m@ == entered_identifier@,
                secret::Error::SecretNotExists => r matches Error::Anyhow(ref m) && m@
                    == "secret does not exist"@,
                secret::Error::IdentifierConflicted { ref entered_identifier } => r matches
                    Error::Anyhow(ref m) && m@ == entered_identifier@,
                secret::Error::InvalidSecretPolicy => r matches Error::Anyhow(ref m) && m@
                    == "invalid secret policy"@,
                secret::Error::Anyhow(ref message) => r matches Error::Anyhow(ref m) && m@
                    == message@,
            },
    {
        match value {
            secret::Error::InvalidPath { entered_path } => Error::InvalidPath { entered_path },
            secret::Error::ParentPathNotExists { entered_path } => Error::ParentPathNotExists {
                entered_path,
            },
            secret::Error::PathDuplicated { entered_path } => Error::PathDuplicated {
                entered_path,
            },
            secret::Error::PathIsInUse { entered_path } => Error::PathIsInUse { entered_path },
            secret::Error::InvalidPathPolicy => Error::InvalidPathPolicy,
            secret::Error::AccessDenied => Error::AccessDenied,
            secret::Error::InvalidSecretIdentifier { entered_identifier } => Error::Anyhow(
                entered_identifier,
            ),
            secret::Error::SecretNotExists => Error::Anyhow(
                String::from_str("secret does not exist"),
            ),
            secret::Error::IdentifierConflicted { entered_identifier } => Error::Anyhow(
                entered_identifier,
            ),
            secret::Error::InvalidSecretPolicy => Error::Anyhow(
                String::from_str("invalid secret policy"),
            ),
            secret::Error::Anyhow(message) => Error::Anyhow(message),
        }
    }
}

/// The use-case over one workspace's path tree. Every method stands for one
/// scoped transaction on that workspace's schema.
pub struct PathUseCaseImpl {
    pub workspace_name: String,
    pub secret_service: PostgresSecretService,
}

impl PathUseCaseImpl {
    /// Binds the use-case to a workspace.
    pub fn new(workspace_name: String) -> (r: PathUseCaseImpl)
        ensures
            r.workspace_name@ == workspace_name@,
    {
        PathUseCaseImpl { workspace_name, secret_service: PostgresSecretService {  } }
    }

    /// Every path in the workspace.
    pub fn get_all(&self, store: &WorkspaceStore) -> (r: Result<Vec<PathData>, Error>)
        ensures
            match r {
                Ok(ref v) => v@.len() == store.paths@.len() && forall|i: int|
                    0 <= i < v@.len() ==> (#[trigger] v@[i]).path@ == store.paths@[i].path@
                        && v@[i].applied_policies@ == store.paths@[i].applied_policies@,
                Err(_) => false,
            },
    {
        Ok(self.secret_service.get_paths(store))
    }

    /// The row for `path` with its bindings as stored, or `PathNotExists`.
    pub fn get(&self, store: &WorkspaceStore, path: &str) -> (r: Result<PathData, Error>)
        ensures
            match r {
                Ok(ref d) => d.path@ == path@ && exists|i: int|
                    0 <= i < store.paths@.len() && (#[trigger] store.paths@[i].path@) == path@
                        && d.applied_policies@ == store.paths@[i].applied_policies@,
                Err(Error::PathNotExists { ref entered_path }) => entered_path@ == path@
                    && !store.path_present(path@),
                Err(_) => false,
            },
    {
        match self.secret_service.get_path(store, path) {
            Some(d) => Ok(d),
            None => Err(Error::PathNotExists { entered_path: path.to_owned() }),
        }
    }

    /// Registers a path; see the service contract for the exact conditions.
    pub fn register(
        &self,
        store: &mut WorkspaceStore,
        path: &str,
        policies: &Vec<AppliedPolicy>,
        claim: &NebulaClaim,
        now: i64,
    ) -> (r: Result<(), Error>)
        requires
            old(store).wf(),
        ensures
            final(store).wf(),
            match r {
                Ok(()) => {
                    &&& valid_path(path@)
                    &&& (path@ == root_path() || old(store).path_present(spec_parent(path@)))
                    &&& bindings_wf(policies@)
                    &&& !old(store).path_present(path@)
                    &&& (claim.role == Role::Admin || ancestors_allow(old(store), path@, claim))
                    &&& final(store).paths@.len() == old(store).paths@.len() + 1
                    &&& final(store).paths@.drop_last() == old(store).paths@
                    &&& final(store).paths@.last().path@ == path@
                    &&& final(store).secrets == old(store).secrets
                    &&& final(store).policies == old(store).policies
                },
                Err(Error::InvalidPath { ref entered_path }) => entered_path@ == path@
                    && !valid_path(path@) && *final(store) == *old(store),
                Err(Error::ParentPathNotExists { ref entered_path }) => entered_path@ == path@
                    && valid_path(path@) && path@ != root_path() && !old(store).path_present(
                    spec_parent(path@),
                ) && *final(store) == *old(store),
                Err(Error::InvalidPathPolicy) => valid_path(path@) && (path@ == root_path()
                    || old(store).path_present(spec_parent(path@))) && !bindings_wf(policies@)
                    && *final(store) == *old(store),
                Err(Error::PathDuplicated { ref entered_path }) => entered_path@ == path@
                    && valid_path(path@) && (path@ == root_path() || old(store).path_present(
                    spec_parent(path@),
                )) && bindings_wf(policies@) && old(store).path_present(path@) && *final(store)
                    == *old(store),
                Err(Error::AccessDenied) => valid_path(path@) && (path@ == root_path() || old(
                    store,
                ).path_present(spec_parent(path@))) && bindings_wf(policies@) && !old(
                    store,
                ).path_present(path@) && claim.role != Role::Admin && !ancestors_allow(
                    old(store),
                    path@,
                    claim,
                ) && *final(store) == *old(store),
                _ => false,
            },
    {
        match self.secret_service.register_path(store, path, policies, claim, now) {
            Ok(()) => Ok(()),
            Err(e) => Err(Error::from_secret_error(e)),
        }
    }

    /// Deletes a path. The path must exist, the claim must satisfy every
    /// ancestor's bindings (or be an admin), and the path must not be in
    /// use: deletion succeeds exactly when no path row lies below it and no
    /// secret sits at or below it.
    pub fn delete(&self, store: &mut WorkspaceStore, path: &str, claim: &NebulaClaim) -> (r: Result<
        (),
        Error,
    >)
        requires
            old(store).wf(),
        ensures
            final(store).wf(),
            match r {
                Ok(()) => {
                    &&& old(store).path_present(path@)
                    &&& (claim.role == Role::Admin || ancestors_allow(old(store), path@, claim))
                    &&& !old(store).has_child_path(path@)
                    &&& !old(store).has_child_secret(path@)
                    &&& exists|idx: int|
                        0 <= idx < old(store).paths@.len() && (#[trigger] old(store).paths@[idx].path@) == path@ && final(store).paths@ == old(store).paths@.remove(idx)
                    &&& final(store).secrets == old(store).secrets
                    &&& final(store).policies == old(store).policies
                },
                Err(Error::PathNotExists { ref entered_path }) => entered_path@ == path@ && !old(store).path_present(path@) && *final(store) == *old(store),
                Err(Error::AccessDenied) => old(store).path_present(path@) && claim.role
                    != Role::Admin && !ancestors_allow(old(store), path@, claim) && *final(store)
                    == *old(store),
                Err(Error::PathIsInUse { ref entered_path }) => {
                    &&& entered_path@ == path@
                    &&& old(store).path_present(path@)
                    &&& (claim.role == Role::Admin || ancestors_allow(old(store), path@, claim))
                    &&& (old(store).has_child_path(path@) || old(store).has_child_secret(path@))
                    &&& *final(store) == *old(store)
                },
                _ => false,
            },
    {
        let found = self.secret_service.get_path(store, path);
        if found.is_none() {
            return Err(Error::PathNotExists { entered_path: path.to_owned() });
        }
        let authorized = claim.role == Role::Admin || check_ancestors(store, path, claim);
        if !authorized {
            return Err(Error::AccessDenied);
        }
        let child_paths = self.secret_service.count_child_paths(store, path);
        let child_secrets = self.secret_service.count_child_secrets(store, path);
        if child_paths > 0 || child_secrets > 0 {
            return Err(Error::PathIsInUse { entered_path: path.to_owned() });
        }
        let mut idx: usize = 0;
        let ghost target = choose|k: int|
            0 <= k < store.paths@.len() && (#[trigger] store.paths@[k].path@) == path@;
        while idx < store.paths.len()
            invariant
                0 <= idx <= store.paths@.len(),
                *store == *old(store),
                old(store).wf(),
                0 <= target < store.paths@.len(),
                store.paths@[target].path@ == path@,
                claim.role == Role::Admin || ancestors_allow(old(store), path@, claim),
                !old(store).has_child_path(path@),
                !old(store).has_child_secret(path@),
                forall|m: int| 0 <= m < idx ==> (#[trigger] store.paths@[m].path@) != path@,
            decreases store.paths@.len() - idx,
        {
            if crate::path_text::str_eq(store.paths[idx].path.as_str(), path) {
                let ghost old_store = *store;
                store.paths.remove(idx);
                proof {
                    lemma_delete_path_preserves_wf(&old_store, store, idx as int, path@);
                }
                return Ok(());
            }
            idx = idx + 1;
        }
        proof {
            assert(store.paths@[target].path@ != path@);
        }
        Err(Error::Anyhow(String::from_str("path row vanished")))
    }
}

impl PathUseCaseImpl {
    /// Updates a path: optionally renames it (the rename carries every
    /// descendant path and every secret under it along), optionally replaces
    /// its policy bindings. The new name must be well formed, free, outside
    /// the old subtree, and its parent must exist; the root cannot be
    /// renamed. The claim must satisfy the bindings of the old and the new
    /// ancestors, or be an admin.
    #[verifier::rlimit(100)]
    pub fn update(
        &self,
        store: &mut WorkspaceStore,
        path: &str,
        new_path: Option<&str>,
        new_policies: Option<&Vec<AppliedPolicy>>,
        claim: &NebulaClaim,
        now: i64,
    ) -> (r: Result<(), Error>)
        requires
            old(store).wf(),
        ensures
            final(store).wf(),
            match r {
                Ok(()) => {
                    &&& old(store).path_present(path@)
                    &&& (match new_path {
                        Some(np) => valid_path(np@) && path@ != root_path() && !old(store).path_present(np@) && !is_strict_descendant(np@, path@) && old(store).path_present(spec_parent(np@)),
                        None => true,
                    })
                    &&& (match new_policies {
                        Some(ps) => bindings_wf(ps@),
                        None => true,
                    })
                    &&& (claim.role == Role::Admin || (ancestors_allow(old(store), path@, claim)
                        && (match new_path {
                        Some(np) => ancestors_allow(old(store), np@, claim),
                        None => true,
                    })))
                    &&& final(store).paths@.len() == old(store).paths@.len()
                    &&& (forall|i: int|
                        0 <= i < old(store).paths@.len() ==> (#[trigger] final(store).paths@[i].path@) == rename_one(
                            old(store).paths@[i].path@,
                            path@,
                            update_target(new_path, path@),
                        ))
                    &&& (forall|i: int|
                        0 <= i < old(store).paths@.len() && (#[trigger] old(store).paths@[i].path@) == path@ ==> final(store).paths@[i].updated_at == now
                            && final(store).paths@[i].created_at == old(store).paths@[i].created_at && (match new_policies {
                            Some(ps) => final(store).paths@[i].applied_policies@ == ps@,
                            None => final(store).paths@[i].applied_policies@ == old(store).paths@[i].applied_policies@,
                        }))
                    &&& (forall|i: int|
                        0 <= i < old(store).paths@.len() && (#[trigger] old(store).paths@[i].path@) != path@ ==> final(store).paths@[i].applied_policies@
                            == old(store).paths@[i].applied_policies@ && final(store).paths@[i].created_at == old(store).paths@[i].created_at && final(store).paths@[i].updated_at == old(store).paths@[i].updated_at)
                    &&& final(store).secrets@.len() == old(store).secrets@.len()
                    &&& (forall|i: int|
                        0 <= i < old(store).secrets@.len() ==> (#[trigger] final(store).secrets@[i].path@) == rename_one(
                            old(store).secrets@[i].path@,
                            path@,
                            update_target(new_path, path@),
                        ) && final(store).secrets@[i].id == old(store).secrets@[i].id && final(store).secrets@[i].key@ == old(store).secrets@[i].key@ && final(store).secrets@[i].applied_policies@ == old(store).secrets@[i].applied_policies@)
                    &&& final(store).policies == old(store).policies
                },
                Err(Error::PathNotExists { ref entered_path }) => entered_path@ == path@ && !old(store).path_present(path@) && *final(store) == *old(store),
                Err(Error::InvalidPath { ref entered_path }) => old(store).path_present(path@) && (
                match new_path {
                    Some(np) => (entered_path@ == np@ && !valid_path(np@)) || (entered_path@
                        == path@ && valid_path(np@) && path@ == root_path()) || (entered_path@
                        == np@ && valid_path(np@) && path@ != root_path() && !old(
                        store,
                    ).path_present(np@) && is_strict_descendant(np@, path@)),
                    None => false,
                }) && *final(store) == *old(store),
                Err(Error::PathDuplicated { ref entered_path }) => old(store).path_present(path@)
                    && (match new_path {
                    Some(np) => entered_path@ == np@ && valid_path(np@) && path@ != root_path()
                        && old(store).path_present(np@),
                    None => false,
                }) && *final(store) == *old(store),
                Err(Error::ParentPathNotExists { ref entered_path }) => old(store).path_present(
                    path@,
                ) && (match new_path {
                    Some(np) => entered_path@ == np@ && valid_path(np@) && path@ != root_path()
                        && !old(store).path_present(np@) && !is_strict_descendant(np@, path@)
                        && !old(store).path_present(spec_parent(np@)),
                    None => false,
                }) && *final(store) == *old(store),
                Err(Error::InvalidPathPolicy) => old(store).path_present(path@) && (
                match new_path {
                    Some(np) => valid_path(np@) && path@ != root_path() && !old(
                        store,
                    ).path_present(np@) && !is_strict_descendant(np@, path@) && old(
                        store,
                    ).path_present(spec_parent(np@)),
                    None => true,
                }) && (match new_policies {
                    Some(ps) => !bindings_wf(ps@),
                    None => false,
                }) && *final(store) == *old(store),
                Err(Error::AccessDenied) => {
                    &&& old(store).path_present(path@)
                    &&& (match new_path {
                        Some(np) => valid_path(np@) && path@ != root_path() && !old(
                            store,
                        ).path_present(np@) && !is_strict_descendant(np@, path@) && old(
                            store,
                        ).path_present(spec_parent(np@)),
                        None => true,
                    })
                    &&& (match new_policies {
                        Some(ps) => bindings_wf(ps@),
                        None => true,
                    })
                    &&& claim.role != Role::Admin
                    &&& !(ancestors_allow(old(store), path@, claim) && (match new_path {
                        Some(np) => ancestors_allow(old(store), np@, claim),
                        None => true,
                    }))
                    &&& *final(store) == *old(store)
                },
                _ => false,
            },
    {
        if self.secret_service.get_path(store, path).is_none() {
            return Err(Error::PathNotExists { entered_path: path.to_owned() });
        }
        if let Some(np) = new_path {
            if !crate::path_text::is_valid_path(np) {
                return Err(Error::InvalidPath { entered_path: np.to_owned() });
            }
            if path.unicode_len() == 1 {
                // the root cannot be renamed: everything else would lose
                // its ancestor
                proof {
                    assert(path@ =~= root_path());
                }
                return Err(Error::InvalidPath { entered_path: path.to_owned() });
            }
            if self.secret_service.get_path(store, np).is_some() {
                return Err(Error::PathDuplicated { entered_path: np.to_owned() });
            }
            if crate::path_text::is_descendant(np, path) {
                // a path cannot move below itself
                return Err(Error::InvalidPath { entered_path: np.to_owned() });
            }
            proof {
                if np@ == root_path() {
                    lemma_root_present(store, path@);
                }
            }
            let parent_np = crate::path_text::parent_of(np);
            if self.secret_service.get_path(store, parent_np.as_str()).is_none() {
                return Err(Error::ParentPathNotExists { entered_path: np.to_owned() });
            }
        }
        if let Some(ps) = new_policies {
            let mut i: usize = 0;
            while i < ps.len()
                invariant
                    0 <= i <= ps@.len(),
                    forall|m: int|
                        0 <= m < i ==> crate::policy_lang::valid_expression(
                            (#[trigger] ps@[m].expression@),
                        ),
                    *store == *old(store),
                    old(store).wf(),
                    new_policies == Some(ps),
                    old(store).path_present(path@),
                    match new_path {
                        Some(np2) => valid_path(np2@) && path@ != root_path() && !old(
                            store,
                        ).path_present(np2@) && !is_strict_descendant(np2@, path@) && old(
                            store,
                        ).path_present(spec_parent(np2@)),
                        None => true,
                    },
                decreases ps@.len() - i,
            {
                if !crate::policy_lang::is_valid_expression(ps[i].expression.as_str()) {
                    proof {
                        assert(!bindings_wf(ps@));
                    }
                    return Err(Error::InvalidPathPolicy);
                }
                i = i + 1;
            }
            proof {
                assert(bindings_wf(ps@));
            }
        }
        let authorized = claim.role == Role::Admin || (check_ancestors(store, path, claim) && (
        match new_path {
            Some(np) => check_ancestors(store, np, claim),
            None => true,
        }));
        if !authorized {
            return Err(Error::AccessDenied);
        }
        let ghost pre = *store;
        match new_path {
            Some(np) => {
                proof {
                    if np@ == root_path() {
                        lemma_root_present(store, path@);
                    }
                    if path@ == root_path() {
                        assert(false);
                    }
                }
                apply_rename(store, path, np, new_policies, now);
                Ok(())
            },
            None => {
                apply_policy_update(store, path, new_policies, now);
                proof {
                    assert forall|i2: int| 0 <= i2 < pre.paths@.len() implies (
                    #[trigger] store.paths@[i2].path@) == rename_one(
                        pre.paths@[i2].path@,
                        path@,
                        update_target(new_path, path@),
                    ) by {
                    }
                }
                Ok(())
            },
        }
    }
}

/// The effective target of an optional rename: the new name, or the old
/// one when no rename was asked for (under which `rename_one` is the
/// identity).
pub open spec fn update_target(new_path: Option<&str>, oldp: Seq<char>) -> Seq<char> {
    match new_path {
        Some(np) => np@,
        None => oldp,
    }
}

/// Applies a rename of `path` to `np` to every path row and every secret,
/// and replaces the target row's bindings when new ones are given.
#[verifier::rlimit(100)]
fn apply_rename(
    store: &mut WorkspaceStore,
    path: &str,
    np: &str,
    new_policies: Option<&Vec<AppliedPolicy>>,
    now: i64,
)
    requires
        old(store).wf(),
        valid_path(path@),
        path@ != root_path(),
        valid_path(np@),
        np@ != root_path(),
        old(store).path_present(path@),
        !old(store).path_present(np@),
        !is_strict_descendant(np@, path@),
        old(store).path_present(spec_parent(np@)),
        match new_policies {
            Some(ps) => bindings_wf(ps@),
            None => true,
        },
    ensures
        final(store).wf(),
        final(store).paths@.len() == old(store).paths@.len(),
        forall|i: int|
            0 <= i < old(store).paths@.len() ==> (#[trigger] final(store).paths@[i].path@)
                == rename_one(old(store).paths@[i].path@, path@, np@),
        forall|i: int|
            0 <= i < old(store).paths@.len() && (#[trigger] old(store).paths@[i].path@) == path@
                ==> final(store).paths@[i].updated_at == now && final(store).paths@[i].created_at
                == old(store).paths@[i].created_at && (match new_policies {
                Some(ps) => final(store).paths@[i].applied_policies@ == ps@,
                None => final(store).paths@[i].applied_policies@ == old(store).paths@[i].applied_policies@,
            }),
        forall|i: int|
            0 <= i < old(store).paths@.len() && (#[trigger] old(store).paths@[i].path@) != path@
                ==> final(store).paths@[i].applied_policies@ == old(store).paths@[i].applied_policies@ && final(store).paths@[i].created_at == old(store).paths@[i].created_at && final(store).paths@[i].updated_at == old(store).paths@[i].updated_at,
        final(store).secrets@.len() == old(store).secrets@.len(),
        forall|i: int|
            0 <= i < old(store).secrets@.len() ==> (#[trigger] final(store).secrets@[i].path@)
                == rename_one(old(store).secrets@[i].path@, path@, np@),
        forall|i: int|
            0 <= i < old(store).secrets@.len() ==> (#[trigger] final(store).secrets@[i].id) == old(store).secrets@[i].id,
        forall|i: int|
            0 <= i < old(store).secrets@.len() ==> (#[trigger] final(store).secrets@[i].key@) == old(store).secrets@[i].key@,
        forall|i: int|
            0 <= i < old(store).secrets@.len() ==> (#[trigger] final(store).secrets@[i].applied_policies@) == old(store).secrets@[i].applied_policies@,
        final(store).policies == old(store).policies,
{
    let ghost pre = *store;
    proof {
        assert(np@ != path@);
    }
    let path_len = path.unicode_len();
    let mut new_rows: Vec<crate::store::PathRow> = Vec::new();
    let mut i: usize = 0;
    while i < store.paths.len()
        invariant
            0 <= i <= store.paths@.len(),
            *store == pre,
            pre == *old(store),
            pre.wf(),
            path_len == path@.len(),
            valid_path(path@),
            path@ != root_path(),
            valid_path(np@),
            np@ != path@,
            new_rows@.len() == i,
            forall|m: int|
                0 <= m < i ==> (#[trigger] new_rows@[m].path@) == rename_one(
                    pre.paths@[m].path@,
                    path@,
                    np@,
                ),
            forall|m: int|
                0 <= m < i && (#[trigger] pre.paths@[m].path@) == path@ ==> new_rows@[m].updated_at
                    == now && new_rows@[m].created_at == pre.paths@[m].created_at && (
                match new_policies {
                    Some(ps) => new_rows@[m].applied_policies@ == ps@,
                    None => new_rows@[m].applied_policies@ == pre.paths@[m].applied_policies@,
                }),
            forall|m: int|
                0 <= m < i && (#[trigger] pre.paths@[m].path@) != path@
                    ==> new_rows@[m].applied_policies@ == pre.paths@[m].applied_policies@
                    && new_rows@[m].created_at == pre.paths@[m].created_at
                    && new_rows@[m].updated_at == pre.paths@[m].updated_at,
        decreases store.paths@.len() - i,
    {
        let row = &store.paths[i];
        if crate::path_text::str_eq(row.path.as_str(), path) {
            let fresh = match new_policies {
                Some(ps) => crate::secret::clone_bindings(ps),
                None => crate::secret::clone_bindings(&row.applied_policies),
            };
            new_rows.push(
                crate::store::PathRow {
                    path: np.to_owned(),
                    applied_policies: fresh,
                    created_at: row.created_at,
                    updated_at: now,
                },
            );
        } else if crate::path_text::is_descendant(row.path.as_str(), path) {
            let row_len = row.path.as_str().unicode_len();
            let suffix = row.path.as_str().substring_char(path_len, row_len);
            let mut renamed = np.to_owned();
            renamed.append(suffix);
            proof {
                assert(renamed@ =~= np@ + store.paths@[i as int].path@.skip(path@.len() as int));
            }
            new_rows.push(
                crate::store::PathRow {
                    path: renamed,
                    applied_policies: crate::secret::clone_bindings(&row.applied_policies),
                    created_at: row.created_at,
                    updated_at: row.updated_at,
                },
            );
        } else {
            new_rows.push(
                crate::store::PathRow {
                    path: row.path.clone(),
                    applied_policies: crate::secret::clone_bindings(&row.applied_policies),
                    created_at: row.created_at,
                    updated_at: row.updated_at,
                },
            );
        }
        i = i + 1;
    }
    let mut new_secrets: Vec<crate::store::SecretRow> = Vec::new();
    let mut j: usize = 0;
    while j < store.secrets.len()
        invariant
            0 <= j <= store.secrets@.len(),
            *store == pre,
            pre == *old(store),
            pre.wf(),
            path_len == path@.len(),
            valid_path(path@),
            path@ != root_path(),
            valid_path(np@),
            np@ != path@,
            new_secrets@.len() == j,
            forall|m: int|
                0 <= m < j ==> (#[trigger] new_secrets@[m].path@) == rename_one(
                    pre.secrets@[m].path@,
                    path@,
                    np@,
                ) && new_secrets@[m].id == pre.secrets@[m].id && new_secrets@[m].key@
                    == pre.secrets@[m].key@ && new_secrets@[m].applied_policies@
                    == pre.secrets@[m].applied_policies@ && new_secrets@[m].created_at
                    == pre.secrets@[m].created_at && new_secrets@[m].updated_at
                    == pre.secrets@[m].updated_at,
        decreases store.secrets@.len() - j,
    {
        let srow = &store.secrets[j];
        let renamed_path: String = if crate::path_text::str_eq(srow.path.as_str(), path) {
            np.to_owned()
        } else if crate::path_text::is_descendant(srow.path.as_str(), path) {
            let srow_len = srow.path.as_str().unicode_len();
            let suffix = srow.path.as_str().substring_char(path_len, srow_len);
            let mut renamed = np.to_owned();
            renamed.append(suffix);
            proof {
                assert(renamed@ =~= np@ + store.secrets@[j as int].path@.skip(path@.len() as int));
            }
            renamed
        } else {
            srow.path.clone()
        };
        new_secrets.push(
            crate::store::SecretRow {
                id: srow.id,
                key: srow.key.clone(),
                path: renamed_path,
                applied_policies: crate::secret::clone_bindings(&srow.applied_policies),
                created_at: srow.created_at,
                updated_at: srow.updated_at,
            },
        );
        j = j + 1;
    }
    let ghost ns = new_secrets@;
    store.paths = new_rows;
    store.secrets = new_secrets;
    proof {
        assert(store.secrets@ == ns);
        assert(pre == *old(store));
        assert forall|i: int| 0 <= i < old(store).secrets@.len() implies (
        #[trigger] store.secrets@[i].path@) == rename_one(
            old(store).secrets@[i].path@,
            path@,
            np@,
        ) by {
            assert(ns[i].path@ == rename_one(pre.secrets@[i].path@, path@, np@));
        }
        assert forall|i: int| 0 <= i < old(store).secrets@.len() implies (
        #[trigger] store.secrets@[i].id) == old(store).secrets@[i].id by {
            assert(ns[i].path@ == rename_one(pre.secrets@[i].path@, path@, np@));
            assert(ns[i].id == pre.secrets@[i].id);
        }
        assert forall|i: int| 0 <= i < old(store).secrets@.len() implies (
        #[trigger] store.secrets@[i].key@) == old(store).secrets@[i].key@ by {
            assert(ns[i].path@ == rename_one(pre.secrets@[i].path@, path@, np@));
            assert(ns[i].key@ == pre.secrets@[i].key@);
        }
        assert forall|i: int| 0 <= i < old(store).secrets@.len() implies (
        #[trigger] store.secrets@[i].applied_policies@) == old(
            store,
        ).secrets@[i].applied_policies@ by {
            assert(ns[i].path@ == rename_one(pre.secrets@[i].path@, path@, np@));
            assert(ns[i].applied_policies@ == pre.secrets@[i].applied_policies@);
        }
        assert(pre.wf());
        assert(store.paths@.len() == pre.paths@.len());
        assert(store.secrets@.len() == pre.secrets@.len());
        assert forall|k: int| 0 <= k < store.paths@.len() implies bindings_wf(
            (#[trigger] store.paths@[k].applied_policies@),
        ) by {
            assert(0 <= k < pre.paths@.len());
            assert(valid_path(pre.paths@[k].path@));
            assert(bindings_wf(pre.paths@[k].applied_policies@));
        }
        assert forall|k: int| 0 <= k < store.secrets@.len() implies bindings_wf(
            (#[trigger] store.secrets@[k].applied_policies@),
        ) by {
            assert(0 <= k < pre.secrets@.len());
            assert(store.secrets@[k].path@ == rename_one(pre.secrets@[k].path@, path@, np@));
            assert(pre.path_present(pre.secrets@[k].path@));
            assert(bindings_wf(pre.secrets@[k].applied_policies@));
        }
        lemma_rename_preserves_wf(&pre, store, path@, np@);
    }
}

/// Replaces the bindings and touch time of the row for `path`, leaving
/// every other row and table as it was.
#[verifier::rlimit(100)]
fn apply_policy_update(
    store: &mut WorkspaceStore,
    path: &str,
    new_policies: Option<&Vec<AppliedPolicy>>,
    now: i64,
)
    requires
        old(store).wf(),
        match new_policies {
            Some(ps) => bindings_wf(ps@),
            None => true,
        },
    ensures
        final(store).wf(),
        final(store).paths@.len() == old(store).paths@.len(),
        forall|i: int|
            0 <= i < old(store).paths@.len() ==> (#[trigger] final(store).paths@[i].path@) == old(store).paths@[i].path@ && final(store).paths@[i].created_at == old(store).paths@[i].created_at,
        forall|i: int|
            0 <= i < old(store).paths@.len() && (#[trigger] old(store).paths@[i].path@) == path@
                ==> final(store).paths@[i].updated_at == now && final(store).paths@[i].created_at
                == old(store).paths@[i].created_at && final(store).paths@[i].path@ == old(store).paths@[i].path@ && (match new_policies {
                Some(ps) => final(store).paths@[i].applied_policies@ == ps@,
                None => final(store).paths@[i].applied_policies@ == old(store).paths@[i].applied_policies@,
            }),
        forall|i: int|
            0 <= i < old(store).paths@.len() && (#[trigger] old(store).paths@[i].path@) != path@
                ==> final(store).paths@[i].applied_policies@ == old(store).paths@[i].applied_policies@ && final(store).paths@[i].updated_at == old(store).paths@[i].updated_at && final(store).paths@[i].created_at
                == old(store).paths@[i].created_at && final(store).paths@[i].path@ == old(store).paths@[i].path@,
        final(store).secrets == old(store).secrets,
        final(store).policies == old(store).policies,
{
    let ghost pre = *store;
    let mut new_rows: Vec<crate::store::PathRow> = Vec::new();
    let mut i: usize = 0;
    while i < store.paths.len()
        invariant
            0 <= i <= store.paths@.len(),
            *store == pre,
            pre == *old(store),
            pre.wf(),
            new_rows@.len() == i,
            forall|m: int|
                0 <= m < i ==> new_rows@[m].path@ == (#[trigger] pre.paths@[m].path@)
                    && new_rows@[m].created_at == pre.paths@[m].created_at,
            forall|m: int|
                0 <= m < i && (#[trigger] pre.paths@[m].path@) == path@ ==> new_rows@[m].updated_at
                    == now && (match new_policies {
                    Some(ps) => new_rows@[m].applied_policies@ == ps@,
                    None => new_rows@[m].applied_policies@ == pre.paths@[m].applied_policies@,
                }),
            forall|m: int|
                0 <= m < i && (#[trigger] pre.paths@[m].path@) != path@
                    ==> new_rows@[m].applied_policies@ == pre.paths@[m].applied_policies@
                    && new_rows@[m].updated_at == pre.paths@[m].updated_at,
        decreases store.paths@.len() - i,
    {
        let row = &store.paths[i];
        if crate::path_text::str_eq(row.path.as_str(), path) {
            let fresh = match new_policies {
                Some(ps) => crate::secret::clone_bindings(ps),
                None => crate::secret::clone_bindings(&row.applied_policies),
            };
            new_rows.push(
                crate::store::PathRow {
                    path: row.path.clone(),
                    applied_policies: fresh,
                    created_at: row.created_at,
                    updated_at: now,
                },
            );
        } else {
            new_rows.push(
                crate::store::PathRow {
                    path: row.path.clone(),
                    applied_policies: crate::secret::clone_bindings(&row.applied_policies),
                    created_at: row.created_at,
                    updated_at: row.updated_at,
                },
            );
        }
        proof {
            assert(new_rows@[i as int].path@ == pre.paths@[i as int].path@);
            assert(new_rows@[i as int].created_at == pre.paths@[i as int].created_at);
        }
        i = i + 1;
    }
    store.paths = new_rows;
    proof {
        assert forall|k: int| 0 <= k < store.paths@.len() implies bindings_wf(
            (#[trigger] store.paths@[k].applied_policies@),
        ) by {
            assert(0 <= k < pre.paths@.len());
            assert(store.paths@[k].path@ == pre.paths@[k].path@);
            assert(valid_path(pre.paths@[k].path@));
            assert(bindings_wf(pre.paths@[k].applied_policies@));
        }
        lemma_same_paths_preserve_wf(&pre, store);
    }
}

/// A store whose path table keeps every path (with well-formed bindings)
/// and whose other tables are untouched stays well formed.
pub proof fn lemma_same_paths_preserve_wf(pre: &WorkspaceStore, post: &WorkspaceStore)
    requires
        pre.wf(),
        post.paths@.len() == pre.paths@.len(),
        forall|i: int|
            0 <= i < post.paths@.len() ==> (#[trigger] post.paths@[i].path@)
                == pre.paths@[i].path@,
        forall|i: int|
            0 <= i < post.paths@.len() ==> bindings_wf(
                (#[trigger] post.paths@[i].applied_policies@),
            ),
        post.secrets == pre.secrets,
        post.policies == pre.policies,
    ensures
        post.wf(),
{
    assert forall|x: Seq<char>| #[trigger] pre.path_present(x) implies post.path_present(x) by {
        let k = choose|k: int| 0 <= k < pre.paths@.len() && (#[trigger] pre.paths@[k].path@) == x;
        assert(post.paths@[k].path@ == x);
    }
    assert forall|i: int| 0 <= i < post.paths@.len() implies valid_path(
        #[trigger] post.paths@[i].path@,
    ) by {
        assert(valid_path(pre.paths@[i].path@));
    }
    assert forall|i: int, j: int| 0 <= i < j < post.paths@.len() implies (
    #[trigger] post.paths@[i].path@) != (#[trigger] post.paths@[j].path@) by {
        assert(pre.paths@[i].path@ != pre.paths@[j].path@);
    }
    assert forall|i: int| 0 <= i < post.paths@.len() && (#[trigger] post.paths@[i].path@)
        != root_path() implies post.path_present(spec_parent(post.paths@[i].path@)) by {
        assert(pre.path_present(spec_parent(pre.paths@[i].path@)));
    }
    assert forall|i: int| 0 <= i < post.secrets@.len() implies post.path_present(
        #[trigger] post.secrets@[i].path@,
    ) && bindings_wf(post.secrets@[i].applied_policies@) by {
        assert(pre.secrets@[i] == post.secrets@[i]);
        assert(pre.path_present(pre.secrets@[i].path@));
    }
    assert(post.secrets_wf());
    assert(post.policies_wf());
}

/// In a well-formed store holding any non-root path, the root is present.
pub proof fn lemma_root_present(store: &WorkspaceStore, u: Seq<char>)
    requires
        store.wf(),
        store.path_present(u),
        u != root_path(),
    ensures
        store.path_present(root_path()),
    decreases u.len(),
{
    let k = choose|k: int| 0 <= k < store.paths@.len() && (#[trigger] store.paths@[k].path@) == u;
    assert(valid_path(u));
    assert(store.path_present(spec_parent(u)));
    crate::path_text::lemma_last_slash_props(u);
    let ls = last_slash(u);
    if ls == 0 {
    } else {
        let pu = spec_parent(u);
        assert(pu == u.take(ls));
        assert(pu.len() == ls);
        assert(pu != root_path()) by {
            if pu == root_path() {
                assert(pu.len() == 1);
                assert(u[1] == '/' && u[0] == '/');
            }
        }
        lemma_root_present(store, pu);
    }
}

/// The parent of a non-root path is one of its strict ancestors.
pub proof fn lemma_parent_is_ancestor(q: Seq<char>)
    requires
        valid_path(q),
        q != root_path(),
    ensures
        is_strict_descendant(q, spec_parent(q)),
{
    crate::path_text::lemma_last_slash_props(q);
    let ls = last_slash(q);
    if ls == 0 {
        assert(q.len() > 1) by {
            if q.len() == 1 {
                assert(q =~= root_path());
            }
        }
    } else {
        assert(ls >= 2) by {
            if ls == 1 {
                assert(q[1] == '/' && q[0] == '/');
            }
        }
        let p = q.take(ls);
        assert(p.len() >= 2);
        assert(p != root_path()) by {
            if p == root_path() {
                assert(p.len() == 1);
            }
        }
        assert(q.take(p.len() as int) == p);
        assert(q[p.len() as int] == '/');
    }
}

/// Removing a leaf (no child paths, no secrets at or below it) keeps the
/// store well formed.
pub proof fn lemma_delete_path_preserves_wf(
    pre: &WorkspaceStore,
    post: &WorkspaceStore,
    idx: int,
    p: Seq<char>,
)
    requires
        pre.wf(),
        0 <= idx < pre.paths@.len(),
        pre.paths@[idx].path@ == p,
        !pre.has_child_path(p),
        !pre.has_child_secret(p),
        post.paths@ == pre.paths@.remove(idx),
        post.secrets == pre.secrets,
        post.policies == pre.policies,
    ensures
        post.wf(),
{
    let n = pre.paths@.len() as int;
    pre.paths@.remove_ensures(idx);
    assert forall|i: int| 0 <= i < post.paths@.len() implies valid_path(
        #[trigger] post.paths@[i].path@,
    ) && bindings_wf(post.paths@[i].applied_policies@) by {
        if i < idx {
            assert(post.paths@[i] == pre.paths@[i]);
            assert(valid_path(pre.paths@[i].path@));
            assert(bindings_wf(pre.paths@[i].applied_policies@));
        } else {
            assert(post.paths@[i] == pre.paths@[i + 1]);
            assert(valid_path(pre.paths@[i + 1].path@));
            assert(bindings_wf(pre.paths@[i + 1].applied_policies@));
        }
    }
    assert forall|i: int, j: int| 0 <= i < j < post.paths@.len() implies (
    #[trigger] post.paths@[i].path@) != (#[trigger] post.paths@[j].path@) by {
        let i0 = if i < idx {
            i
        } else {
            i + 1
        };
        let j0 = if j < idx {
            j
        } else {
            j + 1
        };
        assert(post.paths@[i] == pre.paths@[i0]);
        assert(post.paths@[j] == pre.paths@[j0]);
        assert(pre.paths@[i0].path@ != pre.paths@[j0].path@);
    }
    assert forall|i: int| 0 <= i < post.paths@.len() && (#[trigger] post.paths@[i].path@)
        != root_path() implies post.path_present(spec_parent(post.paths@[i].path@)) by {
        let i0 = if i < idx {
            i
        } else {
            i + 1
        };
        assert(post.paths@[i] == pre.paths@[i0]);
        let q = pre.paths@[i0].path@;
        let w = choose|w: int|
            0 <= w < pre.paths@.len() && (#[trigger] pre.paths@[w].path@) == spec_parent(q);
        if w == idx {
            // the removed row cannot be anyone's parent: that row would be
            // a child path of `p`
            lemma_parent_is_ancestor(q);
            assert(is_strict_descendant(q, p));
            assert(false);
        } else {
            let w1 = if w < idx {
                w
            } else {
                w - 1
            };
            assert(post.paths@[w1] == pre.paths@[w]);
        }
    }
    assert forall|i: int| 0 <= i < post.secrets@.len() implies post.path_present(
        #[trigger] post.secrets@[i].path@,
    ) && bindings_wf(post.secrets@[i].applied_policies@) by {
        assert(pre.secrets@[i] == post.secrets@[i]);
        let q = pre.secrets@[i].path@;
        let w = choose|w: int|
            0 <= w < pre.paths@.len() && (#[trigger] pre.paths@[w].path@) == q;
        if w == idx {
            assert(pre.has_child_secret(p));
            assert(false);
        } else {
            let w1 = if w < idx {
                w
            } else {
                w - 1
            };
            assert(post.paths@[w1] == pre.paths@[w]);
        }
    }
    assert(post.secrets_wf());
    assert(post.policies_wf());
}

/// In a well-formed store, every ancestor of a present path is present:
/// the parent chain steps through every slash boundary.
pub proof fn lemma_ancestor_present(store: &WorkspaceStore, u: Seq<char>, x: Seq<char>)
    requires
        store.wf(),
        store.path_present(u),
        valid_path(x),
        x != root_path(),
        is_strict_descendant(u, x),
    ensures
        store.path_present(x),
    decreases u.len(),
{
    let k = choose|k: int| 0 <= k < store.paths@.len() && (#[trigger] store.paths@[k].path@) == u;
    assert(valid_path(u));
    assert(x.len() >= 2) by {
        if x.len() == 1 {
            assert(x =~= root_path());
        }
    }
    assert(u != root_path()) by {
        if u == root_path() {
            assert(u.len() == 1);
        }
    }
    assert(store.path_present(spec_parent(u)));
    crate::path_text::lemma_last_slash_props(u);
    let ls = last_slash(u);
    assert(u[x.len() as int] == '/');
    assert(ls >= x.len()) by {
        if ls < x.len() {
            assert(u[x.len() as int] != '/');
        }
    }
    let pu = spec_parent(u);
    if ls == x.len() {
        assert(pu == u.take(ls));
        assert(u.take(ls) =~= x) by {
            assert(u.take(x.len() as int) == x);
        }
    } else {
        assert(pu == u.take(ls));
        assert(pu.len() == ls);
        assert(pu[0] == u[0]);
        assert(is_strict_descendant(pu, x)) by {
            assert(pu.take(x.len() as int) =~= u.take(x.len() as int));
            assert(pu[x.len() as int] == u[x.len() as int]);
        }
        lemma_ancestor_present(store, pu, x);
    }
}

/// A rename of `oldp` to a free path `np` outside `oldp`'s subtree, applied
/// to every path row and every secret's path, keeps the store well formed.
#[verifier::rlimit(100)]
pub proof fn lemma_rename_preserves_wf(
    pre: &WorkspaceStore,
    post: &WorkspaceStore,
    oldp: Seq<char>,
    np: Seq<char>,
)
    requires
        pre.wf(),
        valid_path(oldp),
        oldp != root_path(),
        valid_path(np),
        np != root_path(),
        np != oldp,
        pre.path_present(oldp),
        !pre.path_present(np),
        !is_strict_descendant(np, oldp),
        pre.path_present(spec_parent(np)),
        post.paths@.len() == pre.paths@.len(),
        forall|i: int|
            0 <= i < post.paths@.len() ==> (#[trigger] post.paths@[i].path@) == rename_one(
                pre.paths@[i].path@,
                oldp,
                np,
            ),
        forall|i: int|
            0 <= i < post.paths@.len() ==> bindings_wf(
                (#[trigger] post.paths@[i].applied_policies@),
            ),
        post.secrets@.len() == pre.secrets@.len(),
        forall|i: int|
            0 <= i < post.secrets@.len() ==> (#[trigger] post.secrets@[i].path@) == rename_one(
                pre.secrets@[i].path@,
                oldp,
                np,
            ) && post.secrets@[i].key@ == pre.secrets@[i].key@ && bindings_wf(
                post.secrets@[i].applied_policies@,
            ),
        post.policies == pre.policies,
    ensures
        post.wf(),
{
    let n = pre.paths@.len() as int;
    assert(oldp.len() >= 2) by {
        if oldp.len() == 1 {
            assert(oldp =~= root_path());
        }
    }
    assert(np.len() >= 2) by {
        if np.len() == 1 {
            assert(np =~= root_path());
        }
    }
    // nothing in the store is `np` or sits below it
    assert forall|q: Seq<char>| pre.path_present(q) implies q != np && !is_strict_descendant(
        q,
        np,
    ) by {
        if q == np {
            assert(pre.path_present(np));
        }
        if is_strict_descendant(q, np) {
            lemma_ancestor_present(pre, q, np);
        }
    }
    // how each row moves, and that images of subtree rows stay below np
    assert forall|i: int| 0 <= i < n implies #[trigger] rename_image_ok(pre, i, oldp, np) by {
        lemma_rename_image(pre, i, oldp, np);
    }
    // validity and bindings
    assert forall|i: int| 0 <= i < n implies valid_path(#[trigger] post.paths@[i].path@)
        && bindings_wf(post.paths@[i].applied_policies@) by {
        assert(rename_image_ok(pre, i, oldp, np));
    }
    // uniqueness
    assert forall|i: int, j: int| 0 <= i < j < n implies (#[trigger] post.paths@[i].path@) != (
    #[trigger] post.paths@[j].path@) by {
        lemma_rename_distinct(pre, i, j, oldp, np);
    }
    // parent closure
    assert forall|i: int| 0 <= i < n && (#[trigger] post.paths@[i].path@)
        != root_path() implies post.path_present(spec_parent(post.paths@[i].path@)) by {
        lemma_rename_parent_present(pre, post, i, oldp, np);
    }
    assert(post.paths_wf());
    // secrets
    assert forall|i: int| 0 <= i < post.secrets@.len() implies post.path_present(
        #[trigger] post.secrets@[i].path@,
    ) && bindings_wf(post.secrets@[i].applied_policies@) by {
        let q = pre.secrets@[i].path@;
        assert(pre.path_present(q));
        let w = choose|w: int| 0 <= w < pre.paths@.len() && (#[trigger] pre.paths@[w].path@) == q;
        assert(post.paths@[w].path@ == rename_one(q, oldp, np));
        assert(post.secrets@[i].path@ == rename_one(q, oldp, np));
        assert(post.path_present(post.secrets@[i].path@));
    }
    assert forall|i: int, j: int| 0 <= i < j < post.secrets@.len() implies (
    #[trigger] post.secrets@[i].key@) != (#[trigger] post.secrets@[j].key@) by {
        assert(post.secrets@[i].path@ == rename_one(pre.secrets@[i].path@, oldp, np));
        assert(post.secrets@[j].path@ == rename_one(pre.secrets@[j].path@, oldp, np));
        assert(pre.secrets@[i].key@ != pre.secrets@[j].key@);
    }
    assert(post.secrets_wf());
    assert(post.policies_wf());
}

/// What holds of the image of one renamed row: it is valid, and subtree
/// rows land on `np` or below it.
pub open spec fn rename_image_ok(pre: &WorkspaceStore, i: int, oldp: Seq<char>, np: Seq<char>) -> bool {
    let q = pre.paths@[i].path@;
    let r = rename_one(q, oldp, np);
    &&& valid_path(r)
    &&& (q == oldp ==> r == np)
    &&& (is_strict_descendant(q, oldp) ==> is_strict_descendant(r, np))
    &&& (q != oldp && !is_strict_descendant(q, oldp) ==> r == q)
}

/// Proves `rename_image_ok` for one row.
pub proof fn lemma_rename_image(pre: &WorkspaceStore, i: int, oldp: Seq<char>, np: Seq<char>)
    requires
        pre.wf(),
        0 <= i < pre.paths@.len(),
        valid_path(oldp),
        oldp.len() >= 2,
        valid_path(np),
        np.len() >= 2,
        np != oldp,
    ensures
        rename_image_ok(pre, i, oldp, np),
{
    let q = pre.paths@[i].path@;
    assert(valid_path(q));
    if q == oldp {
    } else if is_strict_descendant(q, oldp) {
        let rest = q.skip(oldp.len() as int);
        crate::path_text::lemma_concat_path_valid(np, q, oldp);
        assert(is_strict_descendant(np + rest, np)) by {
            assert((np + rest).take(np.len() as int) =~= np);
            assert((np + rest)[np.len() as int] == rest[0]);
            assert(rest[0] == q[oldp.len() as int]);
            assert(np != root_path()) by {
                if np == root_path() {
                    assert(np.len() == 1);
                }
            }
            assert(rest.len() >= 1);
        }
    } else {
    }
}

/// Distinct rows stay distinct under the rename.
pub proof fn lemma_rename_distinct(pre: &WorkspaceStore, i: int, j: int, oldp: Seq<char>, np: Seq<char>)
    requires
        pre.wf(),
        0 <= i < pre.paths@.len(),
        0 <= j < pre.paths@.len(),
        i != j,
        valid_path(oldp),
        oldp.len() >= 2,
        valid_path(np),
        np.len() >= 2,
        np != oldp,
        !pre.path_present(np),
        forall|q: Seq<char>|
            #[trigger] pre.path_present(q) ==> q != np && !is_strict_descendant(q, np),
    ensures
        rename_one(pre.paths@[i].path@, oldp, np) != rename_one(pre.paths@[j].path@, oldp, np),
{
    let qi = pre.paths@[i].path@;
    let qj = pre.paths@[j].path@;
    assert(qi != qj) by {
        if i < j {
            assert(pre.paths@[i].path@ != pre.paths@[j].path@);
        } else {
            assert(pre.paths@[j].path@ != pre.paths@[i].path@);
        }
    }
    assert(pre.path_present(qi));
    assert(pre.path_present(qj));
    lemma_rename_image(pre, i, oldp, np);
    lemma_rename_image(pre, j, oldp, np);
    let ri = rename_one(qi, oldp, np);
    let rj = rename_one(qj, oldp, np);
    if ri == rj {
        let i_in = qi == oldp || is_strict_descendant(qi, oldp);
        let j_in = qj == oldp || is_strict_descendant(qj, oldp);
        if i_in && j_in {
            if qi == oldp && qj == oldp {
                assert(false);
            } else if qi == oldp {
                assert(rj == np + qj.skip(oldp.len() as int));
                assert(rj.len() > np.len());
            } else if qj == oldp {
                assert(ri == np + qi.skip(oldp.len() as int));
                assert(ri.len() > np.len());
            } else {
                let resti = qi.skip(oldp.len() as int);
                let restj = qj.skip(oldp.len() as int);
                assert(resti =~= (np + resti).skip(np.len() as int));
                assert(restj =~= (np + restj).skip(np.len() as int));
                assert(resti == restj);
                assert(qi =~= oldp + resti) by {
                    assert(qi.take(oldp.len() as int) == oldp);
                }
                assert(qj =~= oldp + restj) by {
                    assert(qj.take(oldp.len() as int) == oldp);
                }
                assert(false);
            }
        } else if i_in && !j_in {
            assert(rj == qj);
            assert(ri == np || is_strict_descendant(ri, np));
        } else if !i_in && j_in {
            assert(ri == qi);
            assert(rj == np || is_strict_descendant(rj, np));
        } else {
            assert(ri == qi && rj == qj);
        }
    }
}

/// The parent of every renamed row is present after the rename.
pub proof fn lemma_rename_parent_present(
    pre: &WorkspaceStore,
    post: &WorkspaceStore,
    i: int,
    oldp: Seq<char>,
    np: Seq<char>,
)
    requires
        pre.wf(),
        0 <= i < pre.paths@.len(),
        valid_path(oldp),
        oldp != root_path(),
        oldp.len() >= 2,
        valid_path(np),
        np != root_path(),
        np.len() >= 2,
        np != oldp,
        pre.path_present(oldp),
        !pre.path_present(np),
        !is_strict_descendant(np, oldp),
        pre.path_present(spec_parent(np)),
        post.paths@.len() == pre.paths@.len(),
        forall|k: int|
            0 <= k < post.paths@.len() ==> (#[trigger] post.paths@[k].path@) == rename_one(
                pre.paths@[k].path@,
                oldp,
                np,
            ),
        post.paths@[i].path@ != root_path(),
    ensures
        post.path_present(spec_parent(post.paths@[i].path@)),
{
    let q = pre.paths@[i].path@;
    assert(pre.path_present(q));
    assert(valid_path(q));
    lemma_rename_image(pre, i, oldp, np);
    let r = post.paths@[i].path@;
    if q == oldp {
        // the image is np; np's parent is untouched by the rename
        let pp = spec_parent(np);
        assert(pp != oldp && !is_strict_descendant(pp, oldp)) by {
            lemma_parent_is_ancestor(np);
            if pp == oldp {
                assert(is_strict_descendant(np, oldp));
            }
            if is_strict_descendant(pp, oldp) {
                crate::path_text::lemma_descendant_trans(np, pp, oldp);
            }
        }
        let w = choose|w: int| 0 <= w < pre.paths@.len() && (#[trigger] pre.paths@[w].path@) == pp;
        lemma_rename_image(pre, w, oldp, np);
        assert(post.paths@[w].path@ == pp);
    } else if is_strict_descendant(q, oldp) {
        let rest = q.skip(oldp.len() as int);
        assert(q =~= oldp + rest) by {
            assert(q.take(oldp.len() as int) == oldp);
        }
        assert(rest.len() >= 2) by {
            if rest.len() == 1 {
                assert(q[q.len() - 1] == q[oldp.len() as int]);
            }
        }
        assert(rest[0] == q[oldp.len() as int]);
        crate::path_text::lemma_parent_concat(oldp, rest);
        crate::path_text::lemma_parent_concat(np, rest);
        crate::path_text::lemma_last_slash_props(rest);
        let ls = crate::path_text::last_slash(rest);
        if ls == 0 {
            assert(spec_parent(q) == oldp);
            assert(spec_parent(r) == np) by {
                assert(r == np + rest);
            }
            let w = choose|w: int|
                0 <= w < pre.paths@.len() && (#[trigger] pre.paths@[w].path@) == oldp;
            lemma_rename_image(pre, w, oldp, np);
            assert(post.paths@[w].path@ == np);
        } else {
            assert(spec_parent(q) == oldp + rest.take(ls));
            assert(spec_parent(r) == np + rest.take(ls)) by {
                assert(r == np + rest);
            }
            assert(q != root_path()) by {
                assert(q.len() > oldp.len());
            }
            assert(pre.path_present(spec_parent(q))) by {
                let k = choose|k: int|
                    0 <= k < pre.paths@.len() && (#[trigger] pre.paths@[k].path@) == q;
                assert(pre.paths@[k].path@ == q);
            }
            let w = choose|w: int|
                0 <= w < pre.paths@.len() && (#[trigger] pre.paths@[w].path@) == spec_parent(q);
            lemma_rename_image(pre, w, oldp, np);
            assert(spec_parent(q).len() == oldp.len() + ls);
            assert(spec_parent(q) != oldp);
            assert(is_strict_descendant(spec_parent(q), oldp)) by {
                assert(spec_parent(q).take(oldp.len() as int) =~= oldp);
                assert(spec_parent(q)[oldp.len() as int] == rest.take(ls)[0]);
                assert(oldp != root_path());
            }
            assert(post.paths@[w].path@ == np + spec_parent(q).skip(oldp.len() as int));
            assert(spec_parent(q).skip(oldp.len() as int) =~= rest.take(ls));
            assert(post.paths@[w].path@ == spec_parent(r));
        }
    } else {
        // untouched: its parent is untouched too
        assert(r == q);
        let pq = spec_parent(q);
        assert(pre.path_present(pq)) by {
            let k = choose|k: int|
                0 <= k < pre.paths@.len() && (#[trigger] pre.paths@[k].path@) == q;
            assert(pre.paths@[k].path@ == q);
        }
        assert(pq != oldp && !is_strict_descendant(pq, oldp)) by {
            lemma_parent_is_ancestor(q);
            if pq == oldp {
                assert(is_strict_descendant(q, oldp));
            }
            if is_strict_descendant(pq, oldp) {
                crate::path_text::lemma_descendant_trans(q, pq, oldp);
            }
        }
        let w = choose|w: int| 0 <= w < pre.paths@.len() && (#[trigger] pre.paths@[w].path@) == pq;
        lemma_rename_image(pre, w, oldp, np);
        assert(post.paths@[w].path@ == pq);
    }
}

} // verus!
