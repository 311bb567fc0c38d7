//! Secrets and the access decisions made over claims.
//!
//! On every read the union of the secret's own policy bindings and the
//! bindings of its path and all ancestor paths is evaluated against the
//! caller's claim: access is granted only when every one of them holds, or
//! when the claim carries the `Admin` role.

use vstd::prelude::*;
use vstd::pervasive::unreached;

use crate::claim::NebulaClaim;
use crate::claim::Role;
use crate::path_text::is_strict_descendant;
use crate::path_text::is_descendant;
use crate::path_text::is_valid_path;
use crate::path_text::spec_parent;
use crate::path_text::str_eq;
use crate::path_text::parent_of;
use crate::path_text::root_path;
use crate::path_text::valid_path;
use crate::policy_lang::is_valid_expression;
use crate::policy_lang::parse_policy_expression;
use crate::policy_lang::expression_allows;
use crate::policy_lang::spec_eval;
use crate::policy_lang::spec_parse_expression;
use crate::policy_lang::valid_expression;
use crate::store::AppliedPolicy;
use crate::store::PathRow;
use crate::store::SecretRow;
use crate::store::WorkspaceStore;
use crate::store::bindings_wf;

verus! {

/// What can go wrong below the use-case layer.
#[derive(Debug)]
pub enum Error {
    InvalidSecretIdentifier { entered_identifier: String },
    SecretNotExists,
    IdentifierConflicted { entered_identifier: String },
    InvalidPath { entered_path: String },
    ParentPathNotExists { entered_path: String },
    PathDuplicated { entered_path: String },
    PathIsInUse { entered_path: String },
    InvalidPathPolicy,
    InvalidSecretPolicy,
    AccessDenied,
    Anyhow(String),
}

/// A path row as callers see it.
pub struct PathData {
    pub path: String,
    pub applied_policies: Vec<AppliedPolicy>,
}

/// A secret row as callers see it.
pub struct SecretData {
    pub id: u128,
    pub key: String,
    pub path: String,
    pub applied_policies: Vec<AppliedPolicy>,
}

/// Every binding in the list holds of the claim's attributes.
pub open spec fn bindings_allow(ps: Seq<AppliedPolicy>, claim: &NebulaClaim) -> bool {
    forall|i: int|
        0 <= i < ps.len() ==> spec_eval(
            spec_parse_expression((#[trigger] ps[i].expression@))->Some_0,
            claim.spec_attrs(),
        )
}

/// Every binding of every strict ancestor of `p` holds of the claim.
pub open spec fn ancestors_allow(store: &WorkspaceStore, p: Seq<char>, claim: &NebulaClaim) -> bool {
    forall|i: int|
        0 <= i < store.paths@.len() && is_strict_descendant(p, (#[trigger] store.paths@[i].path@))
            ==> bindings_allow(store.paths@[i].applied_policies@, claim)
}

/// Every binding of `p`'s own row and of every strict ancestor holds.
pub open spec fn path_chain_allows(store: &WorkspaceStore, p: Seq<char>, claim: &NebulaClaim) -> bool {
    forall|i: int|
        0 <= i < store.paths@.len() && ((#[trigger] store.paths@[i].path@) == p
            || is_strict_descendant(p, store.paths@[i].path@)) ==> bindings_allow(
            store.paths@[i].applied_policies@,
            claim,
        )
}

/// A claim may read a secret when it is an admin, or when the secret's own
/// bindings and the bindings along its path all hold of the claim.
pub open spec fn read_allowed(store: &WorkspaceStore, s: &SecretRow, claim: &NebulaClaim) -> bool {
    claim.role == Role::Admin || (bindings_allow(s.applied_policies@, claim) && path_chain_allows(
        store,
        s.path@,
        claim,
    ))
}

/// Evaluates a list of bindings against a claim.
pub fn check_bindings(ps: &Vec<AppliedPolicy>, claim: &NebulaClaim) -> (r: bool)
    requires
        bindings_wf(ps@),
    ensures
        r == bindings_allow(ps@, claim),
{
    let mut i: usize = 0;
    while i < ps.len()
        invariant
            0 <= i <= ps@.len(),
            bindings_wf(ps@),
            forall|m: int|
                0 <= m < i ==> spec_eval(
                    spec_parse_expression((#[trigger] ps@[m].expression@))->Some_0,
                    claim.spec_attrs(),
                ),
        decreases ps@.len() - i,
    {
        match parse_policy_expression(ps[i].expression.as_str()) {
            Some(e) => {
                if !expression_allows(&e, claim) {
                    return false;
                }
            },
            None => {
                proof {
                    assert(valid_expression(ps@[i as int].expression@));
                }
                return unreached();
            },
        }
        i = i + 1;
    }
    true
}

/// Evaluates the bindings of every strict ancestor of `p` against a claim.
pub fn check_ancestors(store: &WorkspaceStore, p: &str, claim: &NebulaClaim) -> (r: bool)
    requires
        store.wf(),
    ensures
        r == ancestors_allow(store, p@, claim),
{
    let mut i: usize = 0;
    while i < store.paths.len()
        invariant
            0 <= i <= store.paths@.len(),
            store.wf(),
            forall|m: int|
                0 <= m < i && is_strict_descendant(p@, (#[trigger] store.paths@[m].path@))
                    ==> bindings_allow(store.paths@[m].applied_policies@, claim),
        decreases store.paths@.len() - i,
    {
        if is_descendant(p, store.paths[i].path.as_str()) {
            if !check_bindings(&store.paths[i].applied_policies, claim) {
                return false;
            }
        }
        i = i + 1;
    }
    true
}

/// Evaluates the bindings of `p`'s row and of every strict ancestor.
pub fn check_path_chain(store: &WorkspaceStore, p: &str, claim: &NebulaClaim) -> (r: bool)
    requires
        store.wf(),
    ensures
        r == path_chain_allows(store, p@, claim),
{
    let mut i: usize = 0;
    while i < store.paths.len()
        invariant
            0 <= i <= store.paths@.len(),
            store.wf(),
            forall|m: int|
                0 <= m < i && ((#[trigger] store.paths@[m].path@) == p@ || is_strict_descendant(
                    p@,
                    store.paths@[m].path@,
                )) ==> bindings_allow(store.paths@[m].applied_policies@, claim),
        decreases store.paths@.len() - i,
    {
        let same = str_eq(store.paths[i].path.as_str(), p);
        if same || is_descendant(p, store.paths[i].path.as_str()) {
            if !check_bindings(&store.paths[i].applied_policies, claim) {
                return false;
            }
        }
        i = i + 1;
    }
    true
}

/// Copies a list of bindings row by row.
pub fn clone_bindings(v: &Vec<AppliedPolicy>) -> (r: Vec<AppliedPolicy>)
    ensures
        r@ == v@,
{
    let mut r: Vec<AppliedPolicy> = Vec::new();
    let mut i: usize = 0;
    while i < v.len()
        invariant
            0 <= i <= v@.len(),
            r@ =~= v@.take(i as int),
        decreases v@.len() - i,
    {
        r.push(v[i].clone());
        i = i + 1;
    }
    proof {
        assert(r@ =~= v@);
    }
    r
}

/// A valid secret identifier: nonempty, without `/`.
pub open spec fn valid_secret_key(k: Seq<char>) -> bool {
    k.len() >= 1 && forall|i: int| 0 <= i < k.len() ==> (#[trigger] k[i]) != '/'
}

/// Checks that a text is a valid secret identifier.
pub fn is_valid_secret_key(k: &str) -> (r: bool)
    ensures
        r == valid_secret_key(k@),
{
    let n = k.unicode_len();
    if n == 0 {
        return false;
    }
    let mut i: usize = 0;
    while i < n
        invariant
            0 <= i <= n,
            n == k@.len(),
            forall|m: int| 0 <= m < i ==> (#[trigger] k@[m]) != '/',
        decreases n - i,
    {
        if k.get_char(i) == '/' {
            return false;
        }
        i = i + 1;
    }
    true
}

/// The database-backed service over paths and secrets. Here it holds the
/// decisions those statements make; the statements themselves are issued by
/// the surrounding transaction.
pub struct PostgresSecretService {}

impl PostgresSecretService {
    /// Every path in the workspace.
    pub fn get_paths(&self, store: &WorkspaceStore) -> (r: Vec<PathData>)
        ensures
            r@.len() == store.paths@.len(),
            forall|i: int|
                0 <= i < r@.len() ==> (#[trigger] r@[i]).path@ == store.paths@[i].path@
                    && r@[i].applied_policies@ == store.paths@[i].applied_policies@,
    {
        let mut r: Vec<PathData> = Vec::new();
        let mut i: usize = 0;
        while i < store.paths.len()
            invariant
                0 <= i <= store.paths@.len(),
                r@.len() == i,
                forall|m: int|
                    0 <= m < i ==> (#[trigger] r@[m]).path@ == store.paths@[m].path@
                        && r@[m].applied_policies@ == store.paths@[m].applied_policies@,
            decreases store.paths@.len() - i,
        {
            r.push(
                PathData {
                    path: store.paths[i].path.clone(),
                    applied_policies: clone_bindings(&store.paths[i].applied_policies),
                },
            );
            i = i + 1;
        }
        r
    }

    /// The row for `path`, when one exists, with its bindings as stored.
    pub fn get_path(&self, store: &WorkspaceStore, path: &str) -> (r: Option<PathData>)
        ensures
            match r {
                Some(ref d) => d.path@ == path@ && exists|i: int|
                    0 <= i < store.paths@.len() && (#[trigger] store.paths@[i].path@) == path@
                        && d.applied_policies@ == store.paths@[i].applied_policies@,
                None => !store.path_present(path@),
            },
    {
        let mut i: usize = 0;
        while i < store.paths.len()
            invariant
                0 <= i <= store.paths@.len(),
                forall|m: int| 0 <= m < i ==> (#[trigger] store.paths@[m].path@) != path@,
            decreases store.paths@.len() - i,
        {
            if str_eq(store.paths[i].path.as_str(), path) {
                return Some(
                    PathData {
                        path: store.paths[i].path.clone(),
                        applied_policies: clone_bindings(&store.paths[i].applied_policies),
                    },
                );
            }
            i = i + 1;
        }
        None
    }

    /// Registers a path: the text must be well formed, its parent (unless it
    /// is the root) must exist, every supplied binding must parse, the path
    /// must be new, and the claim must satisfy the bindings of every
    /// ancestor unless it is an admin. On success exactly one row is
    /// appended, timestamped `now`.
    pub fn register_path(
        &self,
        store: &mut WorkspaceStore,
        path: &str,
        policies: &Vec<AppliedPolicy>,
        claim: &NebulaClaim,
        now: i64,
    ) -> (r: Result<(), Error>)
        requires
            old(store).wf(),
        ensures
            final(store).wf(),
            match r {
                Ok(()) => {
                    &&& valid_path(path@)
                    &&& (path@ == root_path() || old(store).path_present(spec_parent(path@)))
                    &&& bindings_wf(policies@)
                    &&& !old(store).path_present(path@)
                    &&& (claim.role == Role::Admin || ancestors_allow(old(store), path@, claim))
                    &&& final(store).paths@.len() == old(store).paths@.len() + 1
                    &&& final(store).paths@.drop_last() == old(store).paths@
                    &&& final(store).paths@.last().path@ == path@
                    &&& final(store).paths@.last().created_at == now
                    &&& final(store).paths@.last().updated_at == now
                    &&& final(store).paths@.last().applied_policies@.len() == policies@.len()
                    &&& forall|i: int|
                        0 <= i < policies@.len()
                            ==> final(store).paths@.last().applied_policies@[i].policy_id == (
                        #[trigger] policies@[i]).policy_id
                            && final(store).paths@.last().applied_policies@[i].expression@
                            == policies@[i].expression@
                    &&& final(store).secrets == old(store).secrets
                    &&& final(store).policies == old(store).policies
                },
                Err(Error::InvalidPath { ref entered_path }) => entered_path@ == path@
                    && !valid_path(path@) && *final(store) == *old(store),
                Err(Error::ParentPathNotExists { ref entered_path }) => entered_path@ == path@
                    && valid_path(path@) && path@ != root_path() && !old(store).path_present(
                    spec_parent(path@),
                ) && *final(store) == *old(store),
                Err(Error::InvalidPathPolicy) => valid_path(path@) && (path@ == root_path() || old(
                    store,
                ).path_present(spec_parent(path@))) && !bindings_wf(policies@) && *final(store) == *old(store),
                Err(Error::PathDuplicated { ref entered_path }) => entered_path@ == path@
                    && valid_path(path@) && (path@ == root_path() || old(store).path_present(
                    spec_parent(path@),
                )) && bindings_wf(policies@) && old(store).path_present(path@) && *final(store)
                    == *old(store),
                Err(Error::AccessDenied) => valid_path(path@) && (path@ == root_path() || old(
                    store,
                ).path_present(spec_parent(path@))) && bindings_wf(policies@) && !old(
                    store,
                ).path_present(path@) && claim.role != Role::Admin && !ancestors_allow(
                    old(store),
                    path@,
                    claim,
                ) && *final(store) == *old(store),
                _ => false,
            },
    {
        if !is_valid_path(path) {
            return Err(Error::InvalidPath { entered_path: path.to_owned() });
        }
        if path.unicode_len() > 1 {
            let parent = parent_of(path);
            if self.get_path(store, parent.as_str()).is_none() {
                return Err(Error::ParentPathNotExists { entered_path: path.to_owned() });
            }
        } else {
            proof {
                assert(path@ =~= root_path());
            }
        }
        let mut i: usize = 0;
        while i < policies.len()
            invariant
                0 <= i <= policies@.len(),
                forall|m: int|
                    0 <= m < i ==> valid_expression((#[trigger] policies@[m].expression@)),
                *store == *old(store),
                old(store).wf(),
                valid_path(path@),
                path@ == root_path() || old(store).path_present(spec_parent(path@)),
            decreases policies@.len() - i,
        {
            if !is_valid_expression(policies[i].expression.as_str()) {
                proof {
                    assert(!valid_expression(policies@[i as int].expression@));
                    assert(!bindings_wf(policies@));
                }
                return Err(Error::InvalidPathPolicy);
            }
            i = i + 1;
        }
        proof {
            assert(bindings_wf(policies@));
        }
        if self.get_path(store, path).is_some() {
            return Err(Error::PathDuplicated { entered_path: path.to_owned() });
        }
        let authorized = claim.role == Role::Admin || check_ancestors(store, path, claim);
        if !authorized {
            return Err(Error::AccessDenied);
        }
        let row = PathRow {
            path: path.to_owned(),
            applied_policies: clone_bindings(policies),
            created_at: now,
            updated_at: now,
        };
        proof {
            assert forall|m: int| 0 <= m < row.applied_policies@.len() implies valid_expression(
                (#[trigger] row.applied_policies@[m]).expression@,
            ) by {
                assert(row.applied_policies@[m].expression@ == policies@[m].expression@);
            }
        }
        let ghost old_store = *store;
        store.paths.push(row);
        proof {
            assert(store.paths@.drop_last() =~= old_store.paths@);
            assert(store.paths@.last() == store.paths@[old_store.paths@.len() as int]);
            lemma_register_path_preserves_wf(&old_store, store, path@);
        }
        Ok(())
    }

    /// Looks a secret up by its identifier and authorizes the read: the
    /// claim must satisfy the secret's own bindings and the bindings along
    /// its path, unless it is an admin.
    pub fn get_secret(&self, store: &WorkspaceStore, key: &str, claim: &NebulaClaim) -> (r: Result<
        SecretData,
        Error,
    >)
        requires
            store.wf(),
        ensures
            match r {
                Ok(ref d) => exists|i: int|
                    0 <= i < store.secrets@.len() && (#[trigger] store.secrets@[i].key@) == key@
                        && read_allowed(store, &store.secrets@[i], claim) && d.id
                        == store.secrets@[i].id && d.key@ == key@ && d.path@
                        == store.secrets@[i].path@ && d.applied_policies@
                        == store.secrets@[i].applied_policies@,
                Err(Error::SecretNotExists) => !store.secret_key_present(key@),
                Err(Error::AccessDenied) => exists|i: int|
                    0 <= i < store.secrets@.len() && (#[trigger] store.secrets@[i].key@) == key@
                        && !read_allowed(store, &store.secrets@[i], claim),
                _ => false,
            },
    {
        let mut i: usize = 0;
        while i < store.secrets.len()
            invariant
                0 <= i <= store.secrets@.len(),
                store.wf(),
                forall|m: int| 0 <= m < i ==> (#[trigger] store.secrets@[m].key@) != key@,
            decreases store.secrets@.len() - i,
        {
            if str_eq(store.secrets[i].key.as_str(), key) {
                proof {
                    assert(store.path_present(store.secrets@[i as int].path@));
                    assert(bindings_wf(store.secrets@[i as int].applied_policies@));
                }
                let allowed = claim.role == Role::Admin || (check_bindings(
                    &store.secrets[i].applied_policies,
                    claim,
                ) && check_path_chain(store, store.secrets[i].path.as_str(), claim));
                if !allowed {
                    return Err(Error::AccessDenied);
                }
                return Ok(
                    SecretData {
                        id: store.secrets[i].id,
                        key: store.secrets[i].key.clone(),
                        path: store.secrets[i].path.clone(),
                        applied_policies: clone_bindings(&store.secrets[i].applied_policies),
                    },
                );
            }
            i = i + 1;
        }
        Err(Error::SecretNotExists)
    }

    /// Registers a secret at an existing path under a fresh identifier. A
    /// write needs the claim to satisfy the bindings along the target path,
    /// unless it is an admin. On success exactly one row is appended,
    /// timestamped `now`.
    pub fn register_secret(
        &self,
        store: &mut WorkspaceStore,
        id: u128,
        key: &str,
        path: &str,
        policies: &Vec<AppliedPolicy>,
        claim: &NebulaClaim,
        now: i64,
    ) -> (r: Result<(), Error>)
        requires
            old(store).wf(),
        ensures
            final(store).wf(),
            match r {
                Ok(()) => {
                    &&& valid_secret_key(key@)
                    &&& valid_path(path@)
                    &&& old(store).path_present(path@)
                    &&& bindings_wf(policies@)
                    &&& !old(store).secret_key_present(key@)
                    &&& (claim.role == Role::Admin || path_chain_allows(old(store), path@, claim))
                    &&& final(store).secrets@.len() == old(store).secrets@.len() + 1
                    &&& final(store).secrets@.drop_last() == old(store).secrets@
                    &&& final(store).secrets@.last().id == id
                    &&& final(store).secrets@.last().key@ == key@
                    &&& final(store).secrets@.last().path@ == path@
                    &&& final(store).secrets@.last().created_at == now
                    &&& final(store).secrets@.last().updated_at == now
                    &&& final(store).secrets@.last().applied_policies@ == policies@
                    &&& final(store).paths == old(store).paths
                    &&& final(store).policies == old(store).policies
                },
                Err(Error::InvalidSecretIdentifier { ref entered_identifier }) => {
                    &&& entered_identifier@ == key@
                    &&& !valid_secret_key(key@)
                    &&& *final(store) == *old(store)
                },
                Err(Error::InvalidPath { ref entered_path }) => entered_path@ == path@
                    && valid_secret_key(key@) && !valid_path(path@) && *final(store) == *old(store),
                Err(Error::ParentPathNotExists { ref entered_path }) => entered_path@ == path@
                    && valid_path(path@) && !old(store).path_present(path@) && *final(store) == *old(store),
                Err(Error::InvalidSecretPolicy) => old(store).path_present(path@) && !bindings_wf(
                    policies@,
                ) && *final(store) == *old(store),
                Err(Error::IdentifierConflicted { ref entered_identifier }) => {
                    &&& entered_identifier@ == key@
                    &&& old(store).secret_key_present(key@)
                    &&& bindings_wf(policies@)
                    &&& *final(store) == *old(store)
                },
                Err(Error::AccessDenied) => {
                    &&& !old(store).secret_key_present(key@)
                    &&& claim.role != Role::Admin
                    &&& !path_chain_allows(old(store), path@, claim)
                    &&& *final(store) == *old(store)
                },
                _ => false,
            },
    {
        if !is_valid_secret_key(key) {
            return Err(Error::InvalidSecretIdentifier { entered_identifier: key.to_owned() });
        }
        if !is_valid_path(path) {
            return Err(Error::InvalidPath { entered_path: path.to_owned() });
        }
        if self.get_path(store, path).is_none() {
            return Err(Error::ParentPathNotExists { entered_path: path.to_owned() });
        }
        let mut i: usize = 0;
        while i < policies.len()
            invariant
                0 <= i <= policies@.len(),
                forall|m: int|
                    0 <= m < i ==> valid_expression((#[trigger] policies@[m].expression@)),
                *store == *old(store),
                old(store).wf(),
                valid_secret_key(key@),
                valid_path(path@),
                old(store).path_present(path@),
            decreases policies@.len() - i,
        {
            if !is_valid_expression(policies[i].expression.as_str()) {
                proof {
                    assert(!valid_expression(policies@[i as int].expression@));
                    assert(!bindings_wf(policies@));
                }
                return Err(Error::InvalidSecretPolicy);
            }
            i = i + 1;
        }
        proof {
            assert(bindings_wf(policies@));
        }
        let mut j: usize = 0;
        while j < store.secrets.len()
            invariant
                0 <= j <= store.secrets@.len(),
                forall|m: int| 0 <= m < j ==> (#[trigger] store.secrets@[m].key@) != key@,
                *store == *old(store),
                old(store).wf(),
                valid_secret_key(key@),
                valid_path(path@),
                old(store).path_present(path@),
                bindings_wf(policies@),
            decreases store.secrets@.len() - j,
        {
            if str_eq(store.secrets[j].key.as_str(), key) {
                return Err(Error::IdentifierConflicted { entered_identifier: key.to_owned() });
            }
            j = j + 1;
        }
        let authorized = claim.role == Role::Admin || check_path_chain(store, path, claim);
        if !authorized {
            return Err(Error::AccessDenied);
        }
        let row = SecretRow {
            id,
            key: key.to_owned(),
            path: path.to_owned(),
            applied_policies: clone_bindings(policies),
            created_at: now,
            updated_at: now,
        };
        proof {
            assert forall|m: int| 0 <= m < row.applied_policies@.len() implies valid_expression(
                (#[trigger] row.applied_policies@[m]).expression@,
            ) by {
                assert(row.applied_policies@[m].expression@ == policies@[m].expression@);
            }
        }
        let ghost old_store = *store;
        store.secrets.push(row);
        proof {
            assert(store.secrets@.drop_last() =~= old_store.secrets@);
            assert(store.secrets@.last() == store.secrets@[old_store.secrets@.len() as int]);
            lemma_register_secret_preserves_wf(&old_store, store, key@, path@);
        }
        Ok(())
    }

    /// How many path rows lie strictly below `path`.
    pub fn count_child_paths(&self, store: &WorkspaceStore, path: &str) -> (r: usize)
        ensures
            r == spec_child_path_count(store.paths@, path@),
            (r == 0) == !store.has_child_path(path@),
    {
        let mut count: usize = 0;
        let mut i: usize = 0;
        while i < store.paths.len()
            invariant
                0 <= i <= store.paths@.len(),
                count <= i,
                count == spec_child_path_count(store.paths@.take(i as int), path@),
                (count == 0) == (forall|m: int|
                    0 <= m < i ==> !is_strict_descendant(
                        (#[trigger] store.paths@[m].path@),
                        path@,
                    )),
            decreases store.paths@.len() - i,
        {
            proof {
                assert(store.paths@.take(i + 1).drop_last() =~= store.paths@.take(i as int));
                assert(store.paths@.take(i + 1).last() == store.paths@[i as int]);
            }
            if is_descendant(store.paths[i].path.as_str(), path) {
                count = count + 1;
            }
            i = i + 1;
        }
        proof {
            assert(store.paths@.take(store.paths@.len() as int) =~= store.paths@);
        }
        count
    }

    /// How many secrets sit at `path` or strictly below it.
    pub fn count_child_secrets(&self, store: &WorkspaceStore, path: &str) -> (r: usize)
        ensures
            r == spec_child_secret_count(store.secrets@, path@),
            (r == 0) == !store.has_child_secret(path@),
    {
        let mut count: usize = 0;
        let mut i: usize = 0;
        while i < store.secrets.len()
            invariant
                0 <= i <= store.secrets@.len(),
                count <= i,
                count == spec_child_secret_count(store.secrets@.take(i as int), path@),
                (count == 0) == (forall|m: int|
                    0 <= m < i ==> !((#[trigger] store.secrets@[m].path@) == path@
                        || is_strict_descendant(store.secrets@[m].path@, path@))),
            decreases store.secrets@.len() - i,
        {
            proof {
                assert(store.secrets@.take(i + 1).drop_last() =~= store.secrets@.take(i as int));
                assert(store.secrets@.take(i + 1).last() == store.secrets@[i as int]);
            }
            let at_path = str_eq(store.secrets[i].path.as_str(), path);
            if at_path || is_descendant(store.secrets[i].path.as_str(), path) {
                count = count + 1;
            }
            i = i + 1;
        }
        proof {
            assert(store.secrets@.take(store.secrets@.len() as int) =~= store.secrets@);
        }
        count
    }
}

/// How many path rows of a table lie strictly below `p`.
pub open spec fn spec_child_path_count(rows: Seq<PathRow>, p: Seq<char>) -> nat
    decreases rows.len(),
{
    if rows.len() == 0 {
        0
    } else {
        spec_child_path_count(rows.drop_last(), p) + (if is_strict_descendant(
            rows.last().path@,
            p,
        ) {
            1nat
        } else {
            0nat
        })
    }
}

/// How many secret rows of a table sit at `p` or strictly below it.
pub open spec fn spec_child_secret_count(rows: Seq<SecretRow>, p: Seq<char>) -> nat
    decreases rows.len(),
{
    if rows.len() == 0 {
        0
    } else {
        spec_child_secret_count(rows.drop_last(), p) + (if rows.last().path@ == p
            || is_strict_descendant(rows.last().path@, p) {
            1nat
        } else {
            0nat
        })
    }
}

/// A row present before an append is present after it.
pub proof fn lemma_path_present_extends(pre: &WorkspaceStore, post: &WorkspaceStore, x: Seq<char>)
    requires
        post.paths@.len() == pre.paths@.len() + 1,
        post.paths@.drop_last() == pre.paths@,
        pre.path_present(x),
    ensures
        post.path_present(x),
{
    let k = choose|k: int| 0 <= k < pre.paths@.len() && (#[trigger] pre.paths@[k].path@) == x;
    assert(post.paths@.drop_last()[k] == pre.paths@[k]);
    assert(post.paths@[k].path@ == x);
}

/// Appending a fresh, valid path whose parent exists keeps the store well
/// formed.
pub proof fn lemma_register_path_preserves_wf(
    pre: &WorkspaceStore,
    post: &WorkspaceStore,
    p: Seq<char>,
)
    requires
        pre.wf(),
        post.paths@.len() == pre.paths@.len() + 1,
        post.paths@.drop_last() == pre.paths@,
        post.secrets == pre.secrets,
        post.policies == pre.policies,
        post.paths@.last().path@ == p,
        valid_path(p),
        bindings_wf(post.paths@.last().applied_policies@),
        !pre.path_present(p),
        p == root_path() || pre.path_present(spec_parent(p)),
    ensures
        post.wf(),
{
    let n = pre.paths@.len() as int;
    assert forall|i: int| 0 <= i < post.paths@.len() implies valid_path(
        #[trigger] post.paths@[i].path@,
    ) && bindings_wf(post.paths@[i].applied_policies@) by {
        if i < n {
            assert(post.paths@.drop_last()[i] == pre.paths@[i]);
            assert(pre.paths@[i] == post.paths@[i]);
        }
    }
    assert forall|i: int, j: int| 0 <= i < j < post.paths@.len() implies (
    #[trigger] post.paths@[i].path@) != (#[trigger] post.paths@[j].path@) by {
        if j < n {
            assert(post.paths@.drop_last()[i] == pre.paths@[i]);
            assert(post.paths@.drop_last()[j] == pre.paths@[j]);
            assert(post.paths@[i] == pre.paths@[i]);
            assert(post.paths@[j] == pre.paths@[j]);
            assert(pre.paths@[i].path@ != pre.paths@[j].path@);
        } else {
            assert(post.paths@.drop_last()[i] == pre.paths@[i]);
            assert(post.paths@[i] == pre.paths@[i]);
            if pre.paths@[i].path@ == p {
                assert(pre.path_present(p));
            }
        }
    }
    assert forall|i: int|
        0 <= i < post.paths@.len() && (#[trigger] post.paths@[i].path@)
            != root_path() implies post.path_present(spec_parent(post.paths@[i].path@)) by {
        if i < n {
            assert(post.paths@.drop_last()[i] == pre.paths@[i]);
            assert(pre.paths@[i] == post.paths@[i]);
            lemma_path_present_extends(pre, post, spec_parent(pre.paths@[i].path@));
        } else {
            lemma_path_present_extends(pre, post, spec_parent(p));
        }
    }
    assert forall|i: int| 0 <= i < post.secrets@.len() implies post.path_present(
        #[trigger] post.secrets@[i].path@,
    ) && bindings_wf(post.secrets@[i].applied_policies@) by {
        assert(pre.secrets@[i] == post.secrets@[i]);
        lemma_path_present_extends(pre, post, pre.secrets@[i].path@);
    }
    assert(post.secrets_wf());
    assert(post.policies_wf());
}

/// Appending a secret under a fresh identifier at an existing path keeps
/// the store well formed.
pub proof fn lemma_register_secret_preserves_wf(
    pre: &WorkspaceStore,
    post: &WorkspaceStore,
    k: Seq<char>,
    p: Seq<char>,
)
    requires
        pre.wf(),
        post.paths == pre.paths,
        post.policies == pre.policies,
        post.secrets@.len() == pre.secrets@.len() + 1,
        post.secrets@.drop_last() == pre.secrets@,
        post.secrets@.last().key@ == k,
        post.secrets@.last().path@ == p,
        bindings_wf(post.secrets@.last().applied_policies@),
        pre.path_present(p),
        !pre.secret_key_present(k),
    ensures
        post.wf(),
{
    let n = pre.secrets@.len() as int;
    assert forall|i: int| 0 <= i < post.secrets@.len() implies post.path_present(
        #[trigger] post.secrets@[i].path@,
    ) && bindings_wf(post.secrets@[i].applied_policies@) by {
        if i < n {
            assert(post.secrets@.drop_last()[i] == pre.secrets@[i]);
            assert(pre.secrets@[i] == post.secrets@[i]);
            let w = choose|w: int|
                0 <= w < pre.paths@.len() && (#[trigger] pre.paths@[w].path@)
                    == pre.secrets@[i].path@;
            assert(post.paths@[w].path@ == post.secrets@[i].path@);
        } else {
            let w = choose|w: int|
                0 <= w < pre.paths@.len() && (#[trigger] pre.paths@[w].path@) == p;
            assert(post.paths@[w].path@ == p);
        }
    }
    assert forall|i: int, j: int| 0 <= i < j < post.secrets@.len() implies (
    #[trigger] post.secrets@[i].key@) != (#[trigger] post.secrets@[j].key@) by {
        if j < n {
            assert(post.secrets@.drop_last()[i] == pre.secrets@[i]);
            assert(post.secrets@.drop_last()[j] == pre.secrets@[j]);
            assert(post.secrets@[i] == pre.secrets@[i]);
            assert(post.secrets@[j] == pre.secrets@[j]);
            assert(pre.secrets@[i].key@ != pre.secrets@[j].key@);
        } else {
            assert(post.secrets@.drop_last()[i] == pre.secrets@[i]);
            assert(post.secrets@[i] == pre.secrets@[i]);
            if pre.secrets@[i].key@ == k {
                assert(pre.secret_key_present(k));
            }
        }
    }
    assert(post.secrets_wf());
    assert forall|i: int| 0 <= i < post.paths@.len() && (#[trigger] post.paths@[i].path@)
        != root_path() implies post.path_present(spec_parent(post.paths@[i].path@)) by {
        assert(pre.paths@[i] == post.paths@[i]);
        let w = choose|w: int|
            0 <= w < pre.paths@.len() && (#[trigger] pre.paths@[w].path@) == spec_parent(
                pre.paths@[i].path@,
            );
        assert(post.paths@[w].path@ == spec_parent(post.paths@[i].path@));
    }
    assert(post.paths_wf());
    assert(post.policies_wf());
}

} // verus!
