//! The rows of one workspace schema, and the invariants every operation
//! preserves: paths form a tree closed under parents, path and policy names
//! are unique, and every secret sits at an existing path.

use vstd::prelude::*;

use crate::path_text::is_strict_descendant;
use crate::path_text::spec_parent;
use crate::path_text::root_path;
use crate::path_text::valid_path;
use crate::policy_lang::valid_expression;

verus! {

/// A policy bound to a path or a secret. The binding carries the policy's
/// id and its expression, so that access decisions read the binding alone.
pub struct AppliedPolicy {
    pub policy_id: u128,
    pub expression: String,
}

impl Clone for AppliedPolicy {
    fn clone(&self) -> (r: Self)
        ensures
            r == *self,
    {
        AppliedPolicy { policy_id: self.policy_id, expression: self.expression.clone() }
    }
}

/// One row of the path table.
pub struct PathRow {
    pub path: String,
    pub applied_policies: Vec<AppliedPolicy>,
    pub created_at: i64,
    pub updated_at: i64,
}

/// One row of the secret metadata table. `key` is the identifier a secret
/// is addressed by; `path` is the tree node it hangs from.
pub struct SecretRow {
    pub id: u128,
    pub key: String,
    pub path: String,
    pub applied_policies: Vec<AppliedPolicy>,
    pub created_at: i64,
    pub updated_at: i64,
}

/// One row of the policy table.
pub struct PolicyRow {
    pub id: u128,
    pub name: String,
    pub expression: String,
    pub created_at: i64,
    pub updated_at: i64,
}

/// The workspace-scoped tables, as one in-memory value. An operation on it
/// stands for the statements one scoped transaction would issue.
pub struct WorkspaceStore {
    pub paths: Vec<PathRow>,
    pub secrets: Vec<SecretRow>,
    pub policies: Vec<PolicyRow>,
}

/// Every expression in a list of bindings parses.
pub open spec fn bindings_wf(ps: Seq<AppliedPolicy>) -> bool {
    forall|i: int| 0 <= i < ps.len() ==> valid_expression(#[trigger] ps[i].expression@)
}

impl WorkspaceStore {
    /// A fresh workspace: three empty tables.
    pub fn new() -> (r: WorkspaceStore)
        ensures
            r.paths@.len() == 0,
            r.secrets@.len() == 0,
            r.policies@.len() == 0,
            r.wf(),
    {
        WorkspaceStore { paths: Vec::new(), secrets: Vec::new(), policies: Vec::new() }
    }

    /// Whether a row for `p` exists in the path table.
    pub open spec fn path_present(&self, p: Seq<char>) -> bool {
        exists|i: int| 0 <= i < self.paths@.len() && (#[trigger] self.paths@[i].path@) == p
    }

    /// Whether a policy row with name `n` exists.
    pub open spec fn policy_name_present(&self, n: Seq<char>) -> bool {
        exists|i: int| 0 <= i < self.policies@.len() && (#[trigger] self.policies@[i].name@) == n
    }

    /// Whether a secret row with identifier `k` exists.
    pub open spec fn secret_key_present(&self, k: Seq<char>) -> bool {
        exists|i: int| 0 <= i < self.secrets@.len() && (#[trigger] self.secrets@[i].key@) == k
    }

    /// Whether some path row lies strictly below `p`.
    pub open spec fn has_child_path(&self, p: Seq<char>) -> bool {
        exists|i: int|
            0 <= i < self.paths@.len() && is_strict_descendant(
                (#[trigger] self.paths@[i].path@),
                p,
            )
    }

    /// Whether some secret sits at `p` or strictly below it.
    pub open spec fn has_child_secret(&self, p: Seq<char>) -> bool {
        exists|i: int|
            0 <= i < self.secrets@.len() && ((#[trigger] self.secrets@[i].path@) == p
                || is_strict_descendant(self.secrets@[i].path@, p))
    }

    /// The path table is well formed: rows hold valid, pairwise distinct
    /// paths with parseable policy bindings, and the table is closed under
    /// parents.
    pub open spec fn paths_wf(&self) -> bool {
        &&& forall|i: int|
            0 <= i < self.paths@.len() ==> valid_path(#[trigger] self.paths@[i].path@)
                && bindings_wf(self.paths@[i].applied_policies@)
        &&& forall|i: int, j: int|
            0 <= i < j < self.paths@.len() ==> (#[trigger] self.paths@[i].path@) != (
            #[trigger] self.paths@[j].path@)
        &&& forall|i: int|
            0 <= i < self.paths@.len() && (#[trigger] self.paths@[i].path@) != root_path()
                ==> self.path_present(spec_parent(self.paths@[i].path@))
    }

    /// The secret table is well formed: every secret sits at an existing
    /// path, identifiers are pairwise distinct, and bindings parse.
    pub open spec fn secrets_wf(&self) -> bool {
        &&& forall|i: int|
            0 <= i < self.secrets@.len() ==> self.path_present(#[trigger] self.secrets@[i].path@)
                && bindings_wf(self.secrets@[i].applied_policies@)
        &&& forall|i: int, j: int|
            0 <= i < j < self.secrets@.len() ==> (#[trigger] self.secrets@[i].key@) != (
            #[trigger] self.secrets@[j].key@)
    }

    /// The policy table is well formed: names are pairwise distinct and
    /// every stored expression parses.
    pub open spec fn policies_wf(&self) -> bool {
        &&& forall|i: int|
            0 <= i < self.policies@.len() ==> valid_expression(
                #[trigger] self.policies@[i].expression@,
            )
        &&& forall|i: int, j: int|
            0 <= i < j < self.policies@.len() ==> (#[trigger] self.policies@[i].name@) != (
            #[trigger] self.policies@[j].name@)
    }

    /// All tables are well formed.
    pub open spec fn wf(&self) -> bool {
        self.paths_wf() && self.secrets_wf() && self.policies_wf()
    }
}

/// Every path but the root has its parent in the table.
pub proof fn lemma_parent_row_exists(store: &WorkspaceStore, p: Seq<char>)
    requires
        store.wf(),
        store.path_present(p),
        p != root_path(),
    ensures
        store.path_present(spec_parent(p)),
{
    let i = choose|i: int| 0 <= i < store.paths@.len() && (#[trigger] store.paths@[i].path@) == p;
    assert(store.paths@[i].path@ == p);
}

/// Every secret's path has a row in the path table.
pub proof fn lemma_secret_path_exists(store: &WorkspaceStore, i: int)
    requires
        store.wf(),
        0 <= i < store.secrets@.len(),
    ensures
        store.path_present(store.secrets@[i].path@),
{
}

/// Policy names are unique: two rows with one name are one row.
pub proof fn lemma_policy_name_unique(store: &WorkspaceStore, i: int, j: int)
    requires
        store.wf(),
        0 <= i < store.policies@.len(),
        0 <= j < store.policies@.len(),
        store.policies@[i].name@ == store.policies@[j].name@,
    ensures
        i == j,
{
}

/// Paths are unique: two rows with one path are one row.
pub proof fn lemma_path_unique(store: &WorkspaceStore, i: int, j: int)
    requires
        store.wf(),
        0 <= i < store.paths@.len(),
        0 <= j < store.paths@.len(),
        store.paths@[i].path@ == store.paths@[j].path@,
    ensures
        i == j,
{
}

} // verus!
