//! Named access policies: registration, staged mutation, and persistence.
//!
//! An `AccessCondition` is loaded from a row, mutated in memory by staging
//! the changed fields, and written back by `persist`, which issues one
//! delete or one partial update and re-checks name uniqueness at that
//! point.

use vstd::prelude::*;
use vstd::assert_by_contradiction;

use crate::policy_lang::is_valid_expression;
use crate::policy_lang::valid_expression;
use crate::store::PolicyRow;
use crate::store::WorkspaceStore;

verus! {

/// What a policy operation can report.
#[derive(Debug)]
pub enum Error {
    InvalidExpression,
    PolicyNameDuplicated { entered_policy_name: String },
    Anyhow(String),
}

/// Where a staged name ends up: unchanged when the new name is already the
/// current or the staged one, staged otherwise.
pub open spec fn spec_stage_name(
    current: Seq<char>,
    staged: Option<Seq<char>>,
    n: Seq<char>,
) -> Option<Seq<char>> {
    if current == n || staged == Some(n) {
        staged
    } else {
        Some(n)
    }
}

/// The name a row carries after a persist: the staged one if any.
pub open spec fn spec_persisted_name(row_name: Seq<char>, staged: Option<Seq<char>>) -> Seq<char> {
    match staged {
        Some(n) => n,
        None => row_name,
    }
}

/// Staging the same name twice stages exactly what staging it once does.
pub proof fn lemma_update_name_idempotent(
    current: Seq<char>,
    staged: Option<Seq<char>>,
    n: Seq<char>,
)
    ensures
        spec_stage_name(current, spec_stage_name(current, staged, n), n) == spec_stage_name(
            current,
            staged,
            n,
        ),
{
}

/// After a persisted rename to `n`, a freshly loaded aggregate stages
/// nothing for `n`, so a second persist writes the same rows again.
pub proof fn lemma_persist_rename_settles(row_name: Seq<char>, staged: Option<Seq<char>>, n: Seq<char>)
    requires
        spec_persisted_name(row_name, spec_stage_name(row_name, staged, n)) == n,
    ensures
        spec_stage_name(n, None, n) == None::<Seq<char>>,
        spec_persisted_name(n, spec_stage_name(n, None, n)) == n,
{
}

/// The staged-name view of an optional string.
pub open spec fn staged_view(o: Option<String>) -> Option<Seq<char>> {
    match o {
        Some(s) => Some(s@),
        None => None,
    }
}

/// A named boolean access policy, with mutations staged until `persist`.
pub struct AccessCondition {
    pub id: u128,
    pub name: String,
    pub expression: String,
    pub updated_name: Option<String>,
    pub updated_expression: Option<String>,
    pub deleted: bool,
}

impl AccessCondition {
    /// A freshly loaded aggregate: nothing staged, not deleted.
    pub fn new(id: u128, name: String, expression: String) -> (r: AccessCondition)
        ensures
            r.id == id,
            r.name@ == name@,
            r.expression@ == expression@,
            r.updated_name is None,
            r.updated_expression is None,
            !r.deleted,
    {
        AccessCondition {
            id,
            name,
            expression,
            updated_name: None,
            updated_expression: None,
            deleted: false,
        }
    }

    /// The aggregate a row loads into.
    pub fn from_row(row: &PolicyRow) -> (r: AccessCondition)
        ensures
            r.id == row.id,
            r.name@ == row.name@,
            r.expression@ == row.expression@,
            r.updated_name is None,
            r.updated_expression is None,
            !r.deleted,
    {
        AccessCondition::new(row.id, row.name.clone(), row.expression.clone())
    }

    /// Stages a rename, unless the new name is already the current or the
    /// staged one.
    pub fn update_name(&mut self, new_name: &str)
        ensures
            final(self).id == old(self).id,
            final(self).name == old(self).name,
            final(self).expression == old(self).expression,
            final(self).updated_expression == old(self).updated_expression,
            final(self).deleted == old(self).deleted,
            staged_view(final(self).updated_name) == spec_stage_name(
                old(self).name@,
                staged_view(old(self).updated_name),
                new_name@,
            ),
    {
        let same_current = crate::path_text::str_eq(self.name.as_str(), new_name);
        let same_staged = match &self.updated_name {
            Some(n) => crate::path_text::str_eq(n.as_str(), new_name),
            None => false,
        };
        if same_current || same_staged {
            return ;
        }
        self.updated_name = Some(new_name.to_owned());
    }

    /// Stages a new expression after validating it, unless it is already
    /// the current or the staged one.
    pub fn update_expression(&mut self, new_expression: &str) -> (r: Result<(), Error>)
        ensures
            final(self).id == old(self).id,
            final(self).name == old(self).name,
            final(self).expression == old(self).expression,
            final(self).updated_name == old(self).updated_name,
            final(self).deleted == old(self).deleted,
            match r {
                Ok(()) => valid_expression(new_expression@) && staged_view(
                    final(self).updated_expression,
                ) == spec_stage_name(
                    old(self).expression@,
                    staged_view(old(self).updated_expression),
                    new_expression@,
                ),
                Err(Error::InvalidExpression) => !valid_expression(new_expression@) && *final(self)
                    == *old(self),
                Err(_) => false,
            },
    {
        if !is_valid_expression(new_expression) {
            return Err(Error::InvalidExpression);
        }
        let same_current = crate::path_text::str_eq(self.expression.as_str(), new_expression);
        let same_staged = match &self.updated_expression {
            Some(e) => crate::path_text::str_eq(e.as_str(), new_expression),
            None => false,
        };
        if same_current || same_staged {
            return Ok(());
        }
        self.updated_expression = Some(new_expression.to_owned());
        Ok(())
    }

    /// Marks the aggregate for deletion at the next persist.
    pub fn delete(&mut self)
        ensures
            final(self).id == old(self).id,
            final(self).name == old(self).name,
            final(self).expression == old(self).expression,
            final(self).updated_name == old(self).updated_name,
            final(self).updated_expression == old(self).updated_expression,
            final(self).deleted,
    {
        self.deleted = true;
    }

    /// Writes the staged state back: a deleted aggregate removes its row; a
    /// staged rename is re-checked for uniqueness and then written together
    /// with a staged expression. A staged expression that does not parse is
    /// refused, mirroring the constraint the table itself enforces; the
    /// staging methods never produce one. A vanished row makes the write a
    /// no-op, as an update by id would.
    pub fn persist(self, store: &mut WorkspaceStore) -> (r: Result<(), Error>)
        requires
            old(store).wf(),
        ensures
            final(store).wf(),
            final(store).paths == old(store).paths,
            final(store).secrets == old(store).secrets,
            match r {
                Ok(()) => {
                    if self.deleted {
                        match find_policy_from(old(store).policies@, self.id, 0) {
                            Some(k) => final(store).policies@ == old(store).policies@.remove(k),
                            None => final(store).policies == old(store).policies,
                        }
                    } else {
                        &&& (match self.updated_name {
                            Some(ref n) => !old(store).policy_name_present(n@),
                            None => true,
                        })
                        &&& (match self.updated_expression {
                            Some(ref e) => valid_expression(e@),
                            None => true,
                        })
                        &&& (match find_policy_from(old(store).policies@, self.id, 0) {
                            Some(k) => {
                                &&& final(store).policies@.len() == old(store).policies@.len()
                                &&& final(store).policies@[k].id == old(store).policies@[k].id
                                &&& final(store).policies@[k].name@ == spec_persisted_name(
                                    old(store).policies@[k].name@,
                                    staged_view(self.updated_name),
                                )
                                &&& final(store).policies@[k].expression@ == spec_persisted_name(
                                    old(store).policies@[k].expression@,
                                    staged_view(self.updated_expression),
                                )
                                &&& final(store).policies@[k].created_at == old(
                                    store,
                                ).policies@[k].created_at
                                &&& final(store).policies@[k].updated_at == old(
                                    store,
                                ).policies@[k].updated_at
                                &&& (forall|i: int|
                                    0 <= i < old(store).policies@.len() && i != k ==> (
                                    #[trigger] final(store).policies@[i]) == old(
                                        store,
                                    ).policies@[i])
                            },
                            None => final(store).policies == old(store).policies,
                        })
                    }
                },
                Err(Error::InvalidExpression) => !self.deleted && (match self.updated_expression {
                    Some(ref e) => !valid_expression(e@),
                    None => false,
                }) && *final(store) == *old(store),
                Err(Error::PolicyNameDuplicated { ref entered_policy_name }) => !self.deleted && (
                match self.updated_name {
                    Some(ref n) => entered_policy_name@ == n@ && old(store).policy_name_present(
                        n@,
                    ),
                    None => false,
                }) && *final(store) == *old(store),
                Err(_) => false,
            },
    {
        let ghost pre = *store;
        if self.deleted {
            let mut k: usize = 0;
            while k < store.policies.len()
                invariant
                    0 <= k <= store.policies@.len(),
                    *store == pre,
                    pre == *old(store),
                    pre.wf(),
                    self.deleted,
                    forall|m: int| 0 <= m < k ==> (#[trigger] pre.policies@[m].id) != self.id,
                decreases store.policies@.len() - k,
            {
                if store.policies[k].id == self.id {
                    proof {
                        lemma_find_policy_frontier(pre.policies@, self.id, k as int);
                    }
                    let ghost old_policies = store.policies@;
                    store.policies.remove(k);
                    proof {
                        old_policies.remove_ensures(k as int);
                        lemma_policy_remove_preserves_wf(&pre, store, k as int);
                    }
                    return Ok(());
                }
                k = k + 1;
            }
            proof {
                lemma_find_policy_frontier(pre.policies@, self.id, k as int);
            }
            return Ok(());
        }
        if let Some(e) = &self.updated_expression {
            if !is_valid_expression(e.as_str()) {
                return Err(Error::InvalidExpression);
            }
        }
        if let Some(n) = &self.updated_name {
            let mut k: usize = 0;
            while k < store.policies.len()
                invariant
                    0 <= k <= store.policies@.len(),
                    *store == pre,
                    pre == *old(store),
                    pre.wf(),
                    !self.deleted,
                    self.updated_name == Some(*n),
                    forall|m: int| 0 <= m < k ==> (#[trigger] pre.policies@[m].name@) != n@,
                decreases store.policies@.len() - k,
            {
                if crate::path_text::str_eq(store.policies[k].name.as_str(), n.as_str()) {
                    proof {
                        assert(pre.policy_name_present(n@));
                    }
                    return Err(
                        Error::PolicyNameDuplicated { entered_policy_name: n.as_str().to_owned() },
                    );
                }
                k = k + 1;
            }
            proof {
                assert_by_contradiction!(!pre.policy_name_present(n@), {
                    let w = choose|w: int|
                        0 <= w < pre.policies@.len() && (#[trigger] pre.policies@[w].name@) == n@;
                    assert(pre.policies@[w].name@ != n@);
                });
            }
        }
        let mut k: usize = 0;
        while k < store.policies.len()
            invariant
                0 <= k <= store.policies@.len(),
                *store == pre,
                pre == *old(store),
                pre.wf(),
                !self.deleted,
                match self.updated_name {
                    Some(ref n) => !pre.policy_name_present(n@),
                    None => true,
                },
                match self.updated_expression {
                    Some(ref e) => valid_expression(e@),
                    None => true,
                },
                forall|m: int| 0 <= m < k ==> (#[trigger] pre.policies@[m].id) != self.id,
            decreases store.policies@.len() - k,
        {
            if store.policies[k].id == self.id {
                proof {
                    lemma_find_policy_frontier(pre.policies@, self.id, k as int);
                }
                let row = &store.policies[k];
                let new_row = PolicyRow {
                    id: row.id,
                    name: match &self.updated_name {
                        Some(n) => n.clone(),
                        None => row.name.clone(),
                    },
                    expression: match &self.updated_expression {
                        Some(e) => e.clone(),
                        None => row.expression.clone(),
                    },
                    created_at: row.created_at,
                    updated_at: row.updated_at,
                };
                let ghost old_policies = store.policies@;
                store.policies.set(k, new_row);
                proof {
                    assert forall|i: int, j: int|
                        0 <= i < j < store.policies@.len() implies (
                    #[trigger] store.policies@[i].name@) != (
                    #[trigger] store.policies@[j].name@) by {
                        if i != k as int && j != k as int {
                            assert(store.policies@[i] == pre.policies@[i]);
                            assert(store.policies@[j] == pre.policies@[j]);
                            assert(pre.policies@[i].name@ != pre.policies@[j].name@);
                        } else if i == k as int {
                            assert(store.policies@[j] == pre.policies@[j]);
                            if self.updated_name is Some {
                                assert(pre.policy_name_present(pre.policies@[j].name@));
                            } else {
                                assert(pre.policies@[i].name@ != pre.policies@[j].name@);
                            }
                        } else {
                            assert(store.policies@[i] == pre.policies@[i]);
                            if self.updated_name is Some {
                                assert(pre.policy_name_present(pre.policies@[i].name@));
                            } else {
                                assert(pre.policies@[i].name@ != pre.policies@[j].name@);
                            }
                        }
                    }
                    assert forall|i: int| 0 <= i < store.policies@.len() implies valid_expression(
                        (#[trigger] store.policies@[i].expression@),
                    ) by {
                        if i != k as int {
                            assert(store.policies@[i] == pre.policies@[i]);
                        }
                        assert(valid_expression(pre.policies@[i].expression@));
                    }
                    lemma_policy_table_change_preserves_wf(&pre, store);
                }
                return Ok(());
            }
            k = k + 1;
        }
        proof {
            lemma_find_policy_frontier(pre.policies@, self.id, k as int);
        }
        Ok(())
    }
}

/// The first row with the given id, scanning from `pos`.
pub open spec fn find_policy_from(ps: Seq<PolicyRow>, id: u128, pos: int) -> Option<int>
    decreases ps.len() - pos,
{
    if pos < 0 || pos >= ps.len() {
        None
    } else if ps[pos].id == id {
        Some(pos)
    } else {
        find_policy_from(ps, id, pos + 1)
    }
}

/// A scan that saw no matching id up to a frontier pins the first match.
pub proof fn lemma_find_policy_frontier(ps: Seq<PolicyRow>, id: u128, k: int)
    requires
        0 <= k <= ps.len(),
        forall|m: int| 0 <= m < k ==> (#[trigger] ps[m].id) != id,
    ensures
        find_policy_from(ps, id, 0) == (if k < ps.len() && ps[k].id == id {
            Some(k)
        } else {
            find_policy_from(ps, id, k)
        }),
    decreases k,
{
    if k > 0 {
        lemma_find_policy_frontier_step(ps, id, 0, k);
    }
}

/// Helper induction for the frontier lemma.
proof fn lemma_find_policy_frontier_step(ps: Seq<PolicyRow>, id: u128, i: int, k: int)
    requires
        0 <= i <= k <= ps.len(),
        forall|m: int| 0 <= m < k ==> (#[trigger] ps[m].id) != id,
    ensures
        find_policy_from(ps, id, i) == (if k < ps.len() && ps[k].id == id {
            Some(k)
        } else {
            find_policy_from(ps, id, k)
        }),
    decreases k - i,
{
    if i < k {
        lemma_find_policy_frontier_step(ps, id, i + 1, k);
    }
}

/// A change confined to the policy table that keeps names unique and
/// expressions parseable keeps the store well formed.
pub proof fn lemma_policy_table_change_preserves_wf(pre: &WorkspaceStore, post: &WorkspaceStore)
    requires
        pre.wf(),
        post.paths == pre.paths,
        post.secrets == pre.secrets,
        forall|i: int|
            0 <= i < post.policies@.len() ==> valid_expression(
                (#[trigger] post.policies@[i].expression@),
            ),
        forall|i: int, j: int|
            0 <= i < j < post.policies@.len() ==> (#[trigger] post.policies@[i].name@) != (
            #[trigger] post.policies@[j].name@),
    ensures
        post.wf(),
{
    assert(post.policies_wf());
    assert forall|i: int| 0 <= i < post.paths@.len() && (#[trigger] post.paths@[i].path@)
        != crate::path_text::root_path() implies post.path_present(
        crate::path_text::spec_parent(post.paths@[i].path@),
    ) by {
        assert(pre.paths@[i] == post.paths@[i]);
        let w = choose|w: int|
            0 <= w < pre.paths@.len() && (#[trigger] pre.paths@[w].path@)
                == crate::path_text::spec_parent(pre.paths@[i].path@);
        assert(post.paths@[w].path@ == crate::path_text::spec_parent(post.paths@[i].path@));
    }
    assert(post.paths_wf());
    assert forall|i: int| 0 <= i < post.secrets@.len() implies post.path_present(
        #[trigger] post.secrets@[i].path@,
    ) by {
        let w = choose|w: int|
            0 <= w < pre.paths@.len() && (#[trigger] pre.paths@[w].path@)
                == pre.secrets@[i].path@;
        assert(post.paths@[w].path@ == post.secrets@[i].path@);
    }
    assert(post.secrets_wf());
}

/// The policy table's removal keeps the store well formed: names that were
/// unique stay unique.
pub proof fn lemma_policy_remove_preserves_wf(pre: &WorkspaceStore, post: &WorkspaceStore, k: int)
    requires
        pre.wf(),
        post.paths == pre.paths,
        post.secrets == pre.secrets,
        0 <= k < pre.policies@.len(),
        post.policies@ == pre.policies@.remove(k),
    ensures
        post.wf(),
{
    pre.policies@.remove_ensures(k);
    assert forall|i: int| 0 <= i < post.policies@.len() implies valid_expression(
        (#[trigger] post.policies@[i].expression@),
    ) by {
        if i < k {
            assert(post.policies@[i] == pre.policies@[i]);
        } else {
            assert(post.policies@[i] == pre.policies@[i + 1]);
        }
        assert(valid_expression(pre.policies@[if i < k {
            i
        } else {
            i + 1
        }].expression@));
    }
    assert forall|i: int, j: int| 0 <= i < j < post.policies@.len() implies (
    #[trigger] post.policies@[i].name@) != (#[trigger] post.policies@[j].name@) by {
        let i0 = if i < k {
            i
        } else {
            i + 1
        };
        let j0 = if j < k {
            j
        } else {
            j + 1
        };
        assert(post.policies@[i] == pre.policies@[i0]);
        assert(post.policies@[j] == pre.policies@[j0]);
        assert(pre.policies@[i0].name@ != pre.policies@[j0].name@);
    }
    lemma_policy_table_change_preserves_wf(pre, post);
}

/// Checks that a policy expression parses.
pub fn validate_expression(expression: &str) -> (r: Result<(), Error>)
    ensures
        match r {
            Ok(()) => valid_expression(expression@),
            Err(Error::InvalidExpression) => !valid_expression(expression@),
            Err(_) => false,
        },
{
    if is_valid_expression(expression) {
        Ok(())
    } else {
        Err(Error::InvalidExpression)
    }
}

/// Fails exactly when a policy row already carries the name.
pub fn ensure_policy_name_not_duplicated(store: &WorkspaceStore, policy_name: &str) -> (r: Result<
    (),
    Error,
>)
    ensures
        match r {
            Ok(()) => !store.policy_name_present(policy_name@),
            Err(Error::PolicyNameDuplicated { ref entered_policy_name }) => entered_policy_name@
                == policy_name@ && store.policy_name_present(policy_name@),
            Err(_) => false,
        },
{
    let mut k: usize = 0;
    while k < store.policies.len()
        invariant
            0 <= k <= store.policies@.len(),
            forall|m: int| 0 <= m < k ==> (#[trigger] store.policies@[m].name@) != policy_name@,
        decreases store.policies@.len() - k,
    {
        if crate::path_text::str_eq(store.policies[k].name.as_str(), policy_name) {
            return Err(
                Error::PolicyNameDuplicated { entered_policy_name: policy_name.to_owned() },
            );
        }
        k = k + 1;
    }
    Ok(())
}

/// The database-backed policy service: listing, lookup by id, and
/// registration under a fresh unique name.
pub struct PostgresPolicyService {}

impl PostgresPolicyService {
    /// Every policy in the workspace, as freshly loaded aggregates.
    pub fn list(&self, store: &WorkspaceStore) -> (r: Result<Vec<AccessCondition>, Error>)
        ensures
            match r {
                Ok(ref v) => v@.len() == store.policies@.len() && forall|i: int|
                    0 <= i < v@.len() ==> (#[trigger] v@[i].id) == store.policies@[i].id
                        && v@[i].name@ == store.policies@[i].name@ && v@[i].expression@
                        == store.policies@[i].expression@ && v@[i].updated_name is None
                        && v@[i].updated_expression is None && !v@[i].deleted,
                Err(_) => false,
            },
    {
        let mut v: Vec<AccessCondition> = Vec::new();
        let mut k: usize = 0;
        while k < store.policies.len()
            invariant
                0 <= k <= store.policies@.len(),
                v@.len() == k,
                forall|i: int|
                    0 <= i < k ==> (#[trigger] v@[i].id) == store.policies@[i].id && v@[i].name@
                        == store.policies@[i].name@ && v@[i].expression@
                        == store.policies@[i].expression@ && v@[i].updated_name is None
                        && v@[i].updated_expression is None && !v@[i].deleted,
            decreases store.policies@.len() - k,
        {
            v.push(AccessCondition::from_row(&store.policies[k]));
            k = k + 1;
        }
        Ok(v)
    }

    /// The first policy with the given id, when one exists.
    pub fn get(&self, store: &WorkspaceStore, id: u128) -> (r: Result<Option<AccessCondition>, Error>)
        ensures
            match r {
                Ok(Some(ref c)) => (match find_policy_from(store.policies@, id, 0) {
                    Some(k) => c.id == id && c.name@ == store.policies@[k].name@ && c.expression@
                        == store.policies@[k].expression@ && c.updated_name is None
                        && c.updated_expression is None && !c.deleted,
                    None => false,
                }),
                Ok(None) => find_policy_from(store.policies@, id, 0) is None,
                Err(_) => false,
            },
    {
        let mut k: usize = 0;
        while k < store.policies.len()
            invariant
                0 <= k <= store.policies@.len(),
                forall|m: int| 0 <= m < k ==> (#[trigger] store.policies@[m].id) != id,
            decreases store.policies@.len() - k,
        {
            if store.policies[k].id == id {
                proof {
                    lemma_find_policy_frontier(store.policies@, id, k as int);
                }
                return Ok(Some(AccessCondition::from_row(&store.policies[k])));
            }
            k = k + 1;
        }
        proof {
            lemma_find_policy_frontier(store.policies@, id, k as int);
        }
        Ok(None)
    }

    /// Registers a policy: the expression must parse and the name must be
    /// fresh; exactly one row is appended, timestamped `now`.
    pub fn register(
        &self,
        store: &mut WorkspaceStore,
        name: &str,
        expression: &str,
        id: u128,
        now: i64,
    ) -> (r: Result<(), Error>)
        requires
            old(store).wf(),
        ensures
            final(store).wf(),
            final(store).paths == old(store).paths,
            final(store).secrets == old(store).secrets,
            match r {
                Ok(()) => {
                    &&& valid_expression(expression@)
                    &&& !old(store).policy_name_present(name@)
                    &&& final(store).policies@.len() == old(store).policies@.len() + 1
                    &&& final(store).policies@.drop_last() == old(store).policies@
                    &&& final(store).policies@.last().id == id
                    &&& final(store).policies@.last().name@ == name@
                    &&& final(store).policies@.last().expression@ == expression@
                    &&& final(store).policies@.last().created_at == now
                    &&& final(store).policies@.last().updated_at == now
                },
                Err(Error::InvalidExpression) => !valid_expression(expression@) && *final(store)
                    == *old(store),
                Err(Error::PolicyNameDuplicated { ref entered_policy_name }) => entered_policy_name@
                    == name@ && valid_expression(expression@) && old(store).policy_name_present(
                    name@,
                ) && *final(store) == *old(store),
                Err(_) => false,
            },
    {
        match validate_expression(expression) {
            Ok(()) => {},
            Err(e) => {
                return Err(e);
            },
        }
        match ensure_policy_name_not_duplicated(store, name) {
            Ok(()) => {},
            Err(e) => {
                return Err(e);
            },
        }
        let ghost pre = *store;
        store.policies.push(
            PolicyRow {
                id,
                name: name.to_owned(),
                expression: expression.to_owned(),
                created_at: now,
                updated_at: now,
            },
        );
        proof {
            assert(store.policies@.drop_last() =~= pre.policies@);
            assert forall|i: int, j: int| 0 <= i < j < store.policies@.len() implies (
            #[trigger] store.policies@[i].name@) != (#[trigger] store.policies@[j].name@) by {
                assert(store.policies@.drop_last()[i] == pre.policies@[i]);
                assert(store.policies@[i] == pre.policies@[i]);
                if j < pre.policies@.len() {
                    assert(store.policies@.drop_last()[j] == pre.policies@[j]);
                    assert(store.policies@[j] == pre.policies@[j]);
                    assert(pre.policies@[i].name@ != pre.policies@[j].name@);
                } else {
                    if pre.policies@[i].name@ == name@ {
                        assert(pre.policy_name_present(name@));
                    }
                }
            }
            assert forall|i: int| 0 <= i < store.policies@.len() implies valid_expression(
                (#[trigger] store.policies@[i].expression@),
            ) by {
                if i < pre.policies@.len() {
                    assert(store.policies@.drop_last()[i] == pre.policies@[i]);
                    assert(store.policies@[i] == pre.policies@[i]);
                    assert(valid_expression(pre.policies@[i].expression@));
                }
            }
            lemma_policy_table_change_preserves_wf(&pre, store);
        }
        Ok(())
    }
}

} // verus!
