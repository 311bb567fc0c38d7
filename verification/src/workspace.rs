//! Workspaces: tenant roots with validated, unique names.

use vstd::prelude::*;

use crate::path_text::str_eq;

verus! {

/// What a workspace operation can report.
#[derive(Debug)]
pub enum Error {
    WorkspaceNameConflicted,
    InvalidWorkspaceName,
    Anyhow(String),
}

/// A workspace name: a lower-case letter followed by up to 62 lower-case
/// letters, digits or underscores.
pub open spec fn valid_workspace_name(s: Seq<char>) -> bool {
    &&& 1 <= s.len() <= 63
    &&& 'a' <= s[0] <= 'z'
    &&& forall|i: int|
        1 <= i < s.len() ==> ('a' <= (#[trigger] s[i]) <= 'z' || '0' <= s[i] <= '9' || s[i] == '_')
}

/// Checks a workspace name against the naming rule.
pub fn is_valid_workspace_name(name: &str) -> (r: bool)
    ensures
        r == valid_workspace_name(name@),
{
    let n = name.unicode_len();
    if n == 0 || n > 63 {
        return false;
    }
    let c0 = name.get_char(0);
    if !('a' <= c0 && c0 <= 'z') {
        return false;
    }
    let mut i: usize = 1;
    while i < n
        invariant
            1 <= i <= n,
            n == name@.len(),
            forall|m: int|
                1 <= m < i ==> ('a' <= (#[trigger] name@[m]) <= 'z' || '0' <= name@[m] <= '9'
                    || name@[m] == '_'),
        decreases n - i,
    {
        let c = name.get_char(i);
        if !(('a' <= c && c <= 'z') || ('0' <= c && c <= '9') || c == '_') {
            return false;
        }
        i = i + 1;
    }
    true
}

/// One row of the control schema's workspace table.
pub struct WorkspaceRow {
    pub id: u128,
    pub name: String,
}

/// The control schema: the record of every workspace.
pub struct ControlStore {
    pub workspaces: Vec<WorkspaceRow>,
}

impl ControlStore {
    /// An empty control schema.
    pub fn new() -> (r: ControlStore)
        ensures
            r.workspaces@.len() == 0,
            r.wf(),
    {
        ControlStore { workspaces: Vec::new() }
    }

    /// Whether a workspace with this name is recorded.
    pub open spec fn name_present(&self, n: Seq<char>) -> bool {
        exists|i: int|
            0 <= i < self.workspaces@.len() && (#[trigger] self.workspaces@[i].name@) == n
    }

    /// Names are valid and pairwise distinct.
    pub open spec fn wf(&self) -> bool {
        &&& forall|i: int|
            0 <= i < self.workspaces@.len() ==> valid_workspace_name(
                (#[trigger] self.workspaces@[i].name@),
            )
        &&& forall|i: int, j: int|
            0 <= i < j < self.workspaces@.len() ==> (#[trigger] self.workspaces@[i].name@) != (
            #[trigger] self.workspaces@[j].name@)
    }
}

/// A workspace aggregate: loaded, possibly marked deleted, then persisted.
pub struct Workspace {
    pub id: u128,
    pub name: String,
    pub deleted: bool,
}

impl Workspace {
    /// A freshly loaded workspace.
    pub fn new(id: u128, name: String) -> (r: Workspace)
        ensures
            r.id == id,
            r.name@ == name@,
            !r.deleted,
    {
        Workspace { id, name, deleted: false }
    }

    /// Marks the workspace for deletion at the next persist.
    pub fn delete(&mut self)
        ensures
            final(self).id == old(self).id,
            final(self).name == old(self).name,
            final(self).deleted,
    {
        self.deleted = true;
    }

    /// Writes the aggregate back: a deleted workspace removes its row (a
    /// vanished row makes this a no-op); an undeleted one writes nothing.
    pub fn persist(self, control: &mut ControlStore) -> (r: Result<(), Error>)
        requires
            old(control).wf(),
        ensures
            final(control).wf(),
            r is Ok,
            !self.deleted ==> *final(control) == *old(control),
            self.deleted ==> (exists|k: int|
                0 <= k < old(control).workspaces@.len() && (#[trigger] old(
                    control,
                ).workspaces@[k].id) == self.id && final(control).workspaces@ == old(
                    control,
                ).workspaces@.remove(k)) || ((forall|k: int|
                0 <= k < old(control).workspaces@.len() ==> (#[trigger] old(
                    control,
                ).workspaces@[k].id) != self.id) && *final(control) == *old(control)),
    {
        if !self.deleted {
            return Ok(());
        }
        let ghost pre = *control;
        let mut k: usize = 0;
        while k < control.workspaces.len()
            invariant
                0 <= k <= control.workspaces@.len(),
                *control == pre,
                pre == *old(control),
                pre.wf(),
                self.deleted,
                forall|m: int| 0 <= m < k ==> (#[trigger] pre.workspaces@[m].id) != self.id,
            decreases control.workspaces@.len() - k,
        {
            if control.workspaces[k].id == self.id {
                let ghost old_rows = control.workspaces@;
                control.workspaces.remove(k);
                proof {
                    old_rows.remove_ensures(k as int);
                    lemma_control_remove_wf(&pre, control, k as int);
                }
                return Ok(());
            }
            k = k + 1;
        }
        Ok(())
    }
}

/// Removing one row keeps the control schema well formed.
proof fn lemma_control_remove_wf(pre: &ControlStore, post: &ControlStore, k: int)
    requires
        pre.wf(),
        0 <= k < pre.workspaces@.len(),
        post.workspaces@ == pre.workspaces@.remove(k),
    ensures
        post.wf(),
{
    pre.workspaces@.remove_ensures(k);
    assert forall|i: int| 0 <= i < post.workspaces@.len() implies valid_workspace_name(
        (#[trigger] post.workspaces@[i].name@),
    ) by {
        let i0 = if i < k {
            i
        } else {
            i + 1
        };
        assert(post.workspaces@[i] == pre.workspaces@[i0]);
        assert(valid_workspace_name(pre.workspaces@[i0].name@));
    }
    assert forall|i: int, j: int| 0 <= i < j < post.workspaces@.len() implies (
    #[trigger] post.workspaces@[i].name@) != (#[trigger] post.workspaces@[j].name@) by {
        let i0 = if i < k {
            i
        } else {
            i + 1
        };
        let j0 = if j < k {
            j
        } else {
            j + 1
        };
        assert(post.workspaces@[i] == pre.workspaces@[i0]);
        assert(post.workspaces@[j] == pre.workspaces@[j0]);
        assert(pre.workspaces@[i0].name@ != pre.workspaces@[j0].name@);
    }
}

/// Records a new workspace: the name must fit the naming rule and be free.
pub fn create_workspace(control: &mut ControlStore, name: &str, id: u128) -> (r: Result<(), Error>)
    requires
        old(control).wf(),
    ensures
        final(control).wf(),
        match r {
            Ok(()) => {
                &&& valid_workspace_name(name@)
                &&& !old(control).name_present(name@)
                &&& final(control).workspaces@.len() == old(control).workspaces@.len() + 1
                &&& final(control).workspaces@.drop_last() == old(control).workspaces@
                &&& final(control).workspaces@.last().name@ == name@
                &&& final(control).workspaces@.last().id == id
            },
            Err(Error::InvalidWorkspaceName) => !valid_workspace_name(name@) && *final(control)
                == *old(control),
            Err(Error::WorkspaceNameConflicted) => valid_workspace_name(name@) && old(
                control,
            ).name_present(name@) && *final(control) == *old(control),
            Err(_) => false,
        },
{
    if !is_valid_workspace_name(name) {
        return Err(Error::InvalidWorkspaceName);
    }
    let mut k: usize = 0;
    while k < control.workspaces.len()
        invariant
            0 <= k <= control.workspaces@.len(),
            *control == *old(control),
            old(control).wf(),
            valid_workspace_name(name@),
            forall|m: int| 0 <= m < k ==> (#[trigger] control.workspaces@[m].name@) != name@,
        decreases control.workspaces@.len() - k,
    {
        if str_eq(control.workspaces[k].name.as_str(), name) {
            return Err(Error::WorkspaceNameConflicted);
        }
        k = k + 1;
    }
    let ghost pre = *control;
    control.workspaces.push(WorkspaceRow { id, name: name.to_owned() });
    proof {
        assert(control.workspaces@.drop_last() =~= pre.workspaces@);
        assert forall|i: int| 0 <= i < control.workspaces@.len() implies valid_workspace_name(
            (#[trigger] control.workspaces@[i].name@),
        ) by {
            if i < pre.workspaces@.len() {
                assert(control.workspaces@.drop_last()[i] == pre.workspaces@[i]);
                assert(control.workspaces@[i] == pre.workspaces@[i]);
                assert(valid_workspace_name(pre.workspaces@[i].name@));
            }
        }
        assert forall|i: int, j: int| 0 <= i < j < control.workspaces@.len() implies (
        #[trigger] control.workspaces@[i].name@) != (#[trigger] control.workspaces@[j].name@) by {
            assert(control.workspaces@.drop_last()[i] == pre.workspaces@[i]);
            assert(control.workspaces@[i] == pre.workspaces@[i]);
            if j < pre.workspaces@.len() {
                assert(control.workspaces@.drop_last()[j] == pre.workspaces@[j]);
                assert(control.workspaces@[j] == pre.workspaces@[j]);
                assert(pre.workspaces@[i].name@ != pre.workspaces@[j].name@);
            } else {
                if pre.workspaces@[i].name@ == name@ {
                    assert(pre.name_present(name@));
                }
            }
        }
    }
    Ok(())
}

} // verus!
