//! The queue of workspace moves (after the workspace base directory
//! changed): one move at a time, a workspace waits while it has a running
//! session, and a finished move leaves the queue whatever its outcome.
//! The caller moves the files and updates the database.

use vstd::prelude::*;
use crate::paths::{join, workspace_dir};
use crate::text::same_text;

verus! {

/// A workspace waiting to be moved.
#[derive(Debug, Clone)]
pub struct PendingMigration {
    /// Workspace project id.
    pub id: String,
    /// Its current directory.
    pub old_path: String,
    /// Where it goes.
    pub new_path: String,
    /// It is waiting for its running sessions to end.
    pub waiting: bool,
}

/// The state of the move queue.
pub struct MigrationState {
    pub pending: Vec<PendingMigration>,
    /// Failed moves: (workspace id, error).
    pub errors: Vec<(String, String)>,
    /// A move is in progress.
    pub migrating: bool,
}

/// What to do next with the queue.
pub enum MigrationStep {
    /// Nothing: the queue is empty or a move is in progress.
    Idle,
    /// The first workspace still has a running session; `newly` when it was
    /// not marked as waiting before (the queue is to be saved).
    Waiting { newly: bool },
    /// Move this workspace now.
    Start { item: PendingMigration },
}

/// Abstract pending entry.
pub open spec fn pending_view(p: PendingMigration) -> (Seq<char>, Seq<char>, Seq<char>, bool) {
    (p.id@, p.old_path@, p.new_path@, p.waiting)
}

/// Abstract queue.
pub open spec fn queue_view(q: Seq<PendingMigration>) -> Seq<(Seq<char>, Seq<char>, Seq<char>, bool)> {
    q.map_values(|p: PendingMigration| pending_view(p))
}

/// The entries whose id is not `id`, in order.
pub open spec fn without_id(q: Seq<(Seq<char>, Seq<char>, Seq<char>, bool)>, id: Seq<char>) -> Seq<(Seq<char>, Seq<char>, Seq<char>, bool)>
    decreases q.len(),
{
    if q.len() == 0 {
        seq![]
    } else if q.last().0 == id {
        without_id(q.drop_last(), id)
    } else {
        without_id(q.drop_last(), id).push(q.last())
    }
}

fn copy_pending(p: &PendingMigration) -> (r: PendingMigration)
    ensures
        pending_view(r) == pending_view(*p),
{
    PendingMigration { id: p.id.clone(), old_path: p.old_path.clone(), new_path: p.new_path.clone(), waiting: p.waiting }
}

impl MigrationState {
    /// An empty queue.
    pub fn new() -> (r: Self)
        ensures
            r.pending@.len() == 0,
            r.errors@.len() == 0,
            !r.migrating,
    {
        MigrationState { pending: Vec::new(), errors: Vec::new(), migrating: false }
    }

    /// Takes the next step: nothing while a move runs or the queue is
    /// empty; the first workspace waits while `head_active` (it has a
    /// running session); otherwise it is moved now and the queue is marked
    /// busy.
    pub fn begin_next(&mut self, head_active: bool) -> (r: MigrationStep)
        ensures
            final(self).errors == old(self).errors,
            old(self).migrating || old(self).pending@.len() == 0 ==> {
                &&& r is Idle
                &&& final(self).migrating == old(self).migrating
                &&& queue_view(final(self).pending@) == queue_view(old(self).pending@)
            },
            !old(self).migrating && old(self).pending@.len() > 0 && head_active ==> {
                let h = pending_view(old(self).pending@[0]);
                &&& r == MigrationStep::Waiting { newly: !h.3 }
                &&& !final(self).migrating
                &&& queue_view(final(self).pending@) == queue_view(old(self).pending@).update(0, (h.0, h.1, h.2, true))
            },
            !old(self).migrating && old(self).pending@.len() > 0 && !head_active ==> {
                &&& r matches MigrationStep::Start { item } && pending_view(item) == pending_view(old(self).pending@[0])
                &&& final(self).migrating
                &&& queue_view(final(self).pending@) == queue_view(old(self).pending@)
            },
    {
        if self.migrating || self.pending.len() == 0 {
            return MigrationStep::Idle;
        }
        if head_active {
            let newly = !self.pending[0].waiting;
            if newly {
                let ghost before = queue_view(self.pending@);
                self.pending[0].waiting = true;
                assert(queue_view(self.pending@) =~= before.update(0, (before[0].0, before[0].1, before[0].2, true)));
            } else {
                assert(queue_view(self.pending@) =~= queue_view(old(self).pending@).update(
                    0,
                    (
                        pending_view(old(self).pending@[0]).0,
                        pending_view(old(self).pending@[0]).1,
                        pending_view(old(self).pending@[0]).2,
                        true,
                    ),
                ));
            }
            return MigrationStep::Waiting { newly };
        }
        let item = copy_pending(&self.pending[0]);
        self.migrating = true;
        MigrationStep::Start { item }
    }

    /// Ends the move of workspace `id`: the queue is free again, a failure
    /// is recorded, and the workspace leaves the queue either way.
    pub fn finish(&mut self, id: &str, error: Option<String>)
        ensures
            !final(self).migrating,
            queue_view(final(self).pending@) == without_id(queue_view(old(self).pending@), id@),
            match error {
                Some(e) => final(self).errors@.len() == old(self).errors@.len() + 1
                    && final(self).errors@.last().0@ == id@ && final(self).errors@.last().1 == e
                    && final(self).errors@.drop_last() == old(self).errors@,
                None => final(self).errors == old(self).errors,
            },
    {
        self.migrating = false;
        match error {
            Some(e) => {
                self.errors.push((id.to_string(), e));
            },
            None => {},
        }
        let mut kept: Vec<PendingMigration> = Vec::new();
        let ghost q = queue_view(self.pending@);
        for k in 0..self.pending.len()
            invariant
                q == queue_view(self.pending@),
                queue_view(kept@) == without_id(q.subrange(0, k as int), id@),
        {
            assert(q.subrange(0, k + 1).drop_last() =~= q.subrange(0, k as int));
            assert(q.subrange(0, k + 1).last() == pending_view(self.pending@[k as int]));
            if !same_text(self.pending[k].id.as_str(), id) {
                let ghost before = queue_view(kept@);
                kept.push(copy_pending(&self.pending[k]));
                assert(queue_view(kept@) =~= before.push(pending_view(self.pending@[k as int])));
            }
        }
        assert(q.subrange(0, q.len() as int) =~= q);
        self.pending = kept;
    }

    /// Whether workspace `id` is queued (new sessions in it are refused
    /// meanwhile).
    pub fn is_pending(&self, id: &str) -> (r: bool)
        ensures
            r == exists|k: int| 0 <= k < self.pending@.len() && (#[trigger] self.pending@[k]).id@ == id@,
    {
        let mut k: usize = 0;
        while k < self.pending.len()
            invariant
                k <= self.pending@.len(),
                forall|j: int| 0 <= j < k ==> (#[trigger] self.pending@[j]).id@ != id@,
            decreases self.pending@.len() - k,
        {
            if same_text(self.pending[k].id.as_str(), id) {
                return true;
            }
            k = k + 1;
        }
        false
    }
}

/// The moves a new base directory calls for: each workspace project (id,
/// directory, is a workspace) whose directory is not
/// `<base>/workspaces/<id>` goes there, in the order given.
pub open spec fn moves_for(base: Seq<char>, projects: Seq<(String, String, bool)>) -> Seq<(Seq<char>, Seq<char>, Seq<char>, bool)>
    decreases projects.len(),
{
    if projects.len() == 0 {
        seq![]
    } else {
        let before = moves_for(base, projects.drop_last());
        let p = projects.last();
        let target = join(join(base, "workspaces"@), p.0@);
        if p.2 && p.1@ != target {
            before.push((p.0@, p.1@, target, false))
        } else {
            before
        }
    }
}

/// Every move a new base directory calls for takes a workspace project
/// somewhere else: to `<base>/workspaces/<id>`, away from where it is,
/// not yet waiting.
pub proof fn lemma_moves_go_elsewhere(base: Seq<char>, projects: Seq<(String, String, bool)>, k: int)
    requires
        0 <= k < moves_for(base, projects).len(),
    ensures
        ({
            let mv = moves_for(base, projects)[k];
            &&& mv.1 != mv.2
            &&& mv.2 == join(join(base, "workspaces"@), mv.0)
            &&& !mv.3
            &&& exists|j: int| 0 <= j < projects.len() && (#[trigger] projects[j]).2 && projects[j].0@ == mv.0
                && projects[j].1@ == mv.1
        }),
    decreases projects.len(),
{
    let before = moves_for(base, projects.drop_last());
    if k < before.len() {
        lemma_moves_go_elsewhere(base, projects.drop_last(), k);
        let mv = before[k];
        let j = choose|j: int| 0 <= j < projects.drop_last().len() && (#[trigger] projects.drop_last()[j]).2
            && projects.drop_last()[j].0@ == mv.0 && projects.drop_last()[j].1@ == mv.1;
        assert(projects[j] == projects.drop_last()[j]);
    } else {
        let j = projects.len() - 1;
        assert(projects[j] == projects.last());
    }
}

/// The move queue for a new base directory (see [`moves_for`]).
pub fn migration_queue(new_base: &str, projects: &[(String, String, bool)]) -> (r: Vec<PendingMigration>)
    ensures
        queue_view(r@) == moves_for(new_base@, projects@),
{
    let mut out: Vec<PendingMigration> = Vec::new();
    for k in 0..projects.len()
        invariant
            queue_view(out@) == moves_for(new_base@, projects@.subrange(0, k as int)),
    {
        assert(projects@.subrange(0, k + 1).drop_last() =~= projects@.subrange(0, k as int));
        assert(projects@.subrange(0, k + 1).last() == projects@[k as int]);
        let (id, cwd, is_workspace) = (&projects[k].0, &projects[k].1, projects[k].2);
        if is_workspace {
            let target = workspace_dir(new_base, id.as_str());
            if !same_text(cwd.as_str(), target.as_str()) {
                let ghost before = queue_view(out@);
                out.push(PendingMigration { id: id.clone(), old_path: cwd.clone(), new_path: target, waiting: false });
                assert(queue_view(out@) =~= before.push((id@, cwd@, target@, false)));
            }
        }
    }
    assert(projects@.subrange(0, projects@.len() as int) =~= projects@);
    out
}

impl MigrationState {
    /// The base directory may change only while no move is queued or running.
    pub fn accepts_base_change(&self) -> (r: bool)
        ensures
            r == (self.pending@.len() == 0 && !self.migrating),
    {
        self.pending.len() == 0 && !self.migrating
    }

    /// Starts over with a new queue: past errors are dropped.
    pub fn restart(&mut self, queue: Vec<PendingMigration>)
        ensures
            final(self).pending == queue,
            final(self).errors@.len() == 0,
            final(self).migrating == old(self).migrating,
    {
        self.pending = queue;
        self.errors = Vec::new();
    }
}

} // verus!
