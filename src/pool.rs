use vstd::prelude::*;

verus! {

/// What the orchestrator does after a fetch task ends.
#[derive(PartialEq, Eq, Structural, Clone, Copy, Debug)]
pub enum PoolAction {
    /// Start the task at this position of the install order.
    Launch(usize),
    /// Signal cancellation to every task still running.
    AbortAll,
    /// Wait for the next running task to end.
    Wait,
    /// No task runs and none will be started.
    Finished,
}

/// The scheduling state of the bounded pool of fetch tasks: tasks start in
/// the order of the install list, at most `max` at a time, and the first
/// failure stops all launching.
#[derive(PartialEq, Eq, Structural, Clone, Copy, Debug)]
pub struct FetchPool {
    pub max: usize,
    pub total: usize,
    /// Tasks started so far; they are the first `launched` of the list.
    pub launched: usize,
    pub running: usize,
    /// Tasks that ended in success.
    pub completed: usize,
    /// The first task that failed, if any.
    pub first_error: Option<usize>,
}

impl FetchPool {
    pub open spec fn wf(&self) -> bool {
        &&& self.running <= self.max
        &&& self.launched <= self.total
        &&& self.running + self.completed <= self.launched
        &&& self.first_error matches Some(i) ==> i < self.launched
    }

    pub open spec fn aborted(&self) -> bool {
        self.first_error is Some
    }

    /// A pool for `total` tasks, at most `max` of them at once.
    pub fn new(total: usize, max: usize) -> (r: FetchPool)
        ensures
            r.wf(),
            r == (FetchPool { max, total, launched: 0, running: 0, completed: 0, first_error: None }),
    {
        FetchPool { max, total, launched: 0, running: 0, completed: 0, first_error: None }
    }

    /// Starts the first tasks: as many as the bound allows. Returns how many;
    /// they are the first of the list.
    pub fn start(&mut self) -> (r: usize)
        requires
            old(self).wf(),
            old(self).launched == 0,
        ensures
            final(self).wf(),
            r == if old(self).max < old(self).total { old(self).max } else { old(self).total },
            *final(self) == (FetchPool { launched: r, running: r, ..*old(self) }),
    {
        let n = if self.max < self.total {
            self.max
        } else {
            self.total
        };
        self.launched = n;
        self.running = n;
        n
    }

    /// Records the end of the running task at position `index`, and says what
    /// to do next. A success starts the next task of the list, if any, unless
    /// the pool has aborted; the first failure aborts the pool.
    pub fn on_finish(&mut self, index: usize, ok: bool) -> (r: PoolAction)
        requires
            old(self).wf(),
            old(self).running > 0,
            index < old(self).launched,
        ensures
            final(self).wf(),
            (*final(self), r) == finish_step(*old(self), index, ok),
    {
        self.running = self.running - 1;
        if ok {
            self.completed = self.completed + 1;
        }
        if ok && self.first_error.is_none() && self.launched < self.total {
            let next = self.launched;
            self.launched = self.launched + 1;
            self.running = self.running + 1;
            PoolAction::Launch(next)
        } else if !ok && self.first_error.is_none() {
            self.first_error = Some(index);
            PoolAction::AbortAll
        } else if self.running == 0 {
            PoolAction::Finished
        } else {
            PoolAction::Wait
        }
    }
}

/// The next state and action of the pool when the task at `index` ends.
pub open spec fn finish_step(p: FetchPool, index: usize, ok: bool) -> (FetchPool, PoolAction) {
    let running = (p.running - 1) as usize;
    let completed = if ok { (p.completed + 1) as usize } else { p.completed };
    if ok && !p.aborted() && p.launched < p.total {
        (
            FetchPool { launched: (p.launched + 1) as usize, completed, ..p },
            PoolAction::Launch(p.launched),
        )
    } else if !ok && !p.aborted() {
        (FetchPool { running, completed, first_error: Some(index), ..p }, PoolAction::AbortAll)
    } else if running == 0 {
        (FetchPool { running, completed, ..p }, PoolAction::Finished)
    } else {
        (FetchPool { running, completed, ..p }, PoolAction::Wait)
    }
}

/// The pool after a sequence of task endings, each given by its position and
/// outcome; an ending that names no running task stops the sequence.
pub open spec fn run_pool(p: FetchPool, events: Seq<(usize, bool)>) -> FetchPool
    decreases events.len(),
{
    if events.len() == 0 {
        p
    } else if p.running > 0 && events[0].0 < p.launched {
        run_pool(finish_step(p, events[0].0, events[0].1).0, events.drop_first())
    } else {
        p
    }
}

/// One task ending keeps the pool well formed; a failure aborts it, and an
/// aborted pool starts nothing.
pub proof fn lemma_pool_step(p: FetchPool, index: usize, ok: bool)
    requires
        p.wf(),
        p.running > 0,
        index < p.launched,
    ensures
        finish_step(p, index, ok).0.wf(),
        finish_step(p, index, ok).0.running <= p.max,
        !ok ==> finish_step(p, index, ok).0.aborted() && !(finish_step(p, index, ok).1 is Launch),
        !ok && !p.aborted() ==> finish_step(p, index, ok).1 == PoolAction::AbortAll,
        p.aborted() ==> !(finish_step(p, index, ok).1 is Launch) && finish_step(p, index, ok).0.launched
            == p.launched && finish_step(p, index, ok).0.aborted(),
{
}

/// Whatever sequence of task endings comes, at no point do more than `max`
/// tasks run, and once a task has failed no task is started again.
pub proof fn lemma_pool_run(p: FetchPool, events: Seq<(usize, bool)>)
    requires
        p.wf(),
    ensures
        run_pool(p, events).wf(),
        run_pool(p, events).running <= p.max,
        run_pool(p, events).max == p.max,
        p.aborted() ==> run_pool(p, events).launched == p.launched && run_pool(p, events).aborted(),
    decreases events.len(),
{
    if events.len() > 0 && p.running > 0 && events[0].0 < p.launched {
        let q = finish_step(p, events[0].0, events[0].1).0;
        lemma_pool_step(p, events[0].0, events[0].1);
        lemma_pool_run(q, events.drop_first());
    }
}

} // verus!
