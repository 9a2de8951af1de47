//! The status registry: each stage's lifecycle state, and the decisions that
//! the worker and sink loops take from it.
use vstd::prelude::*;

verus! {

/// Lifecycle state of one stage of the pipeline.
#[derive(Debug, Clone, Copy, PartialEq, Eq, Structural)]
pub enum EngineStatus {
    Init,
    Running,
    Stop,
}

/// What a polling stage does next.
#[derive(Debug, Clone, Copy, PartialEq, Eq, Structural)]
pub enum Step {
    /// An item was taken from the inbound queue: handle it.
    Handle,
    /// Nothing more will come: mark this stage stopped and end.
    Finish,
    /// The queue is empty for now: sleep and poll again.
    Wait,
}

/// The shared record of the generator's, each worker's and the sink's state.
pub struct AppContext {
    pub task_builder_status: EngineStatus,
    pub resolver_status: Vec<EngineStatus>,
    pub saver_status: EngineStatus,
}

/// A worker's next step: handle what it took, or, with nothing taken, finish
/// once the generator has stopped and wait otherwise.
pub open spec fn worker_step(ctx: &AppContext, took_task: bool) -> Step {
    if took_task {
        Step::Handle
    } else if ctx.task_builder_status == EngineStatus::Stop {
        Step::Finish
    } else {
        Step::Wait
    }
}

pub open spec fn some_worker_running(ctx: &AppContext) -> bool {
    exists|i: int| 0 <= i < ctx.resolver_status@.len() && ctx.resolver_status@[i] == EngineStatus::Running
}

/// The sink's next step: handle what it took, or, with nothing taken, finish
/// once no worker is running and wait otherwise.
pub open spec fn saver_step(ctx: &AppContext, took_result: bool) -> Step {
    if took_result {
        Step::Handle
    } else if !some_worker_running(ctx) {
        Step::Finish
    } else {
        Step::Wait
    }
}

impl AppContext {
    /// Every stage in `Init`, and no worker registered yet.
    pub fn new() -> (r: Self)
        ensures
            r.task_builder_status == EngineStatus::Init,
            r.resolver_status@.len() == 0,
            r.saver_status == EngineStatus::Init,
    {
        Self {
            task_builder_status: EngineStatus::Init,
            resolver_status: Vec::new(),
            saver_status: EngineStatus::Init,
        }
    }

    /// Registers one more worker, in `Init`; returns its slot.
    pub fn add_resolver(&mut self) -> (r: usize)
        requires
            old(self).resolver_status@.len() < usize::MAX,
        ensures
            r == old(self).resolver_status@.len(),
            final(self).resolver_status@ == old(self).resolver_status@.push(EngineStatus::Init),
            final(self).task_builder_status == old(self).task_builder_status,
            final(self).saver_status == old(self).saver_status,
    {
        let r = self.resolver_status.len();
        self.resolver_status.push(EngineStatus::Init);
        r
    }

    /// Sets the state of the worker in slot `idx`.
    pub fn set_resolver(&mut self, idx: usize, status: EngineStatus)
        requires
            idx < old(self).resolver_status@.len(),
        ensures
            final(self).resolver_status@ == old(self).resolver_status@.update(idx as int, status),
            final(self).task_builder_status == old(self).task_builder_status,
            final(self).saver_status == old(self).saver_status,
    {
        self.resolver_status.set(idx, status);
    }

    /// Whether some worker is in `Running`.
    pub fn any_resolver_running(&self) -> (r: bool)
        ensures
            r == some_worker_running(self),
    {
        let mut i: usize = 0;
        while i < self.resolver_status.len()
            invariant
                i <= self.resolver_status@.len(),
                forall|k: int| 0 <= k < i ==> self.resolver_status@[k] != EngineStatus::Running,
            decreases self.resolver_status@.len() - i,
        {
            if self.resolver_status[i] == EngineStatus::Running {
                return true;
            }
            i = i + 1;
        }
        false
    }

    /// A worker's next step after it polled the task queue.
    pub fn worker_next(&self, took_task: bool) -> (r: Step)
        ensures
            r == worker_step(self, took_task),
    {
        if took_task {
            Step::Handle
        } else if self.task_builder_status == EngineStatus::Stop {
            Step::Finish
        } else {
            Step::Wait
        }
    }

    /// The sink's next step after it polled the result queue.
    pub fn saver_next(&self, took_result: bool) -> (r: Step)
        ensures
            r == saver_step(self, took_result),
    {
        if took_result {
            Step::Handle
        } else if !self.any_resolver_running() {
            Step::Finish
        } else {
            Step::Wait
        }
    }
}

/// Shutdown cascades without deadlock and not too early: once the generator
/// has stopped, a worker that finds its queue empty finishes; once every
/// worker has stopped, the sink that finds its queue empty finishes; while a
/// worker runs, the sink waits.
pub proof fn lemma_shutdown(ctx: &AppContext)
    ensures
        ctx.task_builder_status == EngineStatus::Stop ==> worker_step(ctx, false) == Step::Finish,
        (forall|i: int| 0 <= i < ctx.resolver_status@.len() ==> ctx.resolver_status@[i] == EngineStatus::Stop)
            ==> saver_step(ctx, false) == Step::Finish,
        some_worker_running(ctx) ==> saver_step(ctx, false) == Step::Wait,
        ctx.task_builder_status != EngineStatus::Stop ==> worker_step(ctx, false) == Step::Wait,
{
}

} // verus!
