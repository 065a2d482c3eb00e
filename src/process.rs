use crate::scheduler::{
    MultiFeedbackQueue, Process, ProcessState, SchedulerView, lemma_complete_wf,
    lemma_schedule_levels, lemma_tick_levels, LEVEL0_QUANTUM,
};
use vstd::prelude::*;

verus! {

/// Creates processes with increasing pids and drives the scheduler.
pub struct ProcessManager {
    next_pid: u64,
    scheduler: MultiFeedbackQueue,
}

impl ProcessManager {
    /// The pid that the next created process gets.
    pub closed spec fn next_pid(&self) -> u64 {
        self.next_pid
    }

    /// The scheduler's state.
    pub closed spec fn sched(&self) -> SchedulerView {
        self.scheduler@
    }

    /// Every pid the scheduler knows of is below the next pid to hand out.
    pub open spec fn wf(&self) -> bool {
        &&& self.sched().wf()
        &&& self.next_pid() >= 1
        &&& forall|pid: u64|
            #![trigger self.sched().queued(pid)]
            #![trigger self.sched().terminated.contains(pid)]
            self.sched().queued(pid) || self.sched().terminated.contains(pid) ==> pid
                < self.next_pid()
    }

    pub fn new() -> (r: Self)
        ensures
            r.wf(),
            r.next_pid() == 1,
            r.sched() == MultiFeedbackQueue::new_view(),
    {
        let scheduler = MultiFeedbackQueue::new();
        assert(scheduler@ == MultiFeedbackQueue::new_view());
        ProcessManager { next_pid: 1, scheduler }
    }

    /// The pid that the next created process gets.
    pub fn pid_counter(&self) -> (r: u64)
        ensures
            r == self.next_pid(),
    {
        self.next_pid
    }

    /// Creates a ready process at level 0 with the next pid, arriving now,
    /// and returns that pid.
    pub fn create_process(&mut self, burst_time: u64) -> (r: u64)
        requires
            old(self).wf(),
            old(self).next_pid() < u64::MAX,
        ensures
            final(self).wf(),
            r == old(self).next_pid(),
            final(self).next_pid() == r + 1,
            final(self).sched() == old(self).sched().add(
                Process {
                    pid: r,
                    state: ProcessState::Ready,
                    priority: 0,
                    burst_time,
                    arrival_time: old(self).sched().clock,
                    waiting_time: 0,
                    time_quantum: LEVEL0_QUANTUM,
                    remaining_time: burst_time,
                },
            ),
    {
        let pid = self.next_pid;
        self.next_pid = self.next_pid + 1;
        let now = self.scheduler.current_time();
        let process = Process::new(pid, burst_time, now);
        self.scheduler.add_process(process);
        proof {
            let v = self.sched();
            let u = old(self).sched();
            assert forall|q: u64| v.queued(q) || v.terminated.contains(q) implies q
                < self.next_pid() by {
                if q != pid {
                    if v.queued(q) {
                        lemma_push_queued(u, process, q);
                    }
                    assert(u.queued(q) || u.terminated.contains(q));
                }
            }
        }
        pid
    }

    /// Terminates `pid`; a pid that is not queued is left as it is.
    pub fn terminate_process(&mut self, pid: u64)
        requires
            old(self).wf(),
        ensures
            final(self).wf(),
            final(self).next_pid() == old(self).next_pid(),
            final(self).sched() == old(self).sched().complete(pid),
    {
        proof {
            lemma_complete_wf(self.sched(), pid);
        }
        self.scheduler.complete_process(pid);
        proof {
            let v = self.sched();
            let u = old(self).sched();
            assert forall|q: u64| v.queued(q) || v.terminated.contains(q) implies q
                < self.next_pid() by {
                if q != pid {
                    assert(v.queued(q) == u.queued(q));
                    if v.terminated.contains(q) && !u.queued(pid) {
                        assert(u.terminated.contains(q));
                    } else if v.terminated.contains(q) {
                        let k = choose|k: int| 0 <= k < v.terminated.len() && v.terminated[k] == q;
                        assert(u.terminated.contains(q)) by {
                            assert(k < u.terminated.len());
                            assert(u.terminated[k] == q);
                        }
                    }
                }
            }
        }
    }

    /// The state of `pid`, `Terminated` once it has completed, `None` for a
    /// pid never created.
    pub fn get_process_state(&self, pid: u64) -> (r: Option<ProcessState>)
        requires
            self.wf(),
        ensures
            r == self.sched().state_of(pid),
    {
        self.scheduler.get_process_state(pid)
    }

    /// The pid to run next, or `None` when no process is queued.
    pub fn schedule_next(&mut self) -> (r: Option<u64>)
        requires
            old(self).wf(),
        ensures
            final(self).wf(),
            final(self).next_pid() == old(self).next_pid(),
            (final(self).sched(), r) == old(self).sched().schedule(),
    {
        proof {
            lemma_schedule_levels(self.sched());
        }
        let r = self.scheduler.schedule();
        proof {
            let v = self.sched();
            let u = old(self).sched();
            assert forall|q: u64| v.queued(q) || v.terminated.contains(q) implies q
                < self.next_pid() by {
                if v.queued(q) {
                    assert(u.level_kept(v, q));
                    assert(u.queued(q));
                } else {
                    assert(v.terminated == u.terminated);
                    assert(u.terminated.contains(q));
                }
            }
        }
        r
    }

    /// Advances the scheduler's clock by one unit.
    pub fn tick(&mut self)
        requires
            old(self).wf(),
        ensures
            final(self).wf(),
            final(self).next_pid() == old(self).next_pid(),
            final(self).sched() == old(self).sched().tick(),
    {
        proof {
            lemma_tick_levels(self.sched());
        }
        self.scheduler.tick();
        proof {
            let v = self.sched();
            let u = old(self).sched();
            assert forall|q: u64| v.queued(q) || v.terminated.contains(q) implies q
                < self.next_pid() by {
                if v.queued(q) {
                    assert(u.level_kept(v, q));
                    assert(u.queued(q));
                } else {
                    assert(v.terminated == u.terminated);
                    assert(u.terminated.contains(q));
                }
            }
        }
    }
}

proof fn lemma_push_queued(u: SchedulerView, p: Process, q: u64)
    requires
        q != p.pid,
        u.add(p).queued(q),
    ensures
        u.queued(q),
{
    let v = u.add(p);
    if crate::scheduler::has_pid(v.level0, q) {
        let i = crate::scheduler::pid_pos(v.level0, q);
        assert(i < u.level0.len());
        assert(u.level0[i].pid == q);
    }
}

} // verus!
