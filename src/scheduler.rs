use vstd::prelude::*;

verus! {

/// Time slice, in milliseconds, of a process at level 0.
pub const LEVEL0_QUANTUM: u64 = 100;

/// Time slice, in milliseconds, of a process at level 1.
pub const LEVEL1_QUANTUM: u64 = 200;

/// Lifecycle state of a process; `Terminated` is final.
#[derive(Clone, Copy, Debug, PartialEq, Eq, Structural)]
pub enum ProcessState {
    Ready,
    Running,
    Blocked,
    Terminated,
}

/// A schedulable process. Times are in milliseconds.
#[derive(Clone, Copy, Debug, PartialEq, Eq, Structural)]
pub struct Process {
    pub pid: u64,
    pub state: ProcessState,
    pub priority: u8,
    pub burst_time: u64,
    pub arrival_time: u64,
    pub waiting_time: u64,
    pub time_quantum: u64,
    pub remaining_time: u64,
}

/// `x + 1`, staying at the largest value once there.
pub open spec fn bump(x: u64) -> u64 {
    if x < u64::MAX {
        (x + 1) as u64
    } else {
        x
    }
}

/// Whether `a`'s response ratio `(waiting + burst) / burst` is greater than
/// `c`'s, compared without division.
pub open spec fn ratio_gt(a: Process, c: Process) -> bool {
    (a.waiting_time + a.burst_time) * c.burst_time > (c.waiting_time + c.burst_time) * a.burst_time
}

/// Whether `b` is the index that highest-response-ratio-next picks in `s`:
/// no process has a greater ratio, and every earlier one a smaller ratio.
pub open spec fn is_hrrn_choice(s: Seq<Process>, b: int) -> bool {
    &&& 0 <= b < s.len()
    &&& forall|j: int| 0 <= j < s.len() ==> !ratio_gt(#[trigger] s[j], s[b])
    &&& forall|j: int| 0 <= j < b ==> ratio_gt(s[b], #[trigger] s[j])
}

/// The index that highest-response-ratio-next picks in `s`.
pub open spec fn hrrn_index(s: Seq<Process>) -> int {
    choose|b: int| is_hrrn_choice(s, b)
}

/// Every process has a burst time above zero.
pub open spec fn bursts_positive(s: Seq<Process>) -> bool {
    forall|i: int| 0 <= i < s.len() ==> (#[trigger] s[i]).burst_time > 0
}

/// The pick is unique.
pub proof fn lemma_hrrn_unique(s: Seq<Process>, b1: int, b2: int)
    requires
        is_hrrn_choice(s, b1),
        is_hrrn_choice(s, b2),
    ensures
        b1 == b2,
{
    if b1 < b2 {
        assert(ratio_gt(s[b2], s[b1]));
        assert(!ratio_gt(s[b2], s[b1]));
    } else if b2 < b1 {
        assert(ratio_gt(s[b1], s[b2]));
        assert(!ratio_gt(s[b1], s[b2]));
    }
}

/// Of two processes with equal response ratios, highest-response-ratio-next
/// never picks the later one: ties go to the earlier enqueued.
pub proof fn lemma_hrrn_tie_break(s: Seq<Process>, i: int, j: int, b: int)
    requires
        0 <= i < j < s.len(),
        !ratio_gt(s[i], s[j]),
        !ratio_gt(s[j], s[i]),
        is_hrrn_choice(s, b),
    ensures
        b != j,
{
    if b == j {
        assert(ratio_gt(s[j], s[i]));
    }
}

proof fn lemma_ratio_order(a: Process, b: Process, c: Process)
    requires
        a.burst_time > 0,
        b.burst_time > 0,
        c.burst_time > 0,
        ratio_gt(a, c),
        !ratio_gt(b, c),
    ensures
        ratio_gt(a, b),
{
    let (aw, ab) = (a.waiting_time as int, a.burst_time as int);
    let (bw, bb) = (b.waiting_time as int, b.burst_time as int);
    let (cw, cb) = (c.waiting_time as int, c.burst_time as int);
    assert(aw * cb > cw * ab) by (nonlinear_arith)
        requires
            (aw + ab) * cb > (cw + cb) * ab,
    ;
    assert(bw * cb <= cw * bb) by (nonlinear_arith)
        requires
            !((bw + bb) * cb > (cw + cb) * bb),
    ;
    assert(aw * cb * bb > cw * ab * bb) by (nonlinear_arith)
        requires
            aw * cb > cw * ab,
            bb > 0,
    ;
    assert(cw * bb * ab >= bw * cb * ab) by (nonlinear_arith)
        requires
            bw * cb <= cw * bb,
            ab > 0,
    ;
    assert(aw * bb > bw * ab) by (nonlinear_arith)
        requires
            aw * cb * bb > cw * ab * bb,
            cw * bb * ab >= bw * cb * ab,
            cb > 0,
    ;
    assert((aw + ab) * bb > (bw + bb) * ab) by (nonlinear_arith)
        requires
            aw * bb > bw * ab,
    ;
}

proof fn lemma_ratio_trans(a: Process, b: Process, c: Process)
    requires
        a.burst_time > 0,
        b.burst_time > 0,
        c.burst_time > 0,
        ratio_gt(a, b),
        ratio_gt(b, c),
    ensures
        ratio_gt(a, c),
{
    if !ratio_gt(a, c) {
        lemma_ratio_order(b, a, c);
        let (aw, ab) = (a.waiting_time as int, a.burst_time as int);
        let (bw, bb) = (b.waiting_time as int, b.burst_time as int);
        assert(false) by (nonlinear_arith)
            requires
                (aw + ab) * bb > (bw + bb) * ab,
                (bw + bb) * ab > (aw + ab) * bb,
        ;
    }
}

/// Whether `a`'s response ratio is greater than `c`'s.
pub fn ratio_exceeds(a: &Process, c: &Process) -> (r: bool)
    ensures
        r == ratio_gt(*a, *c),
{
    let aw = a.waiting_time as u128;
    let ab = a.burst_time as u128;
    let cw = c.waiting_time as u128;
    let cb = c.burst_time as u128;
    assert(aw * cb <= 0xFFFF_FFFF_FFFF_FFFFu128 * 0xFFFF_FFFF_FFFF_FFFFu128) by (nonlinear_arith)
        requires
            aw <= 0xFFFF_FFFF_FFFF_FFFFu128,
            cb <= 0xFFFF_FFFF_FFFF_FFFFu128,
    ;
    assert(cw * ab <= 0xFFFF_FFFF_FFFF_FFFFu128 * 0xFFFF_FFFF_FFFF_FFFFu128) by (nonlinear_arith)
        requires
            cw <= 0xFFFF_FFFF_FFFF_FFFFu128,
            ab <= 0xFFFF_FFFF_FFFF_FFFFu128,
    ;
    let lhs = aw * cb;
    let rhs = cw * ab;
    proof {
        let (aw, ab) = (a.waiting_time as int, a.burst_time as int);
        let (cw, cb) = (c.waiting_time as int, c.burst_time as int);
        assert(((aw + ab) * cb > (cw + cb) * ab) == (aw * cb > cw * ab)) by (nonlinear_arith);
    }
    lhs > rhs
}

/// Index of the process that highest-response-ratio-next picks: the first
/// of those with the greatest response ratio.
pub fn select_hrrn(queue: &Vec<Process>) -> (r: usize)
    requires
        queue@.len() > 0,
        bursts_positive(queue@),
    ensures
        is_hrrn_choice(queue@, r as int),
        r as int == hrrn_index(queue@),
{
    let s = Ghost(queue@);
    let mut best: usize = 0;
    let mut i: usize = 1;
    while i < queue.len()
        invariant
            s@ == queue@,
            bursts_positive(s@),
            1 <= i <= s@.len(),
            best < i,
            forall|j: int| 0 <= j < i ==> !ratio_gt(#[trigger] s@[j], s@[best as int]),
            forall|j: int| 0 <= j < best ==> ratio_gt(s@[best as int], #[trigger] s@[j]),
        decreases s@.len() - i,
    {
        if ratio_exceeds(&queue[i], &queue[best]) {
            proof {
                let old_best = best as int;
                assert forall|j: int| 0 <= j < i + 1 implies !ratio_gt(#[trigger] s@[j], s@[i as int]) by {
                    if j < i && ratio_gt(s@[j], s@[i as int]) {
                        lemma_ratio_trans(s@[j], s@[i as int], s@[old_best]);
                    }
                    if j == i {
                        assert(!ratio_gt(s@[j], s@[j])) by (nonlinear_arith);
                    }
                }
                assert forall|j: int| 0 <= j < i implies ratio_gt(s@[i as int], #[trigger] s@[j]) by {
                    lemma_ratio_order(s@[i as int], s@[j], s@[old_best]);
                }
            }
            best = i;
        } else {
            proof {
                assert(!ratio_gt(s@[i as int], s@[best as int]));
            }
        }
        i = i + 1;
    }
    proof {
        assert(is_hrrn_choice(s@, best as int));
        lemma_hrrn_unique(s@, best as int, hrrn_index(s@));
    }
    best
}

/// Whether some process in `s` has `pid`.
pub open spec fn has_pid(s: Seq<Process>, pid: u64) -> bool {
    exists|i: int| 0 <= i < s.len() && #[trigger] s[i].pid == pid
}

/// The position of `pid` in `s` (meaningful when `has_pid(s, pid)`).
pub open spec fn pid_pos(s: Seq<Process>, pid: u64) -> int {
    choose|i: int| 0 <= i < s.len() && #[trigger] s[i].pid == pid
}

/// No pid occurs twice in `s`.
pub open spec fn pids_distinct(s: Seq<Process>) -> bool {
    forall|i: int, j: int| 0 <= i < s.len() && 0 <= j < s.len() && i != j ==> s[i].pid != s[j].pid
}

/// `p`, marked as running.
pub open spec fn running(p: Process) -> Process {
    Process { state: ProcessState::Running, ..p }
}

/// `p` after a time slice at its level: it runs to completion when what it
/// has left fits in its quantum, and otherwise is charged a quantum.
pub open spec fn run_slice(p: Process) -> Process {
    if p.remaining_time <= p.time_quantum {
        running(p)
    } else {
        Process { remaining_time: (p.remaining_time - p.time_quantum) as u64, ..p }
    }
}

/// `p` charged a quantum and moved to level 1.
pub open spec fn demote(p: Process) -> Process {
    Process {
        remaining_time: (p.remaining_time - p.time_quantum) as u64,
        time_quantum: LEVEL1_QUANTUM,
        ..p
    }
}

/// `p` after one clock tick: a ready process waits one more unit.
pub open spec fn tick_process(p: Process) -> Process {
    if p.state == ProcessState::Ready {
        Process { waiting_time: bump(p.waiting_time), ..p }
    } else {
        p
    }
}

/// Every process of `s` after one clock tick.
pub open spec fn tick_all(s: Seq<Process>) -> Seq<Process> {
    s.map_values(|p: Process| tick_process(p))
}

/// The scheduler's state as values: its three levels, in enqueue order,
/// the pids of terminated processes, and its clock.
pub ghost struct SchedulerView {
    pub level0: Seq<Process>,
    pub level1: Seq<Process>,
    pub level2: Seq<Process>,
    pub terminated: Seq<u64>,
    pub clock: u64,
}

impl SchedulerView {
    /// Pids are distinct over all levels, no queued pid is terminated, and
    /// every process at level 2 has a burst time above zero.
    pub open spec fn wf(self) -> bool {
        &&& pids_distinct(self.level0)
        &&& pids_distinct(self.level1)
        &&& pids_distinct(self.level2)
        &&& forall|pid: u64| #[trigger] has_pid(self.level0, pid) ==> !has_pid(self.level1, pid) && !has_pid(self.level2, pid)
        &&& forall|pid: u64| #[trigger] has_pid(self.level1, pid) ==> !has_pid(self.level2, pid)
        &&& forall|pid: u64| #[trigger] self.terminated.contains(pid) ==> !self.queued(pid)
        &&& bursts_positive(self.level2)
    }

    /// Whether `pid` is in one of the levels.
    pub open spec fn queued(self, pid: u64) -> bool {
        has_pid(self.level0, pid) || has_pid(self.level1, pid) || has_pid(self.level2, pid)
    }

    /// Whether `pid` is neither queued nor terminated.
    pub open spec fn fresh(self, pid: u64) -> bool {
        !self.queued(pid) && !self.terminated.contains(pid)
    }

    /// The level that holds `pid`, if any.
    pub open spec fn level_of(self, pid: u64) -> Option<int> {
        if has_pid(self.level0, pid) {
            Some(0)
        } else if has_pid(self.level1, pid) {
            Some(1)
        } else if has_pid(self.level2, pid) {
            Some(2)
        } else {
            None
        }
    }

    /// The state of `pid`: that of its queued process, else `Terminated` if
    /// it was terminated, else none.
    pub open spec fn state_of(self, pid: u64) -> Option<ProcessState> {
        if has_pid(self.level0, pid) {
            Some(self.level0[pid_pos(self.level0, pid)].state)
        } else if has_pid(self.level1, pid) {
            Some(self.level1[pid_pos(self.level1, pid)].state)
        } else if has_pid(self.level2, pid) {
            Some(self.level2[pid_pos(self.level2, pid)].state)
        } else if self.terminated.contains(pid) {
            Some(ProcessState::Terminated)
        } else {
            None
        }
    }

    /// The state after enqueuing `p`, ready, at the back of level 0.
    pub open spec fn add(self, p: Process) -> SchedulerView {
        SchedulerView { level0: self.level0.push(Process { state: ProcessState::Ready, ..p }), ..self }
    }

    /// The state after one clock tick.
    pub open spec fn tick(self) -> SchedulerView {
        SchedulerView {
            level0: tick_all(self.level0),
            level1: tick_all(self.level1),
            level2: tick_all(self.level2),
            clock: bump(self.clock),
            ..self
        }
    }

    /// The state after completing `pid`: its process leaves its level and
    /// its pid is recorded as terminated; an unknown pid changes nothing.
    pub open spec fn complete(self, pid: u64) -> SchedulerView {
        if has_pid(self.level0, pid) {
            SchedulerView {
                level0: self.level0.remove(pid_pos(self.level0, pid)),
                terminated: self.terminated.push(pid),
                ..self
            }
        } else if has_pid(self.level1, pid) {
            SchedulerView {
                level1: self.level1.remove(pid_pos(self.level1, pid)),
                terminated: self.terminated.push(pid),
                ..self
            }
        } else if has_pid(self.level2, pid) {
            SchedulerView {
                level2: self.level2.remove(pid_pos(self.level2, pid)),
                terminated: self.terminated.push(pid),
                ..self
            }
        } else {
            self
        }
    }

    /// The state after level 0's front process, if it does not fit in its
    /// quantum, is charged one and moved to the back of level 1.
    pub open spec fn after_level0(self) -> SchedulerView {
        if self.level0.len() > 0 {
            SchedulerView {
                level0: self.level0.drop_first(),
                level1: self.level1.push(demote(self.level0[0])),
                ..self
            }
        } else {
            self
        }
    }

    /// The state after `schedule`, and the pid it returns.
    pub open spec fn schedule(self) -> (SchedulerView, Option<u64>) {
        if self.level0.len() > 0 && self.level0[0].remaining_time <= self.level0[0].time_quantum {
            (
                SchedulerView { level0: self.level0.update(0, running(self.level0[0])), ..self },
                Some(self.level0[0].pid),
            )
        } else {
            let w = self.after_level0();
            if w.level1.len() > 0 {
                (
                    SchedulerView { level1: w.level1.update(0, run_slice(w.level1[0])), ..w },
                    Some(w.level1[0].pid),
                )
            } else if w.level2.len() > 0 {
                let b = hrrn_index(w.level2);
                (
                    SchedulerView { level2: w.level2.remove(b).insert(0, w.level2[b]), ..w },
                    Some(w.level2[b].pid),
                )
            } else {
                (w, None)
            }
        }
    }

    /// No process in `post` sits at a lower level than it did in `self`,
    /// and none appears that was not queued in `self`.
    pub open spec fn levels_kept(self, post: SchedulerView) -> bool {
        forall|pid: u64| #[trigger] self.level_kept(post, pid)
    }

    /// `pid` is not at a lower level in `post` than in `self`, and is not in
    /// `post` unless it was queued in `self`.
    pub open spec fn level_kept(self, post: SchedulerView, pid: u64) -> bool {
        match post.level_of(pid) {
            Some(l) => match self.level_of(pid) {
                Some(l0) => l0 <= l,
                None => false,
            },
            None => true,
        }
    }
}

proof fn lemma_pid_at(s: Seq<Process>, i: int)
    requires
        pids_distinct(s),
        0 <= i < s.len(),
    ensures
        has_pid(s, s[i].pid),
        pid_pos(s, s[i].pid) == i,
{
    assert(s[i].pid == s[i].pid);
    let j = pid_pos(s, s[i].pid);
    assert(0 <= j < s.len() && s[j].pid == s[i].pid);
}

proof fn lemma_update_keeps_pids(s: Seq<Process>, i: int, p: Process)
    requires
        0 <= i < s.len(),
        p.pid == s[i].pid,
    ensures
        forall|pid: u64| #[trigger] has_pid(s.update(i, p), pid) == has_pid(s, pid),
        pids_distinct(s) ==> pids_distinct(s.update(i, p)),
        bursts_positive(s) && p.burst_time == s[i].burst_time ==> bursts_positive(s.update(i, p)),
{
    let t = s.update(i, p);
    assert forall|pid: u64| #[trigger] has_pid(t, pid) == has_pid(s, pid) by {
        if has_pid(s, pid) {
            let j = pid_pos(s, pid);
            assert(t[j].pid == pid);
        }
        if has_pid(t, pid) {
            let j = pid_pos(t, pid);
            assert(s[j].pid == pid);
        }
    }
    if bursts_positive(s) && p.burst_time == s[i].burst_time {
        assert forall|j: int| 0 <= j < t.len() implies (#[trigger] t[j]).burst_time > 0 by {
            if j != i {
                assert(t[j] == s[j]);
            }
        }
    }
}

proof fn lemma_push_pids(s: Seq<Process>, x: Process)
    ensures
        forall|pid: u64| #[trigger] has_pid(s.push(x), pid) == (has_pid(s, pid) || pid == x.pid),
        pids_distinct(s) && !has_pid(s, x.pid) ==> pids_distinct(s.push(x)),
{
    let t = s.push(x);
    assert forall|pid: u64| #[trigger] has_pid(t, pid) == (has_pid(s, pid) || pid == x.pid) by {
        if has_pid(s, pid) {
            let j = pid_pos(s, pid);
            assert(t[j].pid == pid);
        }
        if pid == x.pid {
            assert(t[s.len() as int].pid == pid);
        }
        if has_pid(t, pid) && pid != x.pid {
            let j = pid_pos(t, pid);
            assert(s[j].pid == pid);
        }
    }
    if pids_distinct(s) && !has_pid(s, x.pid) {
        assert forall|i: int, j: int| 0 <= i < t.len() && 0 <= j < t.len() && i != j implies t[i].pid
            != t[j].pid by {
            if i == s.len() {
                assert(s[j].pid == t[j].pid);
            } else if j == s.len() {
                assert(s[i].pid == t[i].pid);
            } else {
                assert(t[i] == s[i] && t[j] == s[j]);
            }
        }
    }
}

proof fn lemma_remove_pids(s: Seq<Process>, i: int)
    requires
        pids_distinct(s),
        0 <= i < s.len(),
    ensures
        forall|pid: u64| #[trigger] has_pid(s.remove(i), pid) == (has_pid(s, pid) && pid != s[i].pid),
        pids_distinct(s.remove(i)),
        bursts_positive(s) ==> bursts_positive(s.remove(i)),
{
    let t = s.remove(i);
    assert(forall|j: int| 0 <= j < t.len() ==> #[trigger] t[j] == if j < i { s[j] } else { s[j + 1] });
    assert forall|pid: u64| #[trigger] has_pid(t, pid) == (has_pid(s, pid) && pid != s[i].pid) by {
        if has_pid(s, pid) && pid != s[i].pid {
            let j = pid_pos(s, pid);
            if j < i {
                assert(t[j].pid == pid);
            } else {
                assert(t[j - 1].pid == pid);
            }
        }
        if has_pid(t, pid) {
            let j = pid_pos(t, pid);
            if j < i {
                assert(s[j].pid == pid);
            } else {
                assert(s[j + 1].pid == pid);
            }
        }
    }
    assert forall|a: int, b: int| 0 <= a < t.len() && 0 <= b < t.len() && a != b implies t[a].pid
        != t[b].pid by {
        let a2 = if a < i { a } else { a + 1 };
        let b2 = if b < i { b } else { b + 1 };
        assert(t[a] == s[a2] && t[b] == s[b2]);
    }
    if bursts_positive(s) {
        assert forall|j: int| 0 <= j < t.len() implies (#[trigger] t[j]).burst_time > 0 by {
            let j2 = if j < i { j } else { j + 1 };
            assert(t[j] == s[j2]);
        }
    }
}

proof fn lemma_drop_first_pids(s: Seq<Process>)
    requires
        pids_distinct(s),
        s.len() > 0,
    ensures
        forall|pid: u64| #[trigger] has_pid(s.drop_first(), pid) == (has_pid(s, pid) && pid != s[0].pid),
        pids_distinct(s.drop_first()),
{
    lemma_remove_pids(s, 0);
    assert(s.drop_first() =~= s.remove(0));
}

proof fn lemma_rotate_pids(s: Seq<Process>, b: int)
    requires
        pids_distinct(s),
        0 <= b < s.len(),
    ensures
        forall|pid: u64| #[trigger] has_pid(s.remove(b).insert(0, s[b]), pid) == has_pid(s, pid),
        pids_distinct(s.remove(b).insert(0, s[b])),
        bursts_positive(s) ==> bursts_positive(s.remove(b).insert(0, s[b])),
{
    lemma_remove_pids(s, b);
    let t = s.remove(b);
    let u = t.insert(0, s[b]);
    assert(forall|j: int| 0 <= j < u.len() ==> #[trigger] u[j] == if j == 0 { s[b] } else { t[j - 1] });
    assert forall|pid: u64| #[trigger] has_pid(u, pid) == has_pid(s, pid) by {
        if has_pid(t, pid) {
            let j = pid_pos(t, pid);
            assert(u[j + 1].pid == pid);
        }
        if pid == s[b].pid {
            assert(u[0].pid == pid);
        }
        if has_pid(u, pid) {
            let j = pid_pos(u, pid);
            if j > 0 {
                assert(t[j - 1].pid == pid);
            }
        }
    }
    assert forall|a: int, c: int| 0 <= a < u.len() && 0 <= c < u.len() && a != c implies u[a].pid
        != u[c].pid by {
        if a == 0 {
            assert(!has_pid(t, s[b].pid));
            assert(t[c - 1].pid == u[c].pid);
        } else if c == 0 {
            assert(!has_pid(t, s[b].pid));
            assert(t[a - 1].pid == u[a].pid);
        } else {
        }
    }
}

proof fn lemma_tick_pids(s: Seq<Process>)
    ensures
        forall|pid: u64|
            #[trigger] has_pid(tick_all(s), pid) == has_pid(s, pid),
        pids_distinct(s) ==> pids_distinct(tick_all(s)),
        bursts_positive(s) ==> bursts_positive(tick_all(s)),
{
    let t = tick_all(s);
    assert(forall|j: int| 0 <= j < t.len() ==> #[trigger] t[j].pid == s[j].pid && t[j].burst_time
        == s[j].burst_time);
    assert forall|pid: u64| #[trigger] has_pid(t, pid) == has_pid(s, pid) by {
        if has_pid(s, pid) {
            let j = pid_pos(s, pid);
            assert(t[j].pid == pid);
        }
        if has_pid(t, pid) {
            let j = pid_pos(t, pid);
            assert(s[j].pid == pid);
        }
    }
}

proof fn lemma_after_level0(v: SchedulerView)
    requires
        v.wf(),
    ensures
        v.after_level0().wf(),
        v.levels_kept(v.after_level0()),
        v.after_level0().terminated == v.terminated,
        forall|pid: u64| #[trigger] v.after_level0().queued(pid) == v.queued(pid),
{
    let w = v.after_level0();
    if v.level0.len() > 0 {
        let x = demote(v.level0[0]);
        lemma_drop_first_pids(v.level0);
        lemma_push_pids(v.level1, x);
        lemma_pid_at(v.level0, 0);
        assert(w.wf());
        assert forall|pid: u64| #[trigger] w.queued(pid) == v.queued(pid) by {}
        assert forall|pid: u64| #[trigger] v.level_kept(w, pid) by {}
    } else {
        assert forall|pid: u64| #[trigger] v.level_kept(w, pid) by {}
    }
}

/// `schedule` keeps the scheduler well formed and never moves a process to
/// a lower level.
pub proof fn lemma_schedule_levels(v: SchedulerView)
    requires
        v.wf(),
    ensures
        v.schedule().0.wf(),
        v.levels_kept(v.schedule().0),
        v.schedule().0.terminated == v.terminated,
{
    let post = v.schedule().0;
    if v.level0.len() > 0 && v.level0[0].remaining_time <= v.level0[0].time_quantum {
        lemma_update_keeps_pids(v.level0, 0, running(v.level0[0]));
        assert(post.wf());
        assert forall|pid: u64| #[trigger] v.level_kept(post, pid) by {}
    } else {
        let w = v.after_level0();
        lemma_after_level0(v);
        if w.level1.len() > 0 {
            lemma_update_keeps_pids(w.level1, 0, run_slice(w.level1[0]));
            assert(post.wf());
            assert forall|pid: u64| #[trigger] v.level_kept(post, pid) by {
                assert(w.level_of(pid) == post.level_of(pid));
            }
        } else if w.level2.len() > 0 {
            let b = hrrn_index(w.level2);
            lemma_hrrn_exists(w.level2);
            lemma_rotate_pids(w.level2, b);
            assert(post.wf());
            assert forall|pid: u64| #[trigger] v.level_kept(post, pid) by {
                assert(w.level_of(pid) == post.level_of(pid));
            }
        } else {
        }
    }
}

proof fn lemma_hrrn_exists(s: Seq<Process>)
    requires
        s.len() > 0,
        bursts_positive(s),
    ensures
        is_hrrn_choice(s, hrrn_index(s)),
    decreases s.len(),
{
    if s.len() == 1 {
        assert(!ratio_gt(s[0], s[0])) by (nonlinear_arith);
        assert(is_hrrn_choice(s, 0));
    } else {
        let t = s.drop_last();
        assert(bursts_positive(t)) by {
            assert(forall|j: int| 0 <= j < t.len() ==> #[trigger] t[j] == s[j]);
        }
        lemma_hrrn_exists(t);
        let b = hrrn_index(t);
        let n = s.len() - 1;
        assert(forall|j: int| 0 <= j < t.len() ==> #[trigger] t[j] == s[j]);
        assert forall|j: int| 0 <= j < n implies !ratio_gt(#[trigger] s[j], s[b]) by {
            assert(!ratio_gt(t[j], t[b]));
        }
        assert forall|j: int| 0 <= j < b implies ratio_gt(s[b], #[trigger] s[j]) by {
            assert(ratio_gt(t[b], t[j]));
        }
        if ratio_gt(s[n], s[b]) {
            assert forall|j: int| 0 <= j < s.len() implies !ratio_gt(#[trigger] s[j], s[n]) by {
                if j < n {
                    assert(!ratio_gt(s[j], s[b]));
                }
                if j < n && ratio_gt(s[j], s[n]) {
                    lemma_ratio_trans(s[j], s[n], s[b]);
                }
                if j == n {
                    assert(!ratio_gt(s[j], s[j])) by (nonlinear_arith);
                }
            }
            assert forall|j: int| 0 <= j < n implies ratio_gt(s[n], #[trigger] s[j]) by {
                assert(!ratio_gt(s[j], s[b]));
                lemma_ratio_order(s[n], s[j], s[b]);
            }
            assert(is_hrrn_choice(s, n));
        } else {
            assert(is_hrrn_choice(s, b));
        }
    }
}

/// Levels never decrease across a sequence of steps: if each of two steps
/// keeps every process at its level or higher, so do both together.
pub proof fn lemma_levels_kept_trans(a: SchedulerView, b: SchedulerView, c: SchedulerView)
    requires
        a.levels_kept(b),
        b.levels_kept(c),
    ensures
        a.levels_kept(c),
{
    assert forall|pid: u64| #[trigger] a.level_kept(c, pid) by {
        assert(a.level_kept(b, pid));
        assert(b.level_kept(c, pid));
    }
}

/// A tick keeps the scheduler well formed and every process at its level.
pub proof fn lemma_tick_levels(v: SchedulerView)
    requires
        v.wf(),
    ensures
        v.tick().wf(),
        v.levels_kept(v.tick()),
{
    lemma_tick_pids(v.level0);
    lemma_tick_pids(v.level1);
    lemma_tick_pids(v.level2);
    let t = v.tick();
    assert forall|pid: u64| #[trigger] v.level_kept(t, pid) by {}
}

pub proof fn lemma_complete_wf(v: SchedulerView, pid: u64)
    requires
        v.wf(),
    ensures
        v.complete(pid).wf(),
        !v.complete(pid).queued(pid),
        forall|q: u64| q != pid ==> #[trigger] v.complete(pid).queued(q) == v.queued(q),
{
    let c = v.complete(pid);
    if has_pid(v.level0, pid) {
        let i = pid_pos(v.level0, pid);
        lemma_remove_pids(v.level0, i);
    } else if has_pid(v.level1, pid) {
        let i = pid_pos(v.level1, pid);
        lemma_remove_pids(v.level1, i);
    } else if has_pid(v.level2, pid) {
        let i = pid_pos(v.level2, pid);
        lemma_remove_pids(v.level2, i);
    }
    assert forall|q: u64| #[trigger] c.terminated.contains(q) implies !c.queued(q) by {
        if q != pid {
            assert(v.terminated.contains(q));
        }
    }
}

/// Completing a pid twice has the effect of completing it once, and a pid
/// that was queued or terminated is terminated afterwards.
pub proof fn lemma_complete_idempotent(v: SchedulerView, pid: u64)
    requires
        v.wf(),
    ensures
        v.complete(pid).complete(pid) == v.complete(pid),
        v.queued(pid) || v.terminated.contains(pid) ==> v.complete(pid).state_of(pid) == Some(
            ProcessState::Terminated,
        ),
{
    lemma_complete_wf(v, pid);
    let c = v.complete(pid);
    if v.queued(pid) {
        assert(c.terminated.last() == pid);
        assert(c.terminated.contains(pid));
    }
}

/// Position of `pid` in `s`, if it is there.
fn find_pid(s: &Vec<Process>, pid: u64) -> (r: Option<usize>)
    requires
        pids_distinct(s@),
    ensures
        match r {
            Some(i) => i < s@.len() && s@[i as int].pid == pid && has_pid(s@, pid) && pid_pos(s@, pid)
                == i,
            None => !has_pid(s@, pid),
        },
{
    let mut i: usize = 0;
    while i < s.len()
        invariant
            pids_distinct(s@),
            i <= s@.len(),
            forall|j: int| 0 <= j < i ==> s@[j].pid != pid,
        decreases s@.len() - i,
    {
        if s[i].pid == pid {
            proof {
                lemma_pid_at(s@, i as int);
            }
            return Some(i);
        }
        i = i + 1;
    }
    None
}

/// Advances every process of `s` by one clock tick.
fn tick_level(s: &mut Vec<Process>)
    ensures
        final(s)@ == tick_all(old(s)@),
{
    let ghost pre = s@;
    let mut i: usize = 0;
    while i < s.len()
        invariant
            s@.len() == pre.len(),
            i <= pre.len(),
            forall|j: int| 0 <= j < pre.len() ==> #[trigger] s@[j] == if j < i {
                tick_process(pre[j])
            } else {
                pre[j]
            },
        decreases pre.len() - i,
    {
        let mut p = s[i];
        if p.state == ProcessState::Ready {
            if p.waiting_time < u64::MAX {
                p.waiting_time = p.waiting_time + 1;
            }
        }
        s[i] = p;
        i = i + 1;
    }
    assert(s@ =~= tick_all(pre));
}

impl Process {
    /// A ready process at level 0 that has not yet waited or run.
    pub fn new(pid: u64, burst_time: u64, arrival_time: u64) -> (r: Self)
        ensures
            r == (Process {
                pid,
                state: ProcessState::Ready,
                priority: 0,
                burst_time,
                arrival_time,
                waiting_time: 0,
                time_quantum: LEVEL0_QUANTUM,
                remaining_time: burst_time,
            }),
    {
        Process {
            pid,
            state: ProcessState::Ready,
            priority: 0,
            burst_time,
            arrival_time,
            waiting_time: 0,
            time_quantum: LEVEL0_QUANTUM,
            remaining_time: burst_time,
        }
    }
}

/// A three-level feedback queue: round robin at levels 0 and 1, highest
/// response ratio next at level 2.
pub struct MultiFeedbackQueue {
    level0: Vec<Process>,
    level1: Vec<Process>,
    level2: Vec<Process>,
    terminated: Vec<u64>,
    current_time: u64,
}

impl View for MultiFeedbackQueue {
    type V = SchedulerView;

    closed spec fn view(&self) -> SchedulerView {
        SchedulerView {
            level0: self.level0@,
            level1: self.level1@,
            level2: self.level2@,
            terminated: self.terminated@,
            clock: self.current_time,
        }
    }
}

impl MultiFeedbackQueue {
    /// The state of a new scheduler: empty levels, nothing terminated, the
    /// clock at zero.
    pub open spec fn new_view() -> SchedulerView {
        SchedulerView {
            level0: Seq::empty(),
            level1: Seq::empty(),
            level2: Seq::empty(),
            terminated: Seq::empty(),
            clock: 0,
        }
    }

    pub fn new() -> (r: Self)
        ensures
            r@.wf(),
            r@ == Self::new_view(),
    {
        MultiFeedbackQueue {
            level0: Vec::new(),
            level1: Vec::new(),
            level2: Vec::new(),
            terminated: Vec::new(),
            current_time: 0,
        }
    }

    /// Enqueues `process`, ready, at the back of level 0.
    pub fn add_process(&mut self, process: Process)
        requires
            old(self)@.wf(),
            old(self)@.fresh(process.pid),
        ensures
            final(self)@.wf(),
            final(self)@ == old(self)@.add(process),
    {
        let p = Process { state: ProcessState::Ready, ..process };
        proof {
            lemma_push_pids(self.level0@, p);
        }
        self.level0.push(p);
        proof {
            let v = self@;
            assert forall|q: u64| #[trigger] v.terminated.contains(q) implies !v.queued(q) by {
                assert(old(self)@.terminated.contains(q));
            }
        }
    }

    /// Picks the process to run next and charges the time slice; `None`
    /// only when every level is empty.
    pub fn schedule(&mut self) -> (r: Option<u64>)
        requires
            old(self)@.wf(),
        ensures
            final(self)@.wf(),
            (final(self)@, r) == old(self)@.schedule(),
            old(self)@.levels_kept(final(self)@),
            r is None <==> old(self)@.level0.len() == 0 && old(self)@.level1.len() == 0 && old(
                self,
            )@.level2.len() == 0,
    {
        proof {
            lemma_schedule_levels(self@);
        }
        let ghost v = self@;
        if self.level0.len() > 0 {
            let front = self.level0[0];
            if front.remaining_time <= front.time_quantum {
                let p = Process { state: ProcessState::Running, ..front };
                self.level0[0] = p;
                assert(self@ == v.schedule().0);
                return Some(p.pid);
            }
            let mut p = self.level0.remove(0);
            p.remaining_time = p.remaining_time - p.time_quantum;
            p.time_quantum = LEVEL1_QUANTUM;
            self.level1.push(p);
            assert(self.level0@ =~= v.level0.drop_first());
        }
        assert(self@ == v.after_level0());
        if self.level1.len() > 0 {
            let front = self.level1[0];
            let p = if front.remaining_time <= front.time_quantum {
                Process { state: ProcessState::Running, ..front }
            } else {
                Process { remaining_time: front.remaining_time - front.time_quantum, ..front }
            };
            self.level1[0] = p;
            return Some(p.pid);
        }
        if self.level2.len() > 0 {
            let b = select_hrrn(&self.level2);
            let p = self.level2.remove(b);
            self.level2.insert(0, p);
            return Some(p.pid);
        }
        None
    }

    /// Advances the clock by one unit; every ready process waits one unit
    /// more.
    pub fn tick(&mut self)
        requires
            old(self)@.wf(),
        ensures
            final(self)@.wf(),
            final(self)@ == old(self)@.tick(),
            old(self)@.levels_kept(final(self)@),
    {
        proof {
            lemma_tick_levels(self@);
        }
        if self.current_time < u64::MAX {
            self.current_time = self.current_time + 1;
        }
        tick_level(&mut self.level0);
        tick_level(&mut self.level1);
        tick_level(&mut self.level2);
    }

    /// Removes the process `pid` from its level and records it as
    /// terminated; a pid that is not queued is left as it is.
    pub fn complete_process(&mut self, pid: u64)
        requires
            old(self)@.wf(),
        ensures
            final(self)@.wf(),
            final(self)@ == old(self)@.complete(pid),
    {
        proof {
            lemma_complete_wf(self@, pid);
        }
        if let Some(i) = find_pid(&self.level0, pid) {
            self.level0.remove(i);
            self.terminated.push(pid);
        } else if let Some(i) = find_pid(&self.level1, pid) {
            self.level1.remove(i);
            self.terminated.push(pid);
        } else if let Some(i) = find_pid(&self.level2, pid) {
            self.level2.remove(i);
            self.terminated.push(pid);
        }
    }

    /// The state of `pid`: that of its queued process, `Terminated` once it
    /// has completed, `None` for a pid never seen.
    pub fn get_process_state(&self, pid: u64) -> (r: Option<ProcessState>)
        requires
            self@.wf(),
        ensures
            r == self@.state_of(pid),
    {
        match find_pid(&self.level0, pid) {
            Some(i) => {
                return Some(self.level0[i].state);
            },
            None => {},
        }
        match find_pid(&self.level1, pid) {
            Some(i) => {
                return Some(self.level1[i].state);
            },
            None => {},
        }
        match find_pid(&self.level2, pid) {
            Some(i) => {
                return Some(self.level2[i].state);
            },
            None => {},
        }
        assert(!self@.queued(pid));
        let mut j: usize = 0;
        while j < self.terminated.len()
            invariant
                !self@.queued(pid),
                j <= self.terminated@.len(),
                forall|k: int| 0 <= k < j ==> self.terminated@[k] != pid,
            decreases self.terminated@.len() - j,
        {
            if self.terminated[j] == pid {
                assert(self.terminated@[j as int] == pid);
                assert(self@.terminated.contains(pid));
                return Some(ProcessState::Terminated);
            }
            j = j + 1;
        }
        None
    }

    /// The level that holds `pid`, if it is queued.
    pub fn process_level(&self, pid: u64) -> (r: Option<usize>)
        requires
            self@.wf(),
        ensures
            r matches Some(l) ==> self@.level_of(pid) == Some(l as int),
            r is None ==> self@.level_of(pid) is None,
    {
        if find_pid(&self.level0, pid).is_some() {
            Some(0)
        } else if find_pid(&self.level1, pid).is_some() {
            Some(1)
        } else if find_pid(&self.level2, pid).is_some() {
            Some(2)
        } else {
            None
        }
    }

    /// The current value of the clock.
    pub fn current_time(&self) -> (r: u64)
        ensures
            r == self@.clock,
    {
        self.current_time
    }
}

} // verus!
