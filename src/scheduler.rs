//! Round-robin scheduler over the list of processes
use vstd::prelude::*;
use crate::abi::{Pid, ProcessResult};
use crate::cpu::HartId;
use crate::errors::{KernelError, KernelResult};
use crate::process::{BlockCondition, Process, ProcessState, exit_code, same_but_state};
use crate::timer::Instant;

verus! {

/// `i` is the first process with PID `pid`
pub open spec fn is_first(ps: Seq<Process>, i: int, pid: Pid) -> bool {
    &&& 0 <= i < ps.len()
    &&& ps[i].pid == pid
    &&& forall|j: int| 0 <= j < i ==> ps[j].pid != pid
}

/// The process has exited and waits to be reaped
pub open spec fn is_zombie(p: Process) -> bool {
    p.state is Zombie
}

/// The processes that are not zombies, in order
pub open spec fn live(ps: Seq<Process>) -> Seq<Process>
    decreases ps.len(),
{
    if ps.len() == 0 {
        Seq::empty()
    } else if is_zombie(ps.last()) {
        live(ps.drop_last())
    } else {
        live(ps.drop_last()).push(ps.last())
    }
}

/// Every live process is one of the processes
pub proof fn lemma_live_member(ps: Seq<Process>, k: int)
    requires
        0 <= k < live(ps).len(),
    ensures
        exists|j: int| 0 <= j < ps.len() && live(ps)[k] == ps[j] && !is_zombie(ps[j]),
    decreases ps.len(),
{
    if ps.len() > 0 {
        let rest = ps.drop_last();
        if is_zombie(ps.last()) {
            lemma_live_member(rest, k);
            let j = choose|j: int| 0 <= j < rest.len() && live(rest)[k] == rest[j] && !is_zombie(rest[j]);
            assert(ps[j] == rest[j]);
        } else if k < live(rest).len() {
            lemma_live_member(rest, k);
            let j = choose|j: int| 0 <= j < rest.len() && live(rest)[k] == rest[j] && !is_zombie(rest[j]);
            assert(ps[j] == rest[j]);
        } else {
            assert(live(ps)[k] == ps[ps.len() - 1]);
        }
    }
}

/// PID and exit result of each zombie, in order
pub open spec fn exits(ps: Seq<Process>) -> Seq<(Pid, ProcessResult)>
    decreases ps.len(),
{
    if ps.len() == 0 {
        Seq::empty()
    } else if is_zombie(ps.last()) {
        exits(ps.drop_last()).push((ps.last().pid, ps.last().state->Zombie_0))
    } else {
        exits(ps.drop_last())
    }
}

/// Exit result of the first zombie with PID `pid`
pub open spec fn exit_of(es: Seq<(Pid, ProcessResult)>, pid: Pid) -> Option<ProcessResult>
    decreases es.len(),
{
    if es.len() == 0 {
        None
    } else if es[0].0 == pid {
        Some(es[0].1)
    } else {
        exit_of(es.drop_first(), pid)
    }
}

/// State after the sleep of a process blocked until an instant at or before `now` ends
pub open spec fn wake_until(s: ProcessState, now: Instant) -> ProcessState {
    match s {
        ProcessState::Blocked(BlockCondition::Until(t)) => if t.nanos <= now.nanos {
            ProcessState::Ready
        } else {
            s
        },
        _ => s,
    }
}

/// State of a process after reaping: sleepers whose instant has come and
/// waiters whose process has exited are ready
pub open spec fn reaped_state(b: Process, es: Seq<(Pid, ProcessResult)>, now: Instant) -> ProcessState {
    match wake_until(b.state, now) {
        ProcessState::Blocked(BlockCondition::OnDeathOfPid(z)) => match exit_of(es, z) {
            Some(_) => ProcessState::Ready,
            None => wake_until(b.state, now),
        },
        _ => wake_until(b.state, now),
    }
}

/// Registers of a process after reaping: a waiter whose process has exited
/// gets `(0, exit code)` in `a0`/`a1`
pub open spec fn reaped_regs(b: Process, es: Seq<(Pid, ProcessResult)>, now: Instant) -> Seq<usize> {
    match wake_until(b.state, now) {
        ProcessState::Blocked(BlockCondition::OnDeathOfPid(z)) => match exit_of(es, z) {
            Some(res) => b.frame.regs@.update(10, 0).update(11, exit_code(res)),
            None => b.frame.regs@,
        },
        _ => b.frame.regs@,
    }
}

/// `a` is `b` after reaping
pub open spec fn reaped_from(a: Process, b: Process, es: Seq<(Pid, ProcessResult)>, now: Instant) -> bool {
    &&& same_but_state(a, b)
    &&& a.state == reaped_state(b, es, now)
    &&& a.frame.regs@ == reaped_regs(b, es, now)
}

/// A running process is paused
pub open spec fn paused(s: ProcessState) -> ProcessState {
    match s {
        ProcessState::Running => ProcessState::Ready,
        _ => s,
    }
}

/// States of the live processes once reaped and paused
pub open spec fn states_before_pick(ps: Seq<Process>, now: Instant) -> Seq<ProcessState> {
    Seq::new(live(ps).len(), |k: int| paused(reaped_state(live(ps)[k], exits(ps), now)))
}

/// What the scheduler decided
#[derive(Copy, Clone, Debug, PartialEq, Eq, Structural)]
pub enum Decision {
    /// Return to user mode in process `pid` at `pc`, with `satp` loaded
    Run { pid: Pid, pc: usize, satp: u64 },
    /// Nothing is runnable: wait for an interrupt
    Idle,
}

/// Index of the first process that is not blocked, looking round robin from
/// `start` for at most `n` steps
pub open spec fn first_runnable(ss: Seq<ProcessState>, start: int, n: nat) -> Option<int>
    decreases n,
{
    if n == 0 || ss.len() == 0 {
        None
    } else if !(ss[start % ss.len() as int] is Blocked) {
        Some(start % ss.len() as int)
    } else {
        first_runnable(ss, start % ss.len() as int + 1, (n - 1) as nat)
    }
}

/// The process list with its round-robin cursor
pub struct Scheduler {
    pub processes: Vec<Process>,
    pub cursor: usize,
    /// Processes reaped and not yet released
    pub reaped: Vec<Process>,
}

fn find_exit(es: &Vec<(Pid, ProcessResult)>, pid: Pid) -> (r: Option<ProcessResult>)
    ensures
        r == exit_of(es@, pid),
{
    let mut i: usize = 0;
    assert(es@.subrange(0, es@.len() as int) =~= es@);
    while i < es.len()
        invariant
            i <= es@.len(),
            exit_of(es@, pid) == exit_of(es@.subrange(i as int, es@.len() as int), pid),
        decreases es@.len() - i,
    {
        assert(es@.subrange(i as int, es@.len() as int).drop_first() =~= es@.subrange(i + 1, es@.len() as int));
        if es[i].0 == pid {
            return Some(es[i].1);
        }
        i = i + 1;
    }
    None
}

impl Scheduler {
    /// An empty process list; the cursor starts at 1
    pub fn new() -> (r: Scheduler)
        ensures
            r.processes@.len() == 0,
            r.cursor == 1,
    {
        Scheduler { processes: Vec::new(), cursor: 1, reaped: Vec::new() }
    }

    /// Add a process to the scheduler
    pub fn add_process(&mut self, process: Process)
        ensures
            final(self).processes@ == old(self).processes@.push(process),
            final(self).cursor == old(self).cursor,
            final(self).reaped == old(self).reaped,
    {
        self.processes.push(process);
    }

    /// Index of the live process `pid`, or `ProcessNotFound`
    pub fn find(&self, pid: Pid) -> (r: KernelResult<usize>)
        ensures
            r.is_ok() ==> is_first(self.processes@, r.unwrap() as int, pid),
            r.is_err() ==> r == Err::<usize, KernelError>(KernelError::ProcessNotFound(pid)) && forall|i: int|
                0 <= i < self.processes@.len() ==> self.processes@[i].pid != pid,
    {
        let mut i: usize = 0;
        while i < self.processes.len()
            invariant
                i <= self.processes@.len(),
                forall|k: int| 0 <= k < i ==> self.processes@[k].pid != pid,
            decreases self.processes@.len() - i,
        {
            if self.processes[i].pid == pid {
                return Ok(i);
            }
            i = i + 1;
        }
        Err(KernelError::ProcessNotFound(pid))
    }

    /// Remove zombies, wake sleepers whose instant has come, and hand each
    /// zombie's exit result to the processes waiting on its death
    pub fn reap(&mut self, now: Instant)
        ensures
            final(self).cursor == old(self).cursor,
            final(self).reaped@.len() >= old(self).reaped@.len(),
            final(self).reaped@.subrange(0, old(self).reaped@.len() as int) == old(self).reaped@,
            forall|k: int| old(self).reaped@.len() <= k < final(self).reaped@.len() ==> exists|j: int|
                0 <= j < old(self).processes@.len() && #[trigger] final(self).reaped@[k] == old(self).processes@[j],
            final(self).processes@.len() == live(old(self).processes@).len(),
            forall|k: int| 0 <= k < final(self).processes@.len() ==> reaped_from(
                #[trigger] final(self).processes@[k],
                live(old(self).processes@)[k],
                exits(old(self).processes@),
                now,
            ),
    {
        let ghost ps = self.processes@;
        let mut zombies: Vec<(Pid, ProcessResult)> = Vec::new();
        let mut i: usize = 0;
        let ghost mut j: int = 0;
        assert(ps.take(0) =~= Seq::<Process>::empty());
        while i < self.processes.len()
            invariant
                self.cursor == old(self).cursor,
                ps == old(self).processes@,
                0 <= j <= ps.len(),
                self.reaped@.len() >= old(self).reaped@.len(),
                self.reaped@.subrange(0, old(self).reaped@.len() as int) == old(self).reaped@,
                forall|k: int| old(self).reaped@.len() <= k < self.reaped@.len() ==> exists|m: int|
                    0 <= m < ps.len() && #[trigger] self.reaped@[k] == ps[m],
                live(ps.take(j)).len() == i,
                self.processes@.len() == i + (ps.len() - j),
                forall|k: int| 0 <= k < i ==> same_but_state(#[trigger] self.processes@[k], live(ps.take(j))[k])
                    && self.processes@[k].frame.regs == live(ps.take(j))[k].frame.regs
                    && self.processes@[k].state == wake_until(live(ps.take(j))[k].state, now),
                forall|k: int| i <= k < self.processes@.len() ==> #[trigger] self.processes@[k] == ps[j + (k - i)],
                zombies@ == exits(ps.take(j)),
            decreases self.processes@.len() - i,
        {
            assert(ps.take(j + 1).drop_last() =~= ps.take(j));
            assert(ps.take(j + 1).last() == ps[j]);
            let zombie_result = match self.processes[i].state {
                ProcessState::Zombie(res) => Some(res),
                _ => None,
            };
            match zombie_result {
                Some(res) => {
                    let p = self.processes.remove(i);
                    zombies.push((p.pid, res));
                    let ghost before = self.reaped@;
                    self.reaped.push(p);
                    assert(self.reaped@.subrange(0, old(self).reaped@.len() as int) =~= before.subrange(0, old(self).reaped@.len() as int));
                    assert(self.reaped@[self.reaped@.len() - 1] == ps[j]);
                    proof {
                        j = j + 1;
                    }
                },
                None => {
                    let wake = match self.processes[i].state {
                        ProcessState::Blocked(BlockCondition::Until(t)) => now.at_or_after(t),
                        _ => false,
                    };
                    if wake {
                        self.processes[i].state = ProcessState::Ready;
                    }
                    proof {
                        j = j + 1;
                    }
                    i = i + 1;
                },
            }
        }
        assert(ps.take(j) =~= ps);
        let mut k: usize = 0;
        while k < self.processes.len()
            invariant
                self.cursor == old(self).cursor,
                ps == old(self).processes@,
                self.reaped@.len() >= old(self).reaped@.len(),
                self.reaped@.subrange(0, old(self).reaped@.len() as int) == old(self).reaped@,
                forall|k: int| old(self).reaped@.len() <= k < self.reaped@.len() ==> exists|m: int|
                    0 <= m < ps.len() && #[trigger] self.reaped@[k] == ps[m],
                zombies@ == exits(ps),
                self.processes@.len() == live(ps).len(),
                k <= self.processes@.len(),
                forall|m: int| 0 <= m < k ==> reaped_from(#[trigger] self.processes@[m], live(ps)[m], exits(ps), now),
                forall|m: int| k <= m < self.processes@.len() ==> same_but_state(#[trigger] self.processes@[m], live(ps)[m])
                    && self.processes@[m].frame.regs == live(ps)[m].frame.regs
                    && self.processes@[m].state == wake_until(live(ps)[m].state, now),
            decreases self.processes@.len() - k,
        {
            let waited = match self.processes[k].state {
                ProcessState::Blocked(BlockCondition::OnDeathOfPid(z)) => Some(z),
                _ => None,
            };
            if let Some(z) = waited {
                if let Some(res) = find_exit(&zombies, z) {
                    self.processes[k].frame.set_exit_value(res);
                    self.processes[k].state = ProcessState::Ready;
                }
            }
            k = k + 1;
        }
    }

    /// Change up processes: reap, pause the running process, then run the
    /// next process that is not blocked, round robin from the cursor
    pub fn switch_processes(&mut self, hart_id: HartId, now: Instant) -> (r: Decision)
        requires
            hart_id.id == 0,
        ensures
            final(self).cursor == (if old(self).cursor == usize::MAX { 0 } else { old(self).cursor + 1 }),
            final(self).processes@.len() == live(old(self).processes@).len(),
            forall|k: int| 0 <= k < final(self).processes@.len() ==> same_but_state(
                #[trigger] final(self).processes@[k],
                live(old(self).processes@)[k],
            ) && final(self).processes@[k].frame.regs@ == reaped_regs(
                live(old(self).processes@)[k],
                exits(old(self).processes@),
                now,
            ),
            ({
                let ss = states_before_pick(old(self).processes@, now);
                let chosen = first_runnable(ss, old(self).cursor as int, ss.len());
                &&& forall|k: int| 0 <= k < ss.len() ==> #[trigger] final(self).processes@[k].state == (if chosen == Some(k) {
                    ProcessState::Running
                } else {
                    ss[k]
                })
                &&& r == match chosen {
                    Some(k) => Decision::Run {
                        pid: live(old(self).processes@)[k].pid,
                        pc: live(old(self).processes@)[k].pc,
                        satp: live(old(self).processes@)[k].frame.satp,
                    },
                    None => Decision::Idle,
                }
            }),
    {
        let ghost ps = self.processes@;
        self.reap(now);
        let mut k: usize = 0;
        while k < self.processes.len()
            invariant
                ps == old(self).processes@,
                self.cursor == old(self).cursor,
                self.processes@.len() == live(ps).len(),
                k <= self.processes@.len(),
                forall|m: int| 0 <= m < self.processes@.len() ==> same_but_state(#[trigger] self.processes@[m], live(ps)[m])
                    && self.processes@[m].frame.regs@ == reaped_regs(live(ps)[m], exits(ps), now),
                forall|m: int| 0 <= m < k ==> #[trigger] self.processes@[m].state == states_before_pick(ps, now)[m],
                forall|m: int| k <= m < self.processes@.len() ==> #[trigger] self.processes@[m].state == reaped_state(live(ps)[m], exits(ps), now),
            decreases self.processes@.len() - k,
        {
            let running = match self.processes[k].state {
                ProcessState::Running => true,
                _ => false,
            };
            if running {
                self.processes[k].state = ProcessState::Ready;
            }
            k = k + 1;
        }
        let ghost ss = states_before_pick(ps, now);
        let start = self.cursor;
        self.cursor = if self.cursor == usize::MAX { 0 } else { self.cursor + 1 };
        let len = self.processes.len();
        if len == 0 {
            return Decision::Idle;
        }
        let mut index = start % len;
        let mut n: usize = 0;
        assert(first_runnable(ss, start as int, ss.len()) == first_runnable(ss, index as int, ss.len())) by {
            assert((start as int % len as int) % len as int == start as int % len as int) by (nonlinear_arith)
                requires len > 0;
        }
        while n < len
            invariant
                ps == old(self).processes@,
                self.cursor == (if old(self).cursor == usize::MAX { 0 } else { old(self).cursor + 1 }),
                start == old(self).cursor,
                live(ps).len() == len,
                ss == states_before_pick(ps, now),
                ss.len() == len,
                len > 0,
                self.processes@.len() == len,
                n <= len,
                index < len,
                forall|m: int| 0 <= m < len ==> #[trigger] self.processes@[m].state == ss[m],
                forall|m: int| 0 <= m < self.processes@.len() ==> same_but_state(#[trigger] self.processes@[m], live(ps)[m])
                    && self.processes@[m].frame.regs@ == reaped_regs(live(ps)[m], exits(ps), now),
                first_runnable(ss, start as int, ss.len()) == first_runnable(ss, index as int, (len - n) as nat),
            decreases len - n,
        {
            assert(index as int % len as int == index as int) by (nonlinear_arith)
                requires index < len;
            if !self.processes[index].is_blocked() {
                self.processes[index].state = ProcessState::Running;
                let p = &self.processes[index];
                let satp = p.frame.satp;
                return Decision::Run { pid: p.pid, pc: p.pc, satp };
            }
            index = index + 1;
            if index == len {
                assert(first_runnable(ss, index as int, (len - n - 1) as nat) == first_runnable(ss, 0, (len - n - 1) as nat)) by {
                    assert(len as int % len as int == 0) by (nonlinear_arith)
                        requires len > 0;
                }
                index = 0;
            }
            n = n + 1;
        }
        Decision::Idle
    }
}

pub proof fn lemma_first_runnable_in_range(ss: Seq<ProcessState>, start: int, n: nat)
    requires
        first_runnable(ss, start, n) is Some,
    ensures
        0 <= first_runnable(ss, start, n).unwrap() < ss.len(),
        !(ss[first_runnable(ss, start, n).unwrap()] is Blocked),
    decreases n,
{
    let len = ss.len() as int;
    assert(0 <= start % len < len) by (nonlinear_arith)
        requires len > 0;
    if ss[start % len] is Blocked {
        lemma_first_runnable_in_range(ss, start % len + 1, (n - 1) as nat);
    }
}

/// The scheduler only ever runs a process that was ready once reaped and
/// paused: never a blocked one, never a zombie, never one that was already running
pub proof fn lemma_runs_only_ready(ps: Seq<Process>, now: Instant, cursor: int)
    ensures
        ({
            let ss = states_before_pick(ps, now);
            first_runnable(ss, cursor, ss.len()) is Some ==> ss[first_runnable(ss, cursor, ss.len()).unwrap()]
                == ProcessState::Ready
        }),
{
    let ss = states_before_pick(ps, now);
    if first_runnable(ss, cursor, ss.len()) is Some {
        lemma_first_runnable_in_range(ss, cursor, ss.len());
        let k = first_runnable(ss, cursor, ss.len()).unwrap();
        lemma_live_member(ps, k);
    }
}

/// A process sleeping until `t` is woken by a scheduling pass at `now`
/// exactly when `now` is at or after `t`; before that it stays blocked
pub proof fn lemma_sleep_wakes_on_time(p: Process, es: Seq<(Pid, ProcessResult)>, now: Instant, t: Instant)
    requires
        p.state == ProcessState::Blocked(BlockCondition::Until(t)),
    ensures
        (reaped_state(p, es, now) == ProcessState::Ready) <==> t.nanos <= now.nanos,
        t.nanos > now.nanos ==> reaped_state(p, es, now) == p.state,
{
}

proof fn lemma_exit_of_push(es: Seq<(Pid, ProcessResult)>, x: (Pid, ProcessResult), pid: Pid)
    ensures
        exit_of(es.push(x), pid) == (if exit_of(es, pid) is Some {
            exit_of(es, pid)
        } else if x.0 == pid {
            Some(x.1)
        } else {
            None
        }),
    decreases es.len(),
{
    if es.len() > 0 {
        assert(es.push(x).drop_first() =~= es.drop_first().push(x));
        assert(es.push(x)[0] == es[0]);
        lemma_exit_of_push(es.drop_first(), x, pid);
        if es[0].0 != pid {
            assert(exit_of(es.push(x), pid) == exit_of(es.drop_first().push(x), pid));
            assert(exit_of(es, pid) == exit_of(es.drop_first(), pid));
        }
    } else {
        assert(es.push(x).drop_first() =~= Seq::<(Pid, ProcessResult)>::empty());
        assert(es.push(x)[0] == x);
        assert(exit_of(Seq::<(Pid, ProcessResult)>::empty(), pid) is None);
    }
}

proof fn lemma_exit_of_unique(ps: Seq<Process>, z: int)
    requires
        0 <= z < ps.len(),
        is_zombie(ps[z]),
        forall|j: int| 0 <= j < ps.len() && j != z ==> ps[j].pid != ps[z].pid,
    ensures
        exit_of(exits(ps), ps[z].pid) == Some(ps[z].state->Zombie_0),
    decreases ps.len(),
{
    let rest = ps.drop_last();
    if z < ps.len() - 1 {
        lemma_exit_of_unique(rest, z);
        if is_zombie(ps.last()) {
            lemma_exit_of_push(exits(rest), (ps.last().pid, ps.last().state->Zombie_0), ps[z].pid);
        }
    } else {
        lemma_exit_of_none(rest, ps[z].pid);
        lemma_exit_of_push(exits(rest), (ps.last().pid, ps.last().state->Zombie_0), ps[z].pid);
    }
}

proof fn lemma_exit_of_none(ps: Seq<Process>, pid: Pid)
    requires
        forall|j: int| 0 <= j < ps.len() ==> ps[j].pid != pid,
    ensures
        exit_of(exits(ps), pid) is None,
    decreases ps.len(),
{
    if ps.len() > 0 {
        let rest = ps.drop_last();
        lemma_exit_of_none(rest, pid);
        if is_zombie(ps.last()) {
            lemma_exit_of_push(exits(rest), (ps.last().pid, ps.last().state->Zombie_0), pid);
        }
    }
}

/// When a process has exited with `res`, a process waiting on its death gets
/// `(0, exit code of res)` and becomes ready at the next reaping, and after it
/// no live process carries the exited PID, so a second wait finds nothing
pub proof fn lemma_exit_delivered_once(ps: Seq<Process>, z: int, w: int, now: Instant)
    requires
        0 <= z < ps.len(),
        0 <= w < ps.len(),
        is_zombie(ps[z]),
        forall|j: int| 0 <= j < ps.len() && j != z ==> ps[j].pid != ps[z].pid,
        ps[w].state == ProcessState::Blocked(BlockCondition::OnDeathOfPid(ps[z].pid)),
    ensures
        reaped_state(ps[w], exits(ps), now) == ProcessState::Ready,
        reaped_regs(ps[w], exits(ps), now) == ps[w].frame.regs@.update(10, 0).update(
            11,
            exit_code(ps[z].state->Zombie_0),
        ),
        forall|k: int| 0 <= k < live(ps).len() ==> (#[trigger] live(ps)[k]).pid != ps[z].pid,
{
    lemma_exit_of_unique(ps, z);
    assert forall|k: int| 0 <= k < live(ps).len() implies (#[trigger] live(ps)[k]).pid != ps[z].pid by {
        lemma_live_member(ps, k);
    }
}

proof fn lemma_first_runnable_none(ss: Seq<ProcessState>, start: int, n: nat)
    requires
        ss.len() > 0,
        0 <= start,
        first_runnable(ss, start, n) is None,
    ensures
        forall|j: int| 0 <= j < n ==> (#[trigger] ss[(start % ss.len() as int + j) % ss.len() as int]) is Blocked,
    decreases n,
{
    let len = ss.len() as int;
    if n > 0 {
        let s0 = start % len;
        assert(0 <= s0 < len) by (nonlinear_arith)
            requires len > 0, start >= 0, s0 == start % len;
        lemma_first_runnable_none(ss, s0 + 1, (n - 1) as nat);
        assert forall|j: int| 0 <= j < n implies (#[trigger] ss[(s0 + j) % len]) is Blocked by {
            if j == 0 {
                assert(s0 % len == s0) by (nonlinear_arith)
                    requires 0 <= s0 < len;
            } else {
                let t = j - 1;
                assert(((s0 + 1) % len + t) % len == (s0 + j) % len) by {
                    vstd::arithmetic::div_mod::lemma_add_mod_noop(s0 + 1, t, len);
                    vstd::arithmetic::div_mod::lemma_add_mod_noop((s0 + 1) % len, t, len);
                    vstd::arithmetic::div_mod::lemma_mod_twice(s0 + 1, len);
                }
                assert(ss[((s0 + 1) % len + t) % len] is Blocked);
            }
        }
        assert forall|j: int| 0 <= j < n implies (#[trigger] ss[(start % len + j) % len]) is Blocked by {
            assert(ss[(s0 + j) % len] is Blocked);
        }
    }
}

/// When nothing is runnable, every live process is blocked
pub proof fn lemma_idle_means_all_blocked(ss: Seq<ProcessState>, start: int)
    requires
        0 <= start,
        first_runnable(ss, start, ss.len()) is None,
    ensures
        forall|k: int| 0 <= k < ss.len() ==> (#[trigger] ss[k]) is Blocked,
{
    if ss.len() > 0 {
        let len = ss.len() as int;
        lemma_first_runnable_none(ss, start, ss.len());
        let s0 = start % len;
        assert(0 <= s0 < len) by (nonlinear_arith)
            requires len > 0, start >= 0, s0 == start % len;
        assert forall|k: int| 0 <= k < len implies (#[trigger] ss[k]) is Blocked by {
            let j = if k >= s0 { k - s0 } else { k + len - s0 };
            assert((s0 + j) % len == k) by {
                if k >= s0 {
                    vstd::arithmetic::div_mod::lemma_small_mod(k as nat, len as nat);
                } else {
                    vstd::arithmetic::div_mod::lemma_mod_add_multiples_vanish(k, len);
                    vstd::arithmetic::div_mod::lemma_small_mod(k as nat, len as nat);
                }
            }
            assert(ss[(s0 + j) % len] is Blocked);
        }
    }
}

} // verus!
