//! The kernel's state and the system-call dispatcher over trap-frame registers
use vstd::prelude::*;
use vstd::utf8::is_scalar;
use crate::abi::{Pid, PidGenerator, ProcessError, Syscall, syscall_number};
use crate::cpu::InterruptId;
use crate::errors::{KernelError, KernelResult};
use crate::mmu::{MAX_PPN, PAGE_SIZE, Sv39PhysicalAddress};
use crate::page_alloc::{RecordsPage, Record, first_fit, fits, alloc_update, heap_limit};
use crate::process::{BlockCondition, CodeRegion, KernelRange, Process, ProcessState, same_but_state, pages_for, num_pages_for, USERSPACE_VADDR_START, TABLE_PAGES_PER_PROCESS};
use crate::scheduler::{Decision, Scheduler, is_first, live, lemma_live_member, lemma_first_runnable_in_range, lemma_idle_means_all_blocked, states_before_pick, first_runnable};
use crate::cpu::HartId;
use crate::mmu::PageTables;
use crate::timer::{Clock, Duration, duration_nanos};

verus! {

/// Relies on `char::from_u32`: `Some` exactly for Unicode scalar values, and
/// then the character with that value.
#[verifier::external_body]
fn char_from_u32(v: u32) -> (r: Option<char>)
    ensures
        r.is_some() <==> is_scalar(v),
        r.is_some() ==> r.unwrap() as u32 == v,
{
    char::from_u32(v)
}

/// The seven argument registers `a0` to `a6`
pub type Args = [usize; 7];

/// What a syscall produced
#[derive(Copy, Clone, Debug, PartialEq, Eq, Structural)]
pub enum SyscallResult {
    /// Done, nothing to return
    Success,
    /// Done, returning a value
    Value(usize),
    /// The caller is blocked; its registers are written when it is woken
    Blocked,
}

/// A range of user memory checked for `PutString`: `len` bytes at physical
/// address `paddr`, to be read through the kernel window
#[derive(Copy, Clone, Debug, PartialEq, Eq, Structural)]
pub struct UserChunk {
    pub paddr: Sv39PhysicalAddress,
    pub len: usize,
}

/// The kernel: processes, PIDs, clock, physical pages and devices
pub struct Kernel {
    pub scheduler: Scheduler,
    pub pids: PidGenerator,
    pub clock: Clock,
    /// Book-keeping of the physical page heap
    pub pages: RecordsPage,
    /// Physical page number of the first heap page
    pub heap_ppn: u64,
    /// Number of pages in the heap
    pub heap_size: usize,
    /// Kernel memory mapped into every process
    pub kernel_ranges: Vec<KernelRange>,
    /// Interrupt of the console UART, once its driver is loaded
    pub uart_irq: Option<InterruptId>,
    /// Characters written by `PutChar`, for the console
    pub console: Vec<char>,
    /// Checked user memory written by `PutString`, for the console
    pub user_output: Vec<UserChunk>,
    /// A process asked to power off
    pub power_off: bool,
    /// Characters from the UART not yet handed to a process
    pub uart_pending: Vec<char>,
    /// Runs of physical pages just allocated, to be filled with zeros
    /// before any process can read them: first page and number of pages
    pub to_zero: Vec<(Sv39PhysicalAddress, usize)>,
}

/// Cause of a trap from user mode
#[derive(Copy, Clone, Debug, PartialEq, Eq, Structural)]
pub enum TrapCause {
    /// `ecall` from user mode
    UserEnvCall,
    /// Supervisor software interrupt raised by the timer
    Timer,
    /// Supervisor external interrupt; the interrupt controller claimed this one
    External(Option<InterruptId>),
    /// Any other exception
    Other,
}

/// Three allocations in a row, of `a`, `b` and `c` pages, all find room
pub open spec fn three_allocs_fit(recs: Seq<Record>, lim: int, a: int, b: int, c: int) -> bool {
    &&& exists|t: int| fits(recs, lim, t, a)
    &&& forall|s1: int| #[trigger] first_fit(recs, lim, s1, a) ==> {
        let r1 = alloc_update(recs, s1, a);
        &&& exists|t: int| fits(r1, lim, t, b)
        &&& forall|s2: int| #[trigger] first_fit(r1, lim, s2, b) ==> exists|t: int| fits(alloc_update(r1, s2, b), lim, t, c)
    }
}

/// Two allocations in a row, of `a` and then `b` pages, both find room
pub open spec fn two_allocs_fit(recs: Seq<Record>, lim: int, a: int, b: int) -> bool {
    &&& exists|t: int| fits(recs, lim, t, a)
    &&& forall|s1: int| #[trigger] first_fit(recs, lim, s1, a) ==> exists|t: int| fits(alloc_update(recs, s1, a), lim, t, b)
}

/// Growing the heap of `p` by `bytes` bytes cannot fail: the heap stays in
/// the user space, its slots are free, the tables have room, and the page
/// heap has a run of the pages needed
pub open spec fn request_fits(k: &Kernel, p: Process, bytes: usize) -> bool {
    let n = crate::process::pages_for(bytes as nat) as int;
    &&& bytes > 0
    &&& p.breakline + n * 4096 <= crate::process::USER_SPACE_END
    &&& p.breakline + n * 4096 <= usize::MAX
    &&& crate::process::heap_unmapped(&p)
    &&& p.page_tables.entries_spec().len() / 512 + 2 * n <= p.page_tables.max_tables_spec()
    &&& exists|t: int| fits(k.pages@, heap_limit(k.pages@, k.heap_size as nat), t, n)
}

/// Forking process `p` cannot fail: its code region is well formed, a PID is
/// left, the kernel ranges are well formed, the reserved table pages suffice,
/// and the page heap has room for the stack and then the tables
pub open spec fn fork_fits(k: &Kernel, p: Process) -> bool {
    &&& 1 <= p.code.num_pages <= 0x1000
    &&& p.code.paddr@ % 4096 == 0
    &&& p.code.paddr@ + p.code.num_pages * 4096 <= crate::mmu::MAX_PHYSICAL_ADDRESS
    &&& k.pids@ <= u16::MAX
    &&& crate::process::kernel_ranges_ok(k.kernel_ranges@)
    &&& 1 + 2 * (p.code.num_pages + 2 + crate::process::kernel_pages(k.kernel_ranges@)) <= TABLE_PAGES_PER_PROCESS
    &&& two_allocs_fit(k.pages@, heap_limit(k.pages@, k.heap_size as nat), 2, TABLE_PAGES_PER_PROCESS as int)
}

/// Creating a process for a program of `code_len` bytes cannot fail: the
/// program takes one to 4096 pages, the entry point fits, a PID is left, the
/// kernel ranges are well formed, the reserved table pages suffice, and the
/// page heap has room for the code, the stack and the tables in turn
pub open spec fn spawn_fits(k: &Kernel, code_len: usize, entry_offset: usize) -> bool {
    let n = crate::process::pages_for(code_len as nat) as int;
    &&& code_len > 0
    &&& n <= 0x1000
    &&& entry_offset <= usize::MAX - USERSPACE_VADDR_START
    &&& k.pids@ <= u16::MAX
    &&& crate::process::kernel_ranges_ok(k.kernel_ranges@)
    &&& 1 + 2 * (n + 2 + crate::process::kernel_pages(k.kernel_ranges@)) <= TABLE_PAGES_PER_PROCESS
    &&& three_allocs_fit(k.pages@, heap_limit(k.pages@, k.heap_size as nat), n, 2, TABLE_PAGES_PER_PROCESS as int)
}

/// Total number of bytes in the chunks
pub open spec fn chunks_len(cs: Seq<UserChunk>) -> nat
    decreases cs.len(),
{
    if cs.len() == 0 {
        0
    } else {
        chunks_len(cs.drop_last()) + cs.last().len as nat
    }
}

/// Every byte of the `len` bytes at `ptr` lies in a page mapped with the user bit
pub open spec fn user_string_ok(tables: &PageTables, ptr: nat, len: nat) -> bool {
    &&& ptr + len <= usize::MAX
    &&& ptr + len <= crate::mmu::MAX_VIRTUAL_ADDRESS + 1
    &&& forall|va: nat| ptr <= va < ptr + len ==> (#[trigger] tables.translate(va)) is Some && tables.translate(va).unwrap().user
}

/// The kernel's parts are consistent
pub open spec fn kernel_wf(k: &Kernel) -> bool {
    &&& k.pids.wf()
    &&& k.pages.wf()
    &&& k.heap_size > 0
    &&& k.heap_ppn + k.heap_size <= MAX_PPN
    &&& forall|i: int| 0 <= i < k.scheduler.processes@.len() ==> (#[trigger] k.scheduler.processes@[i]).page_tables.wf()
    &&& forall|i: int| 0 <= i < k.scheduler.processes@.len() ==> (#[trigger] k.scheduler.processes@[i]).pid@ < k.pids@
    &&& forall|i: int| 0 <= i < k.scheduler.processes@.len() ==> crate::process::heap_unmapped(#[trigger] &k.scheduler.processes@[i])
}

impl Kernel {
    /// A kernel with no process, whose page heap holds `heap_size` pages from
    /// physical page `heap_ppn`, booked in a records page of `page_size` bytes
    pub fn new(
        page_size: usize,
        heap_ppn: u64,
        heap_size: usize,
        kernel_ranges: Vec<KernelRange>,
        uart_irq: Option<InterruptId>,
        period: Duration,
    ) -> (r: Kernel)
        requires
            0 < page_size,
            page_size * 4 <= usize::MAX,
            heap_size > 0,
            heap_ppn + heap_size <= MAX_PPN,
        ensures
            kernel_wf(&r),
            r.scheduler.processes@.len() == 0,
            r.clock.now.nanos == 0,
            r.clock.period == period,
            r.uart_irq == uart_irq,
            r.pids@ == 1,
    {
        let mut clock = Clock::new();
        clock.set_timer_period(period);
        Kernel {
            scheduler: Scheduler::new(),
            pids: PidGenerator::new(),
            clock,
            pages: RecordsPage::new(page_size),
            heap_ppn,
            heap_size,
            kernel_ranges,
            uart_irq,
            console: Vec::new(),
            user_output: Vec::new(),
            power_off: false,
            uart_pending: Vec::new(),
            to_zero: Vec::new(),
        }
    }

    /// Create a process for a program of `code_len` bytes whose entry point
    /// is `entry_offset` bytes into it, and add it to the scheduler. Returns
    /// its PID and the physical address to which the program must be copied.
    pub fn spawn(&mut self, code_len: usize, entry_offset: usize) -> (r: KernelResult<(Pid, Sv39PhysicalAddress)>)
        requires
            kernel_wf(old(self)),
        ensures
            kernel_wf(final(self)),
            r.is_ok() ==> ({
                let p = final(self).scheduler.processes@.last();
                &&& final(self).scheduler.processes@.len() == old(self).scheduler.processes@.len() + 1
                &&& p.pid == r.unwrap().0
                &&& p.pid@ == old(self).pids@
                &&& p.state == ProcessState::Ready
                &&& p.pc == USERSPACE_VADDR_START + entry_offset
                &&& p.code.paddr == r.unwrap().1
                &&& p.code.num_pages == pages_for(code_len as nat)
                &&& p.frame.satp == crate::process::satp_value(p.page_tables.base_spec(), p.pid@ as int)
                &&& crate::process::code_mapped(&p)
                &&& crate::process::heap_unmapped(&p)
                &&& p.page_tables.unmapped(
                    USERSPACE_VADDR_START as nat + p.code.num_pages as nat * 4096,
                    crate::process::stack_bottom(p.code.num_pages as nat),
                )
            }),
            code_len == 0 ==> r == Err::<(Pid, Sv39PhysicalAddress), KernelError>(KernelError::InvalidArguments),
            spawn_fits(old(self), code_len, entry_offset) ==> r.is_ok(),
    {
        let ghost ok = spawn_fits(old(self), code_len, entry_offset);
        if code_len == 0 || entry_offset > usize::MAX - USERSPACE_VADDR_START {
            return Err(KernelError::InvalidArguments);
        }
        let n = num_pages_for(code_len);
        let ghost lim = heap_limit(self.pages@, self.heap_size as nat);
        let ghost r0 = self.pages@;
        let code = self.allocate(n)?;
        let ghost r1 = self.pages@;
        proof {
            if ok {
                let s1 = choose|s: int| first_fit(r0, lim, s, n as int) && r1 == alloc_update(r0, s, n as int)
                    && code@ == (self.heap_ppn + s) * 4096 && s + n <= self.heap_size;
                assert(first_fit(r0, lim, s1, n as int));
                assert(heap_limit(r1, self.heap_size as nat) == lim);
            }
        }
        let stack = self.allocate(2)?;
        let ghost r2 = self.pages@;
        proof {
            if ok {
                let s1 = choose|s: int| first_fit(r0, lim, s, n as int) && r1 == alloc_update(r0, s, n as int)
                    && code@ == (self.heap_ppn + s) * 4096 && s + n <= self.heap_size;
                assert(first_fit(r0, lim, s1, n as int));
                let s2 = choose|s: int| first_fit(r1, lim, s, 2) && r2 == alloc_update(r1, s, 2)
                    && stack@ == (self.heap_ppn + s) * 4096 && s + 2 <= self.heap_size;
                assert(first_fit(r1, lim, s2, 2));
                assert(heap_limit(r2, self.heap_size as nat) == lim);
            }
        }
        let root = self.allocate(TABLE_PAGES_PER_PROCESS)?;
        proof {
            if ok {
                let s1 = choose|s: int| first_fit(r0, lim, s, n as int) && r1 == alloc_update(r0, s, n as int)
                    && code@ == (self.heap_ppn + s) * 4096 && s + n <= self.heap_size;
                let s2 = choose|s: int| first_fit(r1, lim, s, 2) && r2 == alloc_update(r1, s, 2)
                    && stack@ == (self.heap_ppn + s) * 4096 && s + 2 <= self.heap_size;
                let s3 = choose|s: int| first_fit(r2, lim, s, TABLE_PAGES_PER_PROCESS as int)
                    && root@ == (self.heap_ppn + s) * 4096 && s + TABLE_PAGES_PER_PROCESS <= self.heap_size;
                assert(code@ + n * 4096 <= MAX_PPN * 4096) by (nonlinear_arith)
                    requires code@ == (self.heap_ppn + s1) * 4096, s1 + n <= self.heap_size, self.heap_ppn + self.heap_size <= MAX_PPN;
                assert(stack@ + 2 * 4096 <= MAX_PPN * 4096) by (nonlinear_arith)
                    requires stack@ == (self.heap_ppn + s2) * 4096, s2 + 2 <= self.heap_size, self.heap_ppn + self.heap_size <= MAX_PPN;
                assert(root@ / 4096 + TABLE_PAGES_PER_PROCESS <= MAX_PPN) by (nonlinear_arith)
                    requires root@ == (self.heap_ppn + s3) * 4096, s3 + TABLE_PAGES_PER_PROCESS <= self.heap_size,
                        self.heap_ppn + self.heap_size <= MAX_PPN, s3 >= 0;
                assert(code@ % 4096 == 0 && stack@ % 4096 == 0) by (nonlinear_arith)
                    requires code@ == (self.heap_ppn + s1) * 4096, stack@ == (self.heap_ppn + s2) * 4096;
            }
        }
        let pid = match self.pids.generate() {
            Some(pid) => pid,
            None => return Err(KernelError::OutOfPids),
        };
        let root_ppn = root.ppn();
        proof {
            if ok {
                assert(crate::process::process_fits(
                    CodeRegion { paddr: code, num_pages: n },
                    stack,
                    root_ppn,
                    TABLE_PAGES_PER_PROCESS,
                    self.kernel_ranges@,
                ));
            }
        }
        let process = Process::with_code_and_pc(
            pid,
            CodeRegion { paddr: code, num_pages: n },
            USERSPACE_VADDR_START + entry_offset,
            stack,
            root_ppn,
            TABLE_PAGES_PER_PROCESS,
            &self.kernel_ranges,
        )?;
        self.scheduler.add_process(process);
        Ok((pid, code))
    }

    /// Give back the run of pages that starts at `paddr`, if it lies in the page heap
    fn free(&mut self, paddr: Sv39PhysicalAddress) -> (r: bool)
        requires
            kernel_wf(old(self)),
        ensures
            kernel_wf(final(self)),
            ({
                let i = paddr@ / 4096 - old(self).heap_ppn;
                let lim = crate::page_alloc::heap_limit(old(self).pages@, old(self).heap_size as nat);
                &&& r ==> 0 <= i && exists|n: int| crate::page_alloc::run_at(old(self).pages@, lim, i, n)
                    && final(self).pages@ == crate::page_alloc::dealloc_update(old(self).pages@, lim, i, n)
                &&& (0 <= i < old(self).heap_size && exists|n: int| crate::page_alloc::run_at(old(self).pages@, lim, i, n)) ==> r
                &&& !r ==> final(self).pages@ == old(self).pages@
            }),
            final(self).pages@.len() == old(self).pages@.len(),
            forall|x: int| 0 <= x < old(self).pages@.len() && !old(self).pages@[x].taken ==> !(#[trigger] final(self).pages@[x]).taken,
            final(self).scheduler == old(self).scheduler,
            final(self).pids == old(self).pids,
            final(self).clock == old(self).clock,
            final(self).heap_ppn == old(self).heap_ppn,
            final(self).heap_size == old(self).heap_size,
    {
        let ppn = paddr.ppn();
        if ppn < self.heap_ppn || ppn - self.heap_ppn >= self.heap_size as u64 {
            return false;
        }
        let ghost before = self.pages@;
        let ghost lim = heap_limit(before, self.heap_size as nat);
        let ok = self.pages.deallocate_pages(self.heap_size, (ppn - self.heap_ppn) as usize).is_ok();
        proof {
            if ok {
                let i = (ppn - self.heap_ppn) as int;
                let n = choose|n: int| #[trigger] crate::page_alloc::run_at(before, lim, i, n)
                    && self.pages@ == crate::page_alloc::dealloc_update(before, lim, i, n);
                crate::page_alloc::lemma_dealloc_frees(before, lim, i, n);
            }
        }
        ok
    }

    /// Is the code region at `paddr` used by a live process?
    fn code_in_use(&self, paddr: Sv39PhysicalAddress) -> (r: bool)
        ensures
            r == exists|i: int| 0 <= i < self.scheduler.processes@.len() && (#[trigger] self.scheduler.processes@[i]).code.paddr == paddr,
    {
        let mut i: usize = 0;
        while i < self.scheduler.processes.len()
            invariant
                i <= self.scheduler.processes@.len(),
                forall|k: int| 0 <= k < i ==> (#[trigger] self.scheduler.processes@[k]).code.paddr != paddr,
            decreases self.scheduler.processes@.len() - i,
        {
            if self.scheduler.processes[i].code.paddr == paddr {
                return true;
            }
            i = i + 1;
        }
        false
    }

    /// Give back the physical pages of process `p`: its stack, its page
    /// tables and its heap, and its code unless a live process shares it.
    /// When a run is allocated at its stack and another at its table pages,
    /// every page of both is free afterwards.
    pub fn release_process(&mut self, p: &Process)
        requires
            kernel_wf(old(self)),
        ensures
            kernel_wf(final(self)),
            final(self).scheduler == old(self).scheduler,
            final(self).clock == old(self).clock,
            ({
                let lim = heap_limit(old(self).pages@, old(self).heap_size as nat);
                let si = p.stack_paddr@ / 4096 - old(self).heap_ppn;
                let ti = p.page_tables.base_spec() - old(self).heap_ppn;
                forall|a: int, b: int|
                    #![trigger crate::page_alloc::run_at(old(self).pages@, lim, si, a), crate::page_alloc::run_at(old(self).pages@, lim, ti, b)]
                    0 <= si < old(self).heap_size && 0 <= ti < old(self).heap_size && p.page_tables.base_spec() <= MAX_PPN
                        && crate::page_alloc::run_at(old(self).pages@, lim, si, a)
                        && crate::page_alloc::run_at(old(self).pages@, lim, ti, b) && (si + a <= ti || ti + b <= si)
                        ==> forall|x: int| (si <= x < si + a || ti <= x < ti + b) ==> !(#[trigger] final(self).pages@[x]).taken
            }),
    {
        let ghost lim = heap_limit(self.pages@, self.heap_size as nat);
        let ghost r0 = self.pages@;
        let ghost si = p.stack_paddr@ / 4096 - self.heap_ppn;
        let ghost ti = p.page_tables.base_spec() - self.heap_ppn;
        self.free(p.stack_paddr);
        let ghost r1 = self.pages@;
        let root = p.page_tables.root_ppn();
        if root <= MAX_PPN {
            self.free(Sv39PhysicalAddress::from_ppn(root));
        }
        let ghost r2 = self.pages@;
        proof {
            assert forall|a: int, b: int|
                #![trigger crate::page_alloc::run_at(r0, lim, si, a), crate::page_alloc::run_at(r0, lim, ti, b)]
                0 <= si < self.heap_size && 0 <= ti < self.heap_size && p.page_tables.base_spec() <= MAX_PPN
                    && crate::page_alloc::run_at(r0, lim, si, a) && crate::page_alloc::run_at(r0, lim, ti, b)
                    && (si + a <= ti || ti + b <= si) implies forall|x: int| (si <= x < si + a || ti <= x < ti + b)
                    ==> !(#[trigger] r2[x]).taken by {
                assert(heap_limit(r1, self.heap_size as nat) == lim);
                crate::page_alloc::lemma_dealloc_frees(r0, lim, si, a);
                crate::page_alloc::lemma_dealloc_keeps_run(r0, lim, si, a, ti, b);
                assert(r1 == crate::page_alloc::dealloc_update(r0, lim, si, a)) by {
                    let n = choose|n: int| crate::page_alloc::run_at(r0, lim, si, n) && r1 == crate::page_alloc::dealloc_update(r0, lim, si, n);
                    assert(n == a) by {
                        if n < a { assert(!r0[si + n - 1].last); }
                        if a < n { assert(!r0[si + a - 1].last); }
                    }
                }
                assert(crate::page_alloc::run_at(r1, lim, ti, b));
                crate::page_alloc::lemma_dealloc_frees(r1, lim, ti, b);
            }
        }
        let mut k: usize = 0;
        while k < p.heap.len()
            invariant
                kernel_wf(self),
                self.scheduler == old(self).scheduler,
                self.clock == old(self).clock,
                self.heap_size == old(self).heap_size,
                self.pages@.len() == r2.len(),
                forall|x: int| 0 <= x < r2.len() && !r2[x].taken ==> !(#[trigger] self.pages@[x]).taken,
            decreases p.heap@.len() - k,
        {
            self.free(p.heap[k].0);
            k = k + 1;
        }
        if !self.code_in_use(p.code.paddr) {
            self.free(p.code.paddr);
        }
    }

    /// Give back the physical pages of every reaped process
    pub fn release_reaped(&mut self)
        requires
            kernel_wf(old(self)),
        ensures
            kernel_wf(final(self)),
            final(self).scheduler.processes == old(self).scheduler.processes,
            final(self).scheduler.cursor == old(self).scheduler.cursor,
            final(self).scheduler.reaped@.len() == 0,
            final(self).clock == old(self).clock,
    {
        while self.scheduler.reaped.len() > 0
            invariant
                kernel_wf(self),
                self.scheduler.processes == old(self).scheduler.processes,
                self.scheduler.cursor == old(self).scheduler.cursor,
                self.clock == old(self).clock,
            decreases self.scheduler.reaped@.len(),
        {
            let p = self.scheduler.reaped.pop().unwrap();
            self.release_process(&p);
        }
    }

    /// Add a process and pick the first one to run
    pub fn start_with(&mut self, process: Process) -> (r: Decision)
        requires
            kernel_wf(old(self)),
            process.page_tables.wf(),
            process.pid@ < old(self).pids@,
            crate::process::heap_unmapped(&process),
        ensures
            kernel_wf(final(self)),
    {
        self.scheduler.add_process(process);
        let ghost before = self.scheduler.processes@;
        let decision = self.scheduler.switch_processes(HartId::zero(), self.clock.now);
        assert forall|j: int| 0 <= j < self.scheduler.processes@.len() implies (#[trigger] self.scheduler.processes@[j]).page_tables.wf()
            && self.scheduler.processes@[j].pid@ < self.pids@ && crate::process::heap_unmapped(&self.scheduler.processes@[j]) by {
            lemma_live_member(before, j);
            let k = choose|k: int| 0 <= k < before.len() && live(before)[j] == before[k] && !crate::scheduler::is_zombie(before[k]);
            if k < before.len() - 1 {
                assert(before[k] == old(self).scheduler.processes@[k]);
            }
        }
        self.release_reaped();
        decision
    }

    /// Take `n` pages from the page heap; returns the address of the first
    fn allocate(&mut self, n: usize) -> (r: KernelResult<Sv39PhysicalAddress>)
        requires
            kernel_wf(old(self)),
            n > 0,
        ensures
            kernel_wf(final(self)),
            final(self).scheduler == old(self).scheduler,
            final(self).pids == old(self).pids,
            final(self).clock == old(self).clock,
            final(self).uart_irq == old(self).uart_irq,
            final(self).console == old(self).console,
            final(self).user_output == old(self).user_output,
            final(self).kernel_ranges == old(self).kernel_ranges,
            final(self).power_off == old(self).power_off,
            final(self).heap_ppn == old(self).heap_ppn,
            final(self).heap_size == old(self).heap_size,
            r.is_err() ==> r == Err::<Sv39PhysicalAddress, KernelError>(KernelError::OutOfMemory) && final(self).pages@ == old(self).pages@,
            r.is_ok() ==> exists|s: int| first_fit(old(self).pages@, heap_limit(old(self).pages@, old(self).heap_size as nat), s, n as int)
                && final(self).pages@ == alloc_update(old(self).pages@, s, n as int) && r.unwrap()@ == (old(self).heap_ppn + s) * 4096
                && s + n <= old(self).heap_size,
            (exists|t: int| fits(old(self).pages@, heap_limit(old(self).pages@, old(self).heap_size as nat), t, n as int)) ==> r.is_ok(),
            r.is_ok() ==> final(self).to_zero@ == old(self).to_zero@.push((r.unwrap(), n)),
            r.is_err() ==> final(self).to_zero@ == old(self).to_zero@,
    {
        match self.pages.allocate_pages(self.heap_size, n) {
            Ok(index) => {
                assert(index < self.heap_size);
                assert(index + n <= self.heap_size);
                let paddr = Sv39PhysicalAddress::from_ppn(self.heap_ppn + index as u64);
                self.to_zero.push((paddr, n));
                Ok(paddr)
            },
            Err(_) => Err(KernelError::OutOfMemory),
        }
    }

    /// Run syscall number `call` for process `caller` with arguments `args`.
    /// Does not write the caller's registers.
    pub fn syscall_inner(&mut self, caller: Pid, call: usize, args: Args) -> (r: KernelResult<SyscallResult>)
        requires
            kernel_wf(old(self)),
        ensures
            kernel_wf(final(self)),
            !(1 <= call <= 10) ==> r == Err::<SyscallResult, KernelError>(KernelError::InvalidSyscall(call))
                && final(self).scheduler == old(self).scheduler && final(self).console == old(self).console
                && final(self).user_output == old(self).user_output && final(self).pages == old(self).pages,
            1 <= call <= 10 && (forall|i: int| !is_first(old(self).scheduler.processes@, i, caller))
                ==> r == Err::<SyscallResult, KernelError>(KernelError::ProcessNotFound(caller)),
            forall|i: int| #![trigger is_first(old(self).scheduler.processes@, i, caller)] is_first(old(self).scheduler.processes@, i, caller) ==> {
                let p = old(self).scheduler.processes@[i];
                let q = final(self).scheduler.processes@[i];
                &&& final(self).scheduler.processes@.len() >= old(self).scheduler.processes@.len()
                &&& forall|j: int| 0 <= j < old(self).scheduler.processes@.len() && j != i
                    ==> #[trigger] final(self).scheduler.processes@[j] == old(self).scheduler.processes@[j]
                &&& q.pid == caller
                &&& q.frame == p.frame
                &&& (call == syscall_number(Syscall::Pinfo) ==> r == Ok::<SyscallResult, KernelError>(SyscallResult::Value(caller@ as usize)))
                &&& (call == syscall_number(Syscall::GetChar) ==> if p.stdin@.len() > 0 {
                    r == Ok::<SyscallResult, KernelError>(SyscallResult::Value(p.stdin@[0] as u32 as usize))
                        && q.stdin@ == p.stdin@.drop_first() && q.state == p.state
                } else {
                    match old(self).uart_irq {
                        Some(id) => r == Ok::<SyscallResult, KernelError>(SyscallResult::Blocked)
                            && q.state == ProcessState::Blocked(BlockCondition::OnUart(id)) && q.stdin == p.stdin,
                        None => r == Err::<SyscallResult, KernelError>(KernelError::DriverUninitialized),
                    }
                })
                &&& (call == syscall_number(Syscall::Exit) ==> r == Ok::<SyscallResult, KernelError>(SyscallResult::Success)
                    && q.state == ProcessState::Zombie(if args[1] == 0 { Ok(()) } else { Err(ProcessError::Failure) }))
                &&& (call == syscall_number(Syscall::WaitPid) ==> (!(0 < args[0] <= u16::MAX) ==> r.is_err()) && (r
                    == Ok::<SyscallResult, KernelError>(SyscallResult::Blocked) ==> exists|t: int| 0 <= t < old(self).scheduler.processes@.len()
                        && old(self).scheduler.processes@[t].pid@ == args[0]
                        && q.state == ProcessState::Blocked(BlockCondition::OnDeathOfPid(old(self).scheduler.processes@[t].pid)))
                    && ((0 < args[0] <= u16::MAX && exists|t: int| 0 <= t < old(self).scheduler.processes@.len()
                        && old(self).scheduler.processes@[t].pid@ == args[0]) ==> r == Ok::<SyscallResult, KernelError>(SyscallResult::Blocked))
                    && ((0 < args[0] <= u16::MAX && forall|t: int| 0 <= t < old(self).scheduler.processes@.len()
                        ==> old(self).scheduler.processes@[t].pid@ != args[0]) ==> r.is_err() && q.state == p.state))
                &&& (call == syscall_number(Syscall::Sleep) ==> (args[1] > u32::MAX ==> r == Err::<SyscallResult, KernelError>(KernelError::InvalidArguments))
                    && (args[1] <= u32::MAX && old(self).clock.now.nanos + args[0] * 1_000_000_000 + args[1] <= u64::MAX
                        ==> r == Ok::<SyscallResult, KernelError>(SyscallResult::Blocked) && q.state is Blocked
                        && q.state->Blocked_0 is Until
                        && q.state->Blocked_0->Until_0.nanos == old(self).clock.now.nanos + args[0] * 1_000_000_000 + args[1]))
                &&& (call == syscall_number(Syscall::RequestMemory) && args[0] == 0 ==> r == Ok::<SyscallResult, KernelError>(SyscallResult::Value(p.breakline))
                    && q.breakline == p.breakline)
                &&& (call == syscall_number(Syscall::PutChar) ==> if args[0] <= u32::MAX && is_scalar(args[0] as u32) {
                    r == Ok::<SyscallResult, KernelError>(SyscallResult::Success) && final(self).console@ == old(self).console@.push(args[0] as u32 as char)
                } else {
                    r == Err::<SyscallResult, KernelError>(KernelError::InvalidArguments)
                })
                &&& (call == syscall_number(Syscall::Fork) && fork_fits(old(self), p) ==> r.is_ok())
                &&& (call == syscall_number(Syscall::RequestMemory) && request_fits(old(self), p, args[0]) ==> r.is_ok())
                &&& (call == syscall_number(Syscall::RequestMemory) && args[0] > 0 && r.is_ok() ==> exists|pages: Sv39PhysicalAddress|
                    final(self).to_zero@ == #[trigger] old(self).to_zero@.push((pages, crate::process::pages_for(args[0] as nat) as usize))
                    && forall|k: nat| k < crate::process::pages_for(args[0] as nat) ==> #[trigger] q.page_tables.translate(
                        p.breakline as nat + k * 4096) == Some(crate::mmu::leaf_entry((pages@ / 4096 + k) as u64, crate::mmu::PageType::UserReadWrite)))
                &&& (call == syscall_number(Syscall::Fork) && r.is_ok() ==> {
                    let c = final(self).scheduler.processes@.last();
                    &&& final(self).scheduler.processes@.len() == old(self).scheduler.processes@.len() + 1
                    &&& r == Ok::<SyscallResult, KernelError>(SyscallResult::Value(c.pid@ as usize))
                    &&& c.pid@ == old(self).pids@
                    &&& c.state == ProcessState::Ready
                    &&& c.pc == p.pc
                    &&& c.frame.regs@ == p.frame.regs@.update(10, 0).update(11, 0)
                    &&& c.stack@ == p.stack@
                    &&& c.code == p.code
                })
                &&& (call == syscall_number(Syscall::PutString) && args[1] > 0 && args[0] <= crate::mmu::MAX_VIRTUAL_ADDRESS
                    && p.page_tables.translate(args[0] as nat) is None ==> r == Err::<SyscallResult, KernelError>(
                    KernelError::NotMapped(args[0])) && q.state == p.state && final(self).console == old(self).console
                    && final(self).user_output == old(self).user_output)
                &&& (call == syscall_number(Syscall::Sleep) && r.is_err() ==> q.state == p.state)
                &&& (call == syscall_number(Syscall::GetChar) && r.is_err() ==> q.state == p.state)
                &&& (call == syscall_number(Syscall::RequestMemory) && args[0] > 0 ==> (r.is_ok() ==> q.breakline == p.breakline
                    + crate::process::pages_for(args[0] as nat) * 4096 && r == Ok::<SyscallResult, KernelError>(SyscallResult::Value(q.breakline)))
                    && (r.is_err() ==> q.breakline == p.breakline))
                &&& (call == syscall_number(Syscall::PutString) && user_string_ok(&p.page_tables, args[0] as nat, args[1] as nat) ==> r
                    == Ok::<SyscallResult, KernelError>(SyscallResult::Success) && final(self).user_output@.len() >= old(self).user_output@.len()
                    && chunks_len(final(self).user_output@.subrange(old(self).user_output@.len() as int, final(self).user_output@.len() as int))
                    == args[1] && q.state == p.state)
                &&& (call == syscall_number(Syscall::PowerOff) ==> r == Ok::<SyscallResult, KernelError>(SyscallResult::Success) && final(self).power_off)
            },
    {
        if call == 0 || call > 10 {
            return Err(KernelError::InvalidSyscall(call));
        }
        let sys = match Syscall::n(call) {
            Some(s) => s,
            None => return Err(KernelError::InvalidSyscall(call)),
        };
        let i = self.scheduler.find(caller)?;
        let ghost ps = self.scheduler.processes@;
        match sys {
            Syscall::PutChar => {
                if args[0] > u32::MAX as usize {
                    return Err(KernelError::InvalidArguments);
                }
                match char_from_u32(args[0] as u32) {
                    Some(ch) => {
                        self.console.push(ch);
                        proof {
                            vstd::utf8::char_u32_cast(ch, args[0] as u32);
                        }
                        Ok(SyscallResult::Success)
                    },
                    None => Err(KernelError::InvalidArguments),
                }
            },
            Syscall::GetChar => {
                if self.scheduler.processes[i].stdin.len() > 0 {
                    let c = self.scheduler.processes[i].stdin.remove(0);
                    Ok(SyscallResult::Value(c as u32 as usize))
                } else {
                    match self.uart_irq {
                        Some(id) => {
                            self.scheduler.processes[i].state = ProcessState::Blocked(BlockCondition::OnUart(id));
                            Ok(SyscallResult::Blocked)
                        },
                        None => Err(KernelError::DriverUninitialized),
                    }
                }
            },
            Syscall::Pinfo => Ok(SyscallResult::Value(caller.as_usize())),
            Syscall::Exit => {
                let res = if args[1] == 0 { Ok(()) } else { Err(ProcessError::Failure) };
                self.scheduler.processes[i].state = ProcessState::Zombie(res);
                Ok(SyscallResult::Success)
            },
            Syscall::WaitPid => {
                let target = match Pid::try_from(args[0]) {
                    Ok(t) => t,
                    Err(e) => return Err(KernelError::from_abi(e)),
                };
                match self.scheduler.find(target) {
                    Ok(t) => {
                        proof {
                            assert(ps[t as int].pid@ == args[0]);
                        }
                        self.scheduler.processes[i].state = ProcessState::Blocked(BlockCondition::OnDeathOfPid(target));
                        Ok(SyscallResult::Blocked)
                    },
                    Err(e) => {
                        proof {
                            assert forall|t: int| 0 <= t < ps.len() implies ps[t].pid@ != args[0] by {
                                Pid::lemma_view_injective(ps[t].pid, target);
                            }
                        }
                        Err(e)
                    },
                }
            },
            Syscall::Sleep => {
                if args[1] > u32::MAX as usize {
                    return Err(KernelError::InvalidArguments);
                }
                let dur = Duration { secs: args[0] as u64, nanos: args[1] as u32 };
                match self.clock.now.checked_add(dur) {
                    Some(until) => {
                        self.scheduler.processes[i].state = ProcessState::Blocked(BlockCondition::Until(until));
                        Ok(SyscallResult::Blocked)
                    },
                    None => Err(KernelError::TimeOverflow),
                }
            },
            Syscall::RequestMemory => {
                let bytes = args[0];
                if bytes == 0 {
                    return Ok(SyscallResult::Value(self.scheduler.processes[i].breakline));
                }
                let n = num_pages_for(bytes);
                let ghost r0 = self.pages@;
                let pages = self.allocate(n)?;
                proof {
                    if request_fits(old(self), ps[i as int], bytes) {
                        let lim = heap_limit(r0, self.heap_size as nat);
                        let s1 = choose|s: int| first_fit(r0, lim, s, n as int) && self.pages@ == alloc_update(r0, s, n as int)
                            && pages@ == (self.heap_ppn + s) * 4096 && s + n <= self.heap_size;
                        assert(pages@ + n * 4096 <= MAX_PPN * 4096) by (nonlinear_arith)
                            requires pages@ == (self.heap_ppn + s1) * 4096, s1 + n <= self.heap_size, self.heap_ppn + self.heap_size <= MAX_PPN;
                        assert(pages@ % 4096 == 0) by (nonlinear_arith)
                            requires pages@ == (self.heap_ppn + s1) * 4096;
                    }
                }
                let new_breakline = self.scheduler.processes[i].request_memory(bytes, pages)?;
                assert(n == crate::process::pages_for(args[0] as nat) as usize);
                assert(self.to_zero@ == old(self).to_zero@.push((pages, crate::process::pages_for(args[0] as nat) as usize)));
                Ok(SyscallResult::Value(new_breakline))
            },
            Syscall::Fork => {
                let ghost ok = fork_fits(old(self), ps[i as int]);
                let ghost lim = heap_limit(self.pages@, self.heap_size as nat);
                let ghost r0 = self.pages@;
                let stack = self.allocate(2)?;
                let ghost r1 = self.pages@;
                proof {
                    if ok {
                        let s1 = choose|s: int| first_fit(r0, lim, s, 2) && r1 == alloc_update(r0, s, 2)
                            && stack@ == (self.heap_ppn + s) * 4096 && s + 2 <= self.heap_size;
                        assert(first_fit(r0, lim, s1, 2));
                        assert(heap_limit(r1, self.heap_size as nat) == lim);
                    }
                }
                let root = self.allocate(TABLE_PAGES_PER_PROCESS)?;
                let root_ppn = root.ppn();
                proof {
                    if ok {
                        let s1 = choose|s: int| first_fit(r0, lim, s, 2) && r1 == alloc_update(r0, s, 2)
                            && stack@ == (self.heap_ppn + s) * 4096 && s + 2 <= self.heap_size;
                        let s3 = choose|s: int| first_fit(r1, lim, s, TABLE_PAGES_PER_PROCESS as int)
                            && root@ == (self.heap_ppn + s) * 4096 && s + TABLE_PAGES_PER_PROCESS <= self.heap_size;
                        assert(stack@ + 2 * 4096 <= MAX_PPN * 4096) by (nonlinear_arith)
                            requires stack@ == (self.heap_ppn + s1) * 4096, s1 + 2 <= self.heap_size, self.heap_ppn + self.heap_size <= MAX_PPN;
                        assert(root@ / 4096 + TABLE_PAGES_PER_PROCESS <= MAX_PPN) by (nonlinear_arith)
                            requires root@ == (self.heap_ppn + s3) * 4096, s3 + TABLE_PAGES_PER_PROCESS <= self.heap_size,
                                self.heap_ppn + self.heap_size <= MAX_PPN, s3 >= 0;
                        assert(stack@ % 4096 == 0) by (nonlinear_arith)
                            requires stack@ == (self.heap_ppn + s1) * 4096;
                        assert(crate::process::process_fits(ps[i as int].code, stack, root_ppn, TABLE_PAGES_PER_PROCESS, self.kernel_ranges@));
                    }
                }
                let child_pid = match self.pids.generate() {
                    Some(pid) => pid,
                    None => return Err(KernelError::OutOfPids),
                };
                let mut child = self.scheduler.processes[i].fork(child_pid, stack, root_ppn, TABLE_PAGES_PER_PROCESS, &self.kernel_ranges)?;
                child.frame.set_return_value(Ok(0));
                self.scheduler.add_process(child);
                Ok(SyscallResult::Value(child_pid.as_usize()))
            },
            Syscall::PowerOff => {
                self.power_off = true;
                Ok(SyscallResult::Success)
            },
            Syscall::PutString => {
                assert(self.scheduler.processes@[i as int].page_tables.wf());
                let chunks = Self::check_user_string(&self.scheduler.processes[i].page_tables, args[0], args[1])?;
                let mut k: usize = 0;
                while k < chunks.len()
                    invariant
                        self.scheduler == old(self).scheduler,
                        self.pids == old(self).pids,
                        self.pages == old(self).pages,
                        self.heap_ppn == old(self).heap_ppn,
                        self.heap_size == old(self).heap_size,
                        self.console == old(self).console,
                        self.power_off == old(self).power_off,
                        kernel_wf(old(self)),
                        k <= chunks@.len(),
                        self.user_output@ == old(self).user_output@ + chunks@.subrange(0, k as int),
                    decreases chunks@.len() - k,
                {
                    self.user_output.push(chunks[k]);
                    assert(self.user_output@ =~= old(self).user_output@ + chunks@.subrange(0, k + 1));
                    k = k + 1;
                }
                assert(self.user_output@.subrange(old(self).user_output@.len() as int, self.user_output@.len() as int) =~= chunks@);
                Ok(SyscallResult::Success)
            },
            Syscall::Test | Syscall::Open => Err(KernelError::InvalidSyscall(call)),
        }
    }

    /// Check the `len` bytes of user memory at `ptr` page by page through the
    /// caller's tables, requiring the user bit, and record where they are
    fn check_user_string(tables: &PageTables, ptr: usize, len: usize) -> (r: KernelResult<Vec<UserChunk>>)
        requires
            tables.wf(),
        ensures
            len > 0 && ptr <= crate::mmu::MAX_VIRTUAL_ADDRESS && tables.translate(ptr as nat) is None ==> r
                == Err::<Vec<UserChunk>, KernelError>(KernelError::NotMapped(ptr)),
            len > 0 && ptr <= crate::mmu::MAX_VIRTUAL_ADDRESS && tables.translate(ptr as nat) is Some && !tables.translate(ptr as nat).unwrap().user
                ==> r == Err::<Vec<UserChunk>, KernelError>(KernelError::ForbiddenPage),
            r.is_ok() ==> ({
                let cs = r.unwrap()@;
                forall|i: int| 0 <= i < cs.len() ==> (#[trigger] cs[i]).len <= PAGE_SIZE
            }),
            r.is_ok() ==> chunks_len(r.unwrap()@) == len,
            user_string_ok(tables, ptr as nat, len as nat) ==> r.is_ok(),
    {
        let ghost ok = user_string_ok(tables, ptr as nat, len as nat);
        let mut chunks: Vec<UserChunk> = Vec::new();
        let mut start = ptr;
        let mut left = len;
        let mut first = true;
        while left > 0
            invariant
                tables.wf(),
                first ==> start == ptr && left == len,
                !first ==> tables.translate(ptr as nat) is Some && tables.translate(ptr as nat).unwrap().user
                    && ptr <= crate::mmu::MAX_VIRTUAL_ADDRESS,
                forall|i: int| 0 <= i < chunks@.len() ==> (#[trigger] chunks@[i]).len <= PAGE_SIZE,
                chunks_len(chunks@) + left == len,
                left > 0 ==> start + left == ptr + len,
                ok == user_string_ok(tables, ptr as nat, len as nat),
                ok ==> ptr <= start,
            decreases left,
        {
            let in_page = PAGE_SIZE - start % PAGE_SIZE;
            let size = if left < in_page { left } else { in_page };
            let paddr = tables.user_vaddr_to_paddr(start)?;
            let ghost before = chunks@;
            chunks.push(UserChunk { paddr, len: size });
            assert(chunks@.drop_last() =~= before);
            first = false;
            left = left - size;
            if left > 0 {
                if start > usize::MAX - size {
                    return Err(KernelError::InvalidArguments);
                }
                start = start + size;
            }
        }
        Ok(chunks)
    }

    /// Handle a syscall of process `caller`: run it and, unless the caller
    /// blocked, write `(value, 0)` or `(0, 1)` into its `a0`/`a1`
    pub fn syscall_handler(&mut self, caller: Pid, call: usize, args: Args) -> (r: KernelResult<()>)
        requires
            kernel_wf(old(self)),
        ensures
            kernel_wf(final(self)),
            forall|i: int| #![trigger is_first(old(self).scheduler.processes@, i, caller)] is_first(old(self).scheduler.processes@, i, caller) ==> {
                let p = old(self).scheduler.processes@[i];
                let q = final(self).scheduler.processes@[i];
                &&& r.is_err() ==> q.frame.regs@ == p.frame.regs@.update(10, 0).update(11, 1)
                &&& call == syscall_number(Syscall::Fork) && r.is_ok() ==> {
                    let c = final(self).scheduler.processes@.last();
                    &&& q.frame.regs@ == p.frame.regs@.update(10, c.pid@ as usize).update(11, 0)
                    &&& c.frame.regs@ == p.frame.regs@.update(10, 0).update(11, 0)
                    &&& c.stack@ == p.stack@
                    &&& c.state == ProcessState::Ready
                    &&& c.pid != caller
                    &&& c.pid@ == old(self).pids@
                }
                &&& call == syscall_number(Syscall::GetChar) && p.stdin@.len() == 0 && old(self).uart_irq is Some ==> {
                    &&& r.is_ok()
                    &&& q.state == ProcessState::Blocked(BlockCondition::OnUart(old(self).uart_irq.unwrap()))
                    &&& q.frame == p.frame
                    &&& q.stdin@.len() == 0
                }
                &&& call == syscall_number(Syscall::PutString) && args[1] > 0 && args[0] <= crate::mmu::MAX_VIRTUAL_ADDRESS
                    && p.page_tables.translate(args[0] as nat) is None ==> {
                    &&& r.is_err()
                    &&& q.frame.regs@ == p.frame.regs@.update(10, 0).update(11, 1)
                    &&& q.state == p.state
                    &&& final(self).console == old(self).console
                    &&& final(self).user_output == old(self).user_output
                }
            },
    {
        let ghost ps = self.scheduler.processes@;
        let rv = self.syscall_inner(caller, call, args);
        let ret: KernelResult<usize> = match rv {
            Ok(SyscallResult::Blocked) => return Ok(()),
            Ok(SyscallResult::Success) => Ok(0),
            Ok(SyscallResult::Value(v)) => Ok(v),
            Err(e) => Err(e),
        };
        let ghost mid = self.scheduler.processes@;
        if let Ok(i) = self.scheduler.find(caller) {
            proof {
                if exists|j: int| is_first(ps, j, caller) {
                    let j = choose|j: int| is_first(ps, j, caller);
                    assert(is_first(mid, j, caller));
                    if i < j {
                        assert(mid[i as int] == ps[i as int]);
                    }
                    if j < i {
                        assert(mid[j] .pid == caller);
                    }
                    assert(i == j);
                }
            }
            self.scheduler.processes[i].frame.set_return_value(ret);
            assert(self.scheduler.processes@[i as int].page_tables.wf());
        } else {
            proof {
                if exists|j: int| is_first(ps, j, caller) {
                    let j = choose|j: int| is_first(ps, j, caller);
                    assert(mid[j].pid == caller);
                }
            }
        }
        match rv {
            Ok(_) => Ok(()),
            Err(e) => Err(e),
        }
    }

    /// Characters from the UART with interrupt `id` arrived: each process
    /// blocked on it, in order, gets the oldest pending character as its
    /// `GetChar` result and becomes ready
    pub fn on_uart_interrupt(&mut self, id: InterruptId, chars: &Vec<char>)
        requires
            kernel_wf(old(self)),
        ensures
            kernel_wf(final(self)),
            final(self).scheduler.processes@.len() == old(self).scheduler.processes@.len(),
            forall|i: int| 0 <= i < old(self).scheduler.processes@.len() ==> same_but_state(
                #[trigger] final(self).scheduler.processes@[i], old(self).scheduler.processes@[i]),
            forall|i: int| 0 <= i < old(self).scheduler.processes@.len() && old(self).scheduler.processes@[i].state
                != ProcessState::Blocked(BlockCondition::OnUart(id)) ==> #[trigger] final(self).scheduler.processes@[i]
                == old(self).scheduler.processes@[i],
            old(self).uart_pending@.len() == 0 && chars@.len() == 1 ==> (if exists|i: int| 0 <= i < old(self).scheduler.processes@.len()
                && #[trigger] old(self).scheduler.processes@[i].state == ProcessState::Blocked(BlockCondition::OnUart(id)) {
                final(self).uart_pending@.len() == 0
            } else {
                final(self).uart_pending@ == chars@
            }),
            old(self).uart_pending@.len() == 0 && chars@.len() == 1 ==> (forall|i: int| #![trigger old(self).scheduler.processes@[i]]
                0 <= i < old(self).scheduler.processes@.len() && old(self).scheduler.processes@[i].state
                == ProcessState::Blocked(BlockCondition::OnUart(id)) && (forall|j: int| 0 <= j < i
                ==> old(self).scheduler.processes@[j].state != ProcessState::Blocked(BlockCondition::OnUart(id)))
                ==> final(self).scheduler.processes@[i].state == ProcessState::Ready
                && final(self).scheduler.processes@[i].frame.regs@ == old(self).scheduler.processes@[i].frame.regs@.update(
                10, chars@[0] as u32 as usize).update(11, 0)),
            old(self).uart_pending@.len() == 0 && chars@.len() == 1 ==> (forall|i: int| #![trigger old(self).scheduler.processes@[i]]
                0 <= i < old(self).scheduler.processes@.len() && (exists|j: int| 0 <= j < i
                && old(self).scheduler.processes@[j].state == ProcessState::Blocked(BlockCondition::OnUart(id)))
                ==> final(self).scheduler.processes@[i] == old(self).scheduler.processes@[i]),
    {
        let mut k: usize = 0;
        while k < chars.len()
            invariant
                k <= chars@.len(),
                self.uart_pending@ == old(self).uart_pending@ + chars@.subrange(0, k as int),
                self.scheduler == old(self).scheduler,
                kernel_wf(old(self)),
                self.pids == old(self).pids,
                self.pages == old(self).pages,
                self.heap_ppn == old(self).heap_ppn,
                self.heap_size == old(self).heap_size,
            decreases chars@.len() - k,
        {
            self.uart_pending.push(chars[k]);
            assert(self.uart_pending@ =~= old(self).uart_pending@ + chars@.subrange(0, k + 1));
            k = k + 1;
        }
        let mut i: usize = 0;
        let ghost ps = self.scheduler.processes@;
        let ghost mut delivered = false;
        while i < self.scheduler.processes.len()
            invariant
                ps == old(self).scheduler.processes@,
                self.scheduler.processes@.len() == ps.len(),
                i <= ps.len(),
                kernel_wf(old(self)),
                self.pids == old(self).pids,
                self.pages == old(self).pages,
                self.heap_ppn == old(self).heap_ppn,
                self.heap_size == old(self).heap_size,
                forall|j: int| 0 <= j < ps.len() ==> same_but_state(#[trigger] self.scheduler.processes@[j], ps[j]),
                forall|j: int| i <= j < ps.len() ==> #[trigger] self.scheduler.processes@[j] == ps[j],
                forall|j: int| 0 <= j < ps.len() && ps[j].state != ProcessState::Blocked(BlockCondition::OnUart(id))
                    ==> #[trigger] self.scheduler.processes@[j] == ps[j],
                old(self).uart_pending@.len() == 0 && chars@.len() == 1 ==> (
                    (!delivered <==> forall|j: int| 0 <= j < i ==> ps[j].state != ProcessState::Blocked(BlockCondition::OnUart(id)))
                    && (!delivered ==> self.uart_pending@ == chars@)
                    && (delivered ==> self.uart_pending@.len() == 0)
                    && (forall|m: int| #![trigger ps[m]] 0 <= m < i && (exists|j: int| 0 <= j < m
                        && ps[j].state == ProcessState::Blocked(BlockCondition::OnUart(id))) ==> self.scheduler.processes@[m] == ps[m])
                    && (forall|j: int| #![trigger ps[j]] 0 <= j < i && ps[j].state == ProcessState::Blocked(BlockCondition::OnUart(id))
                        && (forall|m: int| 0 <= m < j ==> ps[m].state != ProcessState::Blocked(BlockCondition::OnUart(id)))
                        ==> self.scheduler.processes@[j].state == ProcessState::Ready
                        && self.scheduler.processes@[j].frame.regs@ == ps[j].frame.regs@.update(10, chars@[0] as u32 as usize).update(11, 0))),
            decreases ps.len() - i,
        {
            let waiting = match self.scheduler.processes[i].state {
                ProcessState::Blocked(BlockCondition::OnUart(w)) => w == id,
                _ => false,
            };
            if waiting && self.uart_pending.len() > 0 {
                let c = self.uart_pending.remove(0);
                self.scheduler.processes[i].frame.set_return_value(Ok(c as u32 as usize));
                self.scheduler.processes[i].state = ProcessState::Ready;
                proof {
                    delivered = true;
                }
            }
            i = i + 1;
        }
        assert forall|j: int| 0 <= j < self.scheduler.processes@.len() implies (#[trigger] self.scheduler.processes@[j]).page_tables.wf() by {
            assert(ps[j].page_tables.wf());
        }
    }

    /// Record where process `pid` resumes: past the `ecall` for a system
    /// call (exceptions are taken before the instruction), at `pc` for an
    /// interrupt or another exception
    pub fn record_pc(&mut self, cause: TrapCause, pid: Pid, pc: usize)
        requires
            kernel_wf(old(self)),
        ensures
            kernel_wf(final(self)),
            final(self).scheduler.processes@.len() == old(self).scheduler.processes@.len(),
            final(self).scheduler.cursor == old(self).scheduler.cursor,
            final(self).scheduler.reaped == old(self).scheduler.reaped,
            final(self).pids == old(self).pids,
            final(self).clock == old(self).clock,
            final(self).uart_irq == old(self).uart_irq,
            forall|i: int| 0 <= i < old(self).scheduler.processes@.len() ==> {
                let p = old(self).scheduler.processes@[i];
                let q = #[trigger] final(self).scheduler.processes@[i];
                &&& same_but_state(q, p) || is_first(old(self).scheduler.processes@, i, pid)
                &&& q.state == p.state && q.frame == p.frame && q.pid == p.pid
                &&& is_first(old(self).scheduler.processes@, i, pid) ==> q.pc == (if cause == TrapCause::UserEnvCall {
                    pc.wrapping_add(4)
                } else {
                    pc
                })
            },
    {
        let pc = if cause == TrapCause::UserEnvCall { pc.wrapping_add(4) } else { pc };
        if let Ok(i) = self.scheduler.find(pid) {
            self.scheduler.processes[i].pc = pc;
            assert(self.scheduler.processes@[i as int].page_tables.wf());
        }
    }

    /// Handle a trap from user mode in process `pid` at `pc`: advance the
    /// program counter past an `ecall`, record it, dispatch on the cause, and
    /// pick the next process. A process that raised any other exception is
    /// terminated with a failure. Returns the decision and the error to
    /// report, if any.
    pub fn handle_trap(&mut self, cause: TrapCause, pid: Pid, pc: usize, call: usize, args: Args, uart_chars: &Vec<char>)
        -> (r: (Decision, Option<KernelError>))
        requires
            kernel_wf(old(self)),
        ensures
            kernel_wf(final(self)),
            cause == TrapCause::Timer && old(self).clock.now.nanos + crate::timer::duration_nanos(old(self).clock.period) <= u64::MAX
                ==> final(self).clock.now.nanos == old(self).clock.now.nanos + crate::timer::duration_nanos(old(self).clock.period),
            r.0 == Decision::Idle ==> forall|k: int| 0 <= k < final(self).scheduler.processes@.len()
                ==> (#[trigger] final(self).scheduler.processes@[k]).state is Blocked,
            r.0 is Run ==> exists|k: int| 0 <= k < final(self).scheduler.processes@.len()
                && (#[trigger] final(self).scheduler.processes@[k]).pid == r.0->pid && final(self).scheduler.processes@[k].pc == r.0->pc
                && final(self).scheduler.processes@[k].state == ProcessState::Running,
            cause == TrapCause::Other && (exists|i: int| 0 <= i < old(self).scheduler.processes@.len() && old(self).scheduler.processes@[i].pid == pid)
                && (forall|a: int, b: int| 0 <= a < b < old(self).scheduler.processes@.len() ==> (#[trigger] old(self).scheduler.processes@[a]).pid
                != (#[trigger] old(self).scheduler.processes@[b]).pid) ==> forall|k: int| 0 <= k < final(self).scheduler.processes@.len()
                ==> (#[trigger] final(self).scheduler.processes@[k]).pid != pid,
    {
        self.record_pc(cause, pid, pc);
        let err = match cause {
            TrapCause::UserEnvCall => match self.syscall_handler(pid, call, args) {
                Ok(()) => None,
                Err(e) => Some(e),
            },
            TrapCause::Timer => match self.clock.tick() {
                Ok(()) => None,
                Err(_) => Some(KernelError::TimeOverflow),
            },
            TrapCause::External(claimed) => match claimed {
                Some(id) => {
                    if self.uart_irq == Some(id) {
                        self.on_uart_interrupt(id, uart_chars);
                        None
                    } else {
                        Some(KernelError::InvalidIntId(id.id as usize))
                    }
                },
                None => None,
            },
            TrapCause::Other => {
                if let Ok(i) = self.scheduler.find(pid) {
                    self.scheduler.processes[i].state = ProcessState::Zombie(Err(ProcessError::Failure));
                    assert(self.scheduler.processes@[i as int].page_tables.wf());
                }
                None
            },
        };
        let ghost before = self.scheduler.processes@;
        let ghost old_now = self.clock.now;
        let ghost old_cursor = self.scheduler.cursor;
        let decision = self.scheduler.switch_processes(HartId::zero(), self.clock.now);
        assert forall|j: int| 0 <= j < self.scheduler.processes@.len() implies (#[trigger] self.scheduler.processes@[j]).page_tables.wf()
            && self.scheduler.processes@[j].pid@ < self.pids@ && crate::process::heap_unmapped(&self.scheduler.processes@[j]) by {
            lemma_live_member(before, j);
        }
        let ghost after = self.scheduler.processes@;
        proof {
            let ss = states_before_pick(before, old_now);
            let chosen = first_runnable(ss, old_cursor as int, ss.len());
            if chosen is Some {
                lemma_first_runnable_in_range(ss, old_cursor as int, ss.len());
                let k = chosen.unwrap();
                assert(after[k].state == ProcessState::Running);
            } else {
                lemma_idle_means_all_blocked(ss, old_cursor as int);
            }
        }
        self.release_reaped();
        proof {
            if cause == TrapCause::Other && (exists|i: int| 0 <= i < old(self).scheduler.processes@.len() && old(self).scheduler.processes@[i].pid == pid)
                && (forall|a: int, b: int| 0 <= a < b < old(self).scheduler.processes@.len() ==> (#[trigger] old(self).scheduler.processes@[a]).pid
                != (#[trigger] old(self).scheduler.processes@[b]).pid) {
                assert forall|k: int| 0 <= k < self.scheduler.processes@.len() implies (#[trigger] self.scheduler.processes@[k]).pid != pid by {
                    lemma_live_member(before, k);
                    let j = choose|j: int| 0 <= j < before.len() && live(before)[k] == before[j] && !crate::scheduler::is_zombie(before[j]);
                    let i = choose|i: int| 0 <= i < old(self).scheduler.processes@.len() && old(self).scheduler.processes@[i].pid == pid;
                    if j != i {
                        if j < i {
                            assert(old(self).scheduler.processes@[j].pid != old(self).scheduler.processes@[i].pid);
                        } else {
                            assert(old(self).scheduler.processes@[i].pid != old(self).scheduler.processes@[j].pid);
                        }
                    }
                }
            }
        }
        assert(self.scheduler.processes@ == after);
        (decision, err)
    }
}

/// In a consistent kernel, a user pointer to the first page past any live
/// process's heap finds no page, so the user-only walk fails with `NotMapped`
pub proof fn lemma_pointer_past_heap_fails(k: &Kernel, i: int)
    requires
        kernel_wf(k),
        0 <= i < k.scheduler.processes@.len(),
        k.scheduler.processes@[i].breakline < crate::process::USER_SPACE_END,
    ensures
        k.scheduler.processes@[i].page_tables.translate(k.scheduler.processes@[i].breakline as nat) is None,
{
    crate::process::lemma_pointer_past_heap_unmapped(&k.scheduler.processes@[i]);
}

} // verus!
