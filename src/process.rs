//! Processes: address space, trap frame, stack, heap and state
use vstd::prelude::*;
use crate::abi::{Pid, ProcessError, ProcessResult};
use crate::cpu::{InterruptId, Register, register_index};
use crate::errors::{KernelError, KernelResult};
use crate::mmu::{
    PageTables, PageType, Sv39PhysicalAddress, Sv39VirtualAddress, leaf_entry, slot_in_use, lemma_mapped_slot_in_use, map_range_fits,
    MAX_PPN, PAGE_SIZE, MAX_VIRTUAL_ADDRESS, MAX_PHYSICAL_ADDRESS,
};
use crate::timer::Instant;

verus! {

/// Number of stack pages of a process
pub const STACK_PAGES_PER_PROCESS: usize = 2;

/// End of the user part of an address space: code, stack and heap lie below
pub const USER_SPACE_END: u64 = 0x1_0000_0000;

/// Number of physical pages reserved for the page tables of a process
pub const TABLE_PAGES_PER_PROCESS: usize = 32;

/// Virtual address at which user code is loaded
pub const USERSPACE_VADDR_START: usize = 0xf000_0000;

/// Condition on which a process is blocked
#[derive(Copy, Clone, Debug, PartialEq, Eq, Structural)]
pub enum BlockCondition {
    /// Waiting on the death of some PID
    OnDeathOfPid(Pid),
    /// Waiting on a character from the UART with this interrupt
    OnUart(InterruptId),
    /// Waiting for this instant
    Until(Instant),
}

/// Process state
#[derive(Copy, Clone, Debug, PartialEq, Eq)]
pub enum ProcessState {
    /// Process is waiting to be run
    Ready,
    /// Process is running
    Running,
    /// Process has been terminated but not yet reaped
    Zombie(ProcessResult),
    /// Process is blocked on some condition
    Blocked(BlockCondition),
}

/// The `satp` value for a Sv39 address space with root table at physical
/// page `root_ppn` and address-space identifier `asid`
pub open spec fn satp_value(root_ppn: int, asid: int) -> int {
    8 * 0x1000_0000_0000_0000 + asid * 0x1000_0000_0000 + root_ppn
}

/// The value of `a1` that reports an exit result
pub open spec fn exit_code(res: ProcessResult) -> usize {
    match res {
        Ok(()) => 0,
        Err(_) => 1,
    }
}

/// Register-save area of a process
pub struct TrapFrame {
    /// General purpose registers
    pub regs: [usize; 32],
    /// Owning process
    pub pid: Option<Pid>,
    /// Address-translation register value of the owning process
    pub satp: u64,
}

impl TrapFrame {
    /// Get a register
    pub fn get_reg(&self, reg: Register) -> (r: usize)
        ensures
            r == self.regs@[register_index(reg) as int],
    {
        self.regs[reg.index()]
    }

    /// Set a register
    pub fn set_reg(&mut self, reg: Register, value: usize)
        ensures
            final(self).regs@ == old(self).regs@.update(register_index(reg) as int, value),
            final(self).pid == old(self).pid,
            final(self).satp == old(self).satp,
    {
        let i = reg.index();
        self.regs[i] = value;
    }

    /// The stack pointer
    pub fn stack_pointer(&self) -> (r: usize)
        ensures
            r == self.regs@[2],
    {
        self.get_reg(Register::StackPointer)
    }

    /// Set the stack pointer
    pub fn set_stack_pointer(&mut self, val: usize)
        ensures
            final(self).regs@ == old(self).regs@.update(2, val),
            final(self).pid == old(self).pid,
            final(self).satp == old(self).satp,
    {
        self.set_reg(Register::StackPointer, val)
    }

    /// Set the syscall return registers: `(value, 0)` on success, `(0, 1)` on failure
    pub fn set_return_value(&mut self, val: KernelResult<usize>)
        ensures
            final(self).regs@ == (match val {
                Ok(v) => old(self).regs@.update(10, v).update(11, 0),
                Err(_) => old(self).regs@.update(10, 0).update(11, 1),
            }),
            final(self).pid == old(self).pid,
            final(self).satp == old(self).satp,
    {
        match val {
            Ok(v) => {
                self.set_reg(Register::Arg0, v);
                self.set_reg(Register::Arg1, 0);
            },
            Err(_) => {
                self.set_reg(Register::Arg0, 0);
                self.set_reg(Register::Arg1, 1);
            },
        }
    }

    /// Set the return registers from a child's exit result: `(0, 0)` for
    /// success, `(0, 1)` for failure
    pub fn set_exit_value(&mut self, val: ProcessResult)
        ensures
            final(self).regs@ == old(self).regs@.update(10, 0).update(11, exit_code(val)),
            final(self).pid == old(self).pid,
            final(self).satp == old(self).satp,
    {
        self.set_reg(Register::Arg0, 0);
        if val.is_ok() {
            self.set_reg(Register::Arg1, 0);
        } else {
            self.set_reg(Register::Arg1, 1);
        }
    }
}

/// A range of kernel memory mapped into every address space
#[derive(Copy, Clone, Debug, PartialEq, Eq, Structural)]
pub struct KernelRange {
    pub vaddr: Sv39VirtualAddress,
    pub paddr: Sv39PhysicalAddress,
    pub size: usize,
}

/// The physical pages that hold a program's code; forked processes share them
#[derive(Copy, Clone, Debug, PartialEq, Eq, Structural)]
pub struct CodeRegion {
    pub paddr: Sv39PhysicalAddress,
    pub num_pages: usize,
}

/// Number of pages that hold `bytes` bytes
pub open spec fn pages_for(bytes: nat) -> nat {
    (bytes + 4095) / 4096
}

/// Number of pages that hold `bytes` bytes
pub fn num_pages_for(bytes: usize) -> (r: usize)
    ensures
        r == pages_for(bytes as nat),
{
    bytes / PAGE_SIZE + if bytes % PAGE_SIZE == 0 { 0 } else { 1 }
}

/// Virtual address of the first stack page of a process whose code has `code_pages` pages
pub open spec fn stack_bottom(code_pages: nat) -> nat {
    USERSPACE_VADDR_START as nat + (code_pages + 1) * 4096
}

/// Initial breakline: just past the guard page above the stack
pub open spec fn initial_breakline(code_pages: nat) -> nat {
    USERSPACE_VADDR_START as nat + (code_pages + 2 + STACK_PAGES_PER_PROCESS as nat) * 4096
}

/// A process
pub struct Process {
    pub pid: Pid,
    pub state: ProcessState,
    pub pc: usize,
    pub frame: TrapFrame,
    /// The current top of virtual memory; grows as the heap grows
    pub breakline: usize,
    pub code: CodeRegion,
    /// First physical page of the stack
    pub stack_paddr: Sv39PhysicalAddress,
    pub page_tables: PageTables,
    /// Contents of the stack pages
    pub stack: Vec<u8>,
    /// Characters delivered to the process and not yet read, oldest first
    pub stdin: Vec<char>,
    /// Heap allocations: first page and number of pages
    pub heap: Vec<(Sv39PhysicalAddress, usize)>,
}

/// The two processes agree on everything but their state and registers
pub open spec fn same_but_state(a: Process, b: Process) -> bool {
    &&& a.pid == b.pid
    &&& a.pc == b.pc
    &&& a.frame.pid == b.frame.pid
    &&& a.frame.satp == b.frame.satp
    &&& a.breakline == b.breakline
    &&& a.code == b.code
    &&& a.stack_paddr == b.stack_paddr
    &&& a.page_tables == b.page_tables
    &&& a.stack == b.stack
    &&& a.stdin == b.stdin
    &&& a.heap == b.heap
}

/// Nothing is mapped from the breakline to the end of the user space: the
/// heap can grow there, and a pointer past the heap finds no page
pub open spec fn heap_unmapped(p: &Process) -> bool {
    &&& p.page_tables.is_tree()
    &&& p.page_tables.slots_free(p.breakline as nat, USER_SPACE_END as nat)
    &&& p.breakline % 4096 == 0
}

/// A kernel range is well formed and clear of the user part of the address space
pub open spec fn kernel_range_ok(r: KernelRange) -> bool {
    &&& r.size > 0
    &&& r.size % 4096 == 0
    &&& r.vaddr@ % 4096 == 0
    &&& r.paddr@ % 4096 == 0
    &&& r.vaddr@ + r.size <= MAX_VIRTUAL_ADDRESS
    &&& r.paddr@ + r.size <= MAX_PHYSICAL_ADDRESS
    &&& (r.vaddr@ + r.size <= USERSPACE_VADDR_START || r.vaddr@ >= USER_SPACE_END)
}

/// Every kernel range is well formed and no two overlap
pub open spec fn kernel_ranges_ok(rs: Seq<KernelRange>) -> bool {
    &&& forall|i: int| 0 <= i < rs.len() ==> kernel_range_ok(#[trigger] rs[i])
    &&& forall|i: int, j: int|
        0 <= i < j < rs.len() ==> (#[trigger] rs[i]).vaddr@ + rs[i].size <= (#[trigger] rs[j]).vaddr@ || rs[j].vaddr@
            + rs[j].size <= rs[i].vaddr@
}

/// Number of pages the kernel ranges cover
pub open spec fn kernel_pages(rs: Seq<KernelRange>) -> nat
    decreases rs.len(),
{
    if rs.len() == 0 {
        0
    } else {
        kernel_pages(rs.drop_last()) + rs.last().size as nat / 4096
    }
}

proof fn lemma_kernel_pages_prefix(rs: Seq<KernelRange>, i: int)
    requires
        0 <= i <= rs.len(),
    ensures
        kernel_pages(rs.take(i)) <= kernel_pages(rs),
    decreases rs.len(),
{
    if i < rs.len() {
        assert(rs.drop_last().take(i) =~= rs.take(i));
        lemma_kernel_pages_prefix(rs.drop_last(), i);
    } else {
        assert(rs.take(i) =~= rs);
    }
}

/// Building a process cannot fail: the code is one to 4096 pages, pages are
/// aligned and in range, the kernel ranges are well formed, and the reserved
/// table pages hold two tables for every page mapped, plus the root
pub open spec fn process_fits(
    code: CodeRegion,
    stack_paddr: Sv39PhysicalAddress,
    root_ppn: u64,
    table_pages: usize,
    kernel: Seq<KernelRange>,
) -> bool {
    &&& 1 <= code.num_pages <= 0x1000
    &&& code.paddr@ % 4096 == 0
    &&& stack_paddr@ % 4096 == 0
    &&& code.paddr@ + code.num_pages * 4096 <= MAX_PHYSICAL_ADDRESS
    &&& stack_paddr@ + STACK_PAGES_PER_PROCESS * 4096 <= MAX_PHYSICAL_ADDRESS
    &&& root_ppn + table_pages <= MAX_PPN + 1
    &&& 1 + 2 * (code.num_pages + STACK_PAGES_PER_PROCESS + kernel_pages(kernel)) <= table_pages
    &&& kernel_ranges_ok(kernel)
}

/// The process's page `k` of code is mapped to page `k` of its code region
pub open spec fn code_mapped(p: &Process) -> bool {
    forall|k: nat| k < p.code.num_pages ==> #[trigger] p.page_tables.translate(USERSPACE_VADDR_START as nat + k * 4096)
        == Some(leaf_entry((p.code.paddr@ / 4096 + k) as u64, PageType::UserExecute))
}

impl Process {
    /// Build a process whose code is `code`, starting at `pc`, with its stack
    /// at the physical pages from `stack_paddr` and its page tables in the
    /// `table_pages` physical pages from `root_ppn`, the root first; the ranges
    /// in `kernel` are mapped too, so that the trap path runs in its address space
    pub fn with_code_and_pc(
        pid: Pid,
        code: CodeRegion,
        pc: usize,
        stack_paddr: Sv39PhysicalAddress,
        root_ppn: u64,
        table_pages: usize,
        kernel: &Vec<KernelRange>,
    ) -> (r: KernelResult<Process>)
        ensures
            r.is_ok() ==> ({
                let p = r.unwrap();
                &&& p.pid == pid
                &&& p.state == ProcessState::Ready
                &&& p.pc == pc
                &&& p.code == code
                &&& p.frame.pid == Some(pid)
                &&& p.frame.satp == satp_value(root_ppn as int, pid@ as int)
                &&& p.frame.regs@[2] == stack_bottom(code.num_pages as nat) + STACK_PAGES_PER_PROCESS * 4096
                &&& p.breakline == initial_breakline(code.num_pages as nat)
                &&& p.page_tables.wf()
                &&& p.page_tables.root_address() == root_ppn * 4096
                &&& code_mapped(&p)
                &&& forall|k: nat| k < STACK_PAGES_PER_PROCESS ==> #[trigger] p.page_tables.translate(stack_bottom(code.num_pages as nat) + k * 4096)
                    == Some(leaf_entry((stack_paddr@ / 4096 + k) as u64, PageType::UserReadWrite))
                &&& p.stack@.len() == STACK_PAGES_PER_PROCESS * 4096
                &&& forall|i: int| 0 <= i < p.stack@.len() ==> p.stack@[i] == 0
                &&& p.stdin@.len() == 0
                &&& p.heap@.len() == 0
                &&& heap_unmapped(&p)
                &&& p.page_tables.unmapped(
                    USERSPACE_VADDR_START as nat + code.num_pages as nat * 4096,
                    stack_bottom(code.num_pages as nat),
                )
            }),
            code.num_pages == 0 ==> r == Err::<Process, KernelError>(KernelError::InvalidArguments),
            process_fits(code, stack_paddr, root_ppn, table_pages, kernel@) ==> r.is_ok(),
    {
        let ghost fits = process_fits(code, stack_paddr, root_ppn, table_pages, kernel@);
        if code.num_pages == 0 || code.num_pages > 0x1000 {
            return Err(KernelError::InvalidArguments);
        }
        if table_pages == 0 || table_pages as u64 > MAX_PPN + 1 || root_ppn > MAX_PPN + 1 - table_pages as u64 {
            return Err(KernelError::OutOfMemory);
        }
        let mut tables = PageTables::new(root_ppn, table_pages);
        let ghost fresh = tables;
        let start = Sv39VirtualAddress::try_from(USERSPACE_VADDR_START)?;
        proof {
            if fits {
                lemma_kernel_pages_prefix(kernel@, 0);
                assert(map_range_fits(&fresh, start@, code.paddr@, (code.num_pages * PAGE_SIZE) as nat));
            }
        }
        let mut breakline = tables.map_range(start, code.paddr, PageType::UserExecute, code.num_pages * PAGE_SIZE)?;
        // Skip a page for the stack guard
        breakline = breakline.offset(4096)?;
        let ghost after_code = tables;
        let stack_start = breakline;
        proof {
            if fits {
                assert forall|va: nat| stack_start@ <= va < stack_start@ + STACK_PAGES_PER_PROCESS * 4096
                    implies !#[trigger] slot_in_use(after_code.entries_spec(), after_code.base_spec(), va) by {
                    assert(!slot_in_use(fresh.entries_spec(), fresh.base_spec(), va));
                }
                assert(map_range_fits(&after_code, stack_start@, stack_paddr@, (STACK_PAGES_PER_PROCESS * PAGE_SIZE) as nat));
            }
        }
        breakline = tables.map_range(stack_start, stack_paddr, PageType::UserReadWrite, STACK_PAGES_PER_PROCESS * PAGE_SIZE)?;
        let stack_top = breakline;
        // Skip a page for the heap guard
        breakline = breakline.offset(4096)?;
        let ghost after_stack = tables;
        let ghost user_lo = USERSPACE_VADDR_START as nat;
        let ghost guard_lo = user_lo + code.num_pages * 4096;
        let ghost heap_lo = initial_breakline(code.num_pages as nat);
        assert(stack_start@ == stack_bottom(code.num_pages as nat));
        assert(breakline@ == heap_lo);
        assert forall|va: nat| heap_lo <= va < USER_SPACE_END implies !#[trigger] slot_in_use(after_stack.entries_spec(), after_stack.base_spec(), va) by {
            assert(!slot_in_use(after_code.entries_spec(), after_code.base_spec(), va));
            assert(!slot_in_use(fresh.entries_spec(), fresh.base_spec(), va));
        }
        assert forall|va: nat| guard_lo <= va < stack_bottom(code.num_pages as nat) implies !#[trigger] slot_in_use(after_stack.entries_spec(), after_stack.base_spec(), va) by {
            assert(!slot_in_use(after_code.entries_spec(), after_code.base_spec(), va));
            assert(!slot_in_use(fresh.entries_spec(), fresh.base_spec(), va));
        }
        proof {
            if fits {
                assert forall|j: int, va: nat| #![trigger kernel@[j], slot_in_use(after_stack.entries_spec(), after_stack.base_spec(), va)] 0 <= j < kernel@.len() && kernel@[j].vaddr@ <= va < kernel@[j].vaddr@ + kernel@[j].size
                    implies !slot_in_use(after_stack.entries_spec(), after_stack.base_spec(), va) by {
                    assert(kernel_range_ok(kernel@[j]));
                    assert(!slot_in_use(after_code.entries_spec(), after_code.base_spec(), va));
                    assert(!slot_in_use(fresh.entries_spec(), fresh.base_spec(), va));
                }
                assert(kernel@.take(0) =~= Seq::<KernelRange>::empty());
            }
        }
        assert forall|k: nat| k < code.num_pages implies #[trigger] after_stack.translate(USERSPACE_VADDR_START as nat + k * 4096)
            == Some(leaf_entry((code.paddr@ / 4096 + k) as u64, PageType::UserExecute)) by {
            assert(after_code.translate(USERSPACE_VADDR_START as nat + k * 4096) is Some);
        }
        let mut i: usize = 0;
        while i < kernel.len()
            invariant
                code.num_pages > 0,
                code.num_pages <= 0x1000,
                tables.wf(),
                tables.is_tree(),
                tables.slots_free(initial_breakline(code.num_pages as nat), USER_SPACE_END as nat),
                tables.slots_free(USERSPACE_VADDR_START as nat + code.num_pages as nat * 4096, stack_bottom(code.num_pages as nat)),
                tables.root_address() == root_ppn * 4096,
                forall|va: nat| after_stack.translate(va) is Some ==> #[trigger] tables.translate(va) == after_stack.translate(va),
                i <= kernel@.len(),
                fits == process_fits(code, stack_paddr, root_ppn, table_pages, kernel@),
                tables.max_tables_spec() == table_pages,
                fits ==> forall|j: int, va: nat| #![trigger kernel@[j], slot_in_use(tables.entries_spec(), tables.base_spec(), va)] i <= j < kernel@.len() && kernel@[j].vaddr@ <= va < kernel@[j].vaddr@ + kernel@[j].size
                    ==> !slot_in_use(tables.entries_spec(), tables.base_spec(), va),
                fits ==> tables.entries_spec().len() / 512 <= 1 + 2 * (code.num_pages + STACK_PAGES_PER_PROCESS + kernel_pages(kernel@.take(i as int))),
            decreases kernel.len() - i,
        {
            let range = kernel[i];
            if range.size == 0 {
                return Err(KernelError::InvalidArguments);
            }
            // Kernel ranges stay clear of the user part of the address space
            let start_va = range.vaddr.to_u64();
            if start_va < USER_SPACE_END && (start_va >= USERSPACE_VADDR_START as u64 || range.size as u64
                > USERSPACE_VADDR_START as u64 - start_va) {
                return Err(KernelError::InvalidArguments);
            }
            let ghost before = tables;
            proof {
                if fits {
                    assert(kernel@.take(i + 1).drop_last() =~= kernel@.take(i as int));
                    lemma_kernel_pages_prefix(kernel@, i + 1);
                    assert(kernel_range_ok(kernel@[i as int]));
                    assert(map_range_fits(&before, range.vaddr@, range.paddr@, range.size as nat));
                }
            }
            tables.map_range(range.vaddr, range.paddr, PageType::Kernel, range.size)?;
            assert forall|va: nat| after_stack.translate(va) is Some implies #[trigger] tables.translate(va) == after_stack.translate(va) by {
                assert(before.translate(va) == after_stack.translate(va));
            }
            assert forall|va: nat| initial_breakline(code.num_pages as nat) <= va < USER_SPACE_END
                implies !#[trigger] slot_in_use(tables.entries_spec(), tables.base_spec(), va) by {
                assert(!slot_in_use(before.entries_spec(), before.base_spec(), va));
            }
            assert forall|va: nat| USERSPACE_VADDR_START as nat + code.num_pages as nat * 4096 <= va < stack_bottom(code.num_pages as nat)
                implies !#[trigger] slot_in_use(tables.entries_spec(), tables.base_spec(), va) by {
                assert(!slot_in_use(before.entries_spec(), before.base_spec(), va));
            }
            proof {
                if fits {
                    assert forall|j: int, va: nat| #![trigger kernel@[j], slot_in_use(tables.entries_spec(), tables.base_spec(), va)] i + 1 <= j < kernel@.len() && kernel@[j].vaddr@ <= va < kernel@[j].vaddr@ + kernel@[j].size
                        implies !slot_in_use(tables.entries_spec(), tables.base_spec(), va) by {
                        assert(!slot_in_use(before.entries_spec(), before.base_spec(), va));
                        assert(kernel_range_ok(kernel@[j]));
                    }
                }
            }
            i = i + 1;
        }
        assert forall|va: nat| USERSPACE_VADDR_START as nat + code.num_pages as nat * 4096 <= va < stack_bottom(code.num_pages as nat)
            implies #[trigger] tables.translate(va) is None by {
            if tables.translate(va) is Some {
                lemma_mapped_slot_in_use(tables.entries_spec(), tables.base_spec(), va);
            }
        }
        let satp: u64 = 8 * 0x1000_0000_0000_0000 + (pid.as_u16() as u64) * 0x1000_0000_0000 + root_ppn;
        let mut frame = TrapFrame { regs: [0usize; 32], pid: Some(pid), satp };
        frame.set_stack_pointer(stack_top.to_usize());
        let mut stack: Vec<u8> = Vec::new();
        let mut j: usize = 0;
        while j < STACK_PAGES_PER_PROCESS * PAGE_SIZE
            invariant
                j <= STACK_PAGES_PER_PROCESS * PAGE_SIZE,
                stack@.len() == j,
                forall|k: int| 0 <= k < j ==> stack@[k] == 0,
            decreases STACK_PAGES_PER_PROCESS * PAGE_SIZE - j,
        {
            stack.push(0);
            j = j + 1;
        }
        let p = Process {
            pid,
            state: ProcessState::Ready,
            pc,
            frame,
            breakline: breakline.to_usize(),
            code,
            stack_paddr,
            page_tables: tables,
            stack,
            stdin: Vec::new(),
            heap: Vec::new(),
        };
        Ok(p)
    }

    /// Switch process to ready
    pub fn pause(&mut self)
        ensures
            same_but_state(*final(self), *old(self)),
            final(self).frame.regs == old(self).frame.regs,
            final(self).state == ProcessState::Ready,
            final(self).pid == old(self).pid,
            final(self).pc == old(self).pc,
            final(self).frame == old(self).frame,
            final(self).breakline == old(self).breakline,
    {
        self.state = ProcessState::Ready;
    }

    /// Switch process to running; returns the `satp` value to load
    pub fn switch(&mut self) -> (r: u64)
        ensures
            same_but_state(*final(self), *old(self)),
            final(self).frame.regs == old(self).frame.regs,
            final(self).state == ProcessState::Running,
            r == old(self).frame.satp,
            final(self).pid == old(self).pid,
            final(self).pc == old(self).pc,
            final(self).frame == old(self).frame,
            final(self).breakline == old(self).breakline,
    {
        self.state = ProcessState::Running;
        self.frame.satp
    }

    /// Terminate the process with `res`
    pub fn exit(&mut self, res: ProcessResult) -> (r: KernelResult<()>)
        ensures
            same_but_state(*final(self), *old(self)),
            final(self).frame.regs == old(self).frame.regs,
            r.is_ok(),
            final(self).state == ProcessState::Zombie(res),
            final(self).pid == old(self).pid,
            final(self).frame == old(self).frame,
    {
        self.state = ProcessState::Zombie(res);
        Ok(())
    }

    /// Return true if blocked
    pub fn is_blocked(&self) -> (r: bool)
        ensures
            r == (self.state is Blocked),
    {
        match self.state {
            ProcessState::Blocked(_) => true,
            _ => false,
        }
    }

    /// Block process on some condition
    pub fn block(&mut self, condition: BlockCondition)
        ensures
            same_but_state(*final(self), *old(self)),
            final(self).frame.regs == old(self).frame.regs,
            final(self).state == ProcessState::Blocked(condition),
            final(self).pid == old(self).pid,
            final(self).pc == old(self).pc,
            final(self).frame == old(self).frame,
            final(self).breakline == old(self).breakline,
    {
        self.pause();
        self.state = ProcessState::Blocked(condition);
    }

    /// Unblock process
    pub fn unblock(&mut self)
        requires
            old(self).state is Blocked,
        ensures
            same_but_state(*final(self), *old(self)),
            final(self).frame.regs == old(self).frame.regs,
            final(self).state == ProcessState::Ready,
            final(self).pid == old(self).pid,
            final(self).pc == old(self).pc,
            final(self).frame == old(self).frame,
            final(self).breakline == old(self).breakline,
    {
        self.state = ProcessState::Ready;
    }

    /// Get the heap breakline
    pub fn breakline(&self) -> (r: usize)
        ensures
            r == self.breakline,
    {
        self.breakline
    }

    /// Grow the heap by the pages needed for `bytes` bytes, which the caller
    /// has allocated from `pages`: they are mapped read-write at the
    /// breakline. Returns the new breakline; zero bytes leave it unchanged.
    pub fn request_memory(&mut self, bytes: usize, pages: Sv39PhysicalAddress) -> (r: KernelResult<usize>)
        requires
            old(self).page_tables.wf(),
        ensures
            final(self).page_tables.wf(),
            final(self).pid == old(self).pid,
            final(self).state == old(self).state,
            final(self).frame == old(self).frame,
            bytes == 0 ==> r == Ok::<usize, KernelError>(old(self).breakline) && final(self).breakline == old(self).breakline,
            r.is_ok() ==> final(self).breakline == r.unwrap(),
            r.is_ok() && bytes > 0 ==> r.unwrap() == old(self).breakline + pages_for(bytes as nat) * 4096,
            r.is_ok() && bytes > 0 ==> forall|k: nat| k < pages_for(bytes as nat) ==> #[trigger] final(self).page_tables.translate(
                old(self).breakline as nat + k * 4096) == Some(leaf_entry((pages@ / 4096 + k) as u64, PageType::UserReadWrite)),
            r.is_err() ==> final(self).breakline == old(self).breakline,
            forall|va: nat| old(self).page_tables.translate(va) is Some ==> #[trigger] final(self).page_tables.translate(va)
                == old(self).page_tables.translate(va),
            heap_unmapped(old(self)) ==> heap_unmapped(final(self)),
            bytes > 0 && old(self).breakline + pages_for(bytes as nat) * 4096 > USER_SPACE_END ==> r.is_err(),
            bytes > 0 && old(self).breakline + pages_for(bytes as nat) * 4096 <= USER_SPACE_END && heap_unmapped(old(self))
                && old(self).breakline + pages_for(bytes as nat) * 4096 <= usize::MAX
                && pages@ % 4096 == 0 && pages@ + pages_for(bytes as nat) * 4096 <= MAX_PHYSICAL_ADDRESS
                && old(self).page_tables.entries_spec().len() / 512 + 2 * pages_for(bytes as nat) <= old(self).page_tables.max_tables_spec()
                ==> r.is_ok(),
    {
        if bytes == 0 {
            return Ok(self.breakline);
        }
        let num_pages = num_pages_for(bytes);
        if num_pages > usize::MAX / PAGE_SIZE || self.breakline > usize::MAX - num_pages * PAGE_SIZE {
            return Err(KernelError::InvalidArguments);
        }
        // No overcommit: the heap stays inside the user part of the address space
        if (self.breakline + num_pages * PAGE_SIZE) as u64 > USER_SPACE_END {
            return Err(KernelError::OutOfMemory);
        }
        // Every page may need two new tables: fail before mapping anything
        let tables = self.page_tables.num_tables();
        let room = self.page_tables.max_tables();
        if tables > room || num_pages > (room - tables) / 2 {
            return Err(KernelError::OutOfMemory);
        }
        if pages.to_u64() > MAX_PHYSICAL_ADDRESS || (num_pages * PAGE_SIZE) as u64 > MAX_PHYSICAL_ADDRESS - pages.to_u64() {
            return Err(KernelError::InvalidArguments);
        }
        if !pages.is_page_aligned() {
            return Err(KernelError::AddressNotPageAligned(pages.to_usize()));
        }
        let start = Sv39VirtualAddress::try_from(self.breakline)?;
        assert((num_pages * 4096) / 4096 == num_pages) by (nonlinear_arith);
        proof {
            if heap_unmapped(old(self)) {
                assert forall|va: nat| start@ <= va < start@ + num_pages * 4096
                    implies !#[trigger] slot_in_use(old(self).page_tables.entries_spec(), old(self).page_tables.base_spec(), va) by {
                }
                assert(old(self).page_tables.is_tree());
                assert((num_pages * 4096) % 4096 == 0) by (nonlinear_arith);
                assert(start@ + num_pages * 4096 <= MAX_VIRTUAL_ADDRESS);
                assert(pages@ + num_pages * 4096 <= MAX_PHYSICAL_ADDRESS);
                assert(old(self).page_tables.entries_spec().len() / 512 + 2 * ((num_pages * 4096) / 4096) <= old(self).page_tables.max_tables_spec());
                assert(map_range_fits(&old(self).page_tables, start@, pages@, (num_pages * PAGE_SIZE) as nat));
            }
        }
        let next = self.page_tables.map_range(start, pages, PageType::UserReadWrite, num_pages * PAGE_SIZE)?;
        assert forall|k: nat| k < pages_for(bytes as nat) implies #[trigger] self.page_tables.translate(
            old(self).breakline as nat + k * 4096) == Some(leaf_entry((pages@ / 4096 + k) as u64, PageType::UserReadWrite)) by {
            assert(k < (num_pages * 4096) / 4096);
            assert(self.page_tables.translate(start@ + k * 4096) == Some(leaf_entry((pages@ / 4096 + k) as u64, PageType::UserReadWrite)));
        }
        proof {
            if heap_unmapped(old(self)) {
                assert forall|va: nat| next@ <= va < USER_SPACE_END
                    implies !#[trigger] slot_in_use(self.page_tables.entries_spec(), self.page_tables.base_spec(), va) by {
                    assert(!slot_in_use(old(self).page_tables.entries_spec(), old(self).page_tables.base_spec(), va));
                }
            }
        }
        proof {
            if heap_unmapped(old(self)) {
                assert(next@ % 4096 == 0) by (nonlinear_arith)
                    requires next@ == start@ + num_pages * 4096, start@ % 4096 == 0;
            }
        }
        self.breakline = next.to_usize();
        self.heap.push((pages, num_pages));
        Ok(self.breakline)
    }

    /// Fork this process: the child, with PID `child_pid`, shares the code,
    /// gets a copy of the stack, the registers and the program counter, and
    /// starts ready
    pub fn fork(&self, child_pid: Pid, stack_paddr: Sv39PhysicalAddress, root_ppn: u64, table_pages: usize, kernel: &Vec<KernelRange>) -> (r: KernelResult<Process>)
        ensures
            r.is_ok() ==> ({
                let c = r.unwrap();
                &&& c.pid == child_pid
                &&& c.state == ProcessState::Ready
                &&& c.pc == self.pc
                &&& c.code == self.code
                &&& c.frame.regs == self.frame.regs
                &&& c.frame.pid == Some(child_pid)
                &&& c.frame.satp == satp_value(root_ppn as int, child_pid@ as int)
                &&& c.stack@ == self.stack@
                &&& c.breakline == initial_breakline(self.code.num_pages as nat)
                &&& c.page_tables.wf()
                &&& code_mapped(&c)
                &&& heap_unmapped(&c)
                &&& c.stdin@.len() == 0
            }),
            process_fits(self.code, stack_paddr, root_ppn, table_pages, kernel@) ==> r.is_ok(),
    {
        let mut child = Process::with_code_and_pc(child_pid, self.code, self.pc, stack_paddr, root_ppn, table_pages, kernel)?;
        // Copy over registers
        child.frame.regs = self.frame.regs;
        // Copy stack
        let mut stack: Vec<u8> = Vec::new();
        let mut i: usize = 0;
        while i < self.stack.len()
            invariant
                i <= self.stack@.len(),
                stack@ == self.stack@.subrange(0, i as int),
            decreases self.stack@.len() - i,
        {
            stack.push(self.stack[i]);
            assert(stack@ =~= self.stack@.subrange(0, i + 1));
            i = i + 1;
        }
        assert(stack@ =~= self.stack@);
        child.stack = stack;
        Ok(child)
    }

    /// Deliver a character to the process's standard input
    pub fn push_stdin(&mut self, c: char)
        ensures
            final(self).stdin@ == old(self).stdin@.push(c),
            final(self).pid == old(self).pid,
            final(self).state == old(self).state,
            final(self).frame == old(self).frame,
    {
        self.stdin.push(c);
    }

    /// Take the oldest character from the process's standard input
    pub fn pop_stdin(&mut self) -> (r: Option<char>)
        ensures
            old(self).stdin@.len() == 0 ==> r.is_none() && final(self).stdin@ == old(self).stdin@,
            old(self).stdin@.len() > 0 ==> r == Some(old(self).stdin@[0]) && final(self).stdin@ == old(self).stdin@.drop_first(),
            final(self).pid == old(self).pid,
            final(self).state == old(self).state,
            final(self).frame == old(self).frame,
    {
        if self.stdin.len() == 0 {
            return None;
        }
        Some(self.stdin.remove(0))
    }
}

/// Bit of hart `h` in a set of harts
pub open spec fn hart_bit(h: nat) -> u32 {
    (1u32 << h) as u32
}

/// The harts whose kernel trap frame has been set up; each is set up once
pub struct KernelFrames {
    pub harts_set: u32,
}

impl KernelFrames {
    /// No hart set up yet
    pub fn new() -> (r: KernelFrames)
        ensures
            r.harts_set == 0,
    {
        KernelFrames { harts_set: 0 }
    }

    /// The kernel trap frame of `hart`, whose address space is `satp`; fails
    /// if that hart already has one
    pub fn set_kernel_trap_frame(&mut self, hart: crate::cpu::HartId, satp: u64, stack_pointer: usize, global_pointer: usize) -> (r: KernelResult<TrapFrame>)
        requires
            hart.id < 32,
        ensures
            old(self).harts_set & hart_bit(hart.id as nat) != 0 ==> r.is_err() && final(self).harts_set == old(self).harts_set,
            old(self).harts_set & hart_bit(hart.id as nat) == 0 ==> r.is_ok() && final(self).harts_set == old(self).harts_set
                | hart_bit(hart.id as nat),
            r.is_ok() ==> ({
                let f = r.unwrap();
                &&& f.pid.is_none()
                &&& f.satp == satp
                &&& f.regs@[2] == stack_pointer
                &&& f.regs@[3] == global_pointer
            }),
    {
        let bit: u32 = 1u32 << (hart.id as u32);
        if self.harts_set & bit != 0 {
            return Err(KernelError::InvalidArguments);
        }
        self.harts_set = self.harts_set | bit;
        let mut frame = TrapFrame { regs: [0usize; 32], pid: None, satp };
        frame.set_stack_pointer(stack_pointer);
        frame.set_reg(Register::GlobalPointer, global_pointer);
        Ok(frame)
    }
}

/// `addr` lies in the guard page just below the stack that starts at `stack_bottom`
pub open spec fn in_stack_guard(addr: int, stack_bottom: int) -> bool {
    stack_bottom - 4096 <= addr < stack_bottom
}

/// Has the stack overflowed into its guard page?
pub fn check_for_stack_overflow(addr: usize, stack_bottom: usize) -> (r: bool)
    ensures
        r == in_stack_guard(addr as int, stack_bottom as int),
{
    stack_bottom >= PAGE_SIZE && addr >= stack_bottom - PAGE_SIZE && addr < stack_bottom || stack_bottom < PAGE_SIZE
        && addr < stack_bottom
}

/// A user pointer to the first page past a process's heap finds no page, so
/// the user-only walk fails with `NotMapped`
pub proof fn lemma_pointer_past_heap_unmapped(p: &Process)
    requires
        heap_unmapped(p),
        p.breakline < USER_SPACE_END,
    ensures
        p.page_tables.translate(p.breakline as nat) is None,
{
    if p.page_tables.translate(p.breakline as nat) is Some {
        lemma_mapped_slot_in_use(p.page_tables.entries_spec(), p.page_tables.base_spec(), p.breakline as nat);
    }
}

} // verus!
