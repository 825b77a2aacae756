use krabby::abi::Pid;
use krabby::cpu::{HartId, InterruptId};
use krabby::errors::KernelError;
use krabby::mmu::{KernelLayout, PageTables, PageType, Sv39PhysicalAddress, Sv39VirtualAddress};
use krabby::process::{
    check_for_stack_overflow, BlockCondition, KernelFrames, ProcessState, USERSPACE_VADDR_START,
};
use krabby::scheduler::Decision;
use krabby::syscalls::{Kernel, TrapCause};
use krabby::timer::{Duration, Instant};

const HEAP_PPN: u64 = 0x80000;

fn kernel() -> Kernel {
    Kernel::new(
        4096,
        HEAP_PPN,
        1024,
        Vec::new(),
        Some(InterruptId { id: 10 }),
        Duration::new(0, 100_000_000),
    )
}

fn index_of(k: &Kernel, pid: Pid) -> usize {
    k.scheduler.find(pid).unwrap()
}

#[test]
fn process_init() {
    let mut k = kernel();
    let (pid, code) = k.spawn(4096, 0).unwrap();
    assert_eq!(pid.as_u16(), 1);
    assert_eq!(code.to_u64(), HEAP_PPN * 4096);
    let decision = k.scheduler.switch_processes(HartId::zero(), k.clock.now());
    // code page, two stack pages, then the root table
    let root_ppn = HEAP_PPN + 3;
    let satp = (8u64 << 60) | (1u64 << 44) | root_ppn;
    assert_eq!(
        decision,
        Decision::Run { pid, pc: USERSPACE_VADDR_START, satp }
    );
    let p = &k.scheduler.processes[0];
    assert_eq!(p.state, ProcessState::Running);
    assert_eq!(p.frame.satp, satp);
    assert_eq!(p.page_tables.root_table_address().to_u64(), root_ppn * 4096);
    // The code is mapped executable at the user base
    let pa = p.page_tables.user_vaddr_to_paddr(USERSPACE_VADDR_START + 5).unwrap();
    assert_eq!(pa.to_u64(), HEAP_PPN * 4096 + 5);
}

#[test]
fn fork_and_wait() {
    let mut k = kernel();
    let (parent, _) = k.spawn(4096, 0).unwrap();
    k.scheduler.switch_processes(HartId::zero(), k.clock.now());
    k.scheduler.processes[0].stack[17] = 0xab;

    k.syscall_handler(parent, 5, [0; 7]).unwrap();
    let child = Pid::try_from(2).unwrap();
    let p = &k.scheduler.processes[index_of(&k, parent)];
    assert_eq!(p.frame.regs[10], 2);
    assert_eq!(p.frame.regs[11], 0);
    let c = &k.scheduler.processes[index_of(&k, child)];
    assert_eq!(c.frame.regs[10], 0);
    assert_eq!(c.frame.regs[11], 0);
    assert_eq!(c.state, ProcessState::Ready);
    assert_eq!(c.stack, k.scheduler.processes[index_of(&k, parent)].stack);
    assert_eq!(c.stack[17], 0xab);

    k.syscall_handler(parent, 7, [2, 0, 0, 0, 0, 0, 0]).unwrap();
    assert_eq!(
        k.scheduler.processes[index_of(&k, parent)].state,
        ProcessState::Blocked(BlockCondition::OnDeathOfPid(child))
    );

    k.syscall_handler(child, 6, [0; 7]).unwrap();
    assert_eq!(
        k.scheduler.processes[index_of(&k, child)].state,
        ProcessState::Zombie(Ok(()))
    );

    k.scheduler.reap(k.clock.now());
    assert_eq!(k.scheduler.processes.len(), 1);
    let p = &k.scheduler.processes[0];
    assert_eq!(p.pid, parent);
    assert_eq!(p.state, ProcessState::Ready);
    assert_eq!((p.frame.regs[10], p.frame.regs[11]), (0, 0));

    // The child is gone: waiting on it again fails at once
    k.syscall_handler(parent, 7, [2, 0, 0, 0, 0, 0, 0]).unwrap_err();
    let p = &k.scheduler.processes[0];
    assert_eq!(p.state, ProcessState::Ready);
    assert_eq!((p.frame.regs[10], p.frame.regs[11]), (0, 1));
}

#[test]
fn failed_exit_is_delivered() {
    let mut k = kernel();
    let (parent, _) = k.spawn(4096, 0).unwrap();
    k.syscall_handler(parent, 5, [0; 7]).unwrap();
    let child = Pid::try_from(2).unwrap();
    k.syscall_handler(child, 6, [0, 1, 0, 0, 0, 0, 0]).unwrap();
    k.syscall_handler(parent, 7, [2, 0, 0, 0, 0, 0, 0]).unwrap();
    let decision = k.scheduler.switch_processes(HartId::zero(), k.clock.now());
    assert!(matches!(decision, Decision::Run { pid, .. } if pid == parent));
    let p = &k.scheduler.processes[0];
    assert_eq!((p.frame.regs[10], p.frame.regs[11]), (0, 1));
}

#[test]
fn sleep() {
    let mut k = kernel();
    let (pid, _) = k.spawn(4096, 0).unwrap();
    k.scheduler.switch_processes(HartId::zero(), k.clock.now());
    assert_eq!(k.clock.now(), Instant { nanos: 0 });
    k.syscall_handler(pid, 8, [0, 100_000_000, 0, 0, 0, 0, 0]).unwrap();
    assert_eq!(
        k.scheduler.processes[0].state,
        ProcessState::Blocked(BlockCondition::Until(Instant { nanos: 100_000_000 }))
    );
    // Not yet
    assert_eq!(
        k.scheduler.switch_processes(HartId::zero(), Instant { nanos: 99_999_999 }),
        Decision::Idle
    );
    k.clock.tick().unwrap();
    assert_eq!(k.clock.now(), Instant { nanos: 100_000_000 });
    let decision = k.scheduler.switch_processes(HartId::zero(), k.clock.now());
    assert!(matches!(decision, Decision::Run { .. }));
    assert_eq!(k.scheduler.processes[0].state, ProcessState::Running);
}

#[test]
fn timer_trap_ticks_and_reschedules() {
    let mut k = kernel();
    let (a, _) = k.spawn(4096, 0).unwrap();
    let (b, _) = k.spawn(4096, 0).unwrap();
    let (first, _) = k.handle_trap(TrapCause::Timer, a, 0, 0, [0; 7], &Vec::new());
    let (second, _) = k.handle_trap(TrapCause::Timer, a, 0, 0, [0; 7], &Vec::new());
    assert_eq!(k.clock.now().nanos, 200_000_000);
    let pids: Vec<Pid> = [first, second]
        .iter()
        .map(|d| match d {
            Decision::Run { pid, .. } => *pid,
            Decision::Idle => panic!("idle"),
        })
        .collect();
    assert_ne!(pids[0], pids[1]);
    assert!(pids.contains(&a) && pids.contains(&b));
}

#[test]
fn unmapped_user_pointer() {
    let mut k = kernel();
    let (pid, _) = k.spawn(4096, 0).unwrap();
    k.scheduler.switch_processes(HartId::zero(), k.clock.now());
    // The stack guard sits right after the single code page
    let guard = USERSPACE_VADDR_START + 4096 + 8;
    k.syscall_handler(pid, 3, [guard, 1, 0, 0, 0, 0, 0]).unwrap_err();
    let p = &k.scheduler.processes[0];
    assert_eq!((p.frame.regs[10], p.frame.regs[11]), (0, 1));
    assert_eq!(p.state, ProcessState::Running);
    // A pointer into the stack is fine
    let stack = USERSPACE_VADDR_START + 2 * 4096;
    k.syscall_handler(pid, 3, [stack, 10, 0, 0, 0, 0, 0]).unwrap();
    assert_eq!(k.user_output.len(), 1);
    assert_eq!(k.user_output[0].len, 10);
}

#[test]
fn uart_character_delivery() {
    let mut k = kernel();
    let (pid, _) = k.spawn(4096, 0).unwrap();
    k.scheduler.switch_processes(HartId::zero(), k.clock.now());
    k.syscall_handler(pid, 2, [0; 7]).unwrap();
    assert_eq!(
        k.scheduler.processes[0].state,
        ProcessState::Blocked(BlockCondition::OnUart(InterruptId { id: 10 }))
    );
    k.on_uart_interrupt(InterruptId { id: 10 }, &vec!['x']);
    let p = &k.scheduler.processes[0];
    assert_eq!(p.state, ProcessState::Ready);
    assert_eq!((p.frame.regs[10], p.frame.regs[11]), ('x' as usize, 0));
    assert!(k.uart_pending.is_empty());
}

#[test]
fn getchar_reads_stdin_in_order() {
    let mut k = kernel();
    let (pid, _) = k.spawn(4096, 0).unwrap();
    k.scheduler.processes[0].push_stdin('a');
    k.scheduler.processes[0].push_stdin('b');
    k.syscall_handler(pid, 2, [0; 7]).unwrap();
    assert_eq!(k.scheduler.processes[0].frame.regs[10], 'a' as usize);
    k.syscall_handler(pid, 2, [0; 7]).unwrap();
    assert_eq!(k.scheduler.processes[0].frame.regs[10], 'b' as usize);
}

#[test]
fn request_memory_grows_heap() {
    let mut k = kernel();
    let (pid, _) = k.spawn(4096, 0).unwrap();
    let start = k.scheduler.processes[0].breakline();
    assert_eq!(start, USERSPACE_VADDR_START + 5 * 4096);
    k.syscall_handler(pid, 9, [0; 7]).unwrap();
    assert_eq!(k.scheduler.processes[0].frame.regs[10], start);
    assert_eq!(k.scheduler.processes[0].breakline(), start);
    // The first page past the heap is not mapped
    let tables = &k.scheduler.processes[0].page_tables;
    assert_eq!(tables.user_vaddr_to_paddr(start), Err(KernelError::NotMapped(start)));

    k.syscall_handler(pid, 9, [5000, 0, 0, 0, 0, 0, 0]).unwrap();
    let next = start + 2 * 4096;
    assert_eq!(k.scheduler.processes[0].frame.regs[10], next);
    assert_eq!(k.scheduler.processes[0].breakline(), next);
    let tables = &k.scheduler.processes[0].page_tables;
    assert!(tables.user_vaddr_to_paddr(start + 4096 + 7).is_ok());
    assert_eq!(tables.user_vaddr_to_paddr(next), Err(KernelError::NotMapped(next)));
}

#[test]
fn invalid_syscalls() {
    let mut k = kernel();
    let (pid, _) = k.spawn(4096, 0).unwrap();
    assert_eq!(k.syscall_inner(pid, 0, [0; 7]), Err(KernelError::InvalidSyscall(0)));
    assert_eq!(k.syscall_inner(pid, 99, [0; 7]), Err(KernelError::InvalidSyscall(99)));
    let ghost = Pid::try_from(77).unwrap();
    assert_eq!(k.syscall_inner(ghost, 4, [0; 7]), Err(KernelError::ProcessNotFound(ghost)));
    assert_eq!(
        k.syscall_inner(pid, 4, [0; 7]),
        Ok(krabby::syscalls::SyscallResult::Value(1))
    );
    assert_eq!(
        k.syscall_inner(pid, 1, [0xD800, 0, 0, 0, 0, 0, 0]),
        Err(KernelError::InvalidArguments)
    );
    assert_eq!(
        k.syscall_inner(pid, 1, ['\u{e9}' as usize, 0, 0, 0, 0, 0, 0]),
        Ok(krabby::syscalls::SyscallResult::Success)
    );
    assert_eq!(k.console, vec!['\u{e9}']);
    assert_eq!(
        k.syscall_inner(pid, 8, [0, 1 << 40, 0, 0, 0, 0, 0]),
        Err(KernelError::InvalidArguments)
    );
    assert_eq!(
        k.syscall_inner(pid, 10, [0; 7]),
        Ok(krabby::syscalls::SyscallResult::Success)
    );
    assert!(k.power_off);
}

#[test]
fn faulting_process_is_terminated() {
    let mut k = kernel();
    let (a, _) = k.spawn(4096, 0).unwrap();
    let (b, _) = k.spawn(4096, 0).unwrap();
    let (decision, _) = k.handle_trap(TrapCause::Other, a, 0, 0, [0; 7], &Vec::new());
    assert_eq!(k.scheduler.processes.len(), 1);
    assert!(matches!(decision, Decision::Run { pid, .. } if pid == b));
}

#[test]
fn ecall_advances_pc() {
    let mut k = kernel();
    let (pid, _) = k.spawn(4096, 0).unwrap();
    let (decision, err) =
        k.handle_trap(TrapCause::UserEnvCall, pid, USERSPACE_VADDR_START + 8, 4, [0; 7], &Vec::new());
    assert_eq!(err, None);
    assert!(matches!(decision, Decision::Run { pc, .. } if pc == USERSPACE_VADDR_START + 12));
    assert_eq!(k.scheduler.processes[0].frame.regs[10], 1);
}

#[test]
fn map_then_translate() {
    let mut t = PageTables::new(0x100, 16);
    let va = Sv39VirtualAddress::try_from(0x4000_2000).unwrap();
    let pa = Sv39PhysicalAddress::try_from(0x8765_4000).unwrap();
    assert_eq!(t.vaddr_to_paddr(0x4000_2000), Err(KernelError::NotMapped(0x4000_2000)));
    t.map_page(va, pa, PageType::UserReadOnly).unwrap();
    assert_eq!(t.vaddr_to_paddr(0x4000_2000).unwrap(), pa);
    assert_eq!(t.vaddr_to_paddr(0x4000_2abc).unwrap().to_u64(), 0x8765_4abc);
    // Mapping the same page again fails
    assert_eq!(
        t.map_page(va, pa, PageType::Kernel),
        Err(KernelError::AlreadyMapped(0x4000_2000))
    );
    // Misaligned addresses are refused
    let odd = Sv39VirtualAddress::try_from(0x4000_3001).unwrap();
    assert_eq!(
        t.map_page(odd, pa, PageType::Kernel),
        Err(KernelError::AddressNotPageAligned(0x4000_3001))
    );
    // A kernel page is refused on the user path
    let kva = Sv39VirtualAddress::try_from(0x5000_0000).unwrap();
    t.map_page(kva, pa, PageType::Kernel).unwrap();
    assert!(t.vaddr_to_paddr(0x5000_0000).is_ok());
    assert_eq!(t.user_vaddr_to_paddr(0x5000_0000), Err(KernelError::ForbiddenPage));
}

#[test]
fn map_range_returns_next_address() {
    let mut t = PageTables::new(0x100, 16);
    let va = Sv39VirtualAddress::try_from(0x1000).unwrap();
    let pa = Sv39PhysicalAddress::try_from(0x20_0000).unwrap();
    let next = t.map_range(va, pa, PageType::UserReadWrite, 3 * 4096).unwrap();
    assert_eq!(next.to_usize(), 0x4000);
    for k in 0..3 {
        assert_eq!(
            t.vaddr_to_paddr(0x1000 + k * 4096).unwrap().to_u64(),
            0x20_0000 + k as u64 * 4096
        );
    }
    assert!(t.vaddr_to_paddr(0x4000).is_err());
    assert_eq!(
        t.map_range(va, pa, PageType::UserReadWrite, 100),
        Err(KernelError::SizeMisaligned(100))
    );
}

#[test]
fn address_round_trips() {
    for x in [0usize, 0x1000, 0x7f_ffff_ffff] {
        let v = Sv39VirtualAddress::try_from(x).unwrap();
        assert_eq!(Sv39VirtualAddress::try_from(v.to_usize()), Ok(v));
    }
    assert_eq!(
        Sv39VirtualAddress::try_from(0x80_0000_0000),
        Err(KernelError::InvalidVirtualAddress(0x80_0000_0000))
    );
    for x in [0usize, 0xdead_beef, 0xff_ffff_ffff_ffff] {
        let p = Sv39PhysicalAddress::try_from(x).unwrap();
        assert_eq!(Sv39PhysicalAddress::try_from(p.to_usize()), Ok(p));
    }
    assert!(Sv39PhysicalAddress::try_from(1 << 56).is_err());
    let p = Sv39PhysicalAddress::try_from(0xdead_beef).unwrap();
    assert_eq!(p.ppn(), 0xdeadb);
    assert_eq!(p.to_vaddr_with_pmo(0x1000).unwrap().to_usize(), 0xdead_aeef);
    let v = Sv39VirtualAddress::try_from(0xdead_beef).unwrap();
    assert_eq!(v.vpn(0), 0xdb);
    assert_eq!(v.page_offset(), 0xeef);
    assert_eq!(v.offset(-0xeef).unwrap().to_usize(), 0xdead_b000);
    assert!(v.offset(-0xdead_bef0).is_err());
}

#[test]
fn kernel_frames_once_per_hart() {
    let mut frames = KernelFrames::new();
    let f = frames.set_kernel_trap_frame(HartId::zero(), 0x8000_0000_0008_0000, 0x8020_0000, 0x8000_1000).unwrap();
    assert_eq!(f.pid, None);
    assert_eq!(f.regs[2], 0x8020_0000);
    assert_eq!(f.regs[3], 0x8000_1000);
    assert_eq!(frames.harts_set, 1);
    assert!(frames.set_kernel_trap_frame(HartId::zero(), 0, 0, 0).is_err());
    assert!(frames.set_kernel_trap_frame(HartId::from_u16(3), 0, 0, 0).is_ok());
    assert_eq!(frames.harts_set, 0b1001);
}

#[test]
fn stack_guard_detection() {
    assert!(check_for_stack_overflow(0x8000_0ff8, 0x8000_1000));
    assert!(check_for_stack_overflow(0x8000_0000, 0x8000_1000));
    assert!(!check_for_stack_overflow(0x8000_1000, 0x8000_1000));
    assert!(!check_for_stack_overflow(0x7fff_ffff, 0x8000_1000));
}

#[test]
fn kernel_space_and_devices() {
    let mut t = PageTables::new(0x200, 16);
    let layout = KernelLayout {
        kernel_start: 0x8020_0000,
        table_heap_top: 0x8020_3000,
        stack_bottom: 0x8040_0000,
        stack_top: 0x8040_2000,
    };
    t.map_kernel_space_with_pmo_offset(layout, 0x1000_0000, 0x10_0000).unwrap();
    assert_eq!(t.vaddr_to_paddr(0x8010_0000).unwrap().to_u64(), 0x9020_0000);
    assert_eq!(t.vaddr_to_paddr(0x8010_2fff).unwrap().to_u64(), 0x9020_2fff);
    assert!(t.vaddr_to_paddr(0x8010_3000).is_err());
    assert_eq!(t.vaddr_to_paddr(0x8030_1000).unwrap().to_u64(), 0x9040_1000);
    assert_eq!(t.user_vaddr_to_paddr(0x8010_0000), Err(KernelError::ForbiddenPage));

    assert_eq!(t.map_device(0x1000_0000, 4096), Ok(0x1000_0000));
    assert_eq!(t.vaddr_to_paddr(0x1000_0005).unwrap().to_u64(), 0x1000_0005);
    // Every table below the root goes back to the allocator on drop
    let branches = t.branch_tables();
    assert_eq!(branches.len(), t.num_tables() - 1);
    assert_eq!(branches[0].to_u64(), 0x201 * 4096);
}

#[test]
fn user_page_through_kernel_window() {
    let mut t = PageTables::new(0x200, 16);
    let va = Sv39VirtualAddress::try_from(0x4000).unwrap();
    let pa = Sv39PhysicalAddress::try_from(0x8800_0000).unwrap();
    t.map_page(va, pa, PageType::UserReadWrite).unwrap();
    let inside = Sv39VirtualAddress::try_from(0x4010).unwrap();
    assert_eq!(t.get_user_page(inside, 0x800_0000).unwrap().to_usize(), 0x8000_0010);
    let outside = Sv39VirtualAddress::try_from(0x5000).unwrap();
    assert_eq!(t.get_user_page(outside, 0), Err(KernelError::NotMapped(0x5000)));
}

#[test]
fn reaped_process_pages_are_released() {
    let mut k = kernel();
    let (a, _) = k.spawn(4096, 0).unwrap();
    let (b, _) = k.spawn(4096, 0).unwrap();
    // a: code page 0, stack pages 1-2, tables 3-34; b: pages 35-69
    for i in 0..70 {
        assert!(k.pages.is_taken(i));
    }
    k.handle_trap(TrapCause::Other, a, 0, 0, [0; 7], &Vec::new());
    assert!(k.scheduler.reaped.is_empty());
    for i in 0..35 {
        assert!(!k.pages.is_taken(i));
    }
    for i in 35..70 {
        assert!(k.pages.is_taken(i));
    }
    // The freed run is handed out again
    let (_, code) = k.spawn(4096, 0).unwrap();
    assert_eq!(code.to_u64(), HEAP_PPN * 4096);
    assert!(k.scheduler.find(b).is_ok());
}

#[test]
fn shared_code_outlives_a_forked_child() {
    let mut k = kernel();
    let (parent, _) = k.spawn(4096, 0).unwrap();
    k.syscall_handler(parent, 5, [0; 7]).unwrap();
    let child = Pid::try_from(2).unwrap();
    k.syscall_handler(child, 6, [0; 7]).unwrap();
    k.handle_trap(TrapCause::Timer, parent, 0, 0, [0; 7], &Vec::new());
    assert!(k.scheduler.find(child).is_err());
    // The parent's code page stays allocated, the child's stack is free again
    assert!(k.pages.is_taken(0));
    assert!(!k.pages.is_taken(35));
}

#[test]
fn heap_stays_in_user_space() {
    let mut k = kernel();
    k.spawn(4096, 0).unwrap();
    let pages = Sv39PhysicalAddress::try_from(0x9000_0000).unwrap();
    let p = &mut k.scheduler.processes[0];
    let start = p.breakline();
    assert_eq!(p.request_memory(0x1000_0000, pages), Err(KernelError::OutOfMemory));
    assert_eq!(p.breakline(), start);
    assert_eq!(p.request_memory(1, pages), Ok(start + 4096));
    assert_eq!(p.page_tables.user_vaddr_to_paddr(start).unwrap().to_u64(), 0x9000_0000);
    assert_eq!(
        p.page_tables.user_vaddr_to_paddr(start + 4096),
        Err(KernelError::NotMapped(start + 4096))
    );
}

#[test]
fn exit_codes_other_than_zero_fail() {
    let mut k = kernel();
    let (parent, _) = k.spawn(4096, 0).unwrap();
    k.syscall_handler(parent, 5, [0; 7]).unwrap();
    let child = Pid::try_from(2).unwrap();
    k.syscall_handler(child, 6, [0, 2, 0, 0, 0, 0, 0]).unwrap();
    assert_eq!(
        k.scheduler.processes[index_of(&k, child)].state,
        ProcessState::Zombie(Err(krabby::abi::ProcessError::Failure))
    );
}

#[test]
fn unlisted_syscall_numbers_are_invalid() {
    let mut k = kernel();
    let (pid, _) = k.spawn(4096, 0).unwrap();
    assert_eq!(k.syscall_inner(pid, 11, [0; 7]), Err(KernelError::InvalidSyscall(11)));
    assert_eq!(k.syscall_inner(pid, 12, [0; 7]), Err(KernelError::InvalidSyscall(12)));
    k.syscall_handler(pid, 11, [0; 7]).unwrap_err();
    let p = &k.scheduler.processes[0];
    assert_eq!((p.frame.regs[10], p.frame.regs[11]), (0, 1));
}

#[test]
fn blocking_getchar_leaves_registers() {
    let mut k = kernel();
    let (pid, _) = k.spawn(4096, 0).unwrap();
    k.scheduler.processes[0].frame.regs[10] = 77;
    k.syscall_handler(pid, 2, [0; 7]).unwrap();
    assert_eq!(k.scheduler.processes[0].frame.regs[10], 77);
}

#[test]
fn new_pages_are_queued_for_zeroing() {
    let mut k = kernel();
    let (pid, code) = k.spawn(4096, 0).unwrap();
    assert_eq!(k.to_zero.len(), 3);
    assert_eq!(k.to_zero[0], (code, 1));
    k.to_zero.clear();
    k.syscall_handler(pid, 9, [5000, 0, 0, 0, 0, 0, 0]).unwrap();
    assert_eq!(k.to_zero.len(), 1);
    assert_eq!(k.to_zero[0].1, 2);
}
