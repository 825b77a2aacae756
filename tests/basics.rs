use krabby::abi::{FileDescriptor, KrabbyAbiError, Pid, PidGenerator, ProcessError, Syscall};
use krabby::cpu::{HartId, InterruptId, Register};
use krabby::timer::{Clock, Duration, Instant};
use krabby::util::{align_down, align_next, align_up, aligned};

#[test]
fn alignment() {
    assert!(aligned::<1024>(0));
    assert!(aligned::<1024>(1024));
    assert!(aligned::<1024>(2048));
    assert!(!aligned::<1024>(1));
    assert!(!aligned::<1024>(1025));

    assert_eq!(align_down::<1024>(1024), 1024);
    assert_eq!(align_down::<1024>(5), 0);
    assert_eq!(align_down::<1024>(2047), 1024);
    assert_eq!(align_down::<1024>(2048), 2048);

    assert_eq!(align_up::<1024>(1024), 1024);
    assert_eq!(align_up::<1024>(5), 1024);
    assert_eq!(align_up::<1024>(2047), 2048);
    assert_eq!(align_up::<1024>(2048), 2048);

    assert_eq!(align_next::<1024>(1024), 2048);
    assert_eq!(align_next::<1024>(5), 1024);
    assert_eq!(align_next::<1024>(2047), 2048);
    assert_eq!(align_next::<1024>(2048), 1024 * 3);
}

#[test]
fn pids() {
    assert!(Pid::maybe_from_u16(0).is_none());
    assert_eq!(Pid::maybe_from_u16(7).unwrap().as_u16(), 7);
    assert_eq!(Pid::maybe_from_usize(0), Ok(None));
    assert_eq!(Pid::maybe_from_usize(70000), Err(KrabbyAbiError::InvalidPid(70000)));
    assert_eq!(Pid::maybe_from_usize(3).unwrap().unwrap().as_usize(), 3);
    assert_eq!(Pid::try_from(0), Err(KrabbyAbiError::InvalidPid(0)));
    assert_eq!(Pid::try_from(12).unwrap().as_u16(), 12);

    let mut generator = PidGenerator::new();
    let first = generator.generate().unwrap();
    let second = generator.generate().unwrap();
    assert_eq!(first.as_u16(), 1);
    assert_eq!(second.as_u16(), 2);
    assert_ne!(first, second);
}

#[test]
fn pid_generator_runs_out() {
    let mut generator = PidGenerator::new();
    for expected in 1..=u16::MAX {
        assert_eq!(generator.generate().unwrap().as_u16(), expected);
    }
    assert!(generator.generate().is_none());
    assert!(generator.generate().is_none());
}

#[test]
fn syscall_numbers() {
    assert_eq!(Syscall::n(0), None);
    assert_eq!(Syscall::n(1), Some(Syscall::PutChar));
    assert_eq!(Syscall::n(5), Some(Syscall::Fork));
    assert_eq!(Syscall::n(8), Some(Syscall::Sleep));
    assert_eq!(Syscall::n(10), Some(Syscall::PowerOff));
    assert_eq!(Syscall::n(13), None);
    for n in 1..=12 {
        assert_eq!(Syscall::n(n).unwrap().number(), n);
    }
    assert_eq!(ProcessError::n(1), Some(ProcessError::Failure));
    assert_eq!(ProcessError::n(0), None);
    assert_eq!(ProcessError::Failure.code(), 1);
}

#[test]
fn file_descriptors() {
    assert_eq!(FileDescriptor::try_from(3).unwrap().to_usize(), 3);
    assert_eq!(
        FileDescriptor::try_from(1 << 20),
        Err(KrabbyAbiError::InvalidFileDescriptor(1 << 20))
    );
}

#[test]
fn cpu_ids() {
    assert!(HartId::zero().is_zero());
    assert!(!HartId::from_u16(3).is_zero());
    assert_eq!(InterruptId { id: 10 }.to_usize(), 10);
    assert_eq!(Register::Arg0.as_str(), "a0");
    assert_eq!(Register::StackPointer.as_str(), "sp");
    assert_eq!(Register::Arg0.index(), 10);
    assert_eq!(Register::Arg7.index(), 17);
}

#[test]
fn ticking_advances_by_period() {
    let mut clock = Clock::new();
    clock.set_timer_period(Duration::new(0, 100_000_000));
    assert_eq!(clock.now(), Instant { nanos: 0 });
    for _ in 0..25 {
        clock.tick().unwrap();
    }
    assert_eq!(clock.now().nanos, 25 * 100_000_000);
}

#[test]
fn durations() {
    assert_eq!(Duration::new(1, 1_500_000_000).as_nanos(), Some(2_500_000_000));
    assert_eq!(Duration::new(u64::MAX, 0).as_nanos(), None);
    let t = Instant { nanos: 5 };
    assert_eq!(t.checked_add(Duration::new(0, 10)), Some(Instant { nanos: 15 }));
    assert_eq!(Instant { nanos: u64::MAX }.checked_add(Duration::new(0, 1)), None);
    assert!(Instant { nanos: 15 }.at_or_after(Instant { nanos: 15 }));
    assert!(!Instant { nanos: 14 }.at_or_after(Instant { nanos: 15 }));
}
