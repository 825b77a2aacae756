use krabby::cpu::InterruptId;
use krabby::drivers::{
    driver_info, interrupts_to_enable, matches_compatible, pick_loader, DeviceNode, DriverKind,
    DriverLoader, InterruptHandler, InterruptHandlers,
};
use krabby::errors::KernelError;
use krabby::drivers::{decode_user_string, Utf8Decoder, REPLACEMENT};

fn loaders() -> Vec<DriverLoader> {
    vec![
        DriverLoader { compatible: "ns16550a".to_string(), kind: DriverKind::Uart },
        DriverLoader { compatible: "sifive,plic-1.0.0".to_string(), kind: DriverKind::InterruptController },
        DriverLoader { compatible: "riscv,clint0".to_string(), kind: DriverKind::Timer },
    ]
}

fn node(compatible: &[&str], parent: Option<usize>, interrupts: &[usize]) -> DeviceNode {
    DeviceNode {
        name: "node".to_string(),
        compatible: compatible.iter().map(|s| s.to_string()).collect(),
        interrupt_parent: parent,
        interrupts: interrupts.to_vec(),
    }
}

#[test]
fn loaders_match_by_compatible() {
    let ls = loaders();
    let uart = node(&["vendor,thing", "ns16550a"], Some(3), &[10]);
    assert_eq!(pick_loader(&ls, &uart), Some(0));
    let plic = node(&["sifive,plic-1.0.0", "riscv,plic0"], None, &[]);
    assert_eq!(pick_loader(&ls, &plic), Some(1));
    let other = node(&["virtio,mmio"], None, &[]);
    assert_eq!(pick_loader(&ls, &other), None);
    assert!(matches_compatible(&uart.compatible, &"ns16550a".to_string()));
    assert!(!matches_compatible(&uart.compatible, &"ns16550".to_string()));
}

#[test]
fn interrupt_information() {
    let info = driver_info(&node(&["ns16550a"], Some(3), &[10, 11])).unwrap();
    assert_eq!(info.interrupt_parent, Some(3));
    assert_eq!(info.interrupts, vec![InterruptId { id: 10 }, InterruptId { id: 11 }]);
    assert_eq!(
        driver_info(&node(&["ns16550a"], Some(3), &[1 << 40])).err(),
        Some(KernelError::InvalidIntId(1 << 40))
    );
    assert!(driver_info(&node(&["ns16550a"], Some(1 << 33), &[])).is_err());
}

#[test]
fn enable_only_this_controllers_interrupts() {
    let regs = vec![
        (3, InterruptId { id: 10 }),
        (4, InterruptId { id: 7 }),
        (3, InterruptId { id: 1 }),
    ];
    assert_eq!(
        interrupts_to_enable(&regs, 3),
        vec![InterruptId { id: 10 }, InterruptId { id: 1 }]
    );
    assert!(interrupts_to_enable(&regs, 9).is_empty());
}

#[test]
fn handler_registry() {
    let mut handlers = InterruptHandlers::new();
    assert!(!handlers.is_registered(InterruptId { id: 10 }));
    assert_eq!(
        handlers.run_handler(InterruptId { id: 10 }),
        Err(KernelError::InterruptUnavailable)
    );
    handlers.register_handler(InterruptId { id: 10 }, InterruptHandler::Uart);
    assert!(handlers.is_registered(InterruptId { id: 10 }));
    assert_eq!(handlers.run_handler(InterruptId { id: 10 }), Ok(InterruptHandler::Uart));
}

#[test]
fn driver_plan_loads_stdout_first_and_once() {
    let ls = loaders();
    let mut uart = node(&["ns16550a"], Some(3), &[10]);
    uart.name = "uart@10000000".to_string();
    let mut plic = node(&["sifive,plic-1.0.0"], None, &[]);
    plic.name = "plic@c000000".to_string();
    let mut clint = node(&["riscv,clint0"], None, &[]);
    clint.name = "clint@2000000".to_string();
    let mut other = node(&["virtio,mmio"], Some(3), &[1]);
    other.name = "virtio@10001000".to_string();
    let nodes = vec![plic, other, uart, clint];
    let plan = krabby::drivers::plan_drivers(&ls, &nodes, Some(2)).unwrap();
    assert_eq!(plan.loads, vec![(2, 0), (0, 1), (3, 2)]);
    assert_eq!(plan.registrations, vec![(3, InterruptId { id: 10 })]);
}

#[test]
fn user_strings_must_be_utf8() {
    assert_eq!(decode_user_string("h\u{e9}llo".as_bytes().to_vec()).unwrap(), "h\u{e9}llo");
    assert_eq!(decode_user_string(vec![0x68, 0xff]), Err(KernelError::InvalidArguments));
}

#[test]
fn uart_bytes_become_characters() {
    let mut d = Utf8Decoder::new();
    assert_eq!(d.push(b'x'), Some('x'));
    let fox = "\u{1F98A}".as_bytes();
    assert_eq!(d.push(fox[0]), None);
    assert_eq!(d.push(fox[1]), None);
    assert_eq!(d.push(fox[2]), None);
    assert_eq!(d.push(fox[3]), Some('\u{1F98A}'));
    assert_eq!(d.push(0xff), Some(REPLACEMENT));
    assert_eq!(d.push(0xc3), None);
    assert_eq!(d.push(b'a'), Some(REPLACEMENT));
    assert!(d.pending.is_empty());
}
