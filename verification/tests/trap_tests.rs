use kernel::trap::{from_user, intr_on, kerneltrap_ok, counts_tick, devintr, irq_device, kerneltrap_yields, syscall_return_pc, usertrap_begin, usertrap_end, Cause, Irq, TrapEnd, TrapStart, UART0_IRQ, VIRTIO0_IRQ};

#[test]
fn irqs_by_device() {
    assert_eq!(irq_device(UART0_IRQ), Irq::Uart);
    assert_eq!(irq_device(VIRTIO0_IRQ), Irq::Disk);
    assert_eq!(irq_device(0), Irq::Spurious);
    assert_eq!(irq_device(33), Irq::Unexpected(33));
}

#[test]
fn devintr_numbers() {
    assert_eq!(devintr(Cause::SupervisorExternal), 1);
    assert_eq!(devintr(Cause::SupervisorSoft), 2);
    assert_eq!(devintr(Cause::UserEnvCall), 0);
    assert_eq!(devintr(Cause::Other), 0);
}

#[test]
fn only_cpu0_counts_ticks() {
    assert!(counts_tick(0));
    assert!(!counts_tick(3));
}

#[test]
fn user_trap_dispatch() {
    assert_eq!(usertrap_begin(Cause::UserEnvCall, false), TrapStart::Syscall);
    assert_eq!(usertrap_begin(Cause::UserEnvCall, true), TrapStart::Exit);
    assert_eq!(usertrap_begin(Cause::SupervisorExternal, true), TrapStart::Device(1));
    assert_eq!(usertrap_begin(Cause::SupervisorSoft, false), TrapStart::Device(2));
    assert_eq!(usertrap_begin(Cause::Other, false), TrapStart::Unexpected);
}

#[test]
fn user_trap_end() {
    assert_eq!(usertrap_end(true, 2), TrapEnd::Exit);
    assert_eq!(usertrap_end(false, 2), TrapEnd::Yield);
    assert_eq!(usertrap_end(false, 1), TrapEnd::Return);
    assert_eq!(usertrap_end(false, 0), TrapEnd::Return);
}

#[test]
fn syscall_returns_past_ecall() {
    assert_eq!(syscall_return_pc(0x1000), 0x1004);
}

#[test]
fn kernel_timer_trap_yields_running_process() {
    assert!(kerneltrap_yields(2, true));
    assert!(!kerneltrap_yields(2, false));
    assert!(!kerneltrap_yields(1, true));
}

#[test]
fn trap_origin_from_sstatus() {
    assert!(from_user(0x20));
    assert!(!from_user(0x120));
    assert!(kerneltrap_ok(0x120));
    assert!(!kerneltrap_ok(0x122));
    assert!(!kerneltrap_ok(0x020));
}

#[test]
fn device_interrupts_enabled_bit() {
    assert!(intr_on(0x2));
    assert!(!intr_on(0x120));
}
