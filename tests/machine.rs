use sasm::{decode_opcode, pace, Configuration, Exception, Firmware, Instruction, VirtualMachine};

fn machine_with(firmware: Vec<u8>) -> VirtualMachine {
    let mut config = Configuration::default();
    config.firmware_file = "firmware.bin".to_string();
    let mut vm = VirtualMachine::new(config, firmware);
    vm.reset();
    vm
}

#[test]
fn default_configuration() {
    let c = Configuration::default();
    assert_eq!(c.cycles_per_second, 32);
    assert_eq!(c.initial_pc, 0);
    assert_eq!(c.memory_size, 0x4000);
    assert!(c.firmware_file.is_empty());
    assert!(!c.verbose);
    assert_eq!(c.period_ns(), 31_250_000);
}

#[test]
fn default_firmware_runs() {
    let mut vm = VirtualMachine::new(Configuration::default(), Vec::new());
    vm.reset();
    assert_eq!(vm.memory()[0], 0xDE);
    assert_eq!(vm.memory()[21], 0x62);
    for _ in 0..40 {
        vm.step().unwrap();
    }
    assert_eq!(vm.register(0), 0xDEAD);
    assert_eq!(vm.register(1), 0xDEAD);
    assert_eq!(vm.register(2), 0x0012);
    assert!(vm.pc() == 0x12 || vm.pc() == 0x14);
    assert_eq!(vm.flags(), 0);
}

#[test]
fn jump_to_zero_sets_no_flag() {
    let mut vm = machine_with(vec![0x00, 0x60]);
    for _ in 0..10 {
        assert_eq!(vm.step(), Ok(()));
        assert_eq!(vm.pc(), 0);
    }
    assert_eq!(vm.flags(), 0);
}

#[test]
fn odd_jump_sets_unaligned_flag() {
    let mut vm = machine_with(vec![0x00, 0x60]);
    vm.set_register(0, 1);
    assert_eq!(vm.step(), Err(Exception::UNA));
    assert_eq!(vm.flags() & 0x2000, 0x2000);
    assert_eq!(vm.pc(), 0);
}

#[test]
fn arithmetic_wraps() {
    // ldi r1, 1; sub r0, r1; inc r1; add r0, r1
    let mut vm = machine_with(vec![0x01, 0x41, 0x11, 0x20, 0x02, 0x21, 0x10, 0x20]);
    vm.step().unwrap();
    vm.step().unwrap();
    assert_eq!(vm.register(0), 0xFFFF);
    vm.step().unwrap();
    vm.step().unwrap();
    assert_eq!(vm.register(0), 0x0001);
    assert_eq!(vm.pc(), 8);
}

#[test]
fn stack_register_and_scratch() {
    // dec sp; mov c0, sp; stw sp, r0 is out of range at 0xFFFF
    let mut vm = machine_with(vec![0x03, 0x28, 0x82, 0x39, 0x01, 0x58]);
    vm.step().unwrap();
    assert_eq!(vm.register(8), 0xFFFF);
    vm.step().unwrap();
    assert_eq!(vm.register(9), 0xFFFF);
    assert_eq!(vm.step(), Err(Exception::SEG));
    assert_eq!(vm.flags(), 0x4000);
    assert_eq!(vm.pc(), 4);
}

#[test]
fn store_and_load_words() {
    // ldi r1, 0x40; ldi r0, 0xAB; stw r1, r0; ldw r2, r1; ldb r3, r1
    let mut vm = machine_with(vec![0x40, 0x41, 0xAB, 0x40, 0x01, 0x51, 0x11, 0x32, 0x10, 0x33]);
    for _ in 0..5 {
        vm.step().unwrap();
    }
    assert_eq!(vm.memory()[0x40], 0xAB);
    assert_eq!(vm.memory()[0x41], 0x00);
    assert_eq!(vm.register(2), 0x00AB);
    assert_eq!(vm.register(3), 0x00AB);
}

#[test]
fn illegal_operands_and_opcodes() {
    // add r0, sp (Y out of range); word 0x9000
    let mut vm = machine_with(vec![0x80, 0x20, 0x00, 0x90]);
    assert_eq!(vm.step(), Err(Exception::IOP));
    assert_eq!(vm.flags(), 0x8000);
    assert_eq!(vm.pc(), 0);
}

#[test]
fn flags_test_skips() {
    // setf 3; test 3; nop (skipped); clrf 3; test 3
    let mut vm = machine_with(vec![0x01, 0x83, 0x00, 0x83, 0x00, 0x00, 0x02, 0x83, 0x00, 0x83]);
    vm.step().unwrap();
    assert_eq!(vm.flags(), 0x0008);
    vm.step().unwrap();
    assert_eq!(vm.pc(), 6);
    vm.step().unwrap();
    assert_eq!(vm.flags(), 0);
    vm.step().unwrap();
    assert_eq!(vm.pc(), 10);
}

#[test]
fn shifts_and_jnz() {
    // ldi r0, 0x81; shl r0, 4; shr r0, 1; jnz r1, r2 (r2 == 0, r1 == 0)
    let mut vm = machine_with(vec![0x81, 0x40, 0x41, 0x70, 0x10, 0x70, 0x21, 0x61]);
    vm.step().unwrap();
    vm.step().unwrap();
    assert_eq!(vm.register(0), 0x0810);
    vm.step().unwrap();
    assert_eq!(vm.register(0), 0x0408);
    vm.step().unwrap();
    assert_eq!(vm.pc(), 0);
}

#[test]
fn firmware_loads_at_start_address() {
    let mut config = Configuration::default();
    config.initial_pc = 0x100;
    config.memory_size = 0x200;
    config.firmware_file = "f".to_string();
    let mut vm = VirtualMachine::new(config, vec![0x01, 0x83]);
    vm.reset();
    assert_eq!(vm.pc(), 0x100);
    assert_eq!(vm.memory()[0x100], 0x01);
    assert_eq!(vm.memory()[0x101], 0x83);
    assert_eq!(vm.memory().len(), 0x200);
    vm.step().unwrap();
    assert_eq!(vm.flags(), 0x0008);
}

#[test]
fn fetch_past_memory_reads_nop() {
    let mut config = Configuration::default();
    config.memory_size = 1;
    config.firmware_file = "f".to_string();
    let mut vm = VirtualMachine::new(config, vec![0x00]);
    vm.reset();
    vm.step().unwrap();
    assert_eq!(vm.pc(), 2);
}

#[test]
fn firmware_sizes() {
    assert_eq!(Firmware::default().size(), 22);
    assert_eq!(Firmware::from_bytes(vec![1, 2, 3]).size(), 3);
}

#[test]
fn opcodes_decode() {
    assert_eq!(decode_opcode(0x0000), Some(Instruction::NOP));
    assert_eq!(decode_opcode(0x4003), Some(Instruction::LDI));
    assert_eq!(decode_opcode(0x81F2), Some(Instruction::CLRF));
    assert_eq!(decode_opcode(0x2ABF), Some(Instruction::DEC));
    assert_eq!(decode_opcode(0x1002), None);
    assert_eq!(decode_opcode(0x9000), None);
}

#[test]
fn pacing_steps_once_per_period() {
    let p = pace(0, 10, 100);
    assert!(!p.step && p.delta == 10 && !p.late);
    let p = pace(95, 10, 100);
    assert!(p.step && p.delta == 5 && !p.late);
    let p = pace(50, 300, 100);
    assert!(p.step && p.delta == 250 && p.late);
    let p = pace(u128::MAX, 5, 100);
    assert!(p.step && p.delta == u128::MAX - 100);
}

#[test]
fn fetch_reads_little_endian() {
    let vm = machine_with(vec![0x34, 0x12]);
    assert_eq!(vm.fetch(), 0x1234);
}

#[test]
fn small_memory_machine_is_built() {
    let mut config = Configuration::default();
    config.memory_size = 16;
    let vm = VirtualMachine::new(config, Vec::new());
    assert_eq!(vm.memory().len(), 16);
    assert!(!vm.firmware_fits());
    let vm = VirtualMachine::new(Configuration::default(), Vec::new());
    assert!(vm.firmware_fits());
}
