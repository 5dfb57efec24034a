use minecrab::kernel::syscall::Syscall;
use minecrab::vm::emulator::{CpuFlag, Emulator, Progress};
use minecrab::vm::entropy::{Chance, Entropy, Glitch};
use minecrab::vm::instructions::{Instruction, OpcodeTable};
use minecrab::vm::register::RegisterName;

const QUIET: Glitch = Glitch::Memory { addr: 0xff00, byte: 0 };

fn machine(code: &[u8]) -> Emulator {
    let mut bytecode = vec![0u8; 65536];
    bytecode[..code.len()].copy_from_slice(code);
    Emulator::new(vec![0u8; 65536], bytecode)
}

fn calm() -> Entropy {
    Entropy { fresh: [0; 5], rude_awakening: QUIET, fault: QUIET }
}

fn run(emulator: &mut Emulator, steps: usize) {
    let mut budget = 1_000_000usize;
    for _ in 0..steps {
        assert_eq!(emulator.step(&mut budget, &calm()), Progress::Ran);
    }
}

fn reg(emulator: &Emulator, register: RegisterName) -> u16 {
    emulator.get_reg_internal(register)
}

fn flags(emulator: &Emulator) -> (bool, bool, bool, bool) {
    (
        emulator.get_cpu_flag(CpuFlag::Zero),
        emulator.get_cpu_flag(CpuFlag::Carry),
        emulator.get_cpu_flag(CpuFlag::Overflow),
        emulator.get_cpu_flag(CpuFlag::Sign),
    )
}

#[test]
fn a_new_emulator_is_at_rest() {
    let emulator = machine(&[]);
    assert_eq!(reg(&emulator, RegisterName::PC), 0);
    assert_eq!(reg(&emulator, RegisterName::TF), 0x1337);
    assert_eq!(reg(&emulator, RegisterName::SP), 0);
    assert_eq!(emulator.peek_bytes_from_mem(0, 4), vec![0, 0, 0, 0]);
}

#[test]
fn memory_wraps_around() {
    let mut emulator = machine(&[]);
    emulator.write_bytes_to_mem(0xfffe, &[1, 2, 3, 4]);
    assert_eq!(emulator.peek_bytes_from_mem(0xfffe, 4), vec![1, 2, 3, 4]);
    assert_eq!(emulator.peek_bytes_from_mem(0, 2), vec![3, 4]);
    assert_eq!(emulator.load_u16(0xffff), 0x0302);
    emulator.write_to_mem::<u16>(0xffff, 0xabcd);
    assert_eq!(emulator.load_u8(0xffff), 0xcd);
    assert_eq!(emulator.load_u8(0), 0xab);
    assert_eq!(emulator.peek_from_mem::<i8>(0), -85);
    assert_eq!(emulator.peek_from_mem::<i16>(0xffff), 0xabcdu16 as i16);
}

#[test]
fn bytecode_wraps_around() {
    let mut emulator = machine(&[]);
    emulator.write_bytes_to_code(0xffff, &[0x11, 0x22]);
    emulator.set_reg(RegisterName::PC, 0xffff);
    assert_eq!(emulator.peek_from_pc::<u16>(), 0x2211);
    assert_eq!(emulator.read_from_pc::<u8>(), 0x11);
    assert_eq!(reg(&emulator, RegisterName::PC), 0);
    assert_eq!(emulator.fetch_u8(), 0x22);
    assert_eq!(reg(&emulator, RegisterName::PC), 1);
}

#[test]
fn a_deep_copy_shares_nothing() {
    let mut emulator = machine(&[1, 2, 3]);
    emulator.set_reg(RegisterName::R0, 9);
    let mut copy = emulator.duplicate();
    copy.write_bytes_to_mem(0, &[7]);
    copy.set_reg(RegisterName::R0, 10);
    copy.write_bytes_to_code(0, &[8]);
    assert_eq!(emulator.load_u8(0), 0);
    assert_eq!(reg(&emulator, RegisterName::R0), 9);
    assert_eq!(emulator.peek_from_pc::<u8>(), 1);
    assert_eq!(copy.load_u8(0), 7);
    assert_eq!(reg(&copy, RegisterName::R0), 10);
    assert_eq!(copy.peek_from_pc::<u8>(), 8);
}

#[test]
fn flags_are_the_low_bits_of_fl() {
    let mut emulator = machine(&[]);
    emulator.set_cpu_flag(CpuFlag::Zero, true);
    assert_eq!(reg(&emulator, RegisterName::FL), 1);
    emulator.set_cpu_flag(CpuFlag::Carry, true);
    emulator.set_cpu_flag(CpuFlag::Overflow, true);
    emulator.set_cpu_flag(CpuFlag::Sign, true);
    emulator.set_cpu_flag(CpuFlag::Sleep, true);
    assert_eq!(reg(&emulator, RegisterName::FL), 0b11111);
    emulator.set_cpu_flag(CpuFlag::Overflow, false);
    assert_eq!(reg(&emulator, RegisterName::FL), 0b11011);
    assert!(!emulator.get_cpu_flag(CpuFlag::Overflow));
    assert!(emulator.get_cpu_flag(CpuFlag::Sleep));
    emulator.set_reg(RegisterName::FL, 0xffe0);
    emulator.set_logical_flags(0x8000);
    assert_eq!(reg(&emulator, RegisterName::FL), 0xffe8);
    emulator.set_arithmetic_flags(0, true, false);
    assert_eq!(reg(&emulator, RegisterName::FL), 0xffe3);
}

#[test]
fn register_pair_operand_splits_the_nibbles() {
    let mut emulator = machine(&[0xf3]);
    let (low, high) = emulator.read_registers_operand();
    assert!(matches!(low, RegisterName::R0));
    assert!(matches!(high, RegisterName::AX));
    assert_eq!(reg(&emulator, RegisterName::PC), 1);
}

#[test]
fn address_operand_mode_base() {
    let mut emulator = machine(&[0x03]);
    emulator.set_reg(RegisterName::R0, 0x1234);
    assert_eq!(emulator.read_address_operand(0, 0), 0x1234);
    assert_eq!(reg(&emulator, RegisterName::PC), 1);
}

#[test]
fn address_operand_mode_signed_byte_displacement() {
    let mut emulator = machine(&[0x43, 0xff, 0x43, 0x7f]);
    emulator.set_reg(RegisterName::R0, 0x0000);
    assert_eq!(emulator.read_address_operand(0, 0), 0xffff);
    assert_eq!(reg(&emulator, RegisterName::PC), 2);
    emulator.set_reg(RegisterName::R0, 0xfff0);
    assert_eq!(emulator.read_address_operand(0, 0), 0x006f);
}

#[test]
fn address_operand_mode_scaled_index() {
    // base R0, index R1, scale codes 0, 1, 2, 3, 5, 9 and 15
    let codes = [(0u8, 1u16), (1, 1), (2, 2), (3, 4), (4, 4), (5, 8), (8, 8), (9, 16), (15, 16)];
    for (code, factor) in codes {
        let mut emulator = machine(&[0x83, (code << 4) | 0x04]);
        emulator.set_reg(RegisterName::R0, 0x1000);
        emulator.set_reg(RegisterName::R1, 0x0003);
        assert_eq!(emulator.read_address_operand(0, 0), 0x1000 + 3 * factor);
        assert_eq!(reg(&emulator, RegisterName::PC), 2);
    }
    let mut emulator = machine(&[0x83, 0x94]);
    emulator.set_reg(RegisterName::R0, 0xffff);
    emulator.set_reg(RegisterName::R1, 0x1001);
    assert_eq!(emulator.read_address_operand(0, 0), 0x000f);
}

#[test]
fn address_operand_mode_scaled_index_and_displacement() {
    let mut emulator = machine(&[0xc3, 0x24, 0xfe, 0xff]);
    emulator.set_reg(RegisterName::R0, 0x0100);
    emulator.set_reg(RegisterName::R1, 0x0010);
    // 0x100 + 0x10 * 2 + 0xfffe
    assert_eq!(emulator.read_address_operand(0, 0), 0x011e);
    assert_eq!(reg(&emulator, RegisterName::PC), 4);
}

#[test]
fn address_operand_observes_its_registers() {
    // base CT, index CT: the counter steps between the two reads
    let mut emulator = machine(&[0x82, 0x02]);
    emulator.set_reg(RegisterName::CT, 10);
    assert_eq!(emulator.read_address_operand(0, 0), 21);
    assert_eq!(reg(&emulator, RegisterName::CT), 12);
    // base RR, index RR: each read takes its own fresh word
    let mut emulator = machine(&[0x8c, 0x0c]);
    assert_eq!(emulator.read_address_operand(0x1000, 0x0234), 0x1234);
}

#[test]
fn every_opcode_decodes_to_its_own_instruction() {
    let table = OpcodeTable::new();
    let mut named = 0;
    for opcode in 0u16..256 {
        let instruction = table.get_instruction(opcode as u8);
        if instruction == Instruction::Reserved {
            assert_eq!(instruction.get_latency(), 420);
        } else {
            assert_eq!(instruction.get_opcode(), opcode as u8);
            named += 1;
        }
    }
    assert_eq!(named, 110);
    assert_eq!(Instruction::Reserved.get_opcode(), 0xff);
    assert_eq!(OpcodeTable::get_syscall_opcode(), 0x0f);
    assert!(OpcodeTable::is_valid_sleep_opcode(0x6f));
    assert!(OpcodeTable::is_valid_sleep_opcode(0x70));
    assert!(!OpcodeTable::is_valid_sleep_opcode(0x6e));
}

#[test]
fn latencies_are_as_tabled() {
    let table = OpcodeTable::new();
    let expected = [
        (0x23u8, 3usize), (0x20, 4), (0x25, 24), (0x24, 28), (0x29, 22), (0x26, 28), (0x8d, 5),
        (0xd6, 8), (0xe6, 9), (0x50, 24), (0x53, 30), (0x60, 26), (0x61, 30), (0x71, 512),
        (0x81, 384), (0x82, 384), (0xc4, 4), (0xa4, 18), (0xa5, 16), (0x94, 12), (0x95, 10),
        (0x74, 30), (0x75, 24), (0x64, 30), (0x7f, 3), (0x54, 4), (0x80, 3), (0xf0, 4), (0xfe, 26),
        (0xfd, 28), (0xc3, 24), (0x6e, 1), (0x6f, 1), (0x70, 1), (0x0f, 100), (0xff, 420), (0x00, 420),
    ];
    for (opcode, latency) in expected {
        assert_eq!(table.get_instruction(opcode).get_latency(), latency, "opcode {opcode:#x}");
    }
}

#[test]
fn moves_between_registers_and_immediates() {
    // MovImm16 R0, 0x1234; MovReg16 R1, R0; MovReg8 R2, R0; MovImm8 R3, 0xff
    let mut emulator = machine(&[0x20, 0x03, 0x34, 0x12, 0x22, 0x34, 0x23, 0x35, 0x21, 0x06, 0xff]);
    run(&mut emulator, 4);
    assert_eq!(reg(&emulator, RegisterName::R0), 0x1234);
    assert_eq!(reg(&emulator, RegisterName::R1), 0x1234);
    assert_eq!(reg(&emulator, RegisterName::R2), 0x0034);
    assert_eq!(reg(&emulator, RegisterName::R3), 0x00ff);
    assert_eq!(reg(&emulator, RegisterName::PC), 11);
    assert_eq!(reg(&emulator, RegisterName::FL), 0);
}

#[test]
fn loads_stores_and_lea() {
    // MovImm16 R0, 0x0100; StoreImm16 [R0], 0xbeef; Load16 R1, [R0]; Load8 R2, [R0+1];
    // StoreReg8 [R0+2], R1; Lea R3, [R0-1]; StoreReg16 [R0+4], R1; StoreImm8 [R0+6], 0x11
    let mut emulator = machine(&[
        0x20, 0x03, 0x00, 0x01, 0x26, 0x03, 0xef, 0xbe, 0x24, 0x04, 0x03, 0x25, 0x05, 0x43, 0x01,
        0x29, 0x43, 0x02, 0x04, 0x8d, 0x06, 0x43, 0xff, 0x28, 0x43, 0x04, 0x04, 0x27, 0x43, 0x06,
        0x11,
    ]);
    run(&mut emulator, 8);
    assert_eq!(emulator.peek_bytes_from_mem(0x0100, 7), vec![0xef, 0xbe, 0xef, 0, 0xef, 0xbe, 0x11]);
    assert_eq!(reg(&emulator, RegisterName::R1), 0xbeef);
    assert_eq!(reg(&emulator, RegisterName::R2), 0x00be);
    assert_eq!(reg(&emulator, RegisterName::R3), 0x00ff);
    assert_eq!(reg(&emulator, RegisterName::PC), 31);
}

#[test]
fn exchange_and_sign_extension() {
    // MovImm16 R0, 0x0180; MovImm8 R1, 7; Xchg R0, R1; Sex R1
    let mut emulator = machine(&[0x20, 0x03, 0x80, 0x01, 0x21, 0x04, 0x07, 0x92, 0x43, 0x62, 0x04]);
    run(&mut emulator, 4);
    assert_eq!(reg(&emulator, RegisterName::R0), 7);
    assert_eq!(reg(&emulator, RegisterName::R1), 0xff80);
}

#[test]
fn addition_sets_the_flags_it_should() {
    // MovImm16 R0, 0x7fff; AddImm8 R0, 1
    let mut emulator = machine(&[0x20, 0x03, 0xff, 0x7f, 0xc5, 0x03, 0x01]);
    run(&mut emulator, 2);
    assert_eq!(reg(&emulator, RegisterName::R0), 0x8000);
    assert_eq!(flags(&emulator), (false, false, true, true));
    // MovImm16 R0, 1; AddImm8 R0, -1
    let mut emulator = machine(&[0x20, 0x03, 0x01, 0x00, 0xc5, 0x03, 0xff]);
    run(&mut emulator, 2);
    assert_eq!(reg(&emulator, RegisterName::R0), 0);
    assert_eq!(flags(&emulator), (true, true, false, false));
    // MovImm16 R0, 5; MovImm16 R1, 0xfffb; AddReg16 R0, R1; AddImm16 R1, 0x0006
    let mut emulator = machine(&[
        0x20, 0x03, 0x05, 0x00, 0x20, 0x04, 0xfb, 0xff, 0xc4, 0x43, 0xc6, 0x04, 0x06, 0x00,
    ]);
    run(&mut emulator, 3);
    assert_eq!(reg(&emulator, RegisterName::R0), 0);
    assert_eq!(flags(&emulator), (true, true, false, false));
    run(&mut emulator, 1);
    assert_eq!(reg(&emulator, RegisterName::R1), 1);
    assert_eq!(flags(&emulator), (false, true, false, false));
}

#[test]
fn subtraction_and_comparison() {
    // MovImm16 R0, 3; SubImm8 R0, 5; CmpImm16 R0, 0xfffe; CmpReg16 R0, R0; SubImm16 R0, 1; SubReg16 R0, R0
    let mut emulator = machine(&[
        0x20, 0x03, 0x03, 0x00, 0xb5, 0x03, 0x05, 0x56, 0x03, 0xfe, 0xff, 0x54, 0x33, 0xb6, 0x03,
        0x01, 0x00, 0xb4, 0x33,
    ]);
    run(&mut emulator, 2);
    assert_eq!(reg(&emulator, RegisterName::R0), 0xfffe);
    assert_eq!(flags(&emulator), (false, true, false, true));
    run(&mut emulator, 1);
    assert_eq!(reg(&emulator, RegisterName::R0), 0xfffe);
    assert_eq!(flags(&emulator), (true, false, false, false));
    run(&mut emulator, 1);
    assert_eq!(flags(&emulator), (true, false, false, false));
    run(&mut emulator, 1);
    assert_eq!(reg(&emulator, RegisterName::R0), 0xfffd);
    run(&mut emulator, 1);
    assert_eq!(reg(&emulator, RegisterName::R0), 0);
}

#[test]
fn multiplication_writes_low_then_high() {
    // MovImm16 R0, 0x1234; MovImm16 R2, 0x5678; MulReg16 R0:R1, R2
    let mut emulator = machine(&[
        0x20, 0x03, 0x34, 0x12, 0x20, 0x05, 0x78, 0x56, 0xa4, 0x43, 0x05,
    ]);
    run(&mut emulator, 3);
    assert_eq!(reg(&emulator, RegisterName::R0), 0x0060);
    assert_eq!(reg(&emulator, RegisterName::R1), 0x0626);
    assert_eq!(flags(&emulator), (false, true, true, false));
    assert_eq!(reg(&emulator, RegisterName::PC), 11);
    // MovImm16 R0, 0xfffe; ImulImm8 R0:R1, 3
    let mut emulator = machine(&[0x20, 0x03, 0xfe, 0xff, 0x85, 0x43, 0x03]);
    run(&mut emulator, 2);
    assert_eq!(reg(&emulator, RegisterName::R0), 0xfffa);
    assert_eq!(reg(&emulator, RegisterName::R1), 0xffff);
    assert_eq!(flags(&emulator), (false, false, false, true));
    // MovImm16 R0, 300; MulloImm16 R0, 300; MulImm8 R0:R1, 2; ImulImm16 R0:R1, 0xffff
    let mut emulator = machine(&[
        0x20, 0x03, 0x2c, 0x01, 0x96, 0x03, 0x2c, 0x01, 0xa5, 0x43, 0x02, 0x86, 0x43, 0xff, 0xff,
    ]);
    run(&mut emulator, 2);
    assert_eq!(reg(&emulator, RegisterName::R0), 0x5f90);
    assert_eq!(flags(&emulator), (false, true, true, false));
    run(&mut emulator, 1);
    assert_eq!(reg(&emulator, RegisterName::R0), 0xbf20);
    assert_eq!(reg(&emulator, RegisterName::R1), 0);
    run(&mut emulator, 1);
    // 0xbf20 is -16608; times -1 is 16608
    assert_eq!(reg(&emulator, RegisterName::R0), 0x40e0);
    assert_eq!(reg(&emulator, RegisterName::R1), 0);
}

#[test]
fn division_writes_quotient_then_remainder() {
    // MovImm16 R0, 17; DivImm8 R0:R1, 5
    let mut emulator = machine(&[0x20, 0x03, 0x11, 0x00, 0x75, 0x43, 0x05]);
    run(&mut emulator, 2);
    assert_eq!(reg(&emulator, RegisterName::R0), 3);
    assert_eq!(reg(&emulator, RegisterName::R1), 2);
    assert_eq!(reg(&emulator, RegisterName::FL), 0);
    // MovImm16 R0, -7; IdivImm8 R0:R1, 2; DivImm16 R0:R1, 0x0100
    let mut emulator = machine(&[
        0x20, 0x03, 0xf9, 0xff, 0x65, 0x43, 0x02, 0x76, 0x43, 0x00, 0x01,
    ]);
    run(&mut emulator, 2);
    assert_eq!(reg(&emulator, RegisterName::R0), 0xfffc);
    assert_eq!(reg(&emulator, RegisterName::R1), 1);
    run(&mut emulator, 1);
    assert_eq!(reg(&emulator, RegisterName::R0), 0x00ff);
    assert_eq!(reg(&emulator, RegisterName::R1), 0x00fc);
}

#[test]
fn division_by_zero_strikes_once_and_changes_no_register() {
    // MovImm16 R0, 17; DivReg16 R0:R1, R2 with R2 = 0
    let mut emulator = machine(&[0x20, 0x03, 0x11, 0x00, 0x74, 0x43, 0x05]);
    run(&mut emulator, 1);
    let entropy = Entropy {
        fresh: [0; 5],
        rude_awakening: Glitch::Memory { addr: 0x0010, byte: 0xaa },
        fault: Glitch::Memory { addr: 0x1234, byte: 0x56 },
    };
    let mut budget = 100usize;
    assert_eq!(emulator.step(&mut budget, &entropy), Progress::Ran);
    assert_eq!(budget, 70);
    assert_eq!(reg(&emulator, RegisterName::R0), 17);
    assert_eq!(reg(&emulator, RegisterName::R1), 0);
    assert_eq!(reg(&emulator, RegisterName::R2), 0);
    assert_eq!(reg(&emulator, RegisterName::FL), 0);
    assert_eq!(reg(&emulator, RegisterName::PC), 7);
    assert_eq!(emulator.load_u8(0x1234), 0x56);
    assert_eq!(emulator.load_u8(0x0010), 0);
    let untouched: u32 = emulator.peek_bytes_from_mem(0, 65536).iter().map(|b| *b as u32).sum();
    assert_eq!(untouched, 0x56);
}

#[test]
fn division_by_zero_faults_in_every_form() {
    for code in [[0x75u8, 0x43, 0x00, 0x00], [0x76, 0x43, 0x00, 0x00], [0x65, 0x43, 0x00, 0x00], [0x66, 0x43, 0x00, 0x00], [0x64, 0x43, 0x05, 0x00]] {
        let mut emulator = machine(&code);
        emulator.set_reg(RegisterName::R0, 9);
        let entropy = Entropy {
            fresh: [0; 5],
            rude_awakening: QUIET,
            fault: Glitch::Register { register: RegisterName::R5, value: 0x7777 },
        };
        let mut budget = 100usize;
        assert_eq!(emulator.step(&mut budget, &entropy), Progress::Ran);
        assert_eq!(reg(&emulator, RegisterName::R0), 9);
        assert_eq!(reg(&emulator, RegisterName::R1), 0);
        assert_eq!(reg(&emulator, RegisterName::R5), 0x7777);
    }
}

#[test]
fn negation_magnitude_and_complement() {
    // MovImm16 R0, 5; Neg R0; Abs R0; Not R0; Bswap R0
    let mut emulator = machine(&[0x20, 0x03, 0x05, 0x00, 0x7f, 0x03, 0x8f, 0x03, 0x80, 0x03, 0xa0, 0x03]);
    run(&mut emulator, 2);
    assert_eq!(reg(&emulator, RegisterName::R0), 0xfffb);
    assert_eq!(flags(&emulator), (false, true, false, true));
    run(&mut emulator, 1);
    assert_eq!(reg(&emulator, RegisterName::R0), 5);
    assert_eq!(flags(&emulator), (false, false, false, false));
    run(&mut emulator, 1);
    assert_eq!(reg(&emulator, RegisterName::R0), 0xfffa);
    assert_eq!(flags(&emulator), (false, false, false, false));
    run(&mut emulator, 1);
    assert_eq!(reg(&emulator, RegisterName::R0), 0xfaff);
}

#[test]
fn logical_operations_set_zero_and_sign_only() {
    let cases: [(u8, u16); 6] = [(0x46, 0x1200), (0x57, 0xff34), (0x68, 0xed34), (0x79, 0xedff), (0x8a, 0x00cb), (0x9b, 0x12cb)];
    for (opcode, expected) in cases {
        // MovImm16 R0, 0x1234; <op>Imm16 R0, 0xff00
        let mut emulator = machine(&[0x20, 0x03, 0x34, 0x12, opcode, 0x03, 0x00, 0xff]);
        emulator.set_cpu_flag(CpuFlag::Carry, true);
        emulator.set_cpu_flag(CpuFlag::Overflow, true);
        run(&mut emulator, 2);
        assert_eq!(reg(&emulator, RegisterName::R0), expected, "opcode {opcode:#x}");
        assert_eq!(flags(&emulator), (expected == 0, true, true, expected >= 0x8000));
    }
    // the byte forms extend with zeros: AndImm8 R0, 0xf0; OrImm8; XorImm8; NandImm8; NorImm8; XnorImm8
    let cases: [(u8, u16); 6] = [(0x36, 0x0030), (0x47, 0x12f4), (0x58, 0x12c4), (0x69, 0xffcf), (0x7a, 0xed0b), (0x8b, 0xed3b)];
    for (opcode, expected) in cases {
        let mut emulator = machine(&[0x20, 0x03, 0x34, 0x12, opcode, 0x03, 0xf0]);
        run(&mut emulator, 2);
        assert_eq!(reg(&emulator, RegisterName::R0), expected, "opcode {opcode:#x}");
    }
    // the register forms: AndReg16 R0, R1 and so on
    let cases: [(u8, u16); 6] = [(0x37, 0x0204), (0x48, 0x1e3c), (0x59, 0x1c38), (0x6a, 0xfdfb), (0x7b, 0xe1c3), (0x8c, 0xe3c7)];
    for (opcode, expected) in cases {
        let mut emulator = machine(&[0x20, 0x03, 0x34, 0x12, 0x20, 0x04, 0x0c, 0x0e, opcode, 0x43]);
        run(&mut emulator, 3);
        assert_eq!(reg(&emulator, RegisterName::R0), expected, "opcode {opcode:#x}");
    }
}

#[test]
fn shifts_by_less_than_sixteen() {
    // MovImm16 R0, 0x8421; ShrImm8 R0, 4
    let mut emulator = machine(&[0x20, 0x03, 0x21, 0x84, 0x9c, 0x03, 0x04]);
    run(&mut emulator, 2);
    assert_eq!(reg(&emulator, RegisterName::R0), 0x0842);
    assert_eq!(flags(&emulator), (false, false, false, false));
    let mut emulator = machine(&[0x20, 0x03, 0x21, 0x84, 0xad, 0x03, 0x04]);
    run(&mut emulator, 2);
    assert_eq!(reg(&emulator, RegisterName::R0), 0xf842);
    assert_eq!(flags(&emulator), (false, false, false, true));
    let mut emulator = machine(&[0x20, 0x03, 0x21, 0x84, 0xbe, 0x03, 0x04]);
    run(&mut emulator, 2);
    assert_eq!(reg(&emulator, RegisterName::R0), 0x4210);
    // register forms: MovImm8 R1, 15; ShlReg16 R0, R1
    let mut emulator = machine(&[0x20, 0x03, 0x21, 0x84, 0x21, 0x04, 0x0f, 0xbf, 0x43]);
    run(&mut emulator, 3);
    assert_eq!(reg(&emulator, RegisterName::R0), 0x8000);
    let mut emulator = machine(&[0x20, 0x03, 0x21, 0x84, 0x21, 0x04, 0x0f, 0x9d, 0x43]);
    run(&mut emulator, 3);
    assert_eq!(reg(&emulator, RegisterName::R0), 1);
    let mut emulator = machine(&[0x20, 0x03, 0x21, 0x84, 0x21, 0x04, 0x0f, 0xae, 0x43]);
    run(&mut emulator, 3);
    assert_eq!(reg(&emulator, RegisterName::R0), 0xffff);
}

#[test]
fn shifts_by_sixteen_or_more_fault() {
    for opcode in [0x9cu8, 0xad, 0xbe] {
        let mut emulator = machine(&[0x20, 0x03, 0x21, 0x84, opcode, 0x03, 0x10]);
        run(&mut emulator, 1);
        let entropy = Entropy {
            fresh: [0; 5],
            rude_awakening: QUIET,
            fault: Glitch::Bytecode { addr: 0x4000, byte: 0x99 },
        };
        let mut budget = 10usize;
        assert_eq!(emulator.step(&mut budget, &entropy), Progress::Ran);
        assert_eq!(reg(&emulator, RegisterName::R0), 0x8421);
        assert_eq!(reg(&emulator, RegisterName::FL), 0);
        emulator.set_reg(RegisterName::PC, 0x4000);
        assert_eq!(emulator.peek_from_pc::<u8>(), 0x99);
    }
}

#[test]
fn rotations_take_any_count() {
    // MovImm16 R0, 0x1234; RolImm8 R0, 20; RorImm8 R0, 4; MovImm16 R1, 0xfff1; RolReg16 R0, R1; RorReg16 R0, R1
    let mut emulator = machine(&[
        0x20, 0x03, 0x34, 0x12, 0xc1, 0x03, 0x14, 0xb1, 0x03, 0x04, 0x20, 0x04, 0xf1, 0xff, 0xc0,
        0x43, 0xb0, 0x43,
    ]);
    run(&mut emulator, 2);
    assert_eq!(reg(&emulator, RegisterName::R0), 0x2341);
    run(&mut emulator, 1);
    assert_eq!(reg(&emulator, RegisterName::R0), 0x1234);
    run(&mut emulator, 2);
    assert_eq!(reg(&emulator, RegisterName::R0), 0x2468);
    run(&mut emulator, 1);
    assert_eq!(reg(&emulator, RegisterName::R0), 0x1234);
    assert_eq!(reg(&emulator, RegisterName::FL), 0);
}

#[test]
fn bit_counts_go_to_the_destination() {
    // MovImm16 R0, 0x0f00; Ctz R1, R0; Clz R2, R0; Popcnt R3, R0
    let mut emulator = machine(&[0x20, 0x03, 0x00, 0x0f, 0xf0, 0x34, 0xe0, 0x35, 0xd0, 0x36]);
    run(&mut emulator, 4);
    assert_eq!(reg(&emulator, RegisterName::R1), 8);
    assert_eq!(reg(&emulator, RegisterName::R2), 4);
    assert_eq!(reg(&emulator, RegisterName::R3), 4);
    assert_eq!(reg(&emulator, RegisterName::R0), 0x0f00);
}

#[test]
fn parallel_bit_extract_by_register_and_immediate() {
    // MovImm16 R0, 0x1234; PextImm16 R0, 0xf00f
    let mut emulator = machine(&[0x20, 0x03, 0x34, 0x12, 0x91, 0x03, 0x0f, 0xf0]);
    run(&mut emulator, 2);
    assert_eq!(reg(&emulator, RegisterName::R0), 0x14);
    // MovImm16 R0, 0x1234; MovImm16 R1, 0x00f0; PextReg16 R0, R1
    let mut emulator = machine(&[0x20, 0x03, 0x34, 0x12, 0x20, 0x04, 0xf0, 0x00, 0x90, 0x43]);
    run(&mut emulator, 3);
    assert_eq!(reg(&emulator, RegisterName::R0), 0x3);
}

#[test]
fn push_moves_the_stack_pointer_up_and_pop_down() {
    // MovImm16 SP, 0xffff; PushImm16 0xbeef; PushImm8 0x11; MovImm16 R0, 0x2233; PushReg8 R0; PushReg16 R0
    let mut emulator = machine(&[
        0x20, 0x09, 0xff, 0xff, 0x53, 0xef, 0xbe, 0x52, 0x11, 0x20, 0x03, 0x33, 0x22, 0x50, 0x03,
        0x51, 0x03, 0x61, 0x04, 0x60, 0x05, 0x60, 0x06, 0x61, 0x07,
    ]);
    run(&mut emulator, 6);
    assert_eq!(reg(&emulator, RegisterName::SP), 5);
    assert_eq!(emulator.load_u8(0xffff), 0xef);
    assert_eq!(emulator.peek_bytes_from_mem(0, 5), vec![0xbe, 0x11, 0x33, 0x33, 0x22]);
    // Pop16 R1; Pop8 R2; Pop8 R3; Pop16 R4
    run(&mut emulator, 4);
    assert_eq!(reg(&emulator, RegisterName::R1), 0x2233);
    assert_eq!(reg(&emulator, RegisterName::R2), 0x33);
    assert_eq!(reg(&emulator, RegisterName::R3), 0x11);
    assert_eq!(reg(&emulator, RegisterName::R4), 0xbeef);
    assert_eq!(reg(&emulator, RegisterName::SP), 0xffff);
}

#[test]
fn call_and_return() {
    // 0: CallImm16 0x0010; 3: MovImm8 R1, 2; 0x10: MovImm8 R0, 1; 0x13: Ret
    let mut code = vec![0u8; 0x20];
    code[..6].copy_from_slice(&[0xfd, 0x10, 0x00, 0x21, 0x04, 0x02]);
    code[0x10..0x14].copy_from_slice(&[0x21, 0x03, 0x01, 0xc3]);
    let mut emulator = machine(&code);
    emulator.set_reg(RegisterName::SP, 0x0100);
    run(&mut emulator, 1);
    assert_eq!(reg(&emulator, RegisterName::PC), 0x10);
    assert_eq!(reg(&emulator, RegisterName::SP), 0x0102);
    assert_eq!(emulator.load_u16(0x0100), 3);
    run(&mut emulator, 2);
    assert_eq!(reg(&emulator, RegisterName::PC), 3);
    assert_eq!(reg(&emulator, RegisterName::SP), 0x0100);
    run(&mut emulator, 1);
    assert_eq!(reg(&emulator, RegisterName::R0), 1);
    assert_eq!(reg(&emulator, RegisterName::R1), 2);
    // CallReg R0 with R0 = 0x0010
    let mut code = vec![0u8; 0x20];
    code[..2].copy_from_slice(&[0xfe, 0x03]);
    let mut emulator = machine(&code);
    emulator.set_reg(RegisterName::R0, 0x0010);
    run(&mut emulator, 1);
    assert_eq!(reg(&emulator, RegisterName::PC), 0x10);
    assert_eq!(emulator.load_u16(0), 2);
    assert_eq!(reg(&emulator, RegisterName::SP), 2);
}

#[test]
fn conditional_moves_follow_the_flags() {
    // the register form is one operand byte long, the immediate form three
    let conditions: [(u8, fn(bool, bool, bool, bool) -> bool); 10] = [
        (0xd6, |z, c, _, _| !c && !z),
        (0xd7, |_, c, _, _| !c),
        (0xd8, |_, c, _, _| c),
        (0xd9, |z, c, _, _| c || z),
        (0xda, |z, _, _, _| z),
        (0xdb, |z, _, _, _| !z),
        (0xdc, |z, _, o, s| !z && s == o),
        (0xdd, |_, _, o, s| s == o),
        (0xde, |_, _, o, s| s != o),
        (0xdf, |z, _, o, s| z || s != o),
    ];
    for (opcode, holds) in conditions {
        for bits in 0u16..16 {
            let (z, c, o, s) = (bits & 1 != 0, bits & 2 != 0, bits & 4 != 0, bits & 8 != 0);
            let mut emulator = machine(&[opcode, 0x43]);
            emulator.set_reg(RegisterName::FL, bits);
            emulator.set_reg(RegisterName::R1, 0x5555);
            run(&mut emulator, 1);
            let expected = if holds(z, c, o, s) { 0x5555 } else { 0 };
            assert_eq!(reg(&emulator, RegisterName::R0), expected, "opcode {opcode:#x} flags {bits:#x}");
            assert_eq!(reg(&emulator, RegisterName::PC), 2);
            let mut emulator = machine(&[opcode + 0x10, 0x03, 0x34, 0x12]);
            emulator.set_reg(RegisterName::FL, bits);
            run(&mut emulator, 1);
            let expected = if holds(z, c, o, s) { 0x1234 } else { 0 };
            assert_eq!(reg(&emulator, RegisterName::R0), expected, "opcode {:#x} flags {bits:#x}", opcode + 0x10);
            assert_eq!(reg(&emulator, RegisterName::PC), 4);
            assert_eq!(reg(&emulator, RegisterName::FL), bits);
        }
    }
}

#[test]
fn memcpy_copies_the_low_byte_of_the_count_plus_one() {
    // Memcpy n=R0, dst=[R1], src=[R2]
    let mut emulator = machine(&[0x71, 0x03, 0x04, 0x05]);
    emulator.write_bytes_to_mem(0x0100, &[1, 2, 3, 4, 5]);
    emulator.set_reg(RegisterName::R0, 0x0302);
    emulator.set_reg(RegisterName::R1, 0x0200);
    emulator.set_reg(RegisterName::R2, 0x0100);
    let mut budget = 512usize;
    assert_eq!(emulator.step(&mut budget, &calm()), Progress::Ran);
    assert_eq!(budget, 0);
    assert_eq!(emulator.peek_bytes_from_mem(0x0200, 5), vec![1, 2, 3, 0, 0]);
    assert_eq!(reg(&emulator, RegisterName::PC), 4);
}

#[test]
fn memcpy_of_overlapping_blocks_faults() {
    for (dst, src) in [(0x0102u16, 0x0100u16), (0x0100, 0x0102), (0x0100, 0x0100), (0xffff, 0x0001), (0x0001, 0xffff)] {
        let mut emulator = machine(&[0x71, 0x03, 0x04, 0x05]);
        emulator.write_bytes_to_mem(src, &[1, 2, 3]);
        let before = emulator.peek_bytes_from_mem(0, 65536);
        emulator.set_reg(RegisterName::R0, 2);
        emulator.set_reg(RegisterName::R1, dst);
        emulator.set_reg(RegisterName::R2, src);
        let entropy = Entropy {
            fresh: [0; 5],
            rude_awakening: QUIET,
            fault: Glitch::Register { register: RegisterName::R5, value: 1 },
        };
        let mut budget = 1000usize;
        assert_eq!(emulator.step(&mut budget, &entropy), Progress::Ran);
        assert_eq!(emulator.peek_bytes_from_mem(0, 65536), before);
        assert_eq!(reg(&emulator, RegisterName::R5), 1);
    }
    // blocks that touch but do not overlap are copied
    let mut emulator = machine(&[0x71, 0x03, 0x04, 0x05]);
    emulator.write_bytes_to_mem(0x0100, &[1, 2, 3]);
    emulator.set_reg(RegisterName::R0, 2);
    emulator.set_reg(RegisterName::R1, 0x0103);
    emulator.set_reg(RegisterName::R2, 0x0100);
    run(&mut emulator, 1);
    assert_eq!(emulator.peek_bytes_from_mem(0x0100, 6), vec![1, 2, 3, 1, 2, 3]);
}

#[test]
fn memset_fills_a_block() {
    // MemsetImm8 n=R0, dst=[R1], 0xaa
    let mut emulator = machine(&[0x82, 0x03, 0x04, 0xaa]);
    emulator.set_reg(RegisterName::R0, 0x01ff);
    emulator.set_reg(RegisterName::R1, 0xff80);
    run(&mut emulator, 1);
    assert_eq!(emulator.peek_bytes_from_mem(0xff80, 128), vec![0xaa; 128]);
    assert_eq!(emulator.peek_bytes_from_mem(0, 129), {
        let mut expected = vec![0xaa; 128];
        expected.push(0);
        expected
    });
    assert_eq!(emulator.load_u8(0xff7f), 0);
    // MemsetReg n=R0, dst=[R1], byte=R2
    let mut emulator = machine(&[0x81, 0x03, 0x04, 0x05]);
    emulator.set_reg(RegisterName::R0, 1);
    emulator.set_reg(RegisterName::R1, 0x0010);
    emulator.set_reg(RegisterName::R2, 0x12bb);
    run(&mut emulator, 1);
    assert_eq!(emulator.peek_bytes_from_mem(0x000f, 4), vec![0, 0xbb, 0xbb, 0]);
    assert_eq!(reg(&emulator, RegisterName::PC), 4);
}

#[test]
fn the_random_register_feeds_an_instruction_fresh_words() {
    // AddReg16 RR, RR: the result is dropped, the flags tell the sum
    let mut emulator = machine(&[0xc4, 0xcc, 0x22, 0xc3]);
    let entropy = Entropy { fresh: [0x8000, 0x8000, 0x0042, 0, 0], rude_awakening: QUIET, fault: QUIET };
    let mut budget = 100usize;
    assert_eq!(emulator.step(&mut budget, &entropy), Progress::Ran);
    assert_eq!(flags(&emulator), (true, true, true, false));
    assert_eq!(reg(&emulator, RegisterName::RR), 0);
    // MovReg16 R0, RR takes the first word
    assert_eq!(emulator.step(&mut budget, &entropy), Progress::Ran);
    assert_eq!(reg(&emulator, RegisterName::R0), 0x8000);
}

#[test]
fn a_step_stalls_when_the_budget_is_short() {
    let mut emulator = machine(&[0x20, 0x03, 0x34, 0x12]);
    let mut budget = 3usize;
    assert_eq!(emulator.step(&mut budget, &calm()), Progress::Stalled);
    assert_eq!(budget, 3);
    assert_eq!(reg(&emulator, RegisterName::PC), 0);
    assert_eq!(reg(&emulator, RegisterName::R0), 0);
    assert!(emulator.stalled(3));
    assert!(!emulator.stalled(4));
    budget = 4;
    assert_eq!(emulator.step(&mut budget, &calm()), Progress::Ran);
    assert_eq!(budget, 0);
}

#[test]
fn nop_op_p_is_the_legal_way_to_sleep() {
    let mut emulator = machine(&[0x6e, 0x6f, 0x6f, 0x70, 0x21, 0x03, 0x01]);
    let entropy = Entropy {
        fresh: [0; 5],
        rude_awakening: Glitch::Memory { addr: 1, byte: 1 },
        fault: Glitch::Memory { addr: 2, byte: 2 },
    };
    let mut budget = 100usize;
    assert_eq!(emulator.step(&mut budget, &entropy), Progress::Ran);
    assert!(emulator.get_cpu_flag(CpuFlag::Sleep));
    assert_eq!(emulator.step(&mut budget, &entropy), Progress::Ran);
    assert_eq!(emulator.step(&mut budget, &entropy), Progress::Ran);
    assert!(emulator.get_cpu_flag(CpuFlag::Sleep));
    assert_eq!(emulator.step(&mut budget, &entropy), Progress::Ran);
    assert!(!emulator.get_cpu_flag(CpuFlag::Sleep));
    assert_eq!(emulator.step(&mut budget, &entropy), Progress::Ran);
    assert_eq!(reg(&emulator, RegisterName::R0), 1);
    assert_eq!(emulator.peek_bytes_from_mem(0, 4), vec![0, 0, 0, 0]);
    assert_eq!(budget, 93);
}

#[test]
fn op_and_p_fault_when_awake() {
    for opcode in [0x6fu8, 0x70] {
        let mut emulator = machine(&[opcode]);
        let entropy = Entropy {
            fresh: [0; 5],
            rude_awakening: Glitch::Memory { addr: 1, byte: 1 },
            fault: Glitch::Memory { addr: 2, byte: 2 },
        };
        let mut budget = 1usize;
        assert_eq!(emulator.step(&mut budget, &entropy), Progress::Ran);
        assert_eq!(emulator.peek_bytes_from_mem(0, 4), vec![0, 0, 2, 0]);
        assert!(!emulator.get_cpu_flag(CpuFlag::Sleep));
    }
}

#[test]
fn anything_else_fetched_asleep_is_struck_and_wakes() {
    // Nop; AddImm8 R0, 1
    let mut emulator = machine(&[0x6e, 0xc5, 0x03, 0x01]);
    let entropy = Entropy {
        fresh: [0; 5],
        rude_awakening: Glitch::Memory { addr: 1, byte: 0x11 },
        fault: Glitch::Memory { addr: 2, byte: 0x22 },
    };
    let mut budget = 100usize;
    assert_eq!(emulator.step(&mut budget, &entropy), Progress::Ran);
    assert!(emulator.get_cpu_flag(CpuFlag::Sleep));
    assert_eq!(emulator.peek_bytes_from_mem(0, 4), vec![0, 0, 0, 0]);
    assert_eq!(emulator.step(&mut budget, &entropy), Progress::Ran);
    assert!(!emulator.get_cpu_flag(CpuFlag::Sleep));
    assert_eq!(emulator.peek_bytes_from_mem(0, 4), vec![0, 0x11, 0, 0]);
    assert_eq!(reg(&emulator, RegisterName::R0), 1);
    assert_eq!(reg(&emulator, RegisterName::PC), 4);
}

#[test]
fn a_strike_can_rewrite_the_register_an_instruction_works_on() {
    // Nop; AddImm8 R0, 1: the strike sets R0 before the addition reads it
    let mut emulator = machine(&[0x6e, 0xc5, 0x03, 0x01]);
    let entropy = Entropy {
        fresh: [0; 5],
        rude_awakening: Glitch::Register { register: RegisterName::R0, value: 0x00ff },
        fault: QUIET,
    };
    let mut budget = 100usize;
    emulator.step(&mut budget, &entropy);
    emulator.step(&mut budget, &entropy);
    assert_eq!(reg(&emulator, RegisterName::R0), 0x0100);
}

#[test]
fn reserved_opcodes_cost_420_and_strike() {
    let mut emulator = machine(&[0x00]);
    let entropy = Entropy {
        fresh: [0; 5],
        rude_awakening: QUIET,
        fault: Glitch::Swap { first: RegisterName::TF, second: RegisterName::R0, fresh_first: 0, fresh_second: 0 },
    };
    let mut budget = 419usize;
    assert_eq!(emulator.step(&mut budget, &entropy), Progress::Stalled);
    budget = 420;
    assert_eq!(emulator.step(&mut budget, &entropy), Progress::Ran);
    assert_eq!(budget, 0);
    assert_eq!(reg(&emulator, RegisterName::R0), 0x1337);
    assert_eq!(reg(&emulator, RegisterName::TF), 0x1337);
    assert_eq!(reg(&emulator, RegisterName::PC), 1);
}

#[test]
fn strikes_of_each_kind() {
    let mut emulator = machine(&[]);
    emulator.suffer(Glitch::Memory { addr: 0xffff, byte: 9 });
    assert_eq!(emulator.load_u8(0xffff), 9);
    emulator.suffer(Glitch::Register { register: RegisterName::SP, value: 0x4444 });
    assert_eq!(reg(&emulator, RegisterName::SP), 0x4444);
    emulator.suffer(Glitch::Register { register: RegisterName::ZR, value: 0x4444 });
    assert_eq!(reg(&emulator, RegisterName::ZR), 0);
    emulator.set_reg(RegisterName::CT, 5);
    emulator.suffer(Glitch::Swap {
        first: RegisterName::RR,
        second: RegisterName::CT,
        fresh_first: 0xabcd,
        fresh_second: 0,
    });
    // the counter yields 5 and steps to 6, then takes the random word; the random register drops the 5
    assert_eq!(reg(&emulator, RegisterName::CT), 0xabcd);
    assert_eq!(reg(&emulator, RegisterName::RR), 0);
    emulator.suffer(Glitch::Bytecode { addr: 0, byte: 0x6e });
    assert_eq!(emulator.peek_from_pc::<u8>(), 0x6e);
}

#[test]
fn random_strikes_leave_the_emulator_running() {
    let mut emulator = machine(&[]);
    for _ in 0..200 {
        emulator.nasal_demons();
    }
    assert_eq!(reg(&emulator, RegisterName::TF), 0x1337);
    assert_eq!(reg(&emulator, RegisterName::ZR), 0);
    assert_eq!(reg(&emulator, RegisterName::RR), 0);
    assert_eq!(emulator.peek_bytes_from_mem(0, 65536).len(), 65536);
}

#[test]
fn a_syscall_interrupts_the_run() {
    // MovImm16 AX, 0x0110; Syscall; MovImm8 R0, 1
    let mut emulator = machine(&[0x20, 0x0f, 0x10, 0x01, 0x0f, 0x21, 0x03, 0x01]);
    let mut budget = 1000usize;
    let result = emulator.run_by_chance(&mut budget, &Chance::Tame { word: 0, glitch: QUIET });
    assert_eq!(result, Some(Syscall::Move));
    assert_eq!(budget, 896);
    assert_eq!(reg(&emulator, RegisterName::PC), 5);
    assert_eq!(reg(&emulator, RegisterName::R0), 0);
    assert_eq!(emulator.get_syscall_number(), 0x10);
    emulator.set_syscall_return_value(7);
    assert_eq!(reg(&emulator, RegisterName::AX), 7);
    let result = emulator.run_by_chance(&mut budget, &Chance::Tame { word: 0, glitch: QUIET });
    assert_eq!(result, None);
    assert_eq!(reg(&emulator, RegisterName::R0), 1);
    assert_eq!(budget, 53);
}

#[test]
fn a_syscall_that_the_budget_does_not_cover_waits() {
    let mut emulator = machine(&[0x0f]);
    let mut budget = 99usize;
    assert_eq!(emulator.run_until_interrupt(&mut budget), None);
    assert_eq!(budget, 99);
    assert_eq!(reg(&emulator, RegisterName::PC), 0);
    budget = 100;
    assert_eq!(emulator.run_until_interrupt(&mut budget), Some(Syscall::GetPid));
    assert_eq!(budget, 0);
}

#[test]
fn syscall_arguments_are_r0_to_r5() {
    let mut emulator = machine(&[]);
    for (i, register) in [RegisterName::R0, RegisterName::R1, RegisterName::R2, RegisterName::R3, RegisterName::R4, RegisterName::R5].into_iter().enumerate() {
        emulator.set_reg(register, 10 + i as u16);
    }
    assert_eq!(emulator.get_syscall_args(), (10, 11, 12, 13, 14, 15));
}

#[test]
fn a_thousand_nops_on_a_tame_source() {
    let mut emulator = machine(&[0x6e; 2000]);
    let mut budget = 1000usize;
    let result = emulator.run_by_chance(&mut budget, &Chance::Tame { word: 0, glitch: QUIET });
    assert_eq!(result, None);
    assert_eq!(budget, 0);
    assert_eq!(reg(&emulator, RegisterName::PC), 1000);
    assert!(emulator.get_cpu_flag(CpuFlag::Sleep));
    assert_eq!(emulator.load_u8(0xff00), 0);
}

#[test]
fn ticks_are_counted_in_ts() {
    let mut emulator = machine(&[]);
    emulator.set_reg(RegisterName::TS, 0xffff);
    emulator.increment_ts();
    assert_eq!(reg(&emulator, RegisterName::TS), 0);
    emulator.increment_ts();
    assert_eq!(reg(&emulator, RegisterName::TS), 1);
    emulator.increment_pc(0xffff);
    assert_eq!(reg(&emulator, RegisterName::PC), 0xffff);
}
