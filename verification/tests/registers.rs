use minecrab::vm::register::{mirror, Register, RegisterName, Registers};

#[test]
fn register_names_follow_the_nibble() {
    assert!(matches!(RegisterName::from(0x0), RegisterName::PC));
    assert!(matches!(RegisterName::from(0x1), RegisterName::FL));
    assert!(matches!(RegisterName::from(0x2), RegisterName::CT));
    assert!(matches!(RegisterName::from(0x3), RegisterName::R0));
    assert!(matches!(RegisterName::from(0x8), RegisterName::R5));
    assert!(matches!(RegisterName::from(0x9), RegisterName::SP));
    assert!(matches!(RegisterName::from(0xa), RegisterName::TF));
    assert!(matches!(RegisterName::from(0xb), RegisterName::ZR));
    assert!(matches!(RegisterName::from(0xc), RegisterName::RR));
    assert!(matches!(RegisterName::from(0xd), RegisterName::TS));
    assert!(matches!(RegisterName::from(0xe), RegisterName::RE));
    assert!(matches!(RegisterName::from(0xf), RegisterName::AX));
    assert!(matches!(RegisterName::from(0x1f), RegisterName::AX));
    assert!(matches!(RegisterName::from(0x33), RegisterName::R0));
}

#[test]
fn every_name_has_its_own_slot() {
    for value in 0u8..16 {
        assert_eq!(RegisterName::from(value).slot(), value as usize);
    }
}

#[test]
fn a_new_file_is_at_rest() {
    let registers = Registers::new();
    for value in 0u8..16 {
        let expected = if value == 0xa { 0x1337 } else { 0 };
        assert_eq!(registers.inspect(RegisterName::from(value)), expected);
    }
}

#[test]
fn general_registers_store_and_yield() {
    let mut registers = Registers::new();
    registers.store(RegisterName::R3, 0xbeef);
    assert_eq!(registers.inspect(RegisterName::R3), 0xbeef);
    assert_eq!(registers.observe(RegisterName::R3, 7), 0xbeef);
    assert_eq!(registers.observe(RegisterName::R3, 8), 0xbeef);
    assert_eq!(registers.inspect(RegisterName::R2), 0);
}

#[test]
fn the_counter_steps_after_it_is_observed() {
    let mut registers = Registers::new();
    registers.store(RegisterName::CT, 0xfffe);
    assert_eq!(registers.inspect(RegisterName::CT), 0xfffe);
    assert_eq!(registers.inspect(RegisterName::CT), 0xfffe);
    assert_eq!(registers.observe(RegisterName::CT, 0), 0xfffe);
    assert_eq!(registers.observe(RegisterName::CT, 0), 0xffff);
    assert_eq!(registers.observe(RegisterName::CT, 0), 0);
    assert_eq!(registers.inspect(RegisterName::CT), 1);
}

#[test]
fn constant_registers_ignore_writes() {
    let mut registers = Registers::new();
    registers.store(RegisterName::TF, 1);
    registers.store(RegisterName::ZR, 2);
    assert_eq!(registers.inspect(RegisterName::TF), 0x1337);
    assert_eq!(registers.observe(RegisterName::TF, 9), 0x1337);
    assert_eq!(registers.inspect(RegisterName::ZR), 0);
    assert_eq!(registers.observe(RegisterName::ZR, 9), 0);
}

#[test]
fn the_random_register_yields_what_chance_supplies() {
    let mut registers = Registers::new();
    registers.store(RegisterName::RR, 0x5555);
    assert_eq!(registers.inspect(RegisterName::RR), 0);
    assert_eq!(registers.observe(RegisterName::RR, 0x1234), 0x1234);
    assert_eq!(registers.observe(RegisterName::RR, 0x4321), 0x4321);
    assert_eq!(registers.inspect(RegisterName::RR), 0);
}

#[test]
fn the_reversing_register_mirrors_on_observation() {
    let mut registers = Registers::new();
    registers.store(RegisterName::RE, 0x0001);
    assert_eq!(registers.inspect(RegisterName::RE), 0x0001);
    assert_eq!(registers.observe(RegisterName::RE, 0), 0x8000);
    assert_eq!(registers.inspect(RegisterName::RE), 0x0001);
    registers.store(RegisterName::RE, 0x1234);
    assert_eq!(registers.observe(RegisterName::RE, 0), 0x2c48);
}

#[test]
fn mirroring_agrees_with_bit_reversal() {
    for value in [0u16, 1, 2, 0x8000, 0x1234, 0xffff, 0xa5a5, 0x00ff, 0x0180] {
        assert_eq!(mirror(value), value.reverse_bits());
    }
}

#[test]
fn cells_answer_through_the_register_trait() {
    let mut registers = Registers::new();
    registers.get_mut(RegisterName::R0).set_value(77);
    assert_eq!(registers.get(RegisterName::R0).get_value_internal(), 77);
    assert_eq!(registers.get_mut(RegisterName::CT).get_value_mut(0), 0);
    assert_eq!(registers.get(RegisterName::CT).get_value_internal(), 1);
}

#[test]
fn a_copy_of_a_file_holds_what_internal_reads_yield() {
    let mut registers = Registers::new();
    registers.store(RegisterName::CT, 41);
    registers.store(RegisterName::R1, 5);
    let mut copy = registers;
    assert_eq!(copy.inspect(RegisterName::CT), 41);
    assert_eq!(copy.observe(RegisterName::CT, 0), 41);
    assert_eq!(registers.inspect(RegisterName::CT), 41);
    assert_eq!(copy.inspect(RegisterName::R1), 5);
}
