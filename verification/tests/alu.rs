use minecrab::vm::alu;

#[test]
fn addition_reports_carry_and_overflow() {
    let r = alu::add16(1, 2);
    assert_eq!((r.value, r.carry, r.overflow), (3, false, false));
    let r = alu::add16(0xffff, 1);
    assert_eq!((r.value, r.carry, r.overflow), (0, true, false));
    let r = alu::add16(0x7fff, 1);
    assert_eq!((r.value, r.carry, r.overflow), (0x8000, false, true));
    let r = alu::add16(0x8000, 0x8000);
    assert_eq!((r.value, r.carry, r.overflow), (0, true, true));
}

#[test]
fn addition_agrees_with_the_machine_arithmetic() {
    for a in [0u16, 1, 0x7fff, 0x8000, 0xffff, 0x1234] {
        for b in [0u16, 1, 0x7fff, 0x8000, 0xffff, 0xfedc] {
            let r = alu::add16(a, b);
            let (value, carry) = a.overflowing_add(b);
            let (_, overflow) = (a as i16).overflowing_add(b as i16);
            assert_eq!((r.value, r.carry, r.overflow), (value, carry, overflow));
            let r = alu::sub16(a, b);
            let (value, carry) = a.overflowing_sub(b);
            let (_, overflow) = (a as i16).overflowing_sub(b as i16);
            assert_eq!((r.value, r.carry, r.overflow), (value, carry, overflow));
            let r = alu::mullo16(a, b);
            let (value, carry) = a.overflowing_mul(b);
            let (_, overflow) = (a as i16).overflowing_mul(b as i16);
            assert_eq!((r.value, r.carry, r.overflow), (value, carry, overflow));
        }
    }
}

#[test]
fn subtraction_borrows() {
    let r = alu::sub16(0, 1);
    assert_eq!((r.value, r.carry, r.overflow), (0xffff, true, false));
    let r = alu::sub16(0x8000, 1);
    assert_eq!((r.value, r.carry, r.overflow), (0x7fff, false, true));
}

#[test]
fn negation_and_magnitude() {
    let r = alu::neg16(0);
    assert_eq!((r.value, r.carry, r.overflow), (0, false, false));
    let r = alu::neg16(5);
    assert_eq!((r.value, r.carry, r.overflow), (0xfffb, true, false));
    let r = alu::neg16(0x8000);
    assert_eq!((r.value, r.carry, r.overflow), (0x8000, true, true));
    let r = alu::abs16(0xfffb);
    assert_eq!((r.value, r.carry, r.overflow), (5, false, false));
    let r = alu::abs16(7);
    assert_eq!((r.value, r.carry, r.overflow), (7, false, false));
    let r = alu::abs16(0x8000);
    assert_eq!((r.value, r.carry, r.overflow), (0x8000, true, true));
}

#[test]
fn wide_products_split_into_low_and_high() {
    let p = alu::mul16(0x1234, 0x5678);
    assert_eq!((p.low, p.high, p.overflow), (0x0060, 0x0626, true));
    let p = alu::mul16(3, 4);
    assert_eq!((p.low, p.high, p.overflow), (12, 0, false));
    let p = alu::mul16(0xffff, 0xffff);
    assert_eq!((p.low, p.high, p.overflow), (0x0001, 0xfffe, true));
    // -2 * 3 = -6
    let p = alu::imul16(0xfffe, 3);
    assert_eq!((p.low, p.high, p.overflow), (0xfffa, 0xffff, false));
    // -32768 * -32768 = 2^30
    let p = alu::imul16(0x8000, 0x8000);
    assert_eq!((p.low, p.high, p.overflow), (0x0000, 0x4000, true));
    // 300 * 300 = 90000
    let p = alu::imul16(300, 300);
    assert_eq!((p.low, p.high, p.overflow), (0x5f90, 0x0001, true));
}

#[test]
fn unsigned_division() {
    assert_eq!(alu::div16(17, 5), (3, 2));
    assert_eq!(alu::div16(0xffff, 1), (0xffff, 0));
    assert_eq!(alu::div16(3, 0xffff), (0, 3));
}

#[test]
fn signed_division_is_euclidean() {
    let neg = |x: i16| x as u16;
    // 7 = 2 * 3 + 1
    assert_eq!(alu::idiv16(7, 2), (3, 1));
    // -7 = 2 * -4 + 1
    assert_eq!(alu::idiv16(neg(-7), 2), (neg(-4), 1));
    // 7 = -2 * -3 + 1
    assert_eq!(alu::idiv16(7, neg(-2)), (neg(-3), 1));
    // -7 = -2 * 4 + 1
    assert_eq!(alu::idiv16(neg(-7), neg(-2)), (4, 1));
    // the one quotient that does not fit wraps
    assert_eq!(alu::idiv16(0x8000, 0xffff), (0x8000, 0));
    for a in [-32768i16, -7, -1, 0, 1, 7, 32767] {
        for b in [-32768i16, -3, -1, 1, 3, 32767] {
            assert_eq!(
                alu::idiv16(a as u16, b as u16),
                (a.wrapping_div_euclid(b) as u16, a.wrapping_rem_euclid(b) as u16)
            );
        }
    }
}

#[test]
fn shifts_and_rotations() {
    assert_eq!(alu::sar(0x8000, 15), 0xffff);
    assert_eq!(alu::sar(0x8000, 0), 0x8000);
    assert_eq!(alu::sar(0x4000, 14), 1);
    assert_eq!(alu::sar(0xfff0, 4), 0xffff);
    assert_eq!(alu::rol(0x8001, 1), 0x0003);
    assert_eq!(alu::rol(0x1234, 16), 0x1234);
    assert_eq!(alu::rol(0x1234, 20), 0x2341);
    assert_eq!(alu::ror(0x8001, 1), 0xc000);
    assert_eq!(alu::ror(0x1234, 4), 0x4123);
    for value in [0u16, 1, 0x8000, 0x1234, 0xffff] {
        for count in [0u16, 1, 7, 15, 16, 17, 255, 65535] {
            assert_eq!(alu::rol(value, count), value.rotate_left(count as u32));
            assert_eq!(alu::ror(value, count), value.rotate_right(count as u32));
        }
        for count in 0u16..16 {
            assert_eq!(alu::sar(value, count), ((value as i16) >> count) as u16);
        }
    }
}

#[test]
fn bit_counting() {
    assert_eq!(alu::ctz(0), 16);
    assert_eq!(alu::ctz(8), 3);
    assert_eq!(alu::clz(0), 16);
    assert_eq!(alu::clz(1), 15);
    assert_eq!(alu::clz(0x8000), 0);
    assert_eq!(alu::popcnt(0), 0);
    assert_eq!(alu::popcnt(0xffff), 16);
    assert_eq!(alu::popcnt(0x1234), 5);
    assert_eq!(alu::bswap(0x1234), 0x3412);
    assert_eq!(alu::sex(0x0080), 0xff80);
    assert_eq!(alu::sex(0x127f), 0x007f);
    assert_eq!(alu::sex(0x12ff), 0xffff);
}

#[test]
fn parallel_bit_extract() {
    assert_eq!(alu::pext(0xffff, 0x0000), 0);
    assert_eq!(alu::pext(0x1234, 0xffff), 0x1234);
    assert_eq!(alu::pext(0x1234, 0x00f0), 0x3);
    assert_eq!(alu::pext(0x1234, 0xf00f), 0x14);
    assert_eq!(alu::pext(0b1010_0000_0000_0101, 0b1000_0000_0000_0111), 0b1101);
}
