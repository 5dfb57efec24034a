//! The instruction set: what each opcode costs and what it does.

use crate::game::crypto::le_bytes_u16;
use crate::vm::alu;
use crate::vm::alu::{Outcome, Product};
use crate::vm::emulator::{sign_extend, sign_extended, CpuFlag, Emulator, Machine, ToBytes};
use crate::vm::entropy::Entropy;
use crate::vm::register::RegisterName;
use vstd::prelude::*;
use vstd::std_specs::bits::{u16_leading_zeros, u16_trailing_zeros};

verus! {

/// Where the second operand of an instruction comes from.
#[derive(Clone, Copy, Debug, PartialEq, Eq, Structural)]
pub enum Operand {
    /// An observing read of the register that the operand byte names.
    Register,
    /// The next byte of bytecode.
    Byte,
    /// The next byte of bytecode, read as a signed number.
    SignedByte,
    /// The next two bytes of bytecode.
    Word,
}

/// How much of a word goes to memory or comes from it.
#[derive(Clone, Copy, Debug, PartialEq, Eq, Structural)]
pub enum Width {
    Byte,
    Word,
}

impl Width {
    pub open spec fn bytes(self) -> u16 {
        match self {
            Width::Byte => 1,
            Width::Word => 2,
        }
    }

    /// The bytes that stand for `value` in memory.
    pub open spec fn encoded(self, value: u16) -> Seq<u8> {
        match self {
            Width::Byte => seq![(value % 256) as u8],
            Width::Word => le_bytes_u16(value),
        }
    }
}

/// The operations that take a destination and a second operand.
#[derive(Clone, Copy, Debug, PartialEq, Eq, Structural)]
pub enum BinaryOp {
    Add,
    Sub,
    Mullo,
    Cmp,
    And,
    Or,
    Xor,
    Nand,
    Nor,
    Xnor,
    Shr,
    Sar,
    Shl,
    Rol,
    Ror,
    Pext,
}

/// How an operation touches the flags.
#[derive(Clone, Copy, Debug, PartialEq, Eq, Structural)]
pub enum FlagEffect {
    Untouched,
    /// Zero and Sign from the result.
    Logical,
    /// Carry and Overflow as raised, then Zero and Sign from the result.
    Arithmetic,
}

impl BinaryOp {
    /// Whether the operation faults on these operands: a shift by 16 or more.
    pub open spec fn faults(self, a: u16, b: u16) -> bool {
        match self {
            BinaryOp::Shr | BinaryOp::Sar | BinaryOp::Shl => b >= 16,
            _ => false,
        }
    }

    pub open spec fn outcome(self, a: u16, b: u16) -> Outcome {
        match self {
            BinaryOp::Add => alu::sum(a, b),
            BinaryOp::Sub | BinaryOp::Cmp => alu::difference(a, b),
            BinaryOp::Mullo => alu::low_product(a, b),
            BinaryOp::And => plain(a & b),
            BinaryOp::Or => plain(a | b),
            BinaryOp::Xor => plain(a ^ b),
            BinaryOp::Nand => plain(alu::nand(a, b)),
            BinaryOp::Nor => plain(alu::nor(a, b)),
            BinaryOp::Xnor => plain(alu::xnor(a, b)),
            BinaryOp::Shr => plain(a >> b),
            BinaryOp::Sar => plain(alu::arithmetic_shift_right(a, b)),
            BinaryOp::Shl => plain(a << b),
            BinaryOp::Rol => plain(alu::rotated_left(a, b)),
            BinaryOp::Ror => plain(alu::rotated_right(a, b)),
            BinaryOp::Pext => plain(alu::extracted(a, b)),
        }
    }

    pub open spec fn flag_effect(self) -> FlagEffect {
        match self {
            BinaryOp::Add | BinaryOp::Sub | BinaryOp::Mullo | BinaryOp::Cmp => FlagEffect::Arithmetic,
            BinaryOp::Rol | BinaryOp::Ror | BinaryOp::Pext => FlagEffect::Untouched,
            _ => FlagEffect::Logical,
        }
    }

    /// Whether the result goes to the destination register.
    pub open spec fn stores(self) -> bool {
        self != BinaryOp::Cmp
    }

    fn compute(self, a: u16, b: u16) -> (r: Outcome)
        requires
            !self.faults(a, b),
        ensures
            r == self.outcome(a, b),
    {
        match self {
            BinaryOp::Add => alu::add16(a, b),
            BinaryOp::Sub | BinaryOp::Cmp => alu::sub16(a, b),
            BinaryOp::Mullo => alu::mullo16(a, b),
            BinaryOp::And => Outcome { value: a & b, carry: false, overflow: false },
            BinaryOp::Or => Outcome { value: a | b, carry: false, overflow: false },
            BinaryOp::Xor => Outcome { value: a ^ b, carry: false, overflow: false },
            BinaryOp::Nand => Outcome { value: !(a & b), carry: false, overflow: false },
            BinaryOp::Nor => Outcome { value: !(a | b), carry: false, overflow: false },
            BinaryOp::Xnor => Outcome { value: !(a ^ b), carry: false, overflow: false },
            BinaryOp::Shr => Outcome { value: a >> b, carry: false, overflow: false },
            BinaryOp::Sar => Outcome { value: alu::sar(a, b), carry: false, overflow: false },
            BinaryOp::Shl => Outcome { value: a << b, carry: false, overflow: false },
            BinaryOp::Rol => Outcome { value: alu::rol(a, b), carry: false, overflow: false },
            BinaryOp::Ror => Outcome { value: alu::ror(a, b), carry: false, overflow: false },
            BinaryOp::Pext => Outcome { value: alu::pext(a, b), carry: false, overflow: false },
        }
    }

    fn effect(self) -> (e: FlagEffect)
        ensures
            e == self.flag_effect(),
    {
        match self {
            BinaryOp::Add | BinaryOp::Sub | BinaryOp::Mullo | BinaryOp::Cmp => FlagEffect::Arithmetic,
            BinaryOp::Rol | BinaryOp::Ror | BinaryOp::Pext => FlagEffect::Untouched,
            _ => FlagEffect::Logical,
        }
    }
}

/// An outcome that raises neither carry nor overflow.
pub open spec fn plain(value: u16) -> Outcome {
    Outcome { value, carry: false, overflow: false }
}

/// The operations that rewrite one register in place.
#[derive(Clone, Copy, Debug, PartialEq, Eq, Structural)]
pub enum UnaryOp {
    Neg,
    Abs,
    Not,
    Sex,
    Bswap,
}

impl UnaryOp {
    pub open spec fn outcome(self, a: u16) -> Outcome {
        match self {
            UnaryOp::Neg => alu::negation(a),
            UnaryOp::Abs => alu::magnitude(a),
            UnaryOp::Not => plain(!a),
            UnaryOp::Sex => plain(alu::low_byte_sign_extended(a)),
            UnaryOp::Bswap => plain(alu::bytes_swapped(a)),
        }
    }

    pub open spec fn flag_effect(self) -> FlagEffect {
        match self {
            UnaryOp::Neg | UnaryOp::Abs => FlagEffect::Arithmetic,
            _ => FlagEffect::Untouched,
        }
    }

    fn compute(self, a: u16) -> (r: Outcome)
        ensures
            r == self.outcome(a),
    {
        match self {
            UnaryOp::Neg => alu::neg16(a),
            UnaryOp::Abs => alu::abs16(a),
            UnaryOp::Not => Outcome { value: !a, carry: false, overflow: false },
            UnaryOp::Sex => Outcome { value: alu::sex(a), carry: false, overflow: false },
            UnaryOp::Bswap => Outcome { value: alu::bswap(a), carry: false, overflow: false },
        }
    }

    fn effect(self) -> (e: FlagEffect)
        ensures
            e == self.flag_effect(),
    {
        match self {
            UnaryOp::Neg | UnaryOp::Abs => FlagEffect::Arithmetic,
            _ => FlagEffect::Untouched,
        }
    }
}

/// What a move does to the value on its way to the destination.
#[derive(Clone, Copy, Debug, PartialEq, Eq, Structural)]
pub enum Passage {
    Whole,
    LowByte,
    TrailingZeros,
    LeadingZeros,
    Ones,
}

impl Passage {
    pub open spec fn applied(self, v: u16) -> u16 {
        match self {
            Passage::Whole => v,
            Passage::LowByte => alu::low_byte(v),
            Passage::TrailingZeros => u16_trailing_zeros(v) as u16,
            Passage::LeadingZeros => u16_leading_zeros(v) as u16,
            Passage::Ones => alu::ones(v),
        }
    }

    fn apply(self, v: u16) -> (r: u16)
        ensures
            r == self.applied(v),
    {
        match self {
            Passage::Whole => v,
            Passage::LowByte => v % 256,
            Passage::TrailingZeros => alu::ctz(v),
            Passage::LeadingZeros => alu::clz(v),
            Passage::Ones => alu::popcnt(v),
        }
    }
}

/// The conditions of the conditional moves, as after a comparison.
#[derive(Clone, Copy, Debug, PartialEq, Eq, Structural)]
pub enum Condition {
    Above,
    AboveOrEqual,
    Below,
    BelowOrEqual,
    Equal,
    NotEqual,
    Greater,
    GreaterOrEqual,
    Less,
    LessOrEqual,
}

impl Condition {
    /// Whether the condition holds under the given flags.
    pub open spec fn holds(self, zero: bool, carry: bool, overflow: bool, sign: bool) -> bool {
        match self {
            Condition::Above => !carry && !zero,
            Condition::AboveOrEqual => !carry,
            Condition::Below => carry,
            Condition::BelowOrEqual => carry || zero,
            Condition::Equal => zero,
            Condition::NotEqual => !zero,
            Condition::Greater => !zero && sign == overflow,
            Condition::GreaterOrEqual => sign == overflow,
            Condition::Less => sign != overflow,
            Condition::LessOrEqual => zero || sign != overflow,
        }
    }

    fn test(self, zero: bool, carry: bool, overflow: bool, sign: bool) -> (r: bool)
        ensures
            r == self.holds(zero, carry, overflow, sign),
    {
        match self {
            Condition::Above => !carry && !zero,
            Condition::AboveOrEqual => !carry,
            Condition::Below => carry,
            Condition::BelowOrEqual => carry || zero,
            Condition::Equal => zero,
            Condition::NotEqual => !zero,
            Condition::Greater => !zero && sign == overflow,
            Condition::GreaterOrEqual => sign == overflow,
            Condition::Less => sign != overflow,
            Condition::LessOrEqual => zero || sign != overflow,
        }
    }
}

impl Machine {
    /// The value of a second operand.
    pub open spec fn operand(self, source: RegisterName, kind: Operand, fresh: u16) -> u16 {
        match kind {
            Operand::Register => self.observed(source, fresh),
            Operand::Byte => self.code8() as u16,
            Operand::SignedByte => sign_extended(self.code8()),
            Operand::Word => self.code16(),
        }
    }

    /// The machine once a second operand has been read.
    pub open spec fn after_operand(self, source: RegisterName, kind: Operand) -> Machine {
        match kind {
            Operand::Register => self.after_observing(source),
            Operand::Byte | Operand::SignedByte => self.advanced(1),
            Operand::Word => self.advanced(2),
        }
    }

    /// The machine with the flags that an outcome leaves.
    pub open spec fn with_outcome_flags(self, effect: FlagEffect, outcome: Outcome) -> Machine {
        match effect {
            FlagEffect::Untouched => self,
            FlagEffect::Logical => self.with_logical_flags(outcome.value),
            FlagEffect::Arithmetic => self.with_arithmetic_flags(
                outcome.value,
                outcome.carry,
                outcome.overflow,
            ),
        }
    }

    /// A move into the first register of the pair, from a second operand.
    pub open spec fn moved(self, passage: Passage, kind: Operand, entropy: Entropy) -> Machine {
        let (dst, src) = self.register_pair();
        let start = self.advanced(1);
        let value = start.operand(src, kind, entropy.word(0));
        start.after_operand(src, kind).with_reg(dst, passage.applied(value))
    }

    /// A conditional move: the move where the condition holds, and else a
    /// step over the operand bytes.
    pub open spec fn moved_if(self, condition: Condition, kind: Operand, entropy: Entropy) -> Machine {
        if condition.holds(
            self.flag(CpuFlag::Zero),
            self.flag(CpuFlag::Carry),
            self.flag(CpuFlag::Overflow),
            self.flag(CpuFlag::Sign),
        ) {
            self.moved(Passage::Whole, kind, entropy)
        } else if kind == Operand::Word {
            self.advanced(3)
        } else {
            self.advanced(1)
        }
    }

    /// A binary operation on the first register of the pair and a second
    /// operand. The first register is observed first.
    pub open spec fn combined(self, op: BinaryOp, kind: Operand, entropy: Entropy) -> Machine {
        let (dst, src) = self.register_pair();
        let start = self.advanced(1);
        let a = start.observed(dst, entropy.word(0));
        let seen = start.after_observing(dst);
        let b = seen.operand(src, kind, entropy.word(1));
        let ready = seen.after_operand(src, kind);
        if op.faults(a, b) {
            ready.corrupted(entropy.fault)
        } else {
            let outcome = op.outcome(a, b);
            let flagged = ready.with_outcome_flags(op.flag_effect(), outcome);
            if op.stores() {
                flagged.with_reg(dst, outcome.value)
            } else {
                flagged
            }
        }
    }

    /// An operation that rewrites the first register of the pair.
    pub open spec fn rewritten(self, op: UnaryOp, entropy: Entropy) -> Machine {
        let (reg, _) = self.register_pair();
        let start = self.advanced(1);
        let a = start.observed(reg, entropy.word(0));
        let outcome = op.outcome(a);
        start.after_observing(reg).with_outcome_flags(op.flag_effect(), outcome).with_reg(
            reg,
            outcome.value,
        )
    }

    /// The two values that a multiplication or a division works on, and the
    /// machine once they have been read. With a register operand, a second
    /// operand byte names the source, and both bytes are read before any
    /// register is observed.
    pub open spec fn wide_operands(self, kind: Operand, entropy: Entropy) -> (u16, u16, Machine) {
        let (first, _) = self.register_pair();
        let start = self.advanced(1);
        if kind == Operand::Register {
            let (src, _) = start.register_pair();
            let both = start.advanced(1);
            let a = both.observed(first, entropy.word(0));
            let seen = both.after_observing(first);
            (a, seen.observed(src, entropy.word(1)), seen.after_observing(src))
        } else {
            let a = start.observed(first, entropy.word(0));
            let seen = start.after_observing(first);
            (a, seen.operand(first, kind, entropy.word(1)), seen.after_operand(first, kind))
        }
    }

    /// A multiplication: the low half of the product goes to the first
    /// register of the pair, the high half to the second.
    pub open spec fn multiplied(self, signed: bool, kind: Operand, entropy: Entropy) -> Machine {
        let (low, high) = self.register_pair();
        let (a, b, ready) = self.wide_operands(kind, entropy);
        let product = if signed {
            alu::wide_signed_product(a, b)
        } else {
            alu::wide_product(a, b)
        };
        ready.with_arithmetic_flags(product.low, product.overflow, product.overflow).with_reg(
            low,
            product.low,
        ).with_reg(high, product.high)
    }

    /// A division: the quotient goes to the first register of the pair, the
    /// remainder to the second. Division by zero is a fault.
    pub open spec fn divided(self, signed: bool, kind: Operand, entropy: Entropy) -> Machine {
        let (quot, rem) = self.register_pair();
        let (a, b, ready) = self.wide_operands(kind, entropy);
        if b == 0 {
            ready.corrupted(entropy.fault)
        } else {
            let result = if signed {
                alu::signed_quotient(a, b)
            } else {
                alu::quotient(a, b)
            };
            ready.with_reg(quot, result.0).with_reg(rem, result.1)
        }
    }

    /// The value in memory at `addr`, of the given width.
    pub open spec fn mem(self, addr: u16, width: Width) -> u16 {
        match width {
            Width::Byte => self.mem8(addr) as u16,
            Width::Word => self.mem16(addr),
        }
    }

    /// A load from the address that the address operand stands for.
    pub open spec fn loaded(self, width: Width, entropy: Entropy) -> Machine {
        let (dst, _) = self.register_pair();
        let start = self.advanced(1);
        let addr = start.address_operand(entropy.word(0), entropy.word(1));
        let ready = start.after_address_operand();
        ready.with_reg(dst, ready.mem(addr, width))
    }

    /// The address that the address operand stands for, into a register.
    pub open spec fn address_taken(self, entropy: Entropy) -> Machine {
        let (dst, _) = self.register_pair();
        let start = self.advanced(1);
        let addr = start.address_operand(entropy.word(0), entropy.word(1));
        start.after_address_operand().with_reg(dst, addr)
    }

    /// A store to the address that the address operand stands for. With a
    /// register operand, an operand byte that follows the address names it.
    pub open spec fn stored(self, kind: Operand, width: Width, entropy: Entropy) -> Machine {
        let addr = self.address_operand(entropy.word(0), entropy.word(1));
        let start = self.after_address_operand();
        if kind == Operand::Register {
            let (src, _) = start.register_pair();
            let named = start.advanced(1);
            let value = named.observed(src, entropy.word(2));
            named.after_observing(src).with_memory(addr, width.encoded(value))
        } else {
            let value = start.operand(RegisterName::PC, kind, 0);
            start.after_operand(RegisterName::PC, kind).with_memory(addr, width.encoded(value))
        }
    }

    /// The two registers of the pair exchange what they yield; the first is
    /// observed first.
    pub open spec fn exchanged(self, entropy: Entropy) -> Machine {
        let (first, second) = self.register_pair();
        let start = self.advanced(1);
        let a = start.observed(first, entropy.word(0));
        let seen = start.after_observing(first);
        let b = seen.observed(second, entropy.word(1));
        seen.after_observing(second).with_reg(first, b).with_reg(second, a)
    }

    /// The value goes to memory at the stack pointer, which then moves up.
    pub open spec fn pushed_value(self, value: u16, width: Width, fresh: u16) -> Machine {
        let sp = self.observed(RegisterName::SP, fresh);
        self.after_observing(RegisterName::SP).with_memory(sp, width.encoded(value)).with_reg(
            RegisterName::SP,
            sp.wrapping_add(width.bytes()),
        )
    }

    /// A push of a register or of an immediate value.
    pub open spec fn pushed(self, kind: Operand, width: Width, entropy: Entropy) -> Machine {
        if kind == Operand::Register {
            let (src, _) = self.register_pair();
            let start = self.advanced(1);
            let value = start.observed(src, entropy.word(0));
            start.after_observing(src).pushed_value(value, width, entropy.word(1))
        } else {
            let value = self.operand(RegisterName::PC, kind, 0);
            self.after_operand(RegisterName::PC, kind).pushed_value(value, width, entropy.word(1))
        }
    }

    /// The stack pointer moves down, and the value it then points at is
    /// returned with the machine.
    pub open spec fn popped_value(self, width: Width, fresh: u16) -> (u16, Machine) {
        let sp = self.observed(RegisterName::SP, fresh).wrapping_sub(width.bytes());
        let lowered = self.after_observing(RegisterName::SP).with_reg(RegisterName::SP, sp);
        (lowered.mem(sp, width), lowered)
    }

    /// A pop into the first register of the pair.
    pub open spec fn popped(self, width: Width, entropy: Entropy) -> Machine {
        let (dst, _) = self.register_pair();
        let (value, lowered) = self.advanced(1).popped_value(width, entropy.word(0));
        lowered.with_reg(dst, value)
    }

    /// The length that a count register stands for: its low byte plus one.
    pub open spec fn block_length(count: u16) -> u16 {
        (count % 256 + 1) as u16
    }

    /// Whether two blocks of `n` bytes overlap on the circle of addresses.
    pub open spec fn blocks_overlap(dst: u16, src: u16, n: u16) -> bool {
        dst.wrapping_sub(src) < n || src.wrapping_sub(dst) < n
    }

    /// A copy within memory; blocks that overlap are a fault.
    pub open spec fn copied(self, entropy: Entropy) -> Machine {
        let (nreg, _) = self.register_pair();
        let start = self.advanced(1);
        let n = Machine::block_length(start.observed(nreg, entropy.word(0)));
        let counted = start.after_observing(nreg);
        let dst = counted.address_operand(entropy.word(1), entropy.word(2));
        let aimed = counted.after_address_operand();
        let src = aimed.address_operand(entropy.word(3), entropy.word(4));
        let ready = aimed.after_address_operand();
        if Machine::blocks_overlap(dst, src, n) {
            ready.corrupted(entropy.fault)
        } else {
            ready.with_memory(dst, ready.memory_at(src, n as nat))
        }
    }

    /// A block of memory filled with one byte.
    pub open spec fn filled(self, kind: Operand, entropy: Entropy) -> Machine {
        let (nreg, _) = self.register_pair();
        let start = self.advanced(1);
        let n = Machine::block_length(start.observed(nreg, entropy.word(0)));
        let counted = start.after_observing(nreg);
        let dst = counted.address_operand(entropy.word(1), entropy.word(2));
        let aimed = counted.after_address_operand();
        if kind == Operand::Register {
            let (breg, _) = aimed.register_pair();
            let named = aimed.advanced(1);
            let byte = (named.observed(breg, entropy.word(3)) % 256) as u8;
            named.after_observing(breg).with_memory(dst, Seq::new(n as nat, |i: int| byte))
        } else {
            let byte = aimed.code8();
            aimed.advanced(1).with_memory(dst, Seq::new(n as nat, |i: int| byte))
        }
    }

    /// A call: the program counter goes to the stack, then to the target.
    pub open spec fn called(self, kind: Operand, entropy: Entropy) -> Machine {
        let (target, start) = if kind == Operand::Register {
            let (src, _) = self.register_pair();
            let named = self.advanced(1);
            (named.observed(src, entropy.word(0)), named.after_observing(src))
        } else {
            (self.code16(), self.advanced(2))
        };
        let back = start.observed(RegisterName::PC, entropy.word(1));
        start.after_observing(RegisterName::PC).pushed_value(
            back,
            Width::Word,
            entropy.word(2),
        ).with_reg(RegisterName::PC, target)
    }

    /// A return: the program counter comes back from the stack.
    pub open spec fn returned(self, entropy: Entropy) -> Machine {
        let (target, lowered) = self.popped_value(Width::Word, entropy.word(0));
        lowered.with_reg(RegisterName::PC, target)
    }

    /// The machine falls asleep.
    pub open spec fn lulled(self) -> Machine {
        self.with_flag(CpuFlag::Sleep, true)
    }

    /// Nothing happens to a sleeping machine; a waking one faults.
    pub open spec fn dozed(self, entropy: Entropy) -> Machine {
        if self.flag(CpuFlag::Sleep) {
            self
        } else {
            self.corrupted(entropy.fault)
        }
    }

    /// A sleeping machine wakes up; a waking one faults.
    pub open spec fn woken(self, entropy: Entropy) -> Machine {
        if self.flag(CpuFlag::Sleep) {
            self.with_flag(CpuFlag::Sleep, false)
        } else {
            self.corrupted(entropy.fault)
        }
    }
}

impl Width {
    fn size(self) -> (n: u16)
        ensures
            n == self.bytes(),
    {
        match self {
            Width::Byte => 1,
            Width::Word => 2,
        }
    }

    fn encode(self, value: u16) -> (bytes: Vec<u8>)
        ensures
            bytes@ == self.encoded(value),
    {
        match self {
            Width::Byte => ((value % 256) as u8).to_bytes(),
            Width::Word => value.to_bytes(),
        }
    }
}

impl Emulator {
    fn read_operand(&mut self, source: RegisterName, kind: Operand, fresh: u16) -> (value: u16)
        requires
            old(self).wf(),
        ensures
            final(self).wf(),
            value == old(self)@.operand(source, kind, fresh),
            final(self)@ == old(self)@.after_operand(source, kind),
    {
        match kind {
            Operand::Register => self.get_reg_mut(source, fresh),
            Operand::Byte => self.fetch_u8() as u16,
            Operand::SignedByte => sign_extend(self.fetch_u8()),
            Operand::Word => self.fetch_u16(),
        }
    }

    fn apply_flags(&mut self, effect: FlagEffect, outcome: Outcome)
        requires
            old(self).wf(),
        ensures
            final(self).wf(),
            final(self)@ == old(self)@.with_outcome_flags(effect, outcome),
    {
        match effect {
            FlagEffect::Untouched => {},
            FlagEffect::Logical => self.set_logical_flags(outcome.value),
            FlagEffect::Arithmetic => self.set_arithmetic_flags(
                outcome.value,
                outcome.carry,
                outcome.overflow,
            ),
        }
    }

    fn load(&self, addr: u16, width: Width) -> (value: u16)
        requires
            self.wf(),
        ensures
            value == self@.mem(addr, width),
    {
        match width {
            Width::Byte => self.load_u8(addr) as u16,
            Width::Word => self.load_u16(addr),
        }
    }

    fn exec_move(&mut self, passage: Passage, kind: Operand, entropy: &Entropy)
        requires
            old(self).wf(),
        ensures
            final(self).wf(),
            final(self)@ == old(self)@.moved(passage, kind, *entropy),
    {
        let (dst, src) = self.read_registers_operand();
        let value = self.read_operand(src, kind, entropy.fresh[0]);
        self.set_reg(dst, passage.apply(value));
    }

    fn exec_move_if(&mut self, condition: Condition, kind: Operand, entropy: &Entropy)
        requires
            old(self).wf(),
        ensures
            final(self).wf(),
            final(self)@ == old(self)@.moved_if(condition, kind, *entropy),
    {
        let zero = self.get_cpu_flag(CpuFlag::Zero);
        let carry = self.get_cpu_flag(CpuFlag::Carry);
        let overflow = self.get_cpu_flag(CpuFlag::Overflow);
        let sign = self.get_cpu_flag(CpuFlag::Sign);
        if condition.test(zero, carry, overflow, sign) {
            self.exec_move(Passage::Whole, kind, entropy);
        } else {
            match kind {
                Operand::Word => self.increment_pc(3),
                _ => self.increment_pc(1),
            }
        }
    }

    fn exec_binary(&mut self, op: BinaryOp, kind: Operand, entropy: &Entropy)
        requires
            old(self).wf(),
        ensures
            final(self).wf(),
            final(self)@ == old(self)@.combined(op, kind, *entropy),
    {
        let (dst, src) = self.read_registers_operand();
        let a = self.get_reg_mut(dst, entropy.fresh[0]);
        let b = self.read_operand(src, kind, entropy.fresh[1]);
        let faults = match op {
            BinaryOp::Shr | BinaryOp::Sar | BinaryOp::Shl => b >= 16,
            _ => false,
        };
        if faults {
            self.suffer(entropy.fault);
            return ;
        }
        let outcome = op.compute(a, b);
        self.apply_flags(op.effect(), outcome);
        match op {
            BinaryOp::Cmp => {},
            _ => self.set_reg(dst, outcome.value),
        }
    }

    fn exec_unary(&mut self, op: UnaryOp, entropy: &Entropy)
        requires
            old(self).wf(),
        ensures
            final(self).wf(),
            final(self)@ == old(self)@.rewritten(op, *entropy),
    {
        let (reg, _) = self.read_registers_operand();
        let a = self.get_reg_mut(reg, entropy.fresh[0]);
        let outcome = op.compute(a);
        self.apply_flags(op.effect(), outcome);
        self.set_reg(reg, outcome.value);
    }

    fn read_wide_operands(&mut self, kind: Operand, entropy: &Entropy) -> (r: (
        RegisterName,
        RegisterName,
        u16,
        u16,
    ))
        requires
            old(self).wf(),
        ensures
            final(self).wf(),
            (r.0, r.1) == old(self)@.register_pair(),
            (r.2, r.3, final(self)@) == old(self)@.wide_operands(kind, *entropy),
    {
        let (first, second) = self.read_registers_operand();
        match kind {
            Operand::Register => {
                let (src, _) = self.read_registers_operand();
                let a = self.get_reg_mut(first, entropy.fresh[0]);
                let b = self.get_reg_mut(src, entropy.fresh[1]);
                (first, second, a, b)
            },
            _ => {
                let a = self.get_reg_mut(first, entropy.fresh[0]);
                let b = self.read_operand(first, kind, entropy.fresh[1]);
                (first, second, a, b)
            },
        }
    }

    fn exec_multiply(&mut self, signed: bool, kind: Operand, entropy: &Entropy)
        requires
            old(self).wf(),
        ensures
            final(self).wf(),
            final(self)@ == old(self)@.multiplied(signed, kind, *entropy),
    {
        let (low, high, a, b) = self.read_wide_operands(kind, entropy);
        let product = if signed {
            alu::imul16(a, b)
        } else {
            alu::mul16(a, b)
        };
        self.set_arithmetic_flags(product.low, product.overflow, product.overflow);
        self.set_reg(low, product.low);
        self.set_reg(high, product.high);
    }

    fn exec_divide(&mut self, signed: bool, kind: Operand, entropy: &Entropy)
        requires
            old(self).wf(),
        ensures
            final(self).wf(),
            final(self)@ == old(self)@.divided(signed, kind, *entropy),
    {
        let (quot, rem, a, b) = self.read_wide_operands(kind, entropy);
        if b == 0 {
            self.suffer(entropy.fault);
            return ;
        }
        let result = if signed {
            alu::idiv16(a, b)
        } else {
            alu::div16(a, b)
        };
        self.set_reg(quot, result.0);
        self.set_reg(rem, result.1);
    }

    fn exec_load(&mut self, width: Width, entropy: &Entropy)
        requires
            old(self).wf(),
        ensures
            final(self).wf(),
            final(self)@ == old(self)@.loaded(width, *entropy),
    {
        let (dst, _) = self.read_registers_operand();
        let addr = self.read_address_operand(entropy.fresh[0], entropy.fresh[1]);
        let value = self.load(addr, width);
        self.set_reg(dst, value);
    }

    fn exec_lea(&mut self, entropy: &Entropy)
        requires
            old(self).wf(),
        ensures
            final(self).wf(),
            final(self)@ == old(self)@.address_taken(*entropy),
    {
        let (dst, _) = self.read_registers_operand();
        let addr = self.read_address_operand(entropy.fresh[0], entropy.fresh[1]);
        self.set_reg(dst, addr);
    }

    fn exec_store(&mut self, kind: Operand, width: Width, entropy: &Entropy)
        requires
            old(self).wf(),
        ensures
            final(self).wf(),
            final(self)@ == old(self)@.stored(kind, width, *entropy),
    {
        let addr = self.read_address_operand(entropy.fresh[0], entropy.fresh[1]);
        let value = match kind {
            Operand::Register => {
                let (src, _) = self.read_registers_operand();
                self.get_reg_mut(src, entropy.fresh[2])
            },
            _ => self.read_operand(RegisterName::PC, kind, 0),
        };
        let bytes = width.encode(value);
        self.write_bytes_to_mem(addr, bytes.as_slice());
    }

    fn exec_xchg(&mut self, entropy: &Entropy)
        requires
            old(self).wf(),
        ensures
            final(self).wf(),
            final(self)@ == old(self)@.exchanged(*entropy),
    {
        let (first, second) = self.read_registers_operand();
        let a = self.get_reg_mut(first, entropy.fresh[0]);
        let b = self.get_reg_mut(second, entropy.fresh[1]);
        self.set_reg(first, b);
        self.set_reg(second, a);
    }

    fn push_value(&mut self, value: u16, width: Width, fresh: u16)
        requires
            old(self).wf(),
        ensures
            final(self).wf(),
            final(self)@ == old(self)@.pushed_value(value, width, fresh),
    {
        let sp = self.get_reg_mut(RegisterName::SP, fresh);
        let bytes = width.encode(value);
        self.write_bytes_to_mem(sp, bytes.as_slice());
        self.set_reg(RegisterName::SP, sp.wrapping_add(width.size()));
    }

    fn pop_value(&mut self, width: Width, fresh: u16) -> (value: u16)
        requires
            old(self).wf(),
        ensures
            final(self).wf(),
            (value, final(self)@) == old(self)@.popped_value(width, fresh),
    {
        let sp = self.get_reg_mut(RegisterName::SP, fresh).wrapping_sub(width.size());
        self.set_reg(RegisterName::SP, sp);
        self.load(sp, width)
    }

    fn exec_push(&mut self, kind: Operand, width: Width, entropy: &Entropy)
        requires
            old(self).wf(),
        ensures
            final(self).wf(),
            final(self)@ == old(self)@.pushed(kind, width, *entropy),
    {
        let value = match kind {
            Operand::Register => {
                let (src, _) = self.read_registers_operand();
                self.get_reg_mut(src, entropy.fresh[0])
            },
            _ => self.read_operand(RegisterName::PC, kind, 0),
        };
        self.push_value(value, width, entropy.fresh[1]);
    }

    fn exec_pop(&mut self, width: Width, entropy: &Entropy)
        requires
            old(self).wf(),
        ensures
            final(self).wf(),
            final(self)@ == old(self)@.popped(width, *entropy),
    {
        let (dst, _) = self.read_registers_operand();
        let value = self.pop_value(width, entropy.fresh[0]);
        self.set_reg(dst, value);
    }

    fn read_block_length(&mut self, fresh: u16) -> (n: u16)
        requires
            old(self).wf(),
        ensures
            final(self).wf(),
            n == Machine::block_length(
                old(self)@.advanced(1).observed(old(self)@.register_pair().0, fresh),
            ),
            final(self)@ == old(self)@.advanced(1).after_observing(old(self)@.register_pair().0),
            1 <= n <= 256,
    {
        let (nreg, _) = self.read_registers_operand();
        self.get_reg_mut(nreg, fresh) % 256 + 1
    }

    fn exec_memcpy(&mut self, entropy: &Entropy)
        requires
            old(self).wf(),
        ensures
            final(self).wf(),
            final(self)@ == old(self)@.copied(*entropy),
    {
        let n = self.read_block_length(entropy.fresh[0]);
        let dst = self.read_address_operand(entropy.fresh[1], entropy.fresh[2]);
        let src = self.read_address_operand(entropy.fresh[3], entropy.fresh[4]);
        if dst.wrapping_sub(src) < n || src.wrapping_sub(dst) < n {
            self.suffer(entropy.fault);
            return ;
        }
        let bytes = self.peek_bytes_from_mem(src, n as usize);
        self.write_bytes_to_mem(dst, bytes.as_slice());
    }

    fn exec_memset(&mut self, kind: Operand, entropy: &Entropy)
        requires
            old(self).wf(),
        ensures
            final(self).wf(),
            final(self)@ == old(self)@.filled(kind, *entropy),
    {
        let n = self.read_block_length(entropy.fresh[0]);
        let dst = self.read_address_operand(entropy.fresh[1], entropy.fresh[2]);
        let byte = match kind {
            Operand::Register => {
                let (breg, _) = self.read_registers_operand();
                (self.get_reg_mut(breg, entropy.fresh[3]) % 256) as u8
            },
            _ => self.fetch_u8(),
        };
        let mut bytes: Vec<u8> = Vec::new();
        let mut i: u16 = 0;
        while i < n
            invariant
                i <= n,
                bytes@ == Seq::new(i as nat, |k: int| byte),
            decreases n - i,
        {
            bytes.push(byte);
            assert(bytes@ =~= Seq::new((i + 1) as nat, |k: int| byte));
            i += 1;
        }
        self.write_bytes_to_mem(dst, bytes.as_slice());
    }

    fn exec_call(&mut self, kind: Operand, entropy: &Entropy)
        requires
            old(self).wf(),
        ensures
            final(self).wf(),
            final(self)@ == old(self)@.called(kind, *entropy),
    {
        let target = match kind {
            Operand::Register => {
                let (src, _) = self.read_registers_operand();
                self.get_reg_mut(src, entropy.fresh[0])
            },
            _ => self.fetch_u16(),
        };
        let back = self.get_reg_mut(RegisterName::PC, entropy.fresh[1]);
        self.push_value(back, Width::Word, entropy.fresh[2]);
        self.set_reg(RegisterName::PC, target);
    }

    fn exec_ret(&mut self, entropy: &Entropy)
        requires
            old(self).wf(),
        ensures
            final(self).wf(),
            final(self)@ == old(self)@.returned(*entropy),
    {
        let target = self.pop_value(Width::Word, entropy.fresh[0]);
        self.set_reg(RegisterName::PC, target);
    }

    fn exec_op(&mut self, entropy: &Entropy)
        requires
            old(self).wf(),
        ensures
            final(self).wf(),
            final(self)@ == old(self)@.dozed(*entropy),
    {
        if !self.get_cpu_flag(CpuFlag::Sleep) {
            self.suffer(entropy.fault);
        }
    }

    fn exec_p(&mut self, entropy: &Entropy)
        requires
            old(self).wf(),
        ensures
            final(self).wf(),
            final(self)@ == old(self)@.woken(*entropy),
    {
        if !self.get_cpu_flag(CpuFlag::Sleep) {
            self.suffer(entropy.fault);
            return ;
        }
        self.set_cpu_flag(CpuFlag::Sleep, false);
    }
}

/// What an instruction does, apart from its opcode and its cost.
#[derive(Clone, Copy, Debug, PartialEq, Eq, Structural)]
pub enum Shape {
    Move(Passage, Operand),
    MoveIf(Condition, Operand),
    Binary(BinaryOp, Operand),
    Unary(UnaryOp),
    /// A multiplication, signed or not.
    Multiply(bool, Operand),
    /// A division, signed or not.
    Divide(bool, Operand),
    Load(Width),
    Store(Operand, Width),
    Lea,
    Xchg,
    Push(Operand, Width),
    Pop(Width),
    Memcpy,
    Memset(Operand),
    Call(Operand),
    Ret,
    Nop,
    Op,
    P,
    Syscall,
    Reserved,
}

/// The instructions of the machine. `Reserved` stands for every opcode that
/// names no other instruction.
#[derive(Clone, Copy, Debug, PartialEq, Eq, Structural)]
pub enum Instruction {
    MovReg8,
    MovReg16,
    MovImm8,
    MovImm16,
    Load8,
    Load16,
    StoreReg8,
    StoreReg16,
    StoreImm8,
    StoreImm16,
    Lea,
    Xchg,
    Sex,
    CmovaReg16,
    CmovaImm16,
    CmovaeReg16,
    CmovaeImm16,
    CmovbReg16,
    CmovbImm16,
    CmovbeReg16,
    CmovbeImm16,
    CmoveReg16,
    CmoveImm16,
    CmovneReg16,
    CmovneImm16,
    CmovgReg16,
    CmovgImm16,
    CmovgeReg16,
    CmovgeImm16,
    CmovlReg16,
    CmovlImm16,
    CmovleReg16,
    CmovleImm16,
    PushReg8,
    PushReg16,
    PushImm8,
    PushImm16,
    Pop8,
    Pop16,
    Memcpy,
    MemsetReg,
    MemsetImm8,
    AddReg16,
    AddImm8,
    AddImm16,
    SubReg16,
    SubImm8,
    SubImm16,
    MulReg16,
    MulImm8,
    MulImm16,
    MulloReg16,
    MulloImm8,
    MulloImm16,
    ImulReg16,
    ImulImm8,
    ImulImm16,
    DivReg16,
    DivImm8,
    DivImm16,
    IdivReg16,
    IdivImm8,
    IdivImm16,
    Neg,
    Abs,
    CmpReg16,
    CmpImm8,
    CmpImm16,
    Not,
    AndReg16,
    AndImm8,
    AndImm16,
    OrReg16,
    OrImm8,
    OrImm16,
    XorReg16,
    XorImm8,
    XorImm16,
    NandReg16,
    NandImm8,
    NandImm16,
    NorReg16,
    NorImm8,
    NorImm16,
    XnorReg16,
    XnorImm8,
    XnorImm16,
    ShrReg16,
    ShrImm8,
    SarReg16,
    SarImm8,
    ShlReg16,
    ShlImm8,
    Ctz,
    Clz,
    Popcnt,
    RolReg16,
    RolImm8,
    RorReg16,
    RorImm8,
    Bswap,
    PextReg16,
    PextImm16,
    CallReg,
    CallImm16,
    Ret,
    Nop,
    Op,
    P,
    Syscall,
    Reserved,
}

impl Instruction {
    /// The byte that encodes the instruction.
    pub open spec fn opcode(self) -> u8 {
        match self {
            Instruction::MovReg8 => 0x23,
            Instruction::MovReg16 => 0x22,
            Instruction::MovImm8 => 0x21,
            Instruction::MovImm16 => 0x20,
            Instruction::Load8 => 0x25,
            Instruction::Load16 => 0x24,
            Instruction::StoreReg8 => 0x29,
            Instruction::StoreReg16 => 0x28,
            Instruction::StoreImm8 => 0x27,
            Instruction::StoreImm16 => 0x26,
            Instruction::Lea => 0x8d,
            Instruction::Xchg => 0x92,
            Instruction::Sex => 0x62,
            Instruction::CmovaReg16 => 0xd6,
            Instruction::CmovaImm16 => 0xe6,
            Instruction::CmovaeReg16 => 0xd7,
            Instruction::CmovaeImm16 => 0xe7,
            Instruction::CmovbReg16 => 0xd8,
            Instruction::CmovbImm16 => 0xe8,
            Instruction::CmovbeReg16 => 0xd9,
            Instruction::CmovbeImm16 => 0xe9,
            Instruction::CmoveReg16 => 0xda,
            Instruction::CmoveImm16 => 0xea,
            Instruction::CmovneReg16 => 0xdb,
            Instruction::CmovneImm16 => 0xeb,
            Instruction::CmovgReg16 => 0xdc,
            Instruction::CmovgImm16 => 0xec,
            Instruction::CmovgeReg16 => 0xdd,
            Instruction::CmovgeImm16 => 0xed,
            Instruction::CmovlReg16 => 0xde,
            Instruction::CmovlImm16 => 0xee,
            Instruction::CmovleReg16 => 0xdf,
            Instruction::CmovleImm16 => 0xef,
            Instruction::PushReg8 => 0x50,
            Instruction::PushReg16 => 0x51,
            Instruction::PushImm8 => 0x52,
            Instruction::PushImm16 => 0x53,
            Instruction::Pop8 => 0x60,
            Instruction::Pop16 => 0x61,
            Instruction::Memcpy => 0x71,
            Instruction::MemsetReg => 0x81,
            Instruction::MemsetImm8 => 0x82,
            Instruction::AddReg16 => 0xc4,
            Instruction::AddImm8 => 0xc5,
            Instruction::AddImm16 => 0xc6,
            Instruction::SubReg16 => 0xb4,
            Instruction::SubImm8 => 0xb5,
            Instruction::SubImm16 => 0xb6,
            Instruction::MulReg16 => 0xa4,
            Instruction::MulImm8 => 0xa5,
            Instruction::MulImm16 => 0xa6,
            Instruction::MulloReg16 => 0x94,
            Instruction::MulloImm8 => 0x95,
            Instruction::MulloImm16 => 0x96,
            Instruction::ImulReg16 => 0x84,
            Instruction::ImulImm8 => 0x85,
            Instruction::ImulImm16 => 0x86,
            Instruction::DivReg16 => 0x74,
            Instruction::DivImm8 => 0x75,
            Instruction::DivImm16 => 0x76,
            Instruction::IdivReg16 => 0x64,
            Instruction::IdivImm8 => 0x65,
            Instruction::IdivImm16 => 0x66,
            Instruction::Neg => 0x7f,
            Instruction::Abs => 0x8f,
            Instruction::CmpReg16 => 0x54,
            Instruction::CmpImm8 => 0x55,
            Instruction::CmpImm16 => 0x56,
            Instruction::Not => 0x80,
            Instruction::AndReg16 => 0x37,
            Instruction::AndImm8 => 0x36,
            Instruction::AndImm16 => 0x46,
            Instruction::OrReg16 => 0x48,
            Instruction::OrImm8 => 0x47,
            Instruction::OrImm16 => 0x57,
            Instruction::XorReg16 => 0x59,
            Instruction::XorImm8 => 0x58,
            Instruction::XorImm16 => 0x68,
            Instruction::NandReg16 => 0x6a,
            Instruction::NandImm8 => 0x69,
            Instruction::NandImm16 => 0x79,
            Instruction::NorReg16 => 0x7b,
            Instruction::NorImm8 => 0x7a,
            Instruction::NorImm16 => 0x8a,
            Instruction::XnorReg16 => 0x8c,
            Instruction::XnorImm8 => 0x8b,
            Instruction::XnorImm16 => 0x9b,
            Instruction::ShrReg16 => 0x9d,
            Instruction::ShrImm8 => 0x9c,
            Instruction::SarReg16 => 0xae,
            Instruction::SarImm8 => 0xad,
            Instruction::ShlReg16 => 0xbf,
            Instruction::ShlImm8 => 0xbe,
            Instruction::Ctz => 0xf0,
            Instruction::Clz => 0xe0,
            Instruction::Popcnt => 0xd0,
            Instruction::RolReg16 => 0xc0,
            Instruction::RolImm8 => 0xc1,
            Instruction::RorReg16 => 0xb0,
            Instruction::RorImm8 => 0xb1,
            Instruction::Bswap => 0xa0,
            Instruction::PextReg16 => 0x90,
            Instruction::PextImm16 => 0x91,
            Instruction::CallReg => 0xfe,
            Instruction::CallImm16 => 0xfd,
            Instruction::Ret => 0xc3,
            Instruction::Nop => 0x6e,
            Instruction::Op => 0x6f,
            Instruction::P => 0x70,
            Instruction::Syscall => 0x0f,
            Instruction::Reserved => 0xff,
        }
    }

    /// What the instruction costs, in cycles.
    pub open spec fn latency(self) -> nat {
        match self {
            Instruction::MovReg8 => 3,
            Instruction::MovReg16 => 3,
            Instruction::MovImm8 => 3,
            Instruction::MovImm16 => 4,
            Instruction::Load8 => 24,
            Instruction::Load16 => 28,
            Instruction::StoreReg8 => 22,
            Instruction::StoreReg16 => 26,
            Instruction::StoreImm8 => 24,
            Instruction::StoreImm16 => 28,
            Instruction::Lea => 5,
            Instruction::Xchg => 3,
            Instruction::Sex => 3,
            Instruction::CmovaReg16 => 8,
            Instruction::CmovaImm16 => 9,
            Instruction::CmovaeReg16 => 8,
            Instruction::CmovaeImm16 => 9,
            Instruction::CmovbReg16 => 8,
            Instruction::CmovbImm16 => 9,
            Instruction::CmovbeReg16 => 8,
            Instruction::CmovbeImm16 => 9,
            Instruction::CmoveReg16 => 8,
            Instruction::CmoveImm16 => 9,
            Instruction::CmovneReg16 => 8,
            Instruction::CmovneImm16 => 9,
            Instruction::CmovgReg16 => 8,
            Instruction::CmovgImm16 => 9,
            Instruction::CmovgeReg16 => 8,
            Instruction::CmovgeImm16 => 9,
            Instruction::CmovlReg16 => 8,
            Instruction::CmovlImm16 => 9,
            Instruction::CmovleReg16 => 8,
            Instruction::CmovleImm16 => 9,
            Instruction::PushReg8 => 24,
            Instruction::PushReg16 => 28,
            Instruction::PushImm8 => 26,
            Instruction::PushImm16 => 30,
            Instruction::Pop8 => 26,
            Instruction::Pop16 => 30,
            Instruction::Memcpy => 512,
            Instruction::MemsetReg => 384,
            Instruction::MemsetImm8 => 384,
            Instruction::AddReg16 => 4,
            Instruction::AddImm8 => 4,
            Instruction::AddImm16 => 4,
            Instruction::SubReg16 => 4,
            Instruction::SubImm8 => 4,
            Instruction::SubImm16 => 4,
            Instruction::MulReg16 => 18,
            Instruction::MulImm8 => 16,
            Instruction::MulImm16 => 18,
            Instruction::MulloReg16 => 12,
            Instruction::MulloImm8 => 10,
            Instruction::MulloImm16 => 12,
            Instruction::ImulReg16 => 18,
            Instruction::ImulImm8 => 16,
            Instruction::ImulImm16 => 18,
            Instruction::DivReg16 => 30,
            Instruction::DivImm8 => 24,
            Instruction::DivImm16 => 30,
            Instruction::IdivReg16 => 30,
            Instruction::IdivImm8 => 24,
            Instruction::IdivImm16 => 30,
            Instruction::Neg => 3,
            Instruction::Abs => 3,
            Instruction::CmpReg16 => 4,
            Instruction::CmpImm8 => 4,
            Instruction::CmpImm16 => 4,
            Instruction::Not => 3,
            Instruction::AndReg16 => 4,
            Instruction::AndImm8 => 4,
            Instruction::AndImm16 => 4,
            Instruction::OrReg16 => 4,
            Instruction::OrImm8 => 4,
            Instruction::OrImm16 => 4,
            Instruction::XorReg16 => 4,
            Instruction::XorImm8 => 4,
            Instruction::XorImm16 => 4,
            Instruction::NandReg16 => 4,
            Instruction::NandImm8 => 4,
            Instruction::NandImm16 => 4,
            Instruction::NorReg16 => 4,
            Instruction::NorImm8 => 4,
            Instruction::NorImm16 => 4,
            Instruction::XnorReg16 => 4,
            Instruction::XnorImm8 => 4,
            Instruction::XnorImm16 => 4,
            Instruction::ShrReg16 => 4,
            Instruction::ShrImm8 => 4,
            Instruction::SarReg16 => 4,
            Instruction::SarImm8 => 4,
            Instruction::ShlReg16 => 4,
            Instruction::ShlImm8 => 4,
            Instruction::Ctz => 4,
            Instruction::Clz => 4,
            Instruction::Popcnt => 4,
            Instruction::RolReg16 => 4,
            Instruction::RolImm8 => 4,
            Instruction::RorReg16 => 4,
            Instruction::RorImm8 => 4,
            Instruction::Bswap => 3,
            Instruction::PextReg16 => 4,
            Instruction::PextImm16 => 4,
            Instruction::CallReg => 26,
            Instruction::CallImm16 => 28,
            Instruction::Ret => 24,
            Instruction::Nop => 1,
            Instruction::Op => 1,
            Instruction::P => 1,
            Instruction::Syscall => 100,
            Instruction::Reserved => 420,
        }
    }

    /// What the instruction does.
    pub open spec fn shape(self) -> Shape {
        match self {
            Instruction::MovReg8 => Shape::Move(Passage::LowByte, Operand::Register),
            Instruction::MovReg16 => Shape::Move(Passage::Whole, Operand::Register),
            Instruction::MovImm8 => Shape::Move(Passage::Whole, Operand::Byte),
            Instruction::MovImm16 => Shape::Move(Passage::Whole, Operand::Word),
            Instruction::Load8 => Shape::Load(Width::Byte),
            Instruction::Load16 => Shape::Load(Width::Word),
            Instruction::StoreReg8 => Shape::Store(Operand::Register, Width::Byte),
            Instruction::StoreReg16 => Shape::Store(Operand::Register, Width::Word),
            Instruction::StoreImm8 => Shape::Store(Operand::Byte, Width::Byte),
            Instruction::StoreImm16 => Shape::Store(Operand::Word, Width::Word),
            Instruction::Lea => Shape::Lea,
            Instruction::Xchg => Shape::Xchg,
            Instruction::Sex => Shape::Unary(UnaryOp::Sex),
            Instruction::CmovaReg16 => Shape::MoveIf(Condition::Above, Operand::Register),
            Instruction::CmovaImm16 => Shape::MoveIf(Condition::Above, Operand::Word),
            Instruction::CmovaeReg16 => Shape::MoveIf(Condition::AboveOrEqual, Operand::Register),
            Instruction::CmovaeImm16 => Shape::MoveIf(Condition::AboveOrEqual, Operand::Word),
            Instruction::CmovbReg16 => Shape::MoveIf(Condition::Below, Operand::Register),
            Instruction::CmovbImm16 => Shape::MoveIf(Condition::Below, Operand::Word),
            Instruction::CmovbeReg16 => Shape::MoveIf(Condition::BelowOrEqual, Operand::Register),
            Instruction::CmovbeImm16 => Shape::MoveIf(Condition::BelowOrEqual, Operand::Word),
            Instruction::CmoveReg16 => Shape::MoveIf(Condition::Equal, Operand::Register),
            Instruction::CmoveImm16 => Shape::MoveIf(Condition::Equal, Operand::Word),
            Instruction::CmovneReg16 => Shape::MoveIf(Condition::NotEqual, Operand::Register),
            Instruction::CmovneImm16 => Shape::MoveIf(Condition::NotEqual, Operand::Word),
            Instruction::CmovgReg16 => Shape::MoveIf(Condition::Greater, Operand::Register),
            Instruction::CmovgImm16 => Shape::MoveIf(Condition::Greater, Operand::Word),
            Instruction::CmovgeReg16 => Shape::MoveIf(Condition::GreaterOrEqual, Operand::Register),
            Instruction::CmovgeImm16 => Shape::MoveIf(Condition::GreaterOrEqual, Operand::Word),
            Instruction::CmovlReg16 => Shape::MoveIf(Condition::Less, Operand::Register),
            Instruction::CmovlImm16 => Shape::MoveIf(Condition::Less, Operand::Word),
            Instruction::CmovleReg16 => Shape::MoveIf(Condition::LessOrEqual, Operand::Register),
            Instruction::CmovleImm16 => Shape::MoveIf(Condition::LessOrEqual, Operand::Word),
            Instruction::PushReg8 => Shape::Push(Operand::Register, Width::Byte),
            Instruction::PushReg16 => Shape::Push(Operand::Register, Width::Word),
            Instruction::PushImm8 => Shape::Push(Operand::Byte, Width::Byte),
            Instruction::PushImm16 => Shape::Push(Operand::Word, Width::Word),
            Instruction::Pop8 => Shape::Pop(Width::Byte),
            Instruction::Pop16 => Shape::Pop(Width::Word),
            Instruction::Memcpy => Shape::Memcpy,
            Instruction::MemsetReg => Shape::Memset(Operand::Register),
            Instruction::MemsetImm8 => Shape::Memset(Operand::Byte),
            Instruction::AddReg16 => Shape::Binary(BinaryOp::Add, Operand::Register),
            Instruction::AddImm8 => Shape::Binary(BinaryOp::Add, Operand::SignedByte),
            Instruction::AddImm16 => Shape::Binary(BinaryOp::Add, Operand::Word),
            Instruction::SubReg16 => Shape::Binary(BinaryOp::Sub, Operand::Register),
            Instruction::SubImm8 => Shape::Binary(BinaryOp::Sub, Operand::SignedByte),
            Instruction::SubImm16 => Shape::Binary(BinaryOp::Sub, Operand::Word),
            Instruction::MulReg16 => Shape::Multiply(false, Operand::Register),
            Instruction::MulImm8 => Shape::Multiply(false, Operand::Byte),
            Instruction::MulImm16 => Shape::Multiply(false, Operand::Word),
            Instruction::MulloReg16 => Shape::Binary(BinaryOp::Mullo, Operand::Register),
            Instruction::MulloImm8 => Shape::Binary(BinaryOp::Mullo, Operand::Byte),
            Instruction::MulloImm16 => Shape::Binary(BinaryOp::Mullo, Operand::Word),
            Instruction::ImulReg16 => Shape::Multiply(true, Operand::Register),
            Instruction::ImulImm8 => Shape::Multiply(true, Operand::SignedByte),
            Instruction::ImulImm16 => Shape::Multiply(true, Operand::Word),
            Instruction::DivReg16 => Shape::Divide(false, Operand::Register),
            Instruction::DivImm8 => Shape::Divide(false, Operand::Byte),
            Instruction::DivImm16 => Shape::Divide(false, Operand::Word),
            Instruction::IdivReg16 => Shape::Divide(true, Operand::Register),
            Instruction::IdivImm8 => Shape::Divide(true, Operand::SignedByte),
            Instruction::IdivImm16 => Shape::Divide(true, Operand::Word),
            Instruction::Neg => Shape::Unary(UnaryOp::Neg),
            Instruction::Abs => Shape::Unary(UnaryOp::Abs),
            Instruction::CmpReg16 => Shape::Binary(BinaryOp::Cmp, Operand::Register),
            Instruction::CmpImm8 => Shape::Binary(BinaryOp::Cmp, Operand::SignedByte),
            Instruction::CmpImm16 => Shape::Binary(BinaryOp::Cmp, Operand::Word),
            Instruction::Not => Shape::Unary(UnaryOp::Not),
            Instruction::AndReg16 => Shape::Binary(BinaryOp::And, Operand::Register),
            Instruction::AndImm8 => Shape::Binary(BinaryOp::And, Operand::Byte),
            Instruction::AndImm16 => Shape::Binary(BinaryOp::And, Operand::Word),
            Instruction::OrReg16 => Shape::Binary(BinaryOp::Or, Operand::Register),
            Instruction::OrImm8 => Shape::Binary(BinaryOp::Or, Operand::Byte),
            Instruction::OrImm16 => Shape::Binary(BinaryOp::Or, Operand::Word),
            Instruction::XorReg16 => Shape::Binary(BinaryOp::Xor, Operand::Register),
            Instruction::XorImm8 => Shape::Binary(BinaryOp::Xor, Operand::Byte),
            Instruction::XorImm16 => Shape::Binary(BinaryOp::Xor, Operand::Word),
            Instruction::NandReg16 => Shape::Binary(BinaryOp::Nand, Operand::Register),
            Instruction::NandImm8 => Shape::Binary(BinaryOp::Nand, Operand::Byte),
            Instruction::NandImm16 => Shape::Binary(BinaryOp::Nand, Operand::Word),
            Instruction::NorReg16 => Shape::Binary(BinaryOp::Nor, Operand::Register),
            Instruction::NorImm8 => Shape::Binary(BinaryOp::Nor, Operand::Byte),
            Instruction::NorImm16 => Shape::Binary(BinaryOp::Nor, Operand::Word),
            Instruction::XnorReg16 => Shape::Binary(BinaryOp::Xnor, Operand::Register),
            Instruction::XnorImm8 => Shape::Binary(BinaryOp::Xnor, Operand::Byte),
            Instruction::XnorImm16 => Shape::Binary(BinaryOp::Xnor, Operand::Word),
            Instruction::ShrReg16 => Shape::Binary(BinaryOp::Shr, Operand::Register),
            Instruction::ShrImm8 => Shape::Binary(BinaryOp::Shr, Operand::Byte),
            Instruction::SarReg16 => Shape::Binary(BinaryOp::Sar, Operand::Register),
            Instruction::SarImm8 => Shape::Binary(BinaryOp::Sar, Operand::Byte),
            Instruction::ShlReg16 => Shape::Binary(BinaryOp::Shl, Operand::Register),
            Instruction::ShlImm8 => Shape::Binary(BinaryOp::Shl, Operand::Byte),
            Instruction::Ctz => Shape::Move(Passage::TrailingZeros, Operand::Register),
            Instruction::Clz => Shape::Move(Passage::LeadingZeros, Operand::Register),
            Instruction::Popcnt => Shape::Move(Passage::Ones, Operand::Register),
            Instruction::RolReg16 => Shape::Binary(BinaryOp::Rol, Operand::Register),
            Instruction::RolImm8 => Shape::Binary(BinaryOp::Rol, Operand::Byte),
            Instruction::RorReg16 => Shape::Binary(BinaryOp::Ror, Operand::Register),
            Instruction::RorImm8 => Shape::Binary(BinaryOp::Ror, Operand::Byte),
            Instruction::Bswap => Shape::Unary(UnaryOp::Bswap),
            Instruction::PextReg16 => Shape::Binary(BinaryOp::Pext, Operand::Register),
            Instruction::PextImm16 => Shape::Binary(BinaryOp::Pext, Operand::Word),
            Instruction::CallReg => Shape::Call(Operand::Register),
            Instruction::CallImm16 => Shape::Call(Operand::Word),
            Instruction::Ret => Shape::Ret,
            Instruction::Nop => Shape::Nop,
            Instruction::Op => Shape::Op,
            Instruction::P => Shape::P,
            Instruction::Syscall => Shape::Syscall,
            Instruction::Reserved => Shape::Reserved,
        }
    }

    /// The instruction that a byte encodes.
    pub open spec fn decoded(opcode: u8) -> Instruction {
        match opcode {
            0x23 => Instruction::MovReg8,
            0x22 => Instruction::MovReg16,
            0x21 => Instruction::MovImm8,
            0x20 => Instruction::MovImm16,
            0x25 => Instruction::Load8,
            0x24 => Instruction::Load16,
            0x29 => Instruction::StoreReg8,
            0x28 => Instruction::StoreReg16,
            0x27 => Instruction::StoreImm8,
            0x26 => Instruction::StoreImm16,
            0x8d => Instruction::Lea,
            0x92 => Instruction::Xchg,
            0x62 => Instruction::Sex,
            0xd6 => Instruction::CmovaReg16,
            0xe6 => Instruction::CmovaImm16,
            0xd7 => Instruction::CmovaeReg16,
            0xe7 => Instruction::CmovaeImm16,
            0xd8 => Instruction::CmovbReg16,
            0xe8 => Instruction::CmovbImm16,
            0xd9 => Instruction::CmovbeReg16,
            0xe9 => Instruction::CmovbeImm16,
            0xda => Instruction::CmoveReg16,
            0xea => Instruction::CmoveImm16,
            0xdb => Instruction::CmovneReg16,
            0xeb => Instruction::CmovneImm16,
            0xdc => Instruction::CmovgReg16,
            0xec => Instruction::CmovgImm16,
            0xdd => Instruction::CmovgeReg16,
            0xed => Instruction::CmovgeImm16,
            0xde => Instruction::CmovlReg16,
            0xee => Instruction::CmovlImm16,
            0xdf => Instruction::CmovleReg16,
            0xef => Instruction::CmovleImm16,
            0x50 => Instruction::PushReg8,
            0x51 => Instruction::PushReg16,
            0x52 => Instruction::PushImm8,
            0x53 => Instruction::PushImm16,
            0x60 => Instruction::Pop8,
            0x61 => Instruction::Pop16,
            0x71 => Instruction::Memcpy,
            0x81 => Instruction::MemsetReg,
            0x82 => Instruction::MemsetImm8,
            0xc4 => Instruction::AddReg16,
            0xc5 => Instruction::AddImm8,
            0xc6 => Instruction::AddImm16,
            0xb4 => Instruction::SubReg16,
            0xb5 => Instruction::SubImm8,
            0xb6 => Instruction::SubImm16,
            0xa4 => Instruction::MulReg16,
            0xa5 => Instruction::MulImm8,
            0xa6 => Instruction::MulImm16,
            0x94 => Instruction::MulloReg16,
            0x95 => Instruction::MulloImm8,
            0x96 => Instruction::MulloImm16,
            0x84 => Instruction::ImulReg16,
            0x85 => Instruction::ImulImm8,
            0x86 => Instruction::ImulImm16,
            0x74 => Instruction::DivReg16,
            0x75 => Instruction::DivImm8,
            0x76 => Instruction::DivImm16,
            0x64 => Instruction::IdivReg16,
            0x65 => Instruction::IdivImm8,
            0x66 => Instruction::IdivImm16,
            0x7f => Instruction::Neg,
            0x8f => Instruction::Abs,
            0x54 => Instruction::CmpReg16,
            0x55 => Instruction::CmpImm8,
            0x56 => Instruction::CmpImm16,
            0x80 => Instruction::Not,
            0x37 => Instruction::AndReg16,
            0x36 => Instruction::AndImm8,
            0x46 => Instruction::AndImm16,
            0x48 => Instruction::OrReg16,
            0x47 => Instruction::OrImm8,
            0x57 => Instruction::OrImm16,
            0x59 => Instruction::XorReg16,
            0x58 => Instruction::XorImm8,
            0x68 => Instruction::XorImm16,
            0x6a => Instruction::NandReg16,
            0x69 => Instruction::NandImm8,
            0x79 => Instruction::NandImm16,
            0x7b => Instruction::NorReg16,
            0x7a => Instruction::NorImm8,
            0x8a => Instruction::NorImm16,
            0x8c => Instruction::XnorReg16,
            0x8b => Instruction::XnorImm8,
            0x9b => Instruction::XnorImm16,
            0x9d => Instruction::ShrReg16,
            0x9c => Instruction::ShrImm8,
            0xae => Instruction::SarReg16,
            0xad => Instruction::SarImm8,
            0xbf => Instruction::ShlReg16,
            0xbe => Instruction::ShlImm8,
            0xf0 => Instruction::Ctz,
            0xe0 => Instruction::Clz,
            0xd0 => Instruction::Popcnt,
            0xc0 => Instruction::RolReg16,
            0xc1 => Instruction::RolImm8,
            0xb0 => Instruction::RorReg16,
            0xb1 => Instruction::RorImm8,
            0xa0 => Instruction::Bswap,
            0x90 => Instruction::PextReg16,
            0x91 => Instruction::PextImm16,
            0xfe => Instruction::CallReg,
            0xfd => Instruction::CallImm16,
            0xc3 => Instruction::Ret,
            0x6e => Instruction::Nop,
            0x6f => Instruction::Op,
            0x70 => Instruction::P,
            0x0f => Instruction::Syscall,
            _ => Instruction::Reserved,
        }
    }

    /// Every instruction is the one that its own opcode encodes: no two
    /// instructions share an opcode.
    pub proof fn lemma_decoded_opcode(self)
        ensures
            Instruction::decoded(self.opcode()) == self,
    {
    }

    /// Every instruction costs at least one cycle and at most 512.
    pub proof fn lemma_latency_bounds(self)
        ensures
            1 <= self.latency() <= 512,
    {
    }

    pub fn get_opcode(&self) -> (opcode: u8)
        ensures
            opcode == self.opcode(),
    {
        match self {
            Instruction::MovReg8 => 0x23,
            Instruction::MovReg16 => 0x22,
            Instruction::MovImm8 => 0x21,
            Instruction::MovImm16 => 0x20,
            Instruction::Load8 => 0x25,
            Instruction::Load16 => 0x24,
            Instruction::StoreReg8 => 0x29,
            Instruction::StoreReg16 => 0x28,
            Instruction::StoreImm8 => 0x27,
            Instruction::StoreImm16 => 0x26,
            Instruction::Lea => 0x8d,
            Instruction::Xchg => 0x92,
            Instruction::Sex => 0x62,
            Instruction::CmovaReg16 => 0xd6,
            Instruction::CmovaImm16 => 0xe6,
            Instruction::CmovaeReg16 => 0xd7,
            Instruction::CmovaeImm16 => 0xe7,
            Instruction::CmovbReg16 => 0xd8,
            Instruction::CmovbImm16 => 0xe8,
            Instruction::CmovbeReg16 => 0xd9,
            Instruction::CmovbeImm16 => 0xe9,
            Instruction::CmoveReg16 => 0xda,
            Instruction::CmoveImm16 => 0xea,
            Instruction::CmovneReg16 => 0xdb,
            Instruction::CmovneImm16 => 0xeb,
            Instruction::CmovgReg16 => 0xdc,
            Instruction::CmovgImm16 => 0xec,
            Instruction::CmovgeReg16 => 0xdd,
            Instruction::CmovgeImm16 => 0xed,
            Instruction::CmovlReg16 => 0xde,
            Instruction::CmovlImm16 => 0xee,
            Instruction::CmovleReg16 => 0xdf,
            Instruction::CmovleImm16 => 0xef,
            Instruction::PushReg8 => 0x50,
            Instruction::PushReg16 => 0x51,
            Instruction::PushImm8 => 0x52,
            Instruction::PushImm16 => 0x53,
            Instruction::Pop8 => 0x60,
            Instruction::Pop16 => 0x61,
            Instruction::Memcpy => 0x71,
            Instruction::MemsetReg => 0x81,
            Instruction::MemsetImm8 => 0x82,
            Instruction::AddReg16 => 0xc4,
            Instruction::AddImm8 => 0xc5,
            Instruction::AddImm16 => 0xc6,
            Instruction::SubReg16 => 0xb4,
            Instruction::SubImm8 => 0xb5,
            Instruction::SubImm16 => 0xb6,
            Instruction::MulReg16 => 0xa4,
            Instruction::MulImm8 => 0xa5,
            Instruction::MulImm16 => 0xa6,
            Instruction::MulloReg16 => 0x94,
            Instruction::MulloImm8 => 0x95,
            Instruction::MulloImm16 => 0x96,
            Instruction::ImulReg16 => 0x84,
            Instruction::ImulImm8 => 0x85,
            Instruction::ImulImm16 => 0x86,
            Instruction::DivReg16 => 0x74,
            Instruction::DivImm8 => 0x75,
            Instruction::DivImm16 => 0x76,
            Instruction::IdivReg16 => 0x64,
            Instruction::IdivImm8 => 0x65,
            Instruction::IdivImm16 => 0x66,
            Instruction::Neg => 0x7f,
            Instruction::Abs => 0x8f,
            Instruction::CmpReg16 => 0x54,
            Instruction::CmpImm8 => 0x55,
            Instruction::CmpImm16 => 0x56,
            Instruction::Not => 0x80,
            Instruction::AndReg16 => 0x37,
            Instruction::AndImm8 => 0x36,
            Instruction::AndImm16 => 0x46,
            Instruction::OrReg16 => 0x48,
            Instruction::OrImm8 => 0x47,
            Instruction::OrImm16 => 0x57,
            Instruction::XorReg16 => 0x59,
            Instruction::XorImm8 => 0x58,
            Instruction::XorImm16 => 0x68,
            Instruction::NandReg16 => 0x6a,
            Instruction::NandImm8 => 0x69,
            Instruction::NandImm16 => 0x79,
            Instruction::NorReg16 => 0x7b,
            Instruction::NorImm8 => 0x7a,
            Instruction::NorImm16 => 0x8a,
            Instruction::XnorReg16 => 0x8c,
            Instruction::XnorImm8 => 0x8b,
            Instruction::XnorImm16 => 0x9b,
            Instruction::ShrReg16 => 0x9d,
            Instruction::ShrImm8 => 0x9c,
            Instruction::SarReg16 => 0xae,
            Instruction::SarImm8 => 0xad,
            Instruction::ShlReg16 => 0xbf,
            Instruction::ShlImm8 => 0xbe,
            Instruction::Ctz => 0xf0,
            Instruction::Clz => 0xe0,
            Instruction::Popcnt => 0xd0,
            Instruction::RolReg16 => 0xc0,
            Instruction::RolImm8 => 0xc1,
            Instruction::RorReg16 => 0xb0,
            Instruction::RorImm8 => 0xb1,
            Instruction::Bswap => 0xa0,
            Instruction::PextReg16 => 0x90,
            Instruction::PextImm16 => 0x91,
            Instruction::CallReg => 0xfe,
            Instruction::CallImm16 => 0xfd,
            Instruction::Ret => 0xc3,
            Instruction::Nop => 0x6e,
            Instruction::Op => 0x6f,
            Instruction::P => 0x70,
            Instruction::Syscall => 0x0f,
            Instruction::Reserved => 0xff,
        }
    }

    pub fn get_latency(&self) -> (latency: usize)
        ensures
            latency == self.latency(),
    {
        match self {
            Instruction::MovReg8 => 3,
            Instruction::MovReg16 => 3,
            Instruction::MovImm8 => 3,
            Instruction::MovImm16 => 4,
            Instruction::Load8 => 24,
            Instruction::Load16 => 28,
            Instruction::StoreReg8 => 22,
            Instruction::StoreReg16 => 26,
            Instruction::StoreImm8 => 24,
            Instruction::StoreImm16 => 28,
            Instruction::Lea => 5,
            Instruction::Xchg => 3,
            Instruction::Sex => 3,
            Instruction::CmovaReg16 => 8,
            Instruction::CmovaImm16 => 9,
            Instruction::CmovaeReg16 => 8,
            Instruction::CmovaeImm16 => 9,
            Instruction::CmovbReg16 => 8,
            Instruction::CmovbImm16 => 9,
            Instruction::CmovbeReg16 => 8,
            Instruction::CmovbeImm16 => 9,
            Instruction::CmoveReg16 => 8,
            Instruction::CmoveImm16 => 9,
            Instruction::CmovneReg16 => 8,
            Instruction::CmovneImm16 => 9,
            Instruction::CmovgReg16 => 8,
            Instruction::CmovgImm16 => 9,
            Instruction::CmovgeReg16 => 8,
            Instruction::CmovgeImm16 => 9,
            Instruction::CmovlReg16 => 8,
            Instruction::CmovlImm16 => 9,
            Instruction::CmovleReg16 => 8,
            Instruction::CmovleImm16 => 9,
            Instruction::PushReg8 => 24,
            Instruction::PushReg16 => 28,
            Instruction::PushImm8 => 26,
            Instruction::PushImm16 => 30,
            Instruction::Pop8 => 26,
            Instruction::Pop16 => 30,
            Instruction::Memcpy => 512,
            Instruction::MemsetReg => 384,
            Instruction::MemsetImm8 => 384,
            Instruction::AddReg16 => 4,
            Instruction::AddImm8 => 4,
            Instruction::AddImm16 => 4,
            Instruction::SubReg16 => 4,
            Instruction::SubImm8 => 4,
            Instruction::SubImm16 => 4,
            Instruction::MulReg16 => 18,
            Instruction::MulImm8 => 16,
            Instruction::MulImm16 => 18,
            Instruction::MulloReg16 => 12,
            Instruction::MulloImm8 => 10,
            Instruction::MulloImm16 => 12,
            Instruction::ImulReg16 => 18,
            Instruction::ImulImm8 => 16,
            Instruction::ImulImm16 => 18,
            Instruction::DivReg16 => 30,
            Instruction::DivImm8 => 24,
            Instruction::DivImm16 => 30,
            Instruction::IdivReg16 => 30,
            Instruction::IdivImm8 => 24,
            Instruction::IdivImm16 => 30,
            Instruction::Neg => 3,
            Instruction::Abs => 3,
            Instruction::CmpReg16 => 4,
            Instruction::CmpImm8 => 4,
            Instruction::CmpImm16 => 4,
            Instruction::Not => 3,
            Instruction::AndReg16 => 4,
            Instruction::AndImm8 => 4,
            Instruction::AndImm16 => 4,
            Instruction::OrReg16 => 4,
            Instruction::OrImm8 => 4,
            Instruction::OrImm16 => 4,
            Instruction::XorReg16 => 4,
            Instruction::XorImm8 => 4,
            Instruction::XorImm16 => 4,
            Instruction::NandReg16 => 4,
            Instruction::NandImm8 => 4,
            Instruction::NandImm16 => 4,
            Instruction::NorReg16 => 4,
            Instruction::NorImm8 => 4,
            Instruction::NorImm16 => 4,
            Instruction::XnorReg16 => 4,
            Instruction::XnorImm8 => 4,
            Instruction::XnorImm16 => 4,
            Instruction::ShrReg16 => 4,
            Instruction::ShrImm8 => 4,
            Instruction::SarReg16 => 4,
            Instruction::SarImm8 => 4,
            Instruction::ShlReg16 => 4,
            Instruction::ShlImm8 => 4,
            Instruction::Ctz => 4,
            Instruction::Clz => 4,
            Instruction::Popcnt => 4,
            Instruction::RolReg16 => 4,
            Instruction::RolImm8 => 4,
            Instruction::RorReg16 => 4,
            Instruction::RorImm8 => 4,
            Instruction::Bswap => 3,
            Instruction::PextReg16 => 4,
            Instruction::PextImm16 => 4,
            Instruction::CallReg => 26,
            Instruction::CallImm16 => 28,
            Instruction::Ret => 24,
            Instruction::Nop => 1,
            Instruction::Op => 1,
            Instruction::P => 1,
            Instruction::Syscall => 100,
            Instruction::Reserved => 420,
        }
    }

    pub fn get_shape(&self) -> (shape: Shape)
        ensures
            shape == self.shape(),
    {
        match self {
            Instruction::MovReg8 => Shape::Move(Passage::LowByte, Operand::Register),
            Instruction::MovReg16 => Shape::Move(Passage::Whole, Operand::Register),
            Instruction::MovImm8 => Shape::Move(Passage::Whole, Operand::Byte),
            Instruction::MovImm16 => Shape::Move(Passage::Whole, Operand::Word),
            Instruction::Load8 => Shape::Load(Width::Byte),
            Instruction::Load16 => Shape::Load(Width::Word),
            Instruction::StoreReg8 => Shape::Store(Operand::Register, Width::Byte),
            Instruction::StoreReg16 => Shape::Store(Operand::Register, Width::Word),
            Instruction::StoreImm8 => Shape::Store(Operand::Byte, Width::Byte),
            Instruction::StoreImm16 => Shape::Store(Operand::Word, Width::Word),
            Instruction::Lea => Shape::Lea,
            Instruction::Xchg => Shape::Xchg,
            Instruction::Sex => Shape::Unary(UnaryOp::Sex),
            Instruction::CmovaReg16 => Shape::MoveIf(Condition::Above, Operand::Register),
            Instruction::CmovaImm16 => Shape::MoveIf(Condition::Above, Operand::Word),
            Instruction::CmovaeReg16 => Shape::MoveIf(Condition::AboveOrEqual, Operand::Register),
            Instruction::CmovaeImm16 => Shape::MoveIf(Condition::AboveOrEqual, Operand::Word),
            Instruction::CmovbReg16 => Shape::MoveIf(Condition::Below, Operand::Register),
            Instruction::CmovbImm16 => Shape::MoveIf(Condition::Below, Operand::Word),
            Instruction::CmovbeReg16 => Shape::MoveIf(Condition::BelowOrEqual, Operand::Register),
            Instruction::CmovbeImm16 => Shape::MoveIf(Condition::BelowOrEqual, Operand::Word),
            Instruction::CmoveReg16 => Shape::MoveIf(Condition::Equal, Operand::Register),
            Instruction::CmoveImm16 => Shape::MoveIf(Condition::Equal, Operand::Word),
            Instruction::CmovneReg16 => Shape::MoveIf(Condition::NotEqual, Operand::Register),
            Instruction::CmovneImm16 => Shape::MoveIf(Condition::NotEqual, Operand::Word),
            Instruction::CmovgReg16 => Shape::MoveIf(Condition::Greater, Operand::Register),
            Instruction::CmovgImm16 => Shape::MoveIf(Condition::Greater, Operand::Word),
            Instruction::CmovgeReg16 => Shape::MoveIf(Condition::GreaterOrEqual, Operand::Register),
            Instruction::CmovgeImm16 => Shape::MoveIf(Condition::GreaterOrEqual, Operand::Word),
            Instruction::CmovlReg16 => Shape::MoveIf(Condition::Less, Operand::Register),
            Instruction::CmovlImm16 => Shape::MoveIf(Condition::Less, Operand::Word),
            Instruction::CmovleReg16 => Shape::MoveIf(Condition::LessOrEqual, Operand::Register),
            Instruction::CmovleImm16 => Shape::MoveIf(Condition::LessOrEqual, Operand::Word),
            Instruction::PushReg8 => Shape::Push(Operand::Register, Width::Byte),
            Instruction::PushReg16 => Shape::Push(Operand::Register, Width::Word),
            Instruction::PushImm8 => Shape::Push(Operand::Byte, Width::Byte),
            Instruction::PushImm16 => Shape::Push(Operand::Word, Width::Word),
            Instruction::Pop8 => Shape::Pop(Width::Byte),
            Instruction::Pop16 => Shape::Pop(Width::Word),
            Instruction::Memcpy => Shape::Memcpy,
            Instruction::MemsetReg => Shape::Memset(Operand::Register),
            Instruction::MemsetImm8 => Shape::Memset(Operand::Byte),
            Instruction::AddReg16 => Shape::Binary(BinaryOp::Add, Operand::Register),
            Instruction::AddImm8 => Shape::Binary(BinaryOp::Add, Operand::SignedByte),
            Instruction::AddImm16 => Shape::Binary(BinaryOp::Add, Operand::Word),
            Instruction::SubReg16 => Shape::Binary(BinaryOp::Sub, Operand::Register),
            Instruction::SubImm8 => Shape::Binary(BinaryOp::Sub, Operand::SignedByte),
            Instruction::SubImm16 => Shape::Binary(BinaryOp::Sub, Operand::Word),
            Instruction::MulReg16 => Shape::Multiply(false, Operand::Register),
            Instruction::MulImm8 => Shape::Multiply(false, Operand::Byte),
            Instruction::MulImm16 => Shape::Multiply(false, Operand::Word),
            Instruction::MulloReg16 => Shape::Binary(BinaryOp::Mullo, Operand::Register),
            Instruction::MulloImm8 => Shape::Binary(BinaryOp::Mullo, Operand::Byte),
            Instruction::MulloImm16 => Shape::Binary(BinaryOp::Mullo, Operand::Word),
            Instruction::ImulReg16 => Shape::Multiply(true, Operand::Register),
            Instruction::ImulImm8 => Shape::Multiply(true, Operand::SignedByte),
            Instruction::ImulImm16 => Shape::Multiply(true, Operand::Word),
            Instruction::DivReg16 => Shape::Divide(false, Operand::Register),
            Instruction::DivImm8 => Shape::Divide(false, Operand::Byte),
            Instruction::DivImm16 => Shape::Divide(false, Operand::Word),
            Instruction::IdivReg16 => Shape::Divide(true, Operand::Register),
            Instruction::IdivImm8 => Shape::Divide(true, Operand::SignedByte),
            Instruction::IdivImm16 => Shape::Divide(true, Operand::Word),
            Instruction::Neg => Shape::Unary(UnaryOp::Neg),
            Instruction::Abs => Shape::Unary(UnaryOp::Abs),
            Instruction::CmpReg16 => Shape::Binary(BinaryOp::Cmp, Operand::Register),
            Instruction::CmpImm8 => Shape::Binary(BinaryOp::Cmp, Operand::SignedByte),
            Instruction::CmpImm16 => Shape::Binary(BinaryOp::Cmp, Operand::Word),
            Instruction::Not => Shape::Unary(UnaryOp::Not),
            Instruction::AndReg16 => Shape::Binary(BinaryOp::And, Operand::Register),
            Instruction::AndImm8 => Shape::Binary(BinaryOp::And, Operand::Byte),
            Instruction::AndImm16 => Shape::Binary(BinaryOp::And, Operand::Word),
            Instruction::OrReg16 => Shape::Binary(BinaryOp::Or, Operand::Register),
            Instruction::OrImm8 => Shape::Binary(BinaryOp::Or, Operand::Byte),
            Instruction::OrImm16 => Shape::Binary(BinaryOp::Or, Operand::Word),
            Instruction::XorReg16 => Shape::Binary(BinaryOp::Xor, Operand::Register),
            Instruction::XorImm8 => Shape::Binary(BinaryOp::Xor, Operand::Byte),
            Instruction::XorImm16 => Shape::Binary(BinaryOp::Xor, Operand::Word),
            Instruction::NandReg16 => Shape::Binary(BinaryOp::Nand, Operand::Register),
            Instruction::NandImm8 => Shape::Binary(BinaryOp::Nand, Operand::Byte),
            Instruction::NandImm16 => Shape::Binary(BinaryOp::Nand, Operand::Word),
            Instruction::NorReg16 => Shape::Binary(BinaryOp::Nor, Operand::Register),
            Instruction::NorImm8 => Shape::Binary(BinaryOp::Nor, Operand::Byte),
            Instruction::NorImm16 => Shape::Binary(BinaryOp::Nor, Operand::Word),
            Instruction::XnorReg16 => Shape::Binary(BinaryOp::Xnor, Operand::Register),
            Instruction::XnorImm8 => Shape::Binary(BinaryOp::Xnor, Operand::Byte),
            Instruction::XnorImm16 => Shape::Binary(BinaryOp::Xnor, Operand::Word),
            Instruction::ShrReg16 => Shape::Binary(BinaryOp::Shr, Operand::Register),
            Instruction::ShrImm8 => Shape::Binary(BinaryOp::Shr, Operand::Byte),
            Instruction::SarReg16 => Shape::Binary(BinaryOp::Sar, Operand::Register),
            Instruction::SarImm8 => Shape::Binary(BinaryOp::Sar, Operand::Byte),
            Instruction::ShlReg16 => Shape::Binary(BinaryOp::Shl, Operand::Register),
            Instruction::ShlImm8 => Shape::Binary(BinaryOp::Shl, Operand::Byte),
            Instruction::Ctz => Shape::Move(Passage::TrailingZeros, Operand::Register),
            Instruction::Clz => Shape::Move(Passage::LeadingZeros, Operand::Register),
            Instruction::Popcnt => Shape::Move(Passage::Ones, Operand::Register),
            Instruction::RolReg16 => Shape::Binary(BinaryOp::Rol, Operand::Register),
            Instruction::RolImm8 => Shape::Binary(BinaryOp::Rol, Operand::Byte),
            Instruction::RorReg16 => Shape::Binary(BinaryOp::Ror, Operand::Register),
            Instruction::RorImm8 => Shape::Binary(BinaryOp::Ror, Operand::Byte),
            Instruction::Bswap => Shape::Unary(UnaryOp::Bswap),
            Instruction::PextReg16 => Shape::Binary(BinaryOp::Pext, Operand::Register),
            Instruction::PextImm16 => Shape::Binary(BinaryOp::Pext, Operand::Word),
            Instruction::CallReg => Shape::Call(Operand::Register),
            Instruction::CallImm16 => Shape::Call(Operand::Word),
            Instruction::Ret => Shape::Ret,
            Instruction::Nop => Shape::Nop,
            Instruction::Op => Shape::Op,
            Instruction::P => Shape::P,
            Instruction::Syscall => Shape::Syscall,
            Instruction::Reserved => Shape::Reserved,
        }
    }

    /// Carries the instruction out. The program counter stands behind the
    /// opcode; `entropy` is what chance contributes.
    pub fn execute(&self, emulator: &mut Emulator, entropy: &Entropy)
        requires
            old(emulator).wf(),
        ensures
            final(emulator).wf(),
            final(emulator)@ == old(emulator)@.executed(*self, *entropy),
    {
        match self.get_shape() {
            Shape::Move(passage, kind) => emulator.exec_move(passage, kind, entropy),
            Shape::MoveIf(condition, kind) => emulator.exec_move_if(condition, kind, entropy),
            Shape::Binary(op, kind) => emulator.exec_binary(op, kind, entropy),
            Shape::Unary(op) => emulator.exec_unary(op, entropy),
            Shape::Multiply(signed, kind) => emulator.exec_multiply(signed, kind, entropy),
            Shape::Divide(signed, kind) => emulator.exec_divide(signed, kind, entropy),
            Shape::Load(width) => emulator.exec_load(width, entropy),
            Shape::Store(kind, width) => emulator.exec_store(kind, width, entropy),
            Shape::Lea => emulator.exec_lea(entropy),
            Shape::Xchg => emulator.exec_xchg(entropy),
            Shape::Push(kind, width) => emulator.exec_push(kind, width, entropy),
            Shape::Pop(width) => emulator.exec_pop(width, entropy),
            Shape::Memcpy => emulator.exec_memcpy(entropy),
            Shape::Memset(kind) => emulator.exec_memset(kind, entropy),
            Shape::Call(kind) => emulator.exec_call(kind, entropy),
            Shape::Ret => emulator.exec_ret(entropy),
            Shape::Nop => emulator.set_cpu_flag(CpuFlag::Sleep, true),
            Shape::Op => emulator.exec_op(entropy),
            Shape::P => emulator.exec_p(entropy),
            Shape::Syscall => {},
            Shape::Reserved => emulator.suffer(entropy.fault),
        }
    }
}

impl Machine {
    /// The machine after something of the given shape has been carried out.
    pub open spec fn shaped(self, shape: Shape, entropy: Entropy) -> Machine {
        match shape {
            Shape::Move(passage, kind) => self.moved(passage, kind, entropy),
            Shape::MoveIf(condition, kind) => self.moved_if(condition, kind, entropy),
            Shape::Binary(op, kind) => self.combined(op, kind, entropy),
            Shape::Unary(op) => self.rewritten(op, entropy),
            Shape::Multiply(signed, kind) => self.multiplied(signed, kind, entropy),
            Shape::Divide(signed, kind) => self.divided(signed, kind, entropy),
            Shape::Load(width) => self.loaded(width, entropy),
            Shape::Store(kind, width) => self.stored(kind, width, entropy),
            Shape::Lea => self.address_taken(entropy),
            Shape::Xchg => self.exchanged(entropy),
            Shape::Push(kind, width) => self.pushed(kind, width, entropy),
            Shape::Pop(width) => self.popped(width, entropy),
            Shape::Memcpy => self.copied(entropy),
            Shape::Memset(kind) => self.filled(kind, entropy),
            Shape::Call(kind) => self.called(kind, entropy),
            Shape::Ret => self.returned(entropy),
            Shape::Nop => self.lulled(),
            Shape::Op => self.dozed(entropy),
            Shape::P => self.woken(entropy),
            Shape::Syscall => self,
            Shape::Reserved => self.corrupted(entropy.fault),
        }
    }

    /// The machine after an instruction has been carried out. The program
    /// counter stands behind the opcode.
    pub open spec fn executed(self, instruction: Instruction, entropy: Entropy) -> Machine {
        self.shaped(instruction.shape(), entropy)
    }
}

/// The table of instructions, by opcode.
#[derive(Clone, Copy, Debug)]
pub struct OpcodeTable {}

impl OpcodeTable {
    pub fn new() -> OpcodeTable {
        OpcodeTable {  }
    }

    /// The opcode that makes a system call.
    pub fn get_syscall_opcode() -> (opcode: u8)
        ensures
            opcode == Instruction::Syscall.opcode(),
    {
        0x0f
    }

    /// Whether an opcode may be fetched while the machine sleeps.
    pub open spec fn valid_sleep_opcode(opcode: u8) -> bool {
        opcode == Instruction::Op.opcode() || opcode == Instruction::P.opcode()
    }

    pub fn is_valid_sleep_opcode(opcode: u8) -> (valid: bool)
        ensures
            valid == OpcodeTable::valid_sleep_opcode(opcode),
    {
        opcode == 0x6f || opcode == 0x70
    }

    pub fn get_instruction(&self, opcode: u8) -> (instruction: Instruction)
        ensures
            instruction == Instruction::decoded(opcode),
    {
        match opcode {
            0x23 => Instruction::MovReg8,
            0x22 => Instruction::MovReg16,
            0x21 => Instruction::MovImm8,
            0x20 => Instruction::MovImm16,
            0x25 => Instruction::Load8,
            0x24 => Instruction::Load16,
            0x29 => Instruction::StoreReg8,
            0x28 => Instruction::StoreReg16,
            0x27 => Instruction::StoreImm8,
            0x26 => Instruction::StoreImm16,
            0x8d => Instruction::Lea,
            0x92 => Instruction::Xchg,
            0x62 => Instruction::Sex,
            0xd6 => Instruction::CmovaReg16,
            0xe6 => Instruction::CmovaImm16,
            0xd7 => Instruction::CmovaeReg16,
            0xe7 => Instruction::CmovaeImm16,
            0xd8 => Instruction::CmovbReg16,
            0xe8 => Instruction::CmovbImm16,
            0xd9 => Instruction::CmovbeReg16,
            0xe9 => Instruction::CmovbeImm16,
            0xda => Instruction::CmoveReg16,
            0xea => Instruction::CmoveImm16,
            0xdb => Instruction::CmovneReg16,
            0xeb => Instruction::CmovneImm16,
            0xdc => Instruction::CmovgReg16,
            0xec => Instruction::CmovgImm16,
            0xdd => Instruction::CmovgeReg16,
            0xed => Instruction::CmovgeImm16,
            0xde => Instruction::CmovlReg16,
            0xee => Instruction::CmovlImm16,
            0xdf => Instruction::CmovleReg16,
            0xef => Instruction::CmovleImm16,
            0x50 => Instruction::PushReg8,
            0x51 => Instruction::PushReg16,
            0x52 => Instruction::PushImm8,
            0x53 => Instruction::PushImm16,
            0x60 => Instruction::Pop8,
            0x61 => Instruction::Pop16,
            0x71 => Instruction::Memcpy,
            0x81 => Instruction::MemsetReg,
            0x82 => Instruction::MemsetImm8,
            0xc4 => Instruction::AddReg16,
            0xc5 => Instruction::AddImm8,
            0xc6 => Instruction::AddImm16,
            0xb4 => Instruction::SubReg16,
            0xb5 => Instruction::SubImm8,
            0xb6 => Instruction::SubImm16,
            0xa4 => Instruction::MulReg16,
            0xa5 => Instruction::MulImm8,
            0xa6 => Instruction::MulImm16,
            0x94 => Instruction::MulloReg16,
            0x95 => Instruction::MulloImm8,
            0x96 => Instruction::MulloImm16,
            0x84 => Instruction::ImulReg16,
            0x85 => Instruction::ImulImm8,
            0x86 => Instruction::ImulImm16,
            0x74 => Instruction::DivReg16,
            0x75 => Instruction::DivImm8,
            0x76 => Instruction::DivImm16,
            0x64 => Instruction::IdivReg16,
            0x65 => Instruction::IdivImm8,
            0x66 => Instruction::IdivImm16,
            0x7f => Instruction::Neg,
            0x8f => Instruction::Abs,
            0x54 => Instruction::CmpReg16,
            0x55 => Instruction::CmpImm8,
            0x56 => Instruction::CmpImm16,
            0x80 => Instruction::Not,
            0x37 => Instruction::AndReg16,
            0x36 => Instruction::AndImm8,
            0x46 => Instruction::AndImm16,
            0x48 => Instruction::OrReg16,
            0x47 => Instruction::OrImm8,
            0x57 => Instruction::OrImm16,
            0x59 => Instruction::XorReg16,
            0x58 => Instruction::XorImm8,
            0x68 => Instruction::XorImm16,
            0x6a => Instruction::NandReg16,
            0x69 => Instruction::NandImm8,
            0x79 => Instruction::NandImm16,
            0x7b => Instruction::NorReg16,
            0x7a => Instruction::NorImm8,
            0x8a => Instruction::NorImm16,
            0x8c => Instruction::XnorReg16,
            0x8b => Instruction::XnorImm8,
            0x9b => Instruction::XnorImm16,
            0x9d => Instruction::ShrReg16,
            0x9c => Instruction::ShrImm8,
            0xae => Instruction::SarReg16,
            0xad => Instruction::SarImm8,
            0xbf => Instruction::ShlReg16,
            0xbe => Instruction::ShlImm8,
            0xf0 => Instruction::Ctz,
            0xe0 => Instruction::Clz,
            0xd0 => Instruction::Popcnt,
            0xc0 => Instruction::RolReg16,
            0xc1 => Instruction::RolImm8,
            0xb0 => Instruction::RorReg16,
            0xb1 => Instruction::RorImm8,
            0xa0 => Instruction::Bswap,
            0x90 => Instruction::PextReg16,
            0x91 => Instruction::PextImm16,
            0xfe => Instruction::CallReg,
            0xfd => Instruction::CallImm16,
            0xc3 => Instruction::Ret,
            0x6e => Instruction::Nop,
            0x6f => Instruction::Op,
            0x70 => Instruction::P,
            0x0f => Instruction::Syscall,
            _ => Instruction::Reserved,
        }
    }
}

/// Whether a register is one of the six plain work registers R0 to R5.
pub open spec fn is_work_register(register: RegisterName) -> bool {
    3 <= register.index() <= 8
}

/// An arithmetic instruction on work registers does what its operation
/// says: the destination holds the result of the operation on what the two
/// registers held, Carry and Overflow are as the operation raised them,
/// Zero and Sign are read off the result, and nothing else has changed but
/// the program counter, which stands behind the operand byte.
pub proof fn lemma_arithmetic_on_work_registers(machine: Machine, op: BinaryOp, entropy: Entropy)
    requires
        machine.wf(),
        op == BinaryOp::Add || op == BinaryOp::Sub || op == BinaryOp::Mullo,
        is_work_register(machine.register_pair().0),
        is_work_register(machine.register_pair().1),
    ensures
        ({
            let (dst, src) = machine.register_pair();
            let outcome = op.outcome(machine.reg(dst), machine.reg(src));
            let after = machine.combined(op, Operand::Register, entropy);
            &&& after.reg(dst) == outcome.value
            &&& after.flag(CpuFlag::Carry) == outcome.carry
            &&& after.flag(CpuFlag::Overflow) == outcome.overflow
            &&& after.flag(CpuFlag::Zero) == (outcome.value == 0)
            &&& after.flag(CpuFlag::Sign) == (outcome.value >= 0x8000)
            &&& after.flag(CpuFlag::Sleep) == machine.flag(CpuFlag::Sleep)
            &&& after.pc() == machine.pc().wrapping_add(1)
            &&& after.memory == machine.memory
            &&& after.bytecode == machine.bytecode
            &&& forall|other: RegisterName|
                other != dst && other != RegisterName::PC && other != RegisterName::FL
                    ==> after.reg(other) == machine.reg(other)
        }),
{
    let (dst, src) = machine.register_pair();
    let outcome = op.outcome(machine.reg(dst), machine.reg(src));
    let fl0 = machine.reg(RegisterName::FL);
    let fl1 = crate::vm::emulator::flags_with(fl0, CpuFlag::Carry, outcome.carry);
    let fl2 = crate::vm::emulator::flags_with(fl1, CpuFlag::Overflow, outcome.overflow);
    let fl3 = crate::vm::emulator::flags_with(fl2, CpuFlag::Zero, outcome.value == 0);
    let fl4 = crate::vm::emulator::flags_with(fl3, CpuFlag::Sign, outcome.value >= 0x8000);
    crate::vm::emulator::lemma_flags_with(fl0, CpuFlag::Carry, outcome.carry, CpuFlag::Sleep);
    crate::vm::emulator::lemma_flags_with(fl1, CpuFlag::Overflow, outcome.overflow, CpuFlag::Carry);
    crate::vm::emulator::lemma_flags_with(fl1, CpuFlag::Overflow, outcome.overflow, CpuFlag::Sleep);
    crate::vm::emulator::lemma_flags_with(fl2, CpuFlag::Zero, outcome.value == 0, CpuFlag::Carry);
    crate::vm::emulator::lemma_flags_with(fl2, CpuFlag::Zero, outcome.value == 0, CpuFlag::Overflow);
    crate::vm::emulator::lemma_flags_with(fl2, CpuFlag::Zero, outcome.value == 0, CpuFlag::Sleep);
    crate::vm::emulator::lemma_flags_with(fl3, CpuFlag::Sign, outcome.value >= 0x8000, CpuFlag::Carry);
    crate::vm::emulator::lemma_flags_with(
        fl3,
        CpuFlag::Sign,
        outcome.value >= 0x8000,
        CpuFlag::Overflow,
    );
    crate::vm::emulator::lemma_flags_with(fl3, CpuFlag::Sign, outcome.value >= 0x8000, CpuFlag::Zero);
    crate::vm::emulator::lemma_flags_with(fl3, CpuFlag::Sign, outcome.value >= 0x8000, CpuFlag::Sleep);
    let after = machine.combined(op, Operand::Register, entropy);
    assert(after.reg(RegisterName::FL) == fl4);
    assert forall|other: RegisterName|
        other != dst && other != RegisterName::PC && other != RegisterName::FL implies after.reg(
        other,
    ) == machine.reg(other) by {
        other.lemma_index_at();
    }
}

} // verus!
