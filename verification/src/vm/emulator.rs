//! The emulator: two planes of 65536 bytes, memory and bytecode, and a
//! register file. Every address wraps around at the end of its plane.

use crate::vm::register::{
    after_observing, after_storing, observed, valid_file, RegisterName, Registers,
};
use crate::game::crypto::le_bytes_u16;
use crate::kernel::syscall::{Syscall, SyscallTable};
use crate::vm::entropy::{Chance, Entropy, Glitch};
use crate::vm::instructions::{Instruction, OpcodeTable};
use vstd::prelude::*;

verus! {

pub const BYTECODE_SIZE: usize = 65536;

pub const MEMORY_SIZE: usize = 65536;

/// The bits of the flags register, from bit 0 up.
#[derive(Clone, Copy, Debug, PartialEq, Eq, Structural)]
pub enum CpuFlag {
    Zero,
    Carry,
    Overflow,
    Sign,
    Sleep,
}

impl CpuFlag {
    /// The flag's bit in the flags register.
    pub open spec fn mask(self) -> u16 {
        match self {
            CpuFlag::Zero => 1,
            CpuFlag::Carry => 2,
            CpuFlag::Overflow => 4,
            CpuFlag::Sign => 8,
            CpuFlag::Sleep => 16,
        }
    }

    fn bit(self) -> (mask: u16)
        ensures
            mask == self.mask(),
    {
        match self {
            CpuFlag::Zero => 1,
            CpuFlag::Carry => 2,
            CpuFlag::Overflow => 4,
            CpuFlag::Sign => 8,
            CpuFlag::Sleep => 16,
        }
    }
}

/// Whether a flag is set in a flags word.
pub open spec fn flag_in(flags: u16, flag: CpuFlag) -> bool {
    flags & flag.mask() == flag.mask()
}

/// A flags word with one flag set or cleared.
pub open spec fn flags_with(flags: u16, flag: CpuFlag, value: bool) -> u16 {
    if value {
        flags | flag.mask()
    } else {
        flags & !flag.mask()
    }
}

/// Setting or clearing a flag is seen when that flag is read, and changes no
/// other flag.
pub proof fn lemma_flags_with(flags: u16, flag: CpuFlag, value: bool, other: CpuFlag)
    ensures
        flag_in(flags_with(flags, flag, value), flag) == value,
        other != flag ==> flag_in(flags_with(flags, flag, value), other) == flag_in(flags, other),
{
    let a = flag.mask();
    let b = other.mask();
    assert((flags | a) & a == a) by (bit_vector);
    assert(a != 0 ==> (flags & !a) & a != a) by (bit_vector);
    if other != flag {
        assert(a & b == 0) by (bit_vector)
            requires
                (a == 1 || a == 2 || a == 4 || a == 8 || a == 16),
                (b == 1 || b == 2 || b == 4 || b == 8 || b == 16),
                a != b,
        ;
        assert(a & b == 0 ==> (((flags | a) & b == b) <==> (flags & b == b))) by (bit_vector);
        assert(a & b == 0 ==> (((flags & !a) & b == b) <==> (flags & b == b))) by (bit_vector);
    }
}

/// The plane that results from writing `bytes` one after another, starting at
/// `addr` and wrapping around at the end of the plane.
pub open spec fn written(plane: Seq<u8>, addr: u16, bytes: Seq<u8>) -> Seq<u8>
    decreases bytes.len(),
{
    if bytes.len() == 0 {
        plane
    } else {
        written(plane, addr, bytes.drop_last()).update(
            (addr + bytes.len() - 1) % 65536,
            bytes.last(),
        )
    }
}

/// Writing keeps the size of the plane.
pub proof fn lemma_written_len(plane: Seq<u8>, addr: u16, bytes: Seq<u8>)
    requires
        plane.len() == 65536,
    ensures
        written(plane, addr, bytes).len() == plane.len(),
    decreases bytes.len(),
{
    if bytes.len() > 0 {
        lemma_written_len(plane, addr, bytes.drop_last());
    }
}

/// What was written can be read back, as long as the write did not lap the
/// plane; every other byte of the plane is as before.
pub proof fn lemma_written_bytes(plane: Seq<u8>, addr: u16, bytes: Seq<u8>, at: int)
    requires
        plane.len() == 65536,
        bytes.len() <= 65536,
        0 <= at < 65536,
    ensures
        written(plane, addr, bytes)[at] == if (at - addr) % 65536 < bytes.len() {
            bytes[(at - addr) % 65536]
        } else {
            plane[at]
        },
    decreases bytes.len(),
{
    if bytes.len() > 0 {
        let front = bytes.drop_last();
        lemma_written_bytes(plane, addr, front, at);
        lemma_written_len(plane, addr, front);
        let last = (addr + bytes.len() - 1) % 65536;
        if at == last {
            assert((at - addr) % 65536 == bytes.len() - 1);
        } else {
            assert((at - addr) % 65536 != bytes.len() - 1);
        }
    }
}

/// The 16-bit word made of two bytes, low byte first.
pub open spec fn word_of(low: u8, high: u8) -> u16 {
    (low + 256 * high) as u16
}

/// A byte read as a signed number and widened to 16 bits.
pub open spec fn sign_extended(byte: u8) -> u16 {
    if byte >= 128 {
        (0xff00 + byte) as u16
    } else {
        byte as u16
    }
}

/// The factor that a scale code stands for: the least power of two that is
/// not below the code, and 1 for code 0.
pub open spec fn scale_of(code: u8) -> u16 {
    if code <= 1 {
        1
    } else if code <= 2 {
        2
    } else if code <= 4 {
        4
    } else if code <= 8 {
        8
    } else {
        16
    }
}

/// Base plus index times scale plus displacement, modulo 2^16.
pub open spec fn effective_address(base: u16, index: u16, scale_code: u8, displacement: u16) -> u16 {
    ((base + index * scale_of(scale_code) + displacement) % 65536) as u16
}

pub fn sign_extend(byte: u8) -> (word: u16)
    ensures
        word == sign_extended(byte),
{
    if byte >= 128 {
        0xff00 + byte as u16
    } else {
        byte as u16
    }
}

fn scale(code: u8) -> (factor: u16)
    ensures
        factor == scale_of(code),
{
    if code <= 1 {
        1
    } else if code <= 2 {
        2
    } else if code <= 4 {
        4
    } else if code <= 8 {
        8
    } else {
        16
    }
}

fn effective(base: u16, index: u16, scale_code: u8, displacement: u16) -> (addr: u16)
    ensures
        addr == effective_address(base, index, scale_code, displacement),
{
    let factor = scale(scale_code) as u32;
    ((base as u32 + index as u32 * factor + displacement as u32) % 65536) as u16
}

/// A value that is read from a fixed number of bytes, low byte first.
pub trait FromBytes: Sized {
    /// How many bytes a value takes.
    spec fn width() -> nat;

    spec fn decoded(bytes: Seq<u8>) -> Self;

    fn size() -> (n: usize)
        ensures
            n == Self::width(),
            1 <= n <= 16,
    ;

    fn from_bytes(bytes: &[u8]) -> (value: Self)
        requires
            bytes@.len() == Self::width(),
        ensures
            value == Self::decoded(bytes@),
    ;
}

/// A value that is written as a fixed number of bytes, low byte first.
pub trait ToBytes {
    spec fn encoded(&self) -> Seq<u8>;

    fn to_bytes(&self) -> (bytes: Vec<u8>)
        ensures
            bytes@ == self.encoded(),
    ;
}

impl FromBytes for u8 {
    open spec fn width() -> nat {
        1
    }

    open spec fn decoded(bytes: Seq<u8>) -> u8 {
        bytes[0]
    }

    fn size() -> (n: usize) {
        1
    }

    fn from_bytes(bytes: &[u8]) -> (value: u8) {
        bytes[0]
    }
}

impl FromBytes for i8 {
    open spec fn width() -> nat {
        1
    }

    open spec fn decoded(bytes: Seq<u8>) -> i8 {
        if bytes[0] >= 128 {
            (bytes[0] - 256) as i8
        } else {
            bytes[0] as i8
        }
    }

    fn size() -> (n: usize) {
        1
    }

    fn from_bytes(bytes: &[u8]) -> (value: i8) {
        if bytes[0] >= 128 {
            (bytes[0] as i16 - 256) as i8
        } else {
            bytes[0] as i8
        }
    }
}

impl FromBytes for u16 {
    open spec fn width() -> nat {
        2
    }

    open spec fn decoded(bytes: Seq<u8>) -> u16 {
        word_of(bytes[0], bytes[1])
    }

    fn size() -> (n: usize) {
        2
    }

    fn from_bytes(bytes: &[u8]) -> (value: u16) {
        bytes[0] as u16 + 256 * (bytes[1] as u16)
    }
}

impl FromBytes for i16 {
    open spec fn width() -> nat {
        2
    }

    open spec fn decoded(bytes: Seq<u8>) -> i16 {
        if bytes[1] >= 128 {
            (word_of(bytes[0], bytes[1]) - 65536) as i16
        } else {
            word_of(bytes[0], bytes[1]) as i16
        }
    }

    fn size() -> (n: usize) {
        2
    }

    fn from_bytes(bytes: &[u8]) -> (value: i16) {
        let word: i32 = bytes[0] as i32 + 256 * (bytes[1] as i32);
        if bytes[1] >= 128 {
            (word - 65536) as i16
        } else {
            word as i16
        }
    }
}

impl ToBytes for u8 {
    open spec fn encoded(&self) -> Seq<u8> {
        seq![*self]
    }

    fn to_bytes(&self) -> (bytes: Vec<u8>) {
        let mut bytes: Vec<u8> = Vec::new();
        bytes.push(*self);
        assert(bytes@ =~= seq![*self]);
        bytes
    }
}

impl ToBytes for u16 {
    open spec fn encoded(&self) -> Seq<u8> {
        le_bytes_u16(*self)
    }

    fn to_bytes(&self) -> (bytes: Vec<u8>) {
        let mut bytes: Vec<u8> = Vec::new();
        bytes.push((*self % 256) as u8);
        bytes.push((*self / 256) as u8);
        assert(bytes@ =~= le_bytes_u16(*self));
        bytes
    }
}

/// The state of an emulator: its two planes and what an internal read of each
/// register yields.
pub struct Machine {
    pub memory: Seq<u8>,
    pub bytecode: Seq<u8>,
    pub registers: Seq<u16>,
}

impl Machine {
    pub open spec fn wf(self) -> bool {
        &&& self.memory.len() == 65536
        &&& self.bytecode.len() == 65536
        &&& valid_file(self.registers)
    }

    /// What an internal read of a register yields.
    pub open spec fn reg(self, register: RegisterName) -> u16 {
        self.registers[register.index()]
    }

    pub open spec fn pc(self) -> u16 {
        self.reg(RegisterName::PC)
    }

    /// What an observing read of a register yields, given the word that
    /// chance supplies for it.
    pub open spec fn observed(self, register: RegisterName, fresh: u16) -> u16 {
        observed(self.registers, register, fresh)
    }

    /// The machine after an observing read of a register.
    pub open spec fn after_observing(self, register: RegisterName) -> Machine {
        Machine { registers: after_observing(self.registers, register), ..self }
    }

    /// The machine after a write to a register.
    pub open spec fn with_reg(self, register: RegisterName, value: u16) -> Machine {
        Machine { registers: after_storing(self.registers, register, value), ..self }
    }

    /// The machine with the program counter moved on by `count`, wrapping.
    pub open spec fn advanced(self, count: u16) -> Machine {
        self.with_reg(RegisterName::PC, self.pc().wrapping_add(count))
    }

    /// `count` bytes of bytecode from `addr` on, wrapping.
    pub open spec fn code_at(self, addr: u16, count: nat) -> Seq<u8> {
        Seq::new(count, |i: int| self.bytecode[(addr + i) % 65536])
    }

    /// `count` bytes of memory from `addr` on, wrapping.
    pub open spec fn memory_at(self, addr: u16, count: nat) -> Seq<u8> {
        Seq::new(count, |i: int| self.memory[(addr + i) % 65536])
    }

    /// The machine after `bytes` are written to memory from `addr` on.
    pub open spec fn with_memory(self, addr: u16, bytes: Seq<u8>) -> Machine {
        Machine { memory: written(self.memory, addr, bytes), ..self }
    }

    /// The machine after `bytes` are written to bytecode from `addr` on.
    pub open spec fn with_code(self, addr: u16, bytes: Seq<u8>) -> Machine {
        Machine { bytecode: written(self.bytecode, addr, bytes), ..self }
    }

    /// The byte of bytecode under the program counter.
    pub open spec fn code8(self) -> u8 {
        self.bytecode[self.pc() as int]
    }

    /// The 16-bit word of bytecode under the program counter, low byte first.
    pub open spec fn code16(self) -> u16 {
        word_of(self.bytecode[self.pc() as int], self.bytecode[(self.pc() + 1) % 65536])
    }

    /// The byte of memory at `addr`.
    pub open spec fn mem8(self, addr: u16) -> u8 {
        self.memory[addr as int]
    }

    /// The 16-bit word of memory at `addr`, low byte first.
    pub open spec fn mem16(self, addr: u16) -> u16 {
        word_of(self.memory[addr as int], self.memory[(addr + 1) % 65536])
    }

    /// The two registers that the operand byte under the program counter
    /// names: the low nibble first, then the high nibble.
    pub open spec fn register_pair(self) -> (RegisterName, RegisterName) {
        (RegisterName::low(self.code8()), RegisterName::high(self.code8()))
    }

    /// The machine once the address operand under the program counter has
    /// been read: the program counter stands behind the operand and the base
    /// register, and for the indexed modes the index register, have been
    /// observed.
    pub open spec fn after_address_operand(self) -> Machine {
        let head = self.code8();
        let based = self.advanced(1).after_observing(RegisterName::low(head));
        let mode = head / 64;
        if mode == 0 {
            based
        } else if mode == 1 {
            based.advanced(1)
        } else {
            let indexed = based.advanced(1).after_observing(RegisterName::low(based.code8()));
            if mode == 2 {
                indexed
            } else {
                indexed.advanced(2)
            }
        }
    }

    /// The address that the operand under the program counter stands for.
    /// `fresh_base` and `fresh_index` are the words that chance supplies for
    /// the reads of the base and the index register.
    pub open spec fn address_operand(self, fresh_base: u16, fresh_index: u16) -> u16 {
        let head = self.code8();
        let start = self.advanced(1);
        let base = start.observed(RegisterName::low(head), fresh_base);
        let based = start.after_observing(RegisterName::low(head));
        let mode = head / 64;
        if mode == 0 {
            base
        } else if mode == 1 {
            effective_address(base, 0, 0, sign_extended(based.code8()))
        } else {
            let scale_index = based.code8();
            let index = based.advanced(1).observed(
                RegisterName::low(scale_index),
                fresh_index,
            );
            let indexed = based.advanced(1).after_observing(RegisterName::low(scale_index));
            if mode == 2 {
                effective_address(base, index, scale_index / 16, 0)
            } else {
                effective_address(base, index, scale_index / 16, indexed.code16())
            }
        }
    }

    pub open spec fn flag(self, flag: CpuFlag) -> bool {
        flag_in(self.reg(RegisterName::FL), flag)
    }

    pub open spec fn with_flag(self, flag: CpuFlag, value: bool) -> Machine {
        self.with_reg(RegisterName::FL, flags_with(self.reg(RegisterName::FL), flag, value))
    }

    /// Zero and Sign set from a result.
    pub open spec fn with_logical_flags(self, value: u16) -> Machine {
        self.with_flag(CpuFlag::Zero, value == 0).with_flag(CpuFlag::Sign, value >= 0x8000)
    }

    /// Carry and Overflow set as given, then Zero and Sign from the result.
    pub open spec fn with_arithmetic_flags(self, value: u16, carry: bool, overflow: bool) -> Machine {
        self.with_flag(CpuFlag::Carry, carry).with_flag(
            CpuFlag::Overflow,
            overflow,
        ).with_logical_flags(value)
    }

    /// The machine after a strike of the corruption primitive.
    pub open spec fn corrupted(self, glitch: Glitch) -> Machine {
        match glitch {
            Glitch::Memory { addr, byte } => self.with_memory(addr, seq![byte]),
            Glitch::Register { register, value } => self.with_reg(register, value),
            Glitch::Swap { first, second, fresh_first, fresh_second } => {
                let value1 = self.observed(first, fresh_first);
                let seen1 = self.after_observing(first);
                let value2 = seen1.observed(second, fresh_second);
                let seen2 = seen1.after_observing(second);
                seen2.with_reg(first, value2).with_reg(second, value1)
            },
            Glitch::Bytecode { addr, byte } => self.with_code(addr, seq![byte]),
        }
    }

    /// The instruction under the program counter.
    pub open spec fn next_instruction(self) -> Instruction {
        Instruction::decoded(self.code8())
    }

    /// Whether the budget does not cover the next instruction.
    pub open spec fn stalls(self, budget: int) -> bool {
        budget < self.next_instruction().latency()
    }

    /// Whether the next instruction is a system call.
    pub open spec fn interrupts(self) -> bool {
        self.next_instruction() == Instruction::Syscall
    }

    /// The system call that AX asks for.
    pub open spec fn pending_syscall(self) -> Syscall {
        Syscall::numbered((self.reg(RegisterName::AX) % 256) as u8)
    }

    /// The machine once the opcode has been fetched: the program counter
    /// stands behind it, and a machine that sleeps through anything but the
    /// two opcodes made for sleeping has been struck and woken.
    pub open spec fn fetched(self, entropy: Entropy) -> Machine {
        let start = self.advanced(1);
        if start.flag(CpuFlag::Sleep) && !OpcodeTable::valid_sleep_opcode(self.code8()) {
            start.corrupted(entropy.rude_awakening).with_flag(CpuFlag::Sleep, false)
        } else {
            start
        }
    }

    /// The machine after one step: the next instruction is fetched and,
    /// unless it is a system call, carried out.
    pub open spec fn stepped(self, entropy: Entropy) -> Machine {
        if self.interrupts() {
            self.fetched(entropy)
        } else {
            self.fetched(entropy).executed(self.next_instruction(), entropy)
        }
    }

    /// The machine and what is left of the budget after one step for each
    /// of the entropies.
    pub open spec fn run(self, budget: int, entropies: Seq<Entropy>) -> (Machine, int)
        decreases entropies.len(),
    {
        if entropies.len() == 0 {
            (self, budget)
        } else {
            let (machine, left) = self.run(budget, entropies.drop_last());
            (machine.stepped(entropies.last()), left - machine.next_instruction().latency())
        }
    }

    /// Whether each of the steps is covered by what is left of the budget
    /// when it is taken, and none of them is a system call.
    pub open spec fn runs_freely(self, budget: int, entropies: Seq<Entropy>) -> bool {
        forall|k: int|
            0 <= k < entropies.len() ==> {
                let state = #[trigger] self.run(budget, entropies.take(k));
                !state.0.stalls(state.1) && !state.0.interrupts()
            }
    }

    /// Whether a run from this machine, driven by the entropies, ends in
    /// `end` with `left` of the budget and the given result: either the
    /// budget runs out before any system call, or the last step fetches one.
    pub open spec fn runs_to(
        self,
        budget: int,
        entropies: Seq<Entropy>,
        end: Machine,
        left: int,
        result: Option<Syscall>,
    ) -> bool {
        match result {
            None => {
                &&& self.runs_freely(budget, entropies)
                &&& (end, left) == self.run(budget, entropies)
                &&& end.stalls(left)
            },
            Some(syscall) => {
                &&& entropies.len() > 0
                &&& self.runs_freely(budget, entropies.drop_last())
                &&& {
                    let state = self.run(budget, entropies.drop_last());
                    &&& !state.0.stalls(state.1)
                    &&& state.0.interrupts()
                }
                &&& (end, left) == self.run(budget, entropies)
                &&& syscall == end.pending_syscall()
            },
        }
    }

    /// The six syscall arguments: what internal reads of R0 to R5 yield.
    pub open spec fn syscall_args(self) -> (u16, u16, u16, u16, u16, u16) {
        (
            self.reg(RegisterName::R0),
            self.reg(RegisterName::R1),
            self.reg(RegisterName::R2),
            self.reg(RegisterName::R3),
            self.reg(RegisterName::R4),
            self.reg(RegisterName::R5),
        )
    }
}

/// Whether a register is one that stores what is written and yields what
/// is stored, and is not the program counter.
pub open spec fn is_plain_register(register: RegisterName) -> bool {
    3 <= register.index() <= 9 || register.index() == 13 || register.index() == 15
}

/// The address operand, mode by mode, over plain registers: the address is
/// the base; the base plus a signed byte; the base plus the scaled index; or
/// the base plus the scaled index plus a word; each modulo 2^16. The program
/// counter ends behind the operand and nothing else changes.
pub proof fn lemma_address_operand(machine: Machine, fresh_base: u16, fresh_index: u16)
    requires
        machine.wf(),
        is_plain_register(RegisterName::low(machine.code8())),
        machine.code8() / 64 >= 2 ==> is_plain_register(
            RegisterName::low(machine.bytecode[(machine.pc() + 1) % 65536]),
        ),
    ensures
        ({
            let head = machine.code8();
            let next = machine.bytecode[(machine.pc() + 1) % 65536];
            let base = machine.reg(RegisterName::low(head));
            let index = machine.reg(RegisterName::low(next));
            let word = word_of(
                machine.bytecode[(machine.pc() + 2) % 65536],
                machine.bytecode[(machine.pc() + 3) % 65536],
            );
            let length: u16 = if head / 64 == 0 {
                1
            } else if head / 64 == 3 {
                4
            } else {
                2
            };
            &&& machine.address_operand(fresh_base, fresh_index) == if head / 64 == 0 {
                base
            } else if head / 64 == 1 {
                effective_address(base, 0, 0, sign_extended(next))
            } else if head / 64 == 2 {
                effective_address(base, index, next / 16, 0)
            } else {
                effective_address(base, index, next / 16, word)
            }
            &&& machine.after_address_operand() == machine.advanced(length)
        }),
{
    let head = machine.code8();
    let base_register = RegisterName::low(head);
    base_register.lemma_index_at();
    let start = machine.advanced(1);
    assert(start.after_observing(base_register) == start);
    assert(start.registers =~= machine.registers.update(0, machine.pc().wrapping_add(1)));
    if head / 64 >= 1 {
        let next = machine.bytecode[(machine.pc() + 1) % 65536];
        assert(start.code8() == next);
        let second = start.advanced(1);
        assert(second.registers =~= machine.registers.update(0, machine.pc().wrapping_add(2)));
        assert(second.registers =~= machine.advanced(2).registers);
        if head / 64 >= 2 {
            let index_register = RegisterName::low(next);
            index_register.lemma_index_at();
            assert(second.after_observing(index_register) == second);
            if head / 64 == 3 {
                assert(second.advanced(2).registers =~= machine.advanced(4).registers);
            }
        }
    }
}

/// Whether the bytecode of a machine is Nop throughout.
pub open spec fn all_nops(machine: Machine) -> bool {
    forall|addr: int| 0 <= addr < 65536 ==> #[trigger] machine.bytecode[addr] == 0x6e
}

/// Whether the strike that an entropy holds for a rude awakening writes to
/// memory only.
pub open spec fn harmless(entropy: Entropy) -> bool {
    entropy.rude_awakening is Memory
}

/// The registers after `count` Nops: the program counter has moved on by
/// `count`, the Sleep flag is set, and nothing else has changed.
pub open spec fn after_nops(machine: Machine, count: nat) -> Seq<u16> {
    if count == 0 {
        machine.registers
    } else {
        machine.registers.update(0, ((machine.pc() + count) % 65536) as u16).update(
            1,
            machine.reg(RegisterName::FL) | 16,
        )
    }
}

/// One step of a machine whose bytecode is Nop throughout, under a strike
/// that writes to memory only: the program counter moves on by one, the
/// Sleep flag is set, and no other register and no bytecode changes.
pub proof fn lemma_nop_step(machine: Machine, entropy: Entropy)
    requires
        machine.wf(),
        all_nops(machine),
        harmless(entropy),
    ensures
        machine.next_instruction() == Instruction::Nop,
        !machine.interrupts(),
        machine.stepped(entropy).wf(),
        machine.stepped(entropy).bytecode == machine.bytecode,
        machine.stepped(entropy).registers == machine.registers.update(
            0,
            machine.pc().wrapping_add(1),
        ).update(1, machine.reg(RegisterName::FL) | 16),
{
    let fl = machine.reg(RegisterName::FL);
    assert(machine.bytecode[machine.pc() as int] == 0x6e);
    assert((fl & !16u16) | 16 == fl | 16) by (bit_vector);
    let start = machine.advanced(1);
    assert(start.registers =~= machine.registers.update(0, machine.pc().wrapping_add(1)));
    let fetched = machine.fetched(entropy);
    if start.flag(CpuFlag::Sleep) && !OpcodeTable::valid_sleep_opcode(machine.code8()) {
        match entropy.rude_awakening {
            Glitch::Memory { addr, byte } => {
                lemma_written_len(start.memory, addr, seq![byte]);
            },
            _ => {},
        }
    }
    assert(fetched.registers =~= start.registers || fetched.registers =~= start.registers.update(
        1,
        fl & !16u16,
    ));
    let end = machine.stepped(entropy);
    assert(end.registers =~= machine.registers.update(0, machine.pc().wrapping_add(1)).update(
        1,
        fl | 16,
    ));
}

/// One more Nop after `count` of them leaves the registers as after
/// `count + 1`.
pub proof fn lemma_after_nops_step(machine: Machine, count: nat)
    requires
        machine.wf(),
    ensures
        after_nops(machine, count).update(
            0,
            after_nops(machine, count)[0].wrapping_add(1),
        ).update(1, after_nops(machine, count)[1] | 16) == after_nops(machine, count + 1),
{
    let fl = machine.registers[1];
    let pc = machine.registers[0];
    assert((fl | 16u16) | 16 == fl | 16) by (bit_vector);
    if count == 0 {
        assert(after_nops(machine, count).update(0, pc.wrapping_add(1)).update(1, fl | 16)
            =~= after_nops(machine, 1));
    } else {
        let moved = ((pc + count) % 65536) as u16;
        assert(moved.wrapping_add(1) == ((pc + count + 1) % 65536) as u16);
        assert(after_nops(machine, count).update(0, moved.wrapping_add(1)).update(
            1,
            (fl | 16) | 16,
        ) =~= after_nops(machine, count + 1));
    }
}

/// A run of a machine whose bytecode is Nop throughout, under strikes that
/// write to memory only: every step costs one cycle and moves the program
/// counter on by one; the Sleep flag is set from the first step on; no
/// other register and no bytecode changes.
pub proof fn lemma_nop_run(machine: Machine, budget: int, entropies: Seq<Entropy>)
    requires
        machine.wf(),
        all_nops(machine),
        forall|i: int| 0 <= i < entropies.len() ==> harmless(#[trigger] entropies[i]),
    ensures
        machine.run(budget, entropies).0.wf(),
        machine.run(budget, entropies).0.bytecode == machine.bytecode,
        machine.run(budget, entropies).0.registers == after_nops(machine, entropies.len()),
        machine.run(budget, entropies).1 == budget - entropies.len(),
    decreases entropies.len(),
{
    if entropies.len() > 0 {
        let front = entropies.drop_last();
        lemma_nop_run(machine, budget, front);
        let state = machine.run(budget, front);
        let last = entropies[entropies.len() - 1];
        assert(harmless(last));
        lemma_nop_step(state.0, last);
        lemma_after_nops_step(machine, front.len());
        assert(state.0.pc() == state.0.registers[0]);
        assert(state.0.reg(RegisterName::FL) == state.0.registers[1]);
        assert(machine.run(budget, entropies) == (
            state.0.stepped(last),
            state.1 - state.0.next_instruction().latency(),
        ));
    }
}

/// The idle run: a machine whose bytecode is Nop throughout, under strikes
/// that write to memory only, runs until its budget is spent and fetches no
/// system call. It takes one step for each cycle of the budget.
pub proof fn lemma_idle_run(
    machine: Machine,
    budget: int,
    entropies: Seq<Entropy>,
    end: Machine,
    left: int,
    result: Option<Syscall>,
)
    requires
        machine.wf(),
        all_nops(machine),
        forall|i: int| 0 <= i < entropies.len() ==> harmless(#[trigger] entropies[i]),
        0 <= budget,
        machine.runs_to(budget, entropies, end, left, result),
    ensures
        result is None,
        left == 0,
        entropies.len() == budget,
        end.wf(),
        end.bytecode == machine.bytecode,
        end.registers == after_nops(machine, budget as nat),
{
    if result is Some {
        let front = entropies.drop_last();
        lemma_nop_run(machine, budget, front);
        lemma_nop_step(machine.run(budget, front).0, entropies.last());
        assert(false);
    }
    lemma_nop_run(machine, budget, entropies);
    assert(machine.bytecode[end.pc() as int] == 0x6e);
    assert(end.next_instruction() == Instruction::Nop);
    if entropies.len() > 0 {
        let front = entropies.take(entropies.len() - 1);
        lemma_nop_run(machine, budget, front);
        let state = machine.run(budget, front);
        lemma_nop_step(state.0, entropies.last());
        assert(!state.0.stalls(state.1));
    }
}

/// Whether the bytecode under the program counter is `MovImm8 AX, number`
/// followed by the system call.
pub open spec fn calls_at_once(machine: Machine, number: u8) -> bool {
    &&& machine.bytecode[machine.pc() as int] == 0x21
    &&& machine.bytecode[(machine.pc() + 1) % 65536] == 0x0f
    &&& machine.bytecode[(machine.pc() + 2) % 65536] == number
    &&& machine.bytecode[(machine.pc() + 3) % 65536] == 0x0f
}

/// The machine that has loaded `number` into AX and fetched the system
/// call: AX holds the number, the program counter stands four bytes on,
/// and nothing else has changed.
pub open spec fn at_call(machine: Machine, number: u8) -> Machine {
    Machine {
        registers: machine.registers.update(15, number as u16).update(
            0,
            ((machine.pc() + 4) % 65536) as u16,
        ),
        ..machine
    }
}

/// A waking machine that stands at `MovImm8 AX, number; syscall` takes
/// two steps, whatever chance contributes: it loads AX and fetches the
/// call.
pub proof fn lemma_two_steps_to_call(machine: Machine, number: u8, first: Entropy, second: Entropy)
    requires
        machine.wf(),
        !machine.flag(CpuFlag::Sleep),
        calls_at_once(machine, number),
    ensures
        machine.next_instruction() == Instruction::MovImm8,
        machine.stepped(first).interrupts(),
        machine.stepped(first).stepped(second) == at_call(machine, number),
        at_call(machine, number).pending_syscall() == Syscall::numbered(number),
{
    let pc = machine.pc();
    let start = machine.advanced(1);
    assert(start.registers =~= machine.registers.update(0, pc.wrapping_add(1)));
    assert(start.reg(RegisterName::FL) == machine.reg(RegisterName::FL));
    assert(machine.fetched(first) == start);
    assert(start.code8() == 0x0f);
    assert(RegisterName::low(0x0f) == RegisterName::AX);
    let named = start.advanced(1);
    assert(named.registers =~= machine.registers.update(0, pc.wrapping_add(2)));
    assert(named.code8() == number);
    let loaded = machine.stepped(first);
    assert(loaded.registers =~= machine.registers.update(0, pc.wrapping_add(3)).update(
        15,
        number as u16,
    ));
    assert(loaded.bytecode == machine.bytecode);
    assert(loaded.code8() == 0x0f);
    assert(loaded.reg(RegisterName::FL) == machine.reg(RegisterName::FL));
    let end = loaded.stepped(second);
    assert(end.registers =~= at_call(machine, number).registers);
    assert((number as u16) % 256 == number);
}

/// A waking machine that stands at `MovImm8 AX, number; syscall` with a
/// budget of 103 cycles or more runs to that call, whatever chance
/// contributes: the call is the one that the number names, 103 cycles are
/// spent, AX holds the number and the program counter stands behind the
/// call.
pub proof fn lemma_run_to_call(
    machine: Machine,
    number: u8,
    budget: int,
    entropies: Seq<Entropy>,
    end: Machine,
    left: int,
    result: Option<Syscall>,
)
    requires
        machine.wf(),
        !machine.flag(CpuFlag::Sleep),
        calls_at_once(machine, number),
        budget >= 103,
        machine.runs_to(budget, entropies, end, left, result),
    ensures
        result == Some(Syscall::numbered(number)),
        left == budget - 103,
        end == at_call(machine, number),
{
    reveal_with_fuel(Machine::run, 3);
    let probe = arbitrary::<Entropy>();
    let e0 = if entropies.len() > 0 {
        entropies[0]
    } else {
        probe
    };
    let e1 = if entropies.len() > 1 {
        entropies[1]
    } else {
        probe
    };
    lemma_two_steps_to_call(machine, number, e0, e1);
    let loaded = machine.stepped(e0);
    assert(entropies.take(0) =~= Seq::<Entropy>::empty());
    assert(machine.run(budget, Seq::<Entropy>::empty()) == (machine, budget));
    if entropies.len() >= 1 {
        let one = entropies.take(1);
        assert(one.drop_last() =~= Seq::<Entropy>::empty());
        assert(one.last() == e0);
        assert(machine.run(budget, one) == (loaded, budget - 3));
    }
    match result {
        None => {
            if entropies.len() == 0 {
                assert(false);
            } else if entropies.len() == 1 {
                assert(entropies =~= entropies.take(1));
                assert(false);
            } else {
                let state = machine.run(budget, entropies.take(1));
                assert(!state.0.interrupts());
                assert(false);
            }
        },
        Some(syscall) => {
            let front = entropies.drop_last();
            if entropies.len() == 1 {
                assert(front =~= Seq::<Entropy>::empty());
                assert(false);
            } else if entropies.len() == 2 {
                assert(front =~= entropies.take(1));
                assert(entropies.last() == e1);
                assert(machine.run(budget, entropies) == (loaded.stepped(e1), budget - 3 - 100));
            } else {
                assert(front.take(1) =~= entropies.take(1));
                let state = machine.run(budget, front.take(1));
                assert(!state.0.interrupts());
                assert(false);
            }
        },
    }
}

/// A machine whose next instruction the budget does not cover takes no
/// step: a run from it ends at once, in that machine and with the whole
/// budget, and reaches no system call.
pub proof fn lemma_stalled_run(
    machine: Machine,
    budget: int,
    entropies: Seq<Entropy>,
    end: Machine,
    left: int,
    result: Option<Syscall>,
)
    requires
        machine.stalls(budget),
        machine.runs_to(budget, entropies, end, left, result),
    ensures
        result is None,
        entropies.len() == 0,
        end == machine,
        left == budget,
{
    let none = Seq::<Entropy>::empty();
    assert(machine.run(budget, none) == (machine, budget));
    match result {
        None => {
            if entropies.len() > 0 {
                assert(entropies.take(0) =~= none);
                let state = machine.run(budget, entropies.take(0));
                assert(!state.0.stalls(state.1));
            }
        },
        Some(_) => {
            let front = entropies.drop_last();
            if front.len() == 0 {
                assert(front =~= none);
            } else {
                assert(front.take(0) =~= none);
                let state = machine.run(budget, front.take(0));
                assert(!state.0.stalls(state.1));
            }
        },
    }
}

/// How far one step got.
#[derive(Clone, Copy, Debug, PartialEq, Eq, Structural)]
pub enum Progress {
    /// The budget does not cover the next instruction; nothing happened.
    Stalled,
    /// An instruction was carried out.
    Ran,
    /// A system call was fetched and waits to be resolved.
    Interrupted(Syscall),
}

pub struct Emulator {
    memory: Vec<u8>,
    registers: Registers,
    bytecode: Vec<u8>,
}

impl View for Emulator {
    type V = Machine;

    closed spec fn view(&self) -> Machine {
        Machine { memory: self.memory@, bytecode: self.bytecode@, registers: self.registers@ }
    }
}

impl Emulator {
    /// Both planes have their full size and every register is of its kind.
    pub closed spec fn wf(&self) -> bool {
        &&& self.memory@.len() == 65536
        &&& self.bytecode@.len() == 65536
        &&& self.registers.wf()
    }

    /// The state of a well-formed emulator is well formed.
    pub proof fn lemma_wf(&self)
        requires
            self.wf(),
        ensures
            self@.wf(),
    {
        self.registers.lemma_valid();
    }

    /// An emulator over the two planes given, with all registers at rest.
    pub fn new(memory: Vec<u8>, bytecode: Vec<u8>) -> (res: Emulator)
        requires
            memory@.len() == 65536,
            bytecode@.len() == 65536,
        ensures
            res.wf(),
            res@ == (Machine {
                memory: memory@,
                bytecode: bytecode@,
                registers: Seq::new(16, |i: int| if i == 10 { 0x1337u16 } else { 0u16 }),
            }),
    {
        Emulator { memory, registers: Registers::new(), bytecode }
    }

    /// A deep copy.
    pub fn duplicate(&self) -> (res: Emulator)
        requires
            self.wf(),
        ensures
            res.wf(),
            res@ == self@,
    {
        Emulator {
            memory: self.memory.clone(),
            registers: self.registers,
            bytecode: self.bytecode.clone(),
        }
    }

    /// An internal read of a register.
    pub fn get_reg_internal(&self, register: RegisterName) -> (value: u16)
        ensures
            value == self@.reg(register),
    {
        self.registers.inspect(register)
    }

    /// An observing read of a register; `fresh` is the word that chance
    /// supplies for it.
    pub fn get_reg_mut(&mut self, register: RegisterName, fresh: u16) -> (value: u16)
        requires
            old(self).wf(),
        ensures
            final(self).wf(),
            value == old(self)@.observed(register, fresh),
            final(self)@ == old(self)@.after_observing(register),
    {
        self.registers.observe(register, fresh)
    }

    pub fn set_reg(&mut self, register: RegisterName, value: u16)
        requires
            old(self).wf(),
        ensures
            final(self).wf(),
            final(self)@ == old(self)@.with_reg(register, value),
    {
        self.registers.store(register, value)
    }

    pub fn increment_pc(&mut self, count: u16)
        requires
            old(self).wf(),
        ensures
            final(self).wf(),
            final(self)@ == old(self)@.advanced(count),
    {
        let pc_value = self.get_reg_internal(RegisterName::PC);
        self.set_reg(RegisterName::PC, pc_value.wrapping_add(count));
    }

    /// `count` bytes of bytecode from the program counter on.
    pub fn peek_bytes_from_pc(&self, count: usize) -> (bytes: Vec<u8>)
        requires
            self.wf(),
        ensures
            bytes@ == self@.code_at(self@.pc(), count as nat),
    {
        let mut result: Vec<u8> = Vec::new();
        let mut addr: usize = self.get_reg_internal(RegisterName::PC) as usize;
        let mut i: usize = 0;
        while i < count
            invariant
                i <= count,
                self.wf(),
                addr == (self@.pc() + i) % 65536,
                result@ == self@.code_at(self@.pc(), i as nat),
            decreases count - i,
        {
            result.push(self.bytecode[addr]);
            assert(result@ =~= self@.code_at(self@.pc(), (i + 1) as nat));
            addr = (addr + 1) % BYTECODE_SIZE;
            i += 1;
        }
        result
    }

    /// `count` bytes of memory from `addr` on.
    pub fn peek_bytes_from_mem(&self, addr: u16, count: usize) -> (bytes: Vec<u8>)
        requires
            self.wf(),
        ensures
            bytes@ == self@.memory_at(addr, count as nat),
    {
        let mut result: Vec<u8> = Vec::new();
        let mut at: usize = addr as usize;
        let mut i: usize = 0;
        while i < count
            invariant
                i <= count,
                self.wf(),
                at == (addr + i) % 65536,
                result@ == self@.memory_at(addr, i as nat),
            decreases count - i,
        {
            result.push(self.memory[at]);
            assert(result@ =~= self@.memory_at(addr, (i + 1) as nat));
            at = (at + 1) % MEMORY_SIZE;
            i += 1;
        }
        result
    }

    pub fn write_bytes_to_mem(&mut self, addr: u16, bytes: &[u8])
        requires
            old(self).wf(),
        ensures
            final(self).wf(),
            final(self)@ == old(self)@.with_memory(addr, bytes@),
    {
        let mut at: usize = addr as usize;
        let mut i: usize = 0;
        while i < bytes.len()
            invariant
                i <= bytes@.len(),
                self.wf(),
                at == (addr + i) % 65536,
                self@ == old(self)@.with_memory(addr, bytes@.subrange(0, i as int)),
            decreases bytes@.len() - i,
        {
            self.memory[at] = bytes[i];
            proof {
                let done = bytes@.subrange(0, i + 1);
                assert(done.drop_last() =~= bytes@.subrange(0, i as int));
            }
            at = (at + 1) % MEMORY_SIZE;
            i += 1;
        }
        assert(bytes@.subrange(0, i as int) =~= bytes@);
    }

    pub fn write_bytes_to_code(&mut self, addr: u16, bytes: &[u8])
        requires
            old(self).wf(),
        ensures
            final(self).wf(),
            final(self)@ == old(self)@.with_code(addr, bytes@),
    {
        let mut at: usize = addr as usize;
        let mut i: usize = 0;
        while i < bytes.len()
            invariant
                i <= bytes@.len(),
                self.wf(),
                at == (addr + i) % 65536,
                self@ == old(self)@.with_code(addr, bytes@.subrange(0, i as int)),
            decreases bytes@.len() - i,
        {
            self.bytecode[at] = bytes[i];
            proof {
                let done = bytes@.subrange(0, i + 1);
                assert(done.drop_last() =~= bytes@.subrange(0, i as int));
            }
            at = (at + 1) % BYTECODE_SIZE;
            i += 1;
        }
        assert(bytes@.subrange(0, i as int) =~= bytes@);
    }

    pub fn get_cpu_flag(&self, flag: CpuFlag) -> (set: bool)
        ensures
            set == self@.flag(flag),
    {
        let flags_reg = self.get_reg_internal(RegisterName::FL);
        let mask = flag.bit();
        flags_reg & mask == mask
    }

    pub fn set_cpu_flag(&mut self, flag: CpuFlag, value: bool)
        requires
            old(self).wf(),
        ensures
            final(self).wf(),
            final(self)@ == old(self)@.with_flag(flag, value),
    {
        let flags_reg = self.get_reg_internal(RegisterName::FL);
        let mask = flag.bit();
        let new_flags = if value {
            flags_reg | mask
        } else {
            flags_reg & !mask
        };
        self.set_reg(RegisterName::FL, new_flags);
    }

    pub fn set_logical_flags(&mut self, value: u16)
        requires
            old(self).wf(),
        ensures
            final(self).wf(),
            final(self)@ == old(self)@.with_logical_flags(value),
    {
        self.set_cpu_flag(CpuFlag::Zero, value == 0);
        self.set_cpu_flag(CpuFlag::Sign, value >= 0x8000);
    }

    pub fn set_arithmetic_flags(&mut self, value: u16, carry: bool, overflow: bool)
        requires
            old(self).wf(),
        ensures
            final(self).wf(),
            final(self)@ == old(self)@.with_arithmetic_flags(value, carry, overflow),
    {
        self.set_cpu_flag(CpuFlag::Carry, carry);
        self.set_cpu_flag(CpuFlag::Overflow, overflow);
        self.set_logical_flags(value);
    }

    /// The low byte of AX: the number of the syscall asked for.
    pub fn get_syscall_number(&self) -> (number: u8)
        ensures
            number == self@.reg(RegisterName::AX) % 256,
    {
        (self.get_reg_internal(RegisterName::AX) % 256) as u8
    }

    pub fn get_syscall_args(&self) -> (args: (u16, u16, u16, u16, u16, u16))
        ensures
            args == self@.syscall_args(),
    {
        let r0 = self.get_reg_internal(RegisterName::R0);
        let r1 = self.get_reg_internal(RegisterName::R1);
        let r2 = self.get_reg_internal(RegisterName::R2);
        let r3 = self.get_reg_internal(RegisterName::R3);
        let r4 = self.get_reg_internal(RegisterName::R4);
        let r5 = self.get_reg_internal(RegisterName::R5);
        (r0, r1, r2, r3, r4, r5)
    }

    pub fn set_syscall_return_value(&mut self, value: u16)
        requires
            old(self).wf(),
        ensures
            final(self).wf(),
            final(self)@ == old(self)@.with_reg(RegisterName::AX, value),
    {
        self.set_reg(RegisterName::AX, value);
    }

    /// Steps the tick counter by one, wrapping.
    pub fn increment_ts(&mut self)
        requires
            old(self).wf(),
        ensures
            final(self).wf(),
            final(self)@ == old(self)@.with_reg(
                RegisterName::TS,
                old(self)@.reg(RegisterName::TS).wrapping_add(1),
            ),
    {
        let ts = self.get_reg_internal(RegisterName::TS);
        self.set_reg(RegisterName::TS, ts.wrapping_add(1));
    }

    /// The value under the program counter, which stays where it is.
    pub fn peek_from_pc<T: FromBytes>(&self) -> (value: T)
        requires
            self.wf(),
        ensures
            value == T::decoded(self@.code_at(self@.pc(), T::width())),
    {
        let bytes = self.peek_bytes_from_pc(T::size());
        T::from_bytes(bytes.as_slice())
    }

    /// The value under the program counter, which moves on behind it.
    pub fn read_from_pc<T: FromBytes>(&mut self) -> (value: T)
        requires
            old(self).wf(),
        ensures
            final(self).wf(),
            value == T::decoded(old(self)@.code_at(old(self)@.pc(), T::width())),
            final(self)@ == old(self)@.advanced(T::width() as u16),
    {
        let value = self.peek_from_pc::<T>();
        self.increment_pc(T::size() as u16);
        value
    }

    /// The value in memory at `addr`.
    pub fn peek_from_mem<T: FromBytes>(&self, addr: u16) -> (value: T)
        requires
            self.wf(),
        ensures
            value == T::decoded(self@.memory_at(addr, T::width())),
    {
        let bytes = self.peek_bytes_from_mem(addr, T::size());
        T::from_bytes(bytes.as_slice())
    }

    pub fn write_to_mem<T: ToBytes>(&mut self, addr: u16, data: T)
        requires
            old(self).wf(),
        ensures
            final(self).wf(),
            final(self)@ == old(self)@.with_memory(addr, data.encoded()),
    {
        let bytes = data.to_bytes();
        self.write_bytes_to_mem(addr, bytes.as_slice())
    }

    /// Reads the byte under the program counter.
    pub fn fetch_u8(&mut self) -> (value: u8)
        requires
            old(self).wf(),
        ensures
            final(self).wf(),
            value == old(self)@.code8(),
            final(self)@ == old(self)@.advanced(1),
    {
        self.read_from_pc::<u8>()
    }

    /// Reads the 16-bit word under the program counter.
    pub fn fetch_u16(&mut self) -> (value: u16)
        requires
            old(self).wf(),
        ensures
            final(self).wf(),
            value == old(self)@.code16(),
            final(self)@ == old(self)@.advanced(2),
    {
        self.read_from_pc::<u16>()
    }

    pub fn load_u8(&self, addr: u16) -> (value: u8)
        requires
            self.wf(),
        ensures
            value == self@.mem8(addr),
    {
        self.peek_from_mem::<u8>(addr)
    }

    pub fn load_u16(&self, addr: u16) -> (value: u16)
        requires
            self.wf(),
        ensures
            value == self@.mem16(addr),
    {
        self.peek_from_mem::<u16>(addr)
    }

    /// Reads a register-pair operand: the low nibble names the first
    /// register, the high nibble the second.
    pub fn read_registers_operand(&mut self) -> (pair: (RegisterName, RegisterName))
        requires
            old(self).wf(),
        ensures
            final(self).wf(),
            pair == old(self)@.register_pair(),
            final(self)@ == old(self)@.advanced(1),
    {
        let indices = self.fetch_u8();
        (RegisterName::from(indices % 16), RegisterName::from(indices / 16))
    }

    /// Reads an address operand and computes the address it stands for.
    /// `fresh_base` and `fresh_index` are the words that chance supplies for
    /// the reads of the base and the index register.
    pub fn read_address_operand(&mut self, fresh_base: u16, fresh_index: u16) -> (addr: u16)
        requires
            old(self).wf(),
        ensures
            final(self).wf(),
            addr == old(self)@.address_operand(fresh_base, fresh_index),
            final(self)@ == old(self)@.after_address_operand(),
    {
        let mode_base = self.fetch_u8();
        let mode = mode_base / 64;
        let base = self.get_reg_mut(RegisterName::from(mode_base % 16), fresh_base);
        if mode == 0 {
            base
        } else if mode == 1 {
            let displacement = self.fetch_u8();
            effective(base, 0, 0, sign_extend(displacement))
        } else {
            let scale_index = self.fetch_u8();
            let index = self.get_reg_mut(RegisterName::from(scale_index % 16), fresh_index);
            if mode == 2 {
                effective(base, index, scale_index / 16, 0)
            } else {
                let displacement = self.fetch_u16();
                effective(base, index, scale_index / 16, displacement)
            }
        }
    }

    /// The corruption primitive, for a strike that has been drawn.
    pub fn suffer(&mut self, glitch: Glitch)
        requires
            old(self).wf(),
        ensures
            final(self).wf(),
            final(self)@ == old(self)@.corrupted(glitch),
    {
        match glitch {
            Glitch::Memory { addr, byte } => {
                self.write_to_mem::<u8>(addr, byte);
            },
            Glitch::Register { register, value } => {
                self.set_reg(register, value);
            },
            Glitch::Swap { first, second, fresh_first, fresh_second } => {
                let value1 = self.get_reg_mut(first, fresh_first);
                let value2 = self.get_reg_mut(second, fresh_second);
                self.set_reg(first, value2);
                self.set_reg(second, value1);
            },
            Glitch::Bytecode { addr, byte } => {
                let bytes = byte.to_bytes();
                self.write_bytes_to_code(addr, bytes.as_slice());
            },
        }
    }

    /// The corruption primitive: draws a strike at random and suffers it.
    /// Whatever is drawn, the machine ends as that strike leaves it.
    pub fn nasal_demons(&mut self)
        requires
            old(self).wf(),
        ensures
            final(self).wf(),
            exists|glitch: Glitch| final(self)@ == old(self)@.corrupted(glitch),
    {
        let glitch = Glitch::draw();
        self.suffer(glitch);
    }

    /// Whether the budget does not cover the next instruction.
    pub fn stalled(&self, cycle_count: usize) -> (stalled: bool)
        requires
            self.wf(),
        ensures
            stalled == self@.stalls(cycle_count as int),
    {
        let opcode = self.peek_from_pc::<u8>();
        cycle_count < OpcodeTable::new().get_instruction(opcode).get_latency()
    }

    /// One step: where the budget covers the next instruction, pays for it,
    /// fetches it and, unless it is a system call, carries it out.
    pub fn step(&mut self, cycle_count: &mut usize, entropy: &Entropy) -> (progress: Progress)
        requires
            old(self).wf(),
        ensures
            final(self).wf(),
            old(self)@.stalls(*old(cycle_count) as int) ==> {
                &&& progress == Progress::Stalled
                &&& final(self)@ == old(self)@
                &&& *final(cycle_count) == *old(cycle_count)
            },
            !old(self)@.stalls(*old(cycle_count) as int) ==> {
                &&& final(self)@ == old(self)@.stepped(*entropy)
                &&& *final(cycle_count) == *old(cycle_count) - old(
                    self,
                )@.next_instruction().latency()
                &&& progress == if old(self)@.interrupts() {
                    Progress::Interrupted(final(self)@.pending_syscall())
                } else {
                    Progress::Ran
                }
            },
    {
        let opcode = self.peek_from_pc::<u8>();
        let instruction = OpcodeTable::new().get_instruction(opcode);
        let latency = instruction.get_latency();
        if *cycle_count < latency {
            return Progress::Stalled;
        }
        *cycle_count -= latency;
        self.increment_pc(1);
        if self.get_cpu_flag(CpuFlag::Sleep) && !OpcodeTable::is_valid_sleep_opcode(opcode) {
            self.suffer(entropy.rude_awakening);
            self.set_cpu_flag(CpuFlag::Sleep, false);
        }
        if opcode == OpcodeTable::get_syscall_opcode() {
            return Progress::Interrupted(SyscallTable::new().get_syscall(self.get_syscall_number()));
        }
        proof {
            instruction.lemma_decoded_opcode();
        }
        instruction.execute(self, entropy);
        Progress::Ran
    }

    /// Runs until the budget no longer covers the next instruction, which
    /// gives `None`, or until a system call is fetched, which gives the call
    /// that AX asks for. Every step takes what `chance` hands out; whatever
    /// that is, the machine ends as those steps leave it.
    pub fn run_by_chance(&mut self, cycle_count: &mut usize, chance: &Chance) -> (result: Option<
        Syscall,
    >)
        requires
            old(self).wf(),
        ensures
            final(self).wf(),
            *final(cycle_count) <= *old(cycle_count),
            result is Some ==> *final(cycle_count) < *old(cycle_count),
            exists|entropies: Seq<Entropy>|
                {
                    &&& forall|i: int| 0 <= i < entropies.len() ==> chance.allows(#[trigger] entropies[i])
                    &&& #[trigger] old(self)@.runs_to(
                        *old(cycle_count) as int,
                        entropies,
                        final(self)@,
                        *final(cycle_count) as int,
                        result,
                    )
                },
    {
        let ghost start = self@;
        let ghost budget = *cycle_count as int;
        let ghost mut entropies: Seq<Entropy> = Seq::empty();
        loop
            invariant
                self.wf(),
                start == old(self)@,
                budget == *old(cycle_count) as int,
                *cycle_count <= budget,
                forall|i: int| 0 <= i < entropies.len() ==> chance.allows(#[trigger] entropies[i]),
                start.runs_freely(budget, entropies),
                (self@, *cycle_count as int) == start.run(budget, entropies),
            decreases *cycle_count,
        {
            if self.stalled(*cycle_count) {
                assert(start.runs_to(budget, entropies, self@, *cycle_count as int, None));
                return None;
            }
            let entropy = chance.entropy();
            let ghost before = self@;
            let ghost left = *cycle_count as int;
            let ghost longer = entropies.push(entropy);
            proof {
                before.next_instruction().lemma_latency_bounds();
                assert(longer.drop_last() =~= entropies);
                assert(longer.last() == entropy);
            }
            let progress = self.step(cycle_count, &entropy);
            assert((self@, *cycle_count as int) == start.run(budget, longer));
            match progress {
                Progress::Interrupted(syscall) => {
                    assert(start.runs_to(
                        budget,
                        longer,
                        self@,
                        *cycle_count as int,
                        Some(syscall),
                    ));
                    return Some(syscall);
                },
                _ => {
                    proof {
                        assert forall|k: int| 0 <= k < longer.len() implies {
                            let state = #[trigger] start.run(budget, longer.take(k));
                            !state.0.stalls(state.1) && !state.0.interrupts()
                        } by {
                            if k < entropies.len() {
                                assert(longer.take(k) =~= entropies.take(k));
                            } else {
                                assert(longer.take(k) =~= entropies);
                            }
                        }
                        entropies = longer;
                    }
                },
            }
        }
    }

    /// Runs on random draws until the budget no longer covers the next
    /// instruction, which gives `None`, or until a system call is fetched,
    /// which gives the call that AX asks for.
    pub fn run_until_interrupt(&mut self, cycle_count: &mut usize) -> (result: Option<Syscall>)
        requires
            old(self).wf(),
        ensures
            final(self).wf(),
            *final(cycle_count) <= *old(cycle_count),
            exists|entropies: Seq<Entropy>| #[trigger]
                old(self)@.runs_to(
                    *old(cycle_count) as int,
                    entropies,
                    final(self)@,
                    *final(cycle_count) as int,
                    result,
                ),
    {
        self.run_by_chance(cycle_count, &Chance::Wild)
    }
}

} // verus!
