//! The register file: sixteen 16-bit registers, some with a personality.
//!
//! A register can be read in two ways. An internal read inspects it and changes
//! nothing. An observing read is what a running program does, and it may have an
//! effect: the counter steps, the random register yields a fresh word, the
//! bit-reversing register yields its content mirrored.

use vstd::prelude::*;
use vstd::std_specs::convert::FromSpecImpl;

verus! {

#[derive(Clone, Copy, Debug, PartialEq, Eq, Structural)]
pub enum RegisterName {
    PC,
    FL,
    CT,
    R0,
    R1,
    R2,
    R3,
    R4,
    R5,
    SP,
    TF,
    ZR,
    RR,
    TS,
    RE,
    AX,
}

impl RegisterName {
    /// Position of the register in the file.
    pub open spec fn index(self) -> int {
        match self {
            RegisterName::PC => 0,
            RegisterName::FL => 1,
            RegisterName::CT => 2,
            RegisterName::R0 => 3,
            RegisterName::R1 => 4,
            RegisterName::R2 => 5,
            RegisterName::R3 => 6,
            RegisterName::R4 => 7,
            RegisterName::R5 => 8,
            RegisterName::SP => 9,
            RegisterName::TF => 10,
            RegisterName::ZR => 11,
            RegisterName::RR => 12,
            RegisterName::TS => 13,
            RegisterName::RE => 14,
            RegisterName::AX => 15,
        }
    }

    /// The register at a position; positions count modulo 16.
    pub open spec fn at(position: int) -> RegisterName {
        let i = position % 16;
        if i == 0 {
            RegisterName::PC
        } else if i == 1 {
            RegisterName::FL
        } else if i == 2 {
            RegisterName::CT
        } else if i == 3 {
            RegisterName::R0
        } else if i == 4 {
            RegisterName::R1
        } else if i == 5 {
            RegisterName::R2
        } else if i == 6 {
            RegisterName::R3
        } else if i == 7 {
            RegisterName::R4
        } else if i == 8 {
            RegisterName::R5
        } else if i == 9 {
            RegisterName::SP
        } else if i == 10 {
            RegisterName::TF
        } else if i == 11 {
            RegisterName::ZR
        } else if i == 12 {
            RegisterName::RR
        } else if i == 13 {
            RegisterName::TS
        } else if i == 14 {
            RegisterName::RE
        } else {
            RegisterName::AX
        }
    }

    /// The register that the low nibble of a byte names.
    pub open spec fn low(byte: u8) -> RegisterName {
        RegisterName::at(byte as int % 16)
    }

    /// The register that the high nibble of a byte names.
    pub open spec fn high(byte: u8) -> RegisterName {
        RegisterName::at(byte as int / 16)
    }

    /// Every register is the one at its own index.
    pub proof fn lemma_index_at(self)
        ensures
            RegisterName::at(self.index()) == self,
            0 <= self.index() < 16,
    {
    }

    pub fn slot(self) -> (i: usize)
        ensures
            i == self.index(),
    {
        match self {
            RegisterName::PC => 0,
            RegisterName::FL => 1,
            RegisterName::CT => 2,
            RegisterName::R0 => 3,
            RegisterName::R1 => 4,
            RegisterName::R2 => 5,
            RegisterName::R3 => 6,
            RegisterName::R4 => 7,
            RegisterName::R5 => 8,
            RegisterName::SP => 9,
            RegisterName::TF => 10,
            RegisterName::ZR => 11,
            RegisterName::RR => 12,
            RegisterName::TS => 13,
            RegisterName::RE => 14,
            RegisterName::AX => 15,
        }
    }
}

impl From<u8> for RegisterName {
    fn from(value: u8) -> (name: RegisterName) {
        let i = value % 16;
        if i == 0 {
            RegisterName::PC
        } else if i == 1 {
            RegisterName::FL
        } else if i == 2 {
            RegisterName::CT
        } else if i == 3 {
            RegisterName::R0
        } else if i == 4 {
            RegisterName::R1
        } else if i == 5 {
            RegisterName::R2
        } else if i == 6 {
            RegisterName::R3
        } else if i == 7 {
            RegisterName::R4
        } else if i == 8 {
            RegisterName::R5
        } else if i == 9 {
            RegisterName::SP
        } else if i == 10 {
            RegisterName::TF
        } else if i == 11 {
            RegisterName::ZR
        } else if i == 12 {
            RegisterName::RR
        } else if i == 13 {
            RegisterName::TS
        } else if i == 14 {
            RegisterName::RE
        } else {
            RegisterName::AX
        }
    }
}

impl FromSpecImpl<u8> for RegisterName {
    open spec fn obeys_from_spec() -> bool {
        true
    }

    open spec fn from_spec(value: u8) -> RegisterName {
        RegisterName::at(value as int)
    }
}

/// The 16 bits of `v` in reverse order: bit 0 becomes bit 15, and so on.
pub open spec fn mirrored(v: u16) -> u16 {
    ((v % 2) * 32768 + (v / 2 % 2) * 16384 + (v / 4 % 2) * 8192 + (v / 8 % 2) * 4096 + (v / 16 % 2)
        * 2048 + (v / 32 % 2) * 1024 + (v / 64 % 2) * 512 + (v / 128 % 2) * 256 + (v / 256 % 2)
        * 128 + (v / 512 % 2) * 64 + (v / 1024 % 2) * 32 + (v / 2048 % 2) * 16 + (v / 4096 % 2) * 8
        + (v / 8192 % 2) * 4 + (v / 16384 % 2) * 2 + (v / 32768 % 2)) as u16
}

pub fn mirror(v: u16) -> (r: u16)
    ensures
        r == mirrored(v),
{
    (v % 2) * 32768 + (v / 2 % 2) * 16384 + (v / 4 % 2) * 8192 + (v / 8 % 2) * 4096 + (v / 16 % 2)
        * 2048 + (v / 32 % 2) * 1024 + (v / 64 % 2) * 512 + (v / 128 % 2) * 256 + (v / 256 % 2)
        * 128 + (v / 512 % 2) * 64 + (v / 1024 % 2) * 32 + (v / 2048 % 2) * 16 + (v / 4096 % 2) * 8
        + (v / 8192 % 2) * 4 + (v / 16384 % 2) * 2 + (v / 32768 % 2)
}

/// How one register answers reads and writes.
pub trait Register {
    /// What an internal read yields.
    spec fn inspect(&self) -> u16;

    /// What an observing read yields, where `fresh` is the word that chance
    /// supplies for this read.
    spec fn observe(&self, fresh: u16) -> u16;

    /// What an internal read yields once the register has been observed.
    spec fn after_observe(&self) -> u16;

    /// What an internal read yields once `value` has been written.
    spec fn after_store(&self, value: u16) -> u16;

    fn get_value_internal(&self) -> (value: u16)
        ensures
            value == self.inspect(),
    ;

    fn get_value_mut(&mut self, fresh: u16) -> (value: u16)
        ensures
            value == old(self).observe(fresh),
            final(self).inspect() == old(self).after_observe(),
    ;

    fn set_value(&mut self, value: u16)
        ensures
            final(self).inspect() == old(self).after_store(value),
    ;
}

/// Stores what is written and yields what is stored.
#[derive(Clone, Copy, Debug)]
pub struct GeneralPurposeRegister {
    value: u16,
}

/// Always yields `N`; writes are ignored.
#[derive(Clone, Copy, Debug)]
pub struct ConstRegister<const N: u16> {}

/// Yields a fresh random word on every observing read; writes are ignored and
/// an internal read yields zero.
#[derive(Clone, Copy, Debug)]
pub struct RandomValueRegister {}

/// Yields its value and then steps it by one, wrapping at 2^16.
#[derive(Clone, Copy, Debug)]
pub struct CounterRegister {
    value: u16,
}

/// Stores what is written; an observing read yields it mirrored.
#[derive(Clone, Copy, Debug)]
pub struct BitRevRegister {
    value: u16,
}

impl Default for GeneralPurposeRegister {
    fn default() -> (res: GeneralPurposeRegister)
        ensures
            res.inspect() == 0,
    {
        GeneralPurposeRegister { value: 0 }
    }
}

impl Register for GeneralPurposeRegister {
    closed spec fn inspect(&self) -> u16 {
        self.value
    }

    open spec fn observe(&self, fresh: u16) -> u16 {
        self.inspect()
    }

    open spec fn after_observe(&self) -> u16 {
        self.inspect()
    }

    open spec fn after_store(&self, value: u16) -> u16 {
        value
    }

    fn get_value_internal(&self) -> (value: u16) {
        self.value
    }

    fn get_value_mut(&mut self, _fresh: u16) -> (value: u16) {
        self.value
    }

    fn set_value(&mut self, value: u16) {
        self.value = value;
    }
}

impl<const N: u16> Default for ConstRegister<N> {
    fn default() -> (res: ConstRegister<N>) {
        ConstRegister {  }
    }
}

impl<const N: u16> Register for ConstRegister<N> {
    open spec fn inspect(&self) -> u16 {
        N
    }

    open spec fn observe(&self, fresh: u16) -> u16 {
        N
    }

    open spec fn after_observe(&self) -> u16 {
        N
    }

    open spec fn after_store(&self, value: u16) -> u16 {
        N
    }

    fn get_value_internal(&self) -> (value: u16) {
        N
    }

    fn get_value_mut(&mut self, _fresh: u16) -> (value: u16) {
        N
    }

    fn set_value(&mut self, _value: u16) {
    }
}

impl Default for RandomValueRegister {
    fn default() -> (res: RandomValueRegister) {
        RandomValueRegister {  }
    }
}

impl Register for RandomValueRegister {
    open spec fn inspect(&self) -> u16 {
        0
    }

    open spec fn observe(&self, fresh: u16) -> u16 {
        fresh
    }

    open spec fn after_observe(&self) -> u16 {
        0
    }

    open spec fn after_store(&self, value: u16) -> u16 {
        0
    }

    fn get_value_internal(&self) -> (value: u16) {
        0
    }

    fn get_value_mut(&mut self, fresh: u16) -> (value: u16) {
        fresh
    }

    fn set_value(&mut self, _value: u16) {
    }
}

impl Default for CounterRegister {
    fn default() -> (res: CounterRegister)
        ensures
            res.inspect() == 0,
    {
        CounterRegister { value: 0 }
    }
}

impl Register for CounterRegister {
    closed spec fn inspect(&self) -> u16 {
        self.value
    }

    open spec fn observe(&self, fresh: u16) -> u16 {
        self.inspect()
    }

    open spec fn after_observe(&self) -> u16 {
        self.inspect().wrapping_add(1)
    }

    open spec fn after_store(&self, value: u16) -> u16 {
        value
    }

    fn get_value_internal(&self) -> (value: u16) {
        self.value
    }

    fn get_value_mut(&mut self, _fresh: u16) -> (value: u16) {
        let old = self.value;
        self.value = self.value.wrapping_add(1);
        old
    }

    fn set_value(&mut self, value: u16) {
        self.value = value;
    }
}

impl Default for BitRevRegister {
    fn default() -> (res: BitRevRegister)
        ensures
            res.inspect() == 0,
    {
        BitRevRegister { value: 0 }
    }
}

impl Register for BitRevRegister {
    closed spec fn inspect(&self) -> u16 {
        self.value
    }

    open spec fn observe(&self, fresh: u16) -> u16 {
        mirrored(self.inspect())
    }

    open spec fn after_observe(&self) -> u16 {
        self.inspect()
    }

    open spec fn after_store(&self, value: u16) -> u16 {
        value
    }

    fn get_value_internal(&self) -> (value: u16) {
        self.value
    }

    fn get_value_mut(&mut self, _fresh: u16) -> (value: u16) {
        mirror(self.value)
    }

    fn set_value(&mut self, value: u16) {
        self.value = value;
    }
}

/// A register of any of the kinds.
#[derive(Clone, Copy, Debug)]
pub enum RegisterCell {
    General(GeneralPurposeRegister),
    Leet(ConstRegister<0x1337>),
    Zero(ConstRegister<0>),
    Random(RandomValueRegister),
    Counter(CounterRegister),
    BitRev(BitRevRegister),
}

/// The kinds of register, without their content.
#[derive(Clone, Copy, Debug, PartialEq, Eq, Structural)]
pub enum RegisterKind {
    General,
    Leet,
    Zero,
    Random,
    Counter,
    BitRev,
}

impl RegisterCell {
    pub open spec fn kind(self) -> RegisterKind {
        match self {
            RegisterCell::General(_) => RegisterKind::General,
            RegisterCell::Leet(_) => RegisterKind::Leet,
            RegisterCell::Zero(_) => RegisterKind::Zero,
            RegisterCell::Random(_) => RegisterKind::Random,
            RegisterCell::Counter(_) => RegisterKind::Counter,
            RegisterCell::BitRev(_) => RegisterKind::BitRev,
        }
    }
}

impl Register for RegisterCell {
    open spec fn inspect(&self) -> u16 {
        match *self {
            RegisterCell::General(r) => r.inspect(),
            RegisterCell::Leet(r) => r.inspect(),
            RegisterCell::Zero(r) => r.inspect(),
            RegisterCell::Random(r) => r.inspect(),
            RegisterCell::Counter(r) => r.inspect(),
            RegisterCell::BitRev(r) => r.inspect(),
        }
    }

    open spec fn observe(&self, fresh: u16) -> u16 {
        match *self {
            RegisterCell::General(r) => r.observe(fresh),
            RegisterCell::Leet(r) => r.observe(fresh),
            RegisterCell::Zero(r) => r.observe(fresh),
            RegisterCell::Random(r) => r.observe(fresh),
            RegisterCell::Counter(r) => r.observe(fresh),
            RegisterCell::BitRev(r) => r.observe(fresh),
        }
    }

    open spec fn after_observe(&self) -> u16 {
        match *self {
            RegisterCell::General(r) => r.after_observe(),
            RegisterCell::Leet(r) => r.after_observe(),
            RegisterCell::Zero(r) => r.after_observe(),
            RegisterCell::Random(r) => r.after_observe(),
            RegisterCell::Counter(r) => r.after_observe(),
            RegisterCell::BitRev(r) => r.after_observe(),
        }
    }

    open spec fn after_store(&self, value: u16) -> u16 {
        match *self {
            RegisterCell::General(r) => r.after_store(value),
            RegisterCell::Leet(r) => r.after_store(value),
            RegisterCell::Zero(r) => r.after_store(value),
            RegisterCell::Random(r) => r.after_store(value),
            RegisterCell::Counter(r) => r.after_store(value),
            RegisterCell::BitRev(r) => r.after_store(value),
        }
    }

    fn get_value_internal(&self) -> (value: u16) {
        match self {
            RegisterCell::General(r) => r.get_value_internal(),
            RegisterCell::Leet(r) => r.get_value_internal(),
            RegisterCell::Zero(r) => r.get_value_internal(),
            RegisterCell::Random(r) => r.get_value_internal(),
            RegisterCell::Counter(r) => r.get_value_internal(),
            RegisterCell::BitRev(r) => r.get_value_internal(),
        }
    }

    fn get_value_mut(&mut self, fresh: u16) -> (value: u16)
        ensures
            final(self).kind() == old(self).kind(),
    {
        match self {
            RegisterCell::General(r) => r.get_value_mut(fresh),
            RegisterCell::Leet(r) => r.get_value_mut(fresh),
            RegisterCell::Zero(r) => r.get_value_mut(fresh),
            RegisterCell::Random(r) => r.get_value_mut(fresh),
            RegisterCell::Counter(r) => r.get_value_mut(fresh),
            RegisterCell::BitRev(r) => r.get_value_mut(fresh),
        }
    }

    fn set_value(&mut self, value: u16)
        ensures
            final(self).kind() == old(self).kind(),
    {
        match self {
            RegisterCell::General(r) => r.set_value(value),
            RegisterCell::Leet(r) => r.set_value(value),
            RegisterCell::Zero(r) => r.set_value(value),
            RegisterCell::Random(r) => r.set_value(value),
            RegisterCell::Counter(r) => r.set_value(value),
            RegisterCell::BitRev(r) => r.set_value(value),
        }
    }
}

/// The kind of register that stands at each position of the file.
pub open spec fn kind_at(name: RegisterName) -> RegisterKind {
    match name {
        RegisterName::CT => RegisterKind::Counter,
        RegisterName::TF => RegisterKind::Leet,
        RegisterName::ZR => RegisterKind::Zero,
        RegisterName::RR => RegisterKind::Random,
        RegisterName::RE => RegisterKind::BitRev,
        _ => RegisterKind::General,
    }
}

/// Whether sixteen values can be what internal reads of a register file yield:
/// the constant registers hold their constants and the random register zero.
pub open spec fn valid_file(values: Seq<u16>) -> bool {
    &&& values.len() == 16
    &&& values[10] == 0x1337
    &&& values[11] == 0
    &&& values[12] == 0
}

/// What an observing read of `register` yields in a file with the given
/// values, where `fresh` is the word that chance supplies for this read.
pub open spec fn observed(values: Seq<u16>, register: RegisterName, fresh: u16) -> u16 {
    match register {
        RegisterName::RR => fresh,
        RegisterName::RE => mirrored(values[14]),
        _ => values[register.index()],
    }
}

/// The values of a file after an observing read of `register`.
pub open spec fn after_observing(values: Seq<u16>, register: RegisterName) -> Seq<u16> {
    match register {
        RegisterName::CT => values.update(2, values[2].wrapping_add(1)),
        _ => values,
    }
}

/// The values of a file after `value` is written to `register`.
pub open spec fn after_storing(values: Seq<u16>, register: RegisterName, value: u16) -> Seq<u16> {
    match register {
        RegisterName::TF | RegisterName::ZR | RegisterName::RR => values,
        _ => values.update(register.index(), value),
    }
}

/// The register file.
#[derive(Clone, Copy, Debug)]
pub struct Registers {
    registers: [RegisterCell; 16],
}

impl View for Registers {
    type V = Seq<u16>;

    /// What an internal read of each register yields, by position.
    open spec fn view(&self) -> Seq<u16> {
        Seq::new(16, |i: int| self.cells()[i].inspect())
    }
}

impl Registers {
    /// The sixteen registers, by position.
    pub closed spec fn cells(&self) -> Seq<RegisterCell> {
        self.registers@
    }

    /// Every position holds the kind of register that belongs there.
    pub open spec fn wf(&self) -> bool {
        &&& self.cells().len() == 16
        &&& forall|i: int|
            0 <= i < 16 ==> (#[trigger] self.cells()[i]).kind() == kind_at(RegisterName::at(i))
    }

    /// The register under a name.
    pub open spec fn cell(&self, register: RegisterName) -> RegisterCell {
        self.cells()[register.index()]
    }

    pub fn new() -> (res: Registers)
        ensures
            res.wf(),
            res@ == Seq::new(16, |i: int| if i == 10 { 0x1337u16 } else { 0u16 }),
    {
        let res = Registers {
            registers: [
                RegisterCell::General(GeneralPurposeRegister::default()),
                RegisterCell::General(GeneralPurposeRegister::default()),
                RegisterCell::Counter(CounterRegister::default()),
                RegisterCell::General(GeneralPurposeRegister::default()),
                RegisterCell::General(GeneralPurposeRegister::default()),
                RegisterCell::General(GeneralPurposeRegister::default()),
                RegisterCell::General(GeneralPurposeRegister::default()),
                RegisterCell::General(GeneralPurposeRegister::default()),
                RegisterCell::General(GeneralPurposeRegister::default()),
                RegisterCell::General(GeneralPurposeRegister::default()),
                RegisterCell::Leet(ConstRegister::default()),
                RegisterCell::Zero(ConstRegister::default()),
                RegisterCell::Random(RandomValueRegister::default()),
                RegisterCell::General(GeneralPurposeRegister::default()),
                RegisterCell::BitRev(BitRevRegister::default()),
                RegisterCell::General(GeneralPurposeRegister::default()),
            ],
        };
        assert(res@ =~= Seq::new(16, |i: int| if i == 10 { 0x1337u16 } else { 0u16 }));
        res
    }

    pub fn get(&self, register: RegisterName) -> (cell: &RegisterCell)
        ensures
            *cell == self.cell(register),
    {
        &self.registers[register.slot()]
    }

    pub fn get_mut(&mut self, register: RegisterName) -> (cell: &mut RegisterCell)
        ensures
            *cell == old(self).cell(register),
            final(self).cells() == old(self).cells().update(register.index(), *final(cell)),
    {
        &mut self.registers[register.slot()]
    }

    /// A well-formed file holds valid values.
    pub proof fn lemma_valid(&self)
        requires
            self.wf(),
        ensures
            valid_file(self@),
    {
        assert(self.cells()[10].kind() == kind_at(RegisterName::at(10)));
        assert(self.cells()[11].kind() == kind_at(RegisterName::at(11)));
        assert(self.cells()[12].kind() == kind_at(RegisterName::at(12)));
    }

    /// An internal read: yields the value and changes nothing.
    pub fn inspect(&self, register: RegisterName) -> (value: u16)
        ensures
            value == self@[register.index()],
    {
        self.get(register).get_value_internal()
    }

    /// An observing read, with the word that chance supplies for it.
    pub fn observe(&mut self, register: RegisterName, fresh: u16) -> (value: u16)
        requires
            old(self).wf(),
        ensures
            final(self).wf(),
            value == observed(old(self)@, register, fresh),
            final(self)@ == after_observing(old(self)@, register),
    {
        proof {
            register.lemma_index_at();
        }
        let ghost before = self.cells();
        assert(before[register.index()].kind() == kind_at(register));
        let cell = self.get_mut(register);
        let value = cell.get_value_mut(fresh);
        assert(self.cells() == before.update(register.index(), self.cells()[register.index()]));
        assert(self@ =~= after_observing(old(self)@, register));
        value
    }

    /// A write.
    pub fn store(&mut self, register: RegisterName, value: u16)
        requires
            old(self).wf(),
        ensures
            final(self).wf(),
            final(self)@ == after_storing(old(self)@, register, value),
    {
        proof {
            register.lemma_index_at();
        }
        let ghost before = self.cells();
        assert(before[register.index()].kind() == kind_at(register));
        let cell = self.get_mut(register);
        cell.set_value(value);
        assert(self.cells() == before.update(register.index(), self.cells()[register.index()]));
        assert(self@ =~= after_storing(old(self)@, register, value));
    }
}

} // verus!
