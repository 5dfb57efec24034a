//! What chance contributes to the machine, as plain values.
//!
//! The engine draws these at random; everything that is done with them is
//! done by functions that are exact on every value they can take.

use crate::chance::{random_between, random_u16, random_u8};
use crate::vm::register::RegisterName;
use vstd::prelude::*;

verus! {

/// The four ways in which the corruption primitive strikes.
#[derive(Clone, Copy, Debug, PartialEq, Eq, Structural)]
pub enum GlitchKind {
    Memory,
    Register,
    Swap,
    Bytecode,
}

impl GlitchKind {
    /// The kind that a roll of a hundred-sided die selects: 40 faces for
    /// memory, 20 for a register, 25 for a swap, 15 for bytecode.
    pub open spec fn of_roll(roll: u8) -> GlitchKind {
        if roll <= 40 {
            GlitchKind::Memory
        } else if roll <= 60 {
            GlitchKind::Register
        } else if roll <= 85 {
            GlitchKind::Swap
        } else {
            GlitchKind::Bytecode
        }
    }

    pub fn from_roll(roll: u8) -> (kind: GlitchKind)
        ensures
            kind == GlitchKind::of_roll(roll),
    {
        if roll <= 40 {
            GlitchKind::Memory
        } else if roll <= 60 {
            GlitchKind::Register
        } else if roll <= 85 {
            GlitchKind::Swap
        } else {
            GlitchKind::Bytecode
        }
    }
}

/// One strike of the corruption primitive, fully drawn.
#[derive(Clone, Copy, Debug, PartialEq, Eq, Structural)]
pub enum Glitch {
    /// One byte is written to memory.
    Memory { addr: u16, byte: u8 },
    /// One word is written to a register, which may ignore it.
    Register { register: RegisterName, value: u16 },
    /// Two registers are observed, the first one first, and what each
    /// yielded is written to the other. The fresh words are for those reads.
    Swap { first: RegisterName, second: RegisterName, fresh_first: u16, fresh_second: u16 },
    /// One byte is written to bytecode.
    Bytecode { addr: u16, byte: u8 },
}

impl Glitch {
    pub open spec fn kind(self) -> GlitchKind {
        match self {
            Glitch::Memory { .. } => GlitchKind::Memory,
            Glitch::Register { .. } => GlitchKind::Register,
            Glitch::Swap { .. } => GlitchKind::Swap,
            Glitch::Bytecode { .. } => GlitchKind::Bytecode,
        }
    }

    fn random_register() -> RegisterName {
        RegisterName::from(random_between(0, 15) as u8)
    }

    /// A strike of the kind that `roll` selects, with everything else about
    /// it drawn at random.
    pub fn draw_for_roll(roll: u8) -> (glitch: Glitch)
        ensures
            glitch.kind() == GlitchKind::of_roll(roll),
    {
        match GlitchKind::from_roll(roll) {
            GlitchKind::Memory => Glitch::Memory { addr: random_u16(), byte: random_u8() },
            GlitchKind::Register => Glitch::Register {
                register: Glitch::random_register(),
                value: random_u16(),
            },
            GlitchKind::Swap => Glitch::Swap {
                first: Glitch::random_register(),
                second: Glitch::random_register(),
                fresh_first: random_u16(),
                fresh_second: random_u16(),
            },
            GlitchKind::Bytecode => Glitch::Bytecode { addr: random_u16(), byte: random_u8() },
        }
    }

    /// A strike drawn at random: the kind by a roll of 1 to 100.
    pub fn draw() -> Glitch {
        let roll = random_between(1, 100) as u8;
        Glitch::draw_for_roll(roll)
    }
}

/// Everything that chance contributes to one instruction.
#[derive(Clone, Copy, Debug)]
pub struct Entropy {
    /// The words for the observing reads of registers that the instruction
    /// makes, in the order in which it makes them.
    pub fresh: [u16; 5],
    /// The strike for an instruction that is fetched while the machine
    /// sleeps and may not be.
    pub rude_awakening: Glitch,
    /// The strike for an instruction that faults.
    pub fault: Glitch,
}

impl Entropy {
    /// The word for the `i`th observing read.
    pub open spec fn word(self, i: int) -> u16 {
        self.fresh@[i]
    }

    /// Everything for one instruction, drawn at random.
    pub fn draw() -> Entropy {
        Entropy {
            fresh: [random_u16(), random_u16(), random_u16(), random_u16(), random_u16()],
            rude_awakening: Glitch::draw(),
            fault: Glitch::draw(),
        }
    }

    /// Entropy in which every word is `word` and both strikes are `glitch`.
    pub fn uniform(word: u16, glitch: Glitch) -> (res: Entropy)
        ensures
            res.fresh@ == Seq::new(5, |i: int| word),
            res.rude_awakening == glitch,
            res.fault == glitch,
    {
        let res = Entropy { fresh: [word, word, word, word, word], rude_awakening: glitch, fault: glitch };
        assert(res.fresh@ =~= Seq::new(5, |i: int| word));
        res
    }
}

/// Where the engine's draws come from.
#[derive(Clone, Copy, Debug)]
pub enum Chance {
    /// Every draw is made at random.
    Wild,
    /// Every draw gives the same answer: every word is `word`, cut to the
    /// range asked for, and every strike is `glitch`. For replays and tests.
    Tame { word: u16, glitch: Glitch },
}

impl Chance {
    /// Whether this source can hand out the given entropy.
    pub open spec fn allows(self, entropy: Entropy) -> bool {
        match self {
            Chance::Wild => true,
            Chance::Tame { word, glitch } => {
                &&& entropy.fresh@ == Seq::new(5, |i: int| word)
                &&& entropy.rude_awakening == glitch
                &&& entropy.fault == glitch
            },
        }
    }

    /// Whether this source can hand out the given strike.
    pub open spec fn allows_glitch(self, glitch: Glitch) -> bool {
        match self {
            Chance::Wild => true,
            Chance::Tame { word, glitch: only } => glitch == only,
        }
    }

    /// The answer of a tame source to a draw between two bounds.
    pub open spec fn cut(word: u16, low: i64, high: i64) -> i64 {
        if word < low {
            low
        } else if word > high {
            high
        } else {
            word as i64
        }
    }

    /// Whether this source can hand out `value` for a draw between bounds.
    pub open spec fn allows_between(self, low: i64, high: i64, value: i64) -> bool {
        match self {
            Chance::Wild => low <= value <= high,
            Chance::Tame { word, glitch } => value == Chance::cut(word, low, high),
        }
    }

    pub fn entropy(&self) -> (entropy: Entropy)
        ensures
            self.allows(entropy),
    {
        match self {
            Chance::Wild => Entropy::draw(),
            Chance::Tame { word, glitch } => Entropy::uniform(*word, *glitch),
        }
    }

    pub fn glitch(&self) -> (glitch: Glitch)
        ensures
            self.allows_glitch(glitch),
    {
        match self {
            Chance::Wild => Glitch::draw(),
            Chance::Tame { word, glitch } => *glitch,
        }
    }

    /// Whether this source can hand out the given byte.
    pub open spec fn allows_byte(self, byte: u8) -> bool {
        match self {
            Chance::Wild => true,
            Chance::Tame { word, glitch } => byte == word % 256,
        }
    }

    pub fn byte(&self) -> (byte: u8)
        ensures
            self.allows_byte(byte),
            self matches Chance::Tame { word, .. } ==> byte == word % 256,
    {
        match self {
            Chance::Wild => random_u8(),
            Chance::Tame { word, glitch } => (*word % 256) as u8,
        }
    }

    pub fn word(&self) -> (value: u16)
        ensures
            self matches Chance::Tame { word, .. } ==> value == word,
    {
        match self {
            Chance::Wild => random_u16(),
            Chance::Tame { word, glitch } => *word,
        }
    }

    /// A draw between two bounds, both included.
    pub fn between(&self, low: i64, high: i64) -> (value: i64)
        requires
            low <= high,
        ensures
            low <= value <= high,
            self.allows_between(low, high, value),
    {
        match self {
            Chance::Wild => random_between(low, high),
            Chance::Tame { word, glitch } => {
                let w = *word as i64;
                if w < low {
                    low
                } else if w > high {
                    high
                } else {
                    w
                }
            },
        }
    }
}

} // verus!
