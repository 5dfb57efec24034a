//! The system calls: their numbers and what each one costs.

use crate::game::crypto::{le_bytes_u16, le_bytes_u32, push_le_u16, push_le_u32, Wallet};
use crate::game::map::{chebyshev, chebyshev_distance, Location, MapCell};
use crate::game::crypto::{CryptoChallenge, Nonce};
use crate::game::replay::GameEvent;
use crate::kernel::process::ProcessView;
use crate::kernel::Kernel;
use crate::vm::emulator::Machine;
use crate::vm::entropy::Glitch;
use crate::vm::register::RegisterName;
use vstd::prelude::*;

verus! {

/// The six arguments of a system call: what R0 to R5 hold when it is made.
pub type SyscallArgs = (u16, u16, u16, u16, u16, u16);

#[derive(Clone, Copy, Debug, PartialEq, Eq, Structural)]
pub enum Syscall {
    GetPid,
    GetUidOf,
    Fork,
    Kill,
    GetProcessInfo,
    Detach,
    Renice,
    Move,
    ReadMap,
    ReadMapDetail,
    FetchChallenge,
    SolveChallenge,
    Attack1,
    Attack2,
    UpdateCode,
    ShareMemory,
    /// Every number that names no other call.
    Reserved,
}

/// The number of cells in the rectangle of the map between two corners,
/// each axis going from the first corner up to the second and wrapping.
pub open spec fn rectangle_cells(x1: u16, y1: u16, x2: u16, y2: u16) -> int {
    (((x2 % 256) - (x1 % 256)) % 256 + 1) * (((y2 % 256) - (y1 % 256)) % 256 + 1)
}

/// The number of cells along one axis of a rectangle on the map: from the
/// low byte of `from` up to the low byte of `to`, wrapping, both counted.
pub open spec fn span_of(from: u16, to: u16) -> nat {
    (((to % 256) - (from % 256)) % 256 + 1) as nat
}

/// `a / b`, rounded up.
pub open spec fn div_ceil(a: int, b: int) -> int
    recommends
        a >= 0,
        b > 0,
{
    (a + b - 1) / b
}

impl Syscall {
    /// The number under which the call is made.
    pub open spec fn number(self) -> u8 {
        match self {
            Syscall::GetPid => 0x00,
            Syscall::GetUidOf => 0x01,
            Syscall::Fork => 0x02,
            Syscall::Kill => 0x03,
            Syscall::GetProcessInfo => 0x04,
            Syscall::Detach => 0x05,
            Syscall::Renice => 0x06,
            Syscall::Move => 0x10,
            Syscall::ReadMap => 0x11,
            Syscall::ReadMapDetail => 0x12,
            Syscall::FetchChallenge => 0x13,
            Syscall::SolveChallenge => 0x14,
            Syscall::Attack1 => 0x20,
            Syscall::Attack2 => 0x21,
            Syscall::UpdateCode => 0x30,
            Syscall::ShareMemory => 0x31,
            Syscall::Reserved => 0xff,
        }
    }

    /// The call that is made under a number.
    pub open spec fn numbered(number: u8) -> Syscall {
        match number {
            0x00 => Syscall::GetPid,
            0x01 => Syscall::GetUidOf,
            0x02 => Syscall::Fork,
            0x03 => Syscall::Kill,
            0x04 => Syscall::GetProcessInfo,
            0x05 => Syscall::Detach,
            0x06 => Syscall::Renice,
            0x10 => Syscall::Move,
            0x11 => Syscall::ReadMap,
            0x12 => Syscall::ReadMapDetail,
            0x13 => Syscall::FetchChallenge,
            0x14 => Syscall::SolveChallenge,
            0x20 => Syscall::Attack1,
            0x21 => Syscall::Attack2,
            0x30 => Syscall::UpdateCode,
            0x31 => Syscall::ShareMemory,
            _ => Syscall::Reserved,
        }
    }

    /// Every call is the one made under its own number: no two calls share
    /// a number.
    pub proof fn lemma_numbered(self)
        ensures
            Syscall::numbered(self.number()) == self,
    {
    }

    /// What the call costs, as the balances of a wallet.
    pub open spec fn cost(self, args: SyscallArgs) -> Seq<i64> {
        match self {
            Syscall::GetPid | Syscall::GetUidOf => Wallet::holding(0, 0, 0, 0, 0, 0),
            Syscall::Fork => Wallet::holding(0, 0, 4, 0, 0, 0),
            Syscall::Kill => Wallet::holding(0, 0, 2, 0, 0, 0),
            Syscall::GetProcessInfo => Wallet::holding(0, -1i64, 0, 0, 0, 0),
            Syscall::Detach => Wallet::holding(0, 0, 1, 0, 0, 0),
            Syscall::Renice => Wallet::holding(0, 0, 10, 0, 0, 0),
            Syscall::Move => Wallet::holding(1, -1i64, 0, 0, 0, 0),
            Syscall::ReadMap => Wallet::holding(
                div_ceil(rectangle_cells(args.1, args.2, args.3, args.4), 256) as i64,
                0,
                0,
                0,
                0,
                0,
            ),
            Syscall::ReadMapDetail => Wallet::holding(
                div_ceil(rectangle_cells(args.1, args.2, args.3, args.4), 64) as i64,
                0,
                0,
                0,
                0,
                0,
            ),
            Syscall::FetchChallenge => Wallet::holding(0, -1i64, 0, 0, 0, 0),
            Syscall::SolveChallenge => Wallet::holding(1, 0, 0, 0, 0, 0),
            Syscall::Attack1 => Wallet::holding(8, 0, 0, 0, 0, 0),
            Syscall::Attack2 => Wallet::holding(16, 0, 0, 0, 0, 0),
            Syscall::UpdateCode => Wallet::holding(0, 0, div_ceil(args.2 + 1, 1024) as i64, 0, 0, 0),
            Syscall::ShareMemory => Wallet::holding(
                0,
                0,
                div_ceil(args.3 + 1, 1024) as i64,
                0,
                0,
                0,
            ),
            Syscall::Reserved => Wallet::holding(0, -10i64, 0, 0, 0, 0),
        }
    }

    pub fn get_number(&self) -> (number: u8)
        ensures
            number == self.number(),
    {
        match self {
            Syscall::GetPid => 0x00,
            Syscall::GetUidOf => 0x01,
            Syscall::Fork => 0x02,
            Syscall::Kill => 0x03,
            Syscall::GetProcessInfo => 0x04,
            Syscall::Detach => 0x05,
            Syscall::Renice => 0x06,
            Syscall::Move => 0x10,
            Syscall::ReadMap => 0x11,
            Syscall::ReadMapDetail => 0x12,
            Syscall::FetchChallenge => 0x13,
            Syscall::SolveChallenge => 0x14,
            Syscall::Attack1 => 0x20,
            Syscall::Attack2 => 0x21,
            Syscall::UpdateCode => 0x30,
            Syscall::ShareMemory => 0x31,
            Syscall::Reserved => 0xff,
        }
    }

    pub fn compute_cost(&self, args: SyscallArgs) -> (cost: Wallet)
        ensures
            cost@ == self.cost(args),
    {
        match self {
            Syscall::GetPid | Syscall::GetUidOf => Wallet::new(0, 0, 0, 0, 0, 0),
            Syscall::Fork => Wallet::new(0, 0, 4, 0, 0, 0),
            Syscall::Kill => Wallet::new(0, 0, 2, 0, 0, 0),
            Syscall::GetProcessInfo => Wallet::new(0, -1, 0, 0, 0, 0),
            Syscall::Detach => Wallet::new(0, 0, 1, 0, 0, 0),
            Syscall::Renice => Wallet::new(0, 0, 10, 0, 0, 0),
            Syscall::Move => Wallet::new(1, -1, 0, 0, 0, 0),
            Syscall::ReadMap => Wallet::new(
                (count_cells(args.1, args.2, args.3, args.4) + 255) / 256,
                0,
                0,
                0,
                0,
                0,
            ),
            Syscall::ReadMapDetail => Wallet::new(
                (count_cells(args.1, args.2, args.3, args.4) + 63) / 64,
                0,
                0,
                0,
                0,
                0,
            ),
            Syscall::FetchChallenge => Wallet::new(0, -1, 0, 0, 0, 0),
            Syscall::SolveChallenge => Wallet::new(1, 0, 0, 0, 0, 0),
            Syscall::Attack1 => Wallet::new(8, 0, 0, 0, 0, 0),
            Syscall::Attack2 => Wallet::new(16, 0, 0, 0, 0, 0),
            Syscall::UpdateCode => Wallet::new(0, 0, (args.2 as i64 + 1024) / 1024, 0, 0, 0),
            Syscall::ShareMemory => Wallet::new(0, 0, (args.3 as i64 + 1024) / 1024, 0, 0, 0),
            Syscall::Reserved => Wallet::new(0, -10, 0, 0, 0, 0),
        }
    }
}

/// The span of one axis of a rectangle on the map: from the low byte of
/// `from` up to the low byte of `to`, wrapping, both ends counted.
pub fn span(from: u16, to: u16) -> (n: i64)
    ensures
        n == ((to % 256) - (from % 256)) % 256 + 1,
        1 <= n <= 256,
{
    let a = (from % 256) as i64;
    let b = (to % 256) as i64;
    if b >= a {
        b - a + 1
    } else {
        b + 256 - a + 1
    }
}

pub fn count_cells(x1: u16, y1: u16, x2: u16, y2: u16) -> (n: i64)
    ensures
        n == rectangle_cells(x1, y1, x2, y2),
        1 <= n <= 65536,
{
    let dx = span(x1, x2);
    let dy = span(y1, y2);
    assert(1 <= dx * dy <= 65536) by (nonlinear_arith)
        requires
            1 <= dx <= 256,
            1 <= dy <= 256,
    ;
    dx * dy
}

/// The table of system calls, by number.
#[derive(Clone, Copy, Debug)]
pub struct SyscallTable {}

impl SyscallTable {
    pub fn new() -> SyscallTable {
        SyscallTable {  }
    }

    pub fn get_syscall(&self, number: u8) -> (syscall: Syscall)
        ensures
            syscall == Syscall::numbered(number),
    {
        match number {
            0x00 => Syscall::GetPid,
            0x01 => Syscall::GetUidOf,
            0x02 => Syscall::Fork,
            0x03 => Syscall::Kill,
            0x04 => Syscall::GetProcessInfo,
            0x05 => Syscall::Detach,
            0x06 => Syscall::Renice,
            0x10 => Syscall::Move,
            0x11 => Syscall::ReadMap,
            0x12 => Syscall::ReadMapDetail,
            0x13 => Syscall::FetchChallenge,
            0x14 => Syscall::SolveChallenge,
            0x20 => Syscall::Attack1,
            0x21 => Syscall::Attack2,
            0x30 => Syscall::UpdateCode,
            0x31 => Syscall::ShareMemory,
            _ => Syscall::Reserved,
        }
    }
}

/// What a process is told about another: where it stands, how long
/// it has to live, how nice it is, and who its parent is, 0 standing for
/// none.
pub open spec fn process_record(location: Location, process: ProcessView) -> Seq<u8> {
    seq![location.0, location.1] + le_bytes_u32(process.lifetime) + le_bytes_u16(process.nice)
        + le_bytes_u16(
        match process.ppid {
            Some(parent) => parent,
            None => 0,
        },
    )
}

/// The low byte of a word.
pub open spec fn low8(word: u16) -> u8 {
    (word % 256) as u8
}

impl Kernel {
    /// The machine of a process.
    pub open spec fn machine(&self, pid: u16) -> Machine {
        self.processes()[pid].emulator
    }

    /// A process as it is, but for its machine.
    pub open spec fn with_machine(&self, pid: u16, machine: Machine) -> ProcessView {
        ProcessView { emulator: machine, ..self.processes()[pid] }
    }

    /// Writes what a system call gave into AX of the process that made it.
    pub fn set_syscall_result(&mut self, pid: u16, value: u16)
        requires
            old(self).wf(),
            old(self).processes().contains_key(pid),
        ensures
            final(self).wf(),
            final(self).touched_from(
                old(self),
                pid,
                old(self).with_machine(pid, old(self).machine(pid).with_reg(RegisterName::AX, value)),
                Seq::empty(),
            ),
            final(self).processes()[pid].emulator.reg(RegisterName::AX) == value,
    {
        let ghost before = *self;
        let mut process = self.checkout(pid);
        proof {
            process.emulator.lemma_wf();
        }
        process.emulator.set_syscall_return_value(value);
        self.checkin(Ghost(&before), process);
    }

    /// Writes bytes into the memory of a process.
    pub fn write_process_memory(&mut self, pid: u16, addr: u16, data: &[u8])
        requires
            old(self).wf(),
            old(self).processes().contains_key(pid),
        ensures
            final(self).wf(),
            final(self).touched_from(
                old(self),
                pid,
                old(self).with_machine(pid, old(self).machine(pid).with_memory(addr, data@)),
                Seq::empty(),
            ),
    {
        let ghost before = *self;
        let mut process = self.checkout(pid);
        process.emulator.write_bytes_to_mem(addr, data);
        self.checkin(Ghost(&before), process);
    }

    /// Whether a process may be told about another: the other exists and
    /// has the same owner.
    pub open spec fn may_inspect(&self, pid: u16, target_pid: u16) -> bool {
        self.processes().contains_key(target_pid) && self.processes()[pid].uid
            == self.processes()[target_pid].uid
    }

    /// Tells a process about another of the same owner, in ten bytes of
    /// its memory.
    pub fn get_process_info(&mut self, pid: u16, target_pid: u16, addr: u16) -> (res: Option<u16>)
        requires
            old(self).wf(),
            old(self).processes().contains_key(pid),
        ensures
            final(self).wf(),
            res == if old(self).may_inspect(pid, target_pid) {
                Some(1u16)
            } else {
                None
            },
            res is None ==> final(self).same_as(old(self)),
            res is Some ==> final(self).touched_from(
                old(self),
                pid,
                old(self).with_machine(
                    pid,
                    old(self).machine(pid).with_memory(
                        addr,
                        process_record(
                            old(self).map().locations()[target_pid],
                            old(self).processes()[target_pid],
                        ),
                    ),
                ),
                Seq::empty(),
            ),
    {
        if !self.has_process(target_pid) || self.get_process_owner(pid) != self.get_process_owner(
            target_pid,
        ) {
            return None;
        }
        let (x, y) = self.get_process_location(target_pid);
        let process = self.get_process(target_pid);
        let ppid = match process.ppid {
            Some(parent) => parent,
            None => 0,
        };
        let mut data: Vec<u8> = Vec::new();
        data.push(x);
        data.push(y);
        push_le_u32(&mut data, process.lifetime);
        push_le_u16(&mut data, process.nice);
        push_le_u16(&mut data, ppid);
        assert(data@ =~= process_record(
            old(self).map().locations()[target_pid],
            old(self).processes()[target_pid],
        ));
        self.write_process_memory(pid, addr, data.as_slice());
        Some(1)
    }

    /// Makes a process nicer by one, which is logged.
    pub fn renice(&mut self, pid: u16) -> (res: Option<u16>)
        requires
            old(self).wf(),
            old(self).processes().contains_key(pid),
        ensures
            final(self).wf(),
            res == Some(1u16),
            final(self).touched_from(
                old(self),
                pid,
                ProcessView {
                    nice: if old(self).processes()[pid].nice == u16::MAX {
                        u16::MAX
                    } else {
                        (old(self).processes()[pid].nice + 1) as u16
                    },
                    ..old(self).processes()[pid]
                },
                seq![
                    GameEvent::Renice {
                        pid,
                        new_nice: if old(self).processes()[pid].nice == u16::MAX {
                            u16::MAX
                        } else {
                            (old(self).processes()[pid].nice + 1) as u16
                        },
                    },
                ],
            ),
    {
        let ghost before = *self;
        let mut process = self.checkout(pid);
        let mut log: Vec<GameEvent> = Vec::new();
        process.renice(&mut log);
        self.checkin(Ghost(&before), process);
        let ghost middle = *self;
        let event = log.pop().unwrap();
        self.log(event);
        assert(self.events() =~= before.events() + seq![event]);
        Some(1)
    }

    /// A kill: the target dies with all its descendants if it is the
    /// caller or one of its descendants and is not a first process.
    pub open spec fn may_kill(&self, pid: u16, target_pid: u16) -> bool {
        &&& self.processes().contains_key(target_pid)
        &&& self.descends(target_pid, pid)
        &&& !self.processes()[target_pid].is_init()
    }

    pub fn kill(&mut self, pid: u16, target_pid: u16) -> (res: Option<u16>)
        requires
            old(self).wf(),
            old(self).processes().contains_key(pid),
        ensures
            final(self).wf(),
            res == if old(self).may_kill(pid, target_pid) {
                Some(1u16)
            } else {
                None
            },
            res is None ==> final(self).same_as(old(self)),
            res is Some ==> final(self).culled_from(old(self), target_pid),
    {
        if !self.has_process(target_pid) || !self.is_self_or_descendent_process(pid, target_pid)
            || self.get_process(target_pid).is_init() {
            return None;
        }
        self.kill_process_recursive(target_pid);
        Some(1)
    }

    /// A step: a process that is not a first process moves to a cell next
    /// to its own that can take it.
    pub fn step_to(&mut self, pid: u16, x: u16, y: u16) -> (res: Option<u16>)
        requires
            old(self).wf(),
            old(self).processes().contains_key(pid),
        ensures
            final(self).wf(),
            res == if !old(self).processes()[pid].is_init() && chebyshev(
                old(self).map().locations()[pid],
                (low8(x), low8(y)),
            ) == 1 && old(self).map().can_host((low8(x), low8(y))) {
                Some(1u16)
            } else {
                None
            },
            res is None ==> final(self).same_as(old(self)),
            res is Some ==> {
                &&& final(self).remapped_from(
                    old(self),
                    seq![GameEvent::Move { pid, location: (low8(x), low8(y)) }],
                )
                &&& final(self).map().locations() == old(self).map().locations().insert(
                    pid,
                    (low8(x), low8(y)),
                )
            },
    {
        if self.get_process(pid).is_init() {
            return None;
        }
        let location = ((x % 256) as u8, (y % 256) as u8);
        if self.move_process_to(pid, location) {
            Some(1)
        } else {
            None
        }
    }

    /// Whether an attack from where `pid` stands hits somebody: the cell
    /// aimed at is within `reach` and a process stands on it.
    pub open spec fn in_reach(&self, pid: u16, target: Location, reach: int) -> bool {
        &&& chebyshev(self.map().locations()[pid], target) <= reach
        &&& self.map().cell(target).occupant() is Some
    }

    fn find_victim(&self, pid: u16, target: Location, reach: u8) -> (victim: Option<u16>)
        requires
            self.wf(),
            self.processes().contains_key(pid),
        ensures
            victim == if self.in_reach(pid, target, reach as int) {
                self.map().cell(target).occupant()
            } else {
                None
            },
            victim matches Some(other) ==> self.processes().contains_key(other),
    {
        let attacker_location = self.get_process_location(pid);
        if chebyshev_distance(attacker_location, target) > reach {
            return None;
        }
        proof {
            self.lemma_occupant_lives(target);
        }
        self.get_map_cell(target).get_process()
    }

    /// The light attack: whoever stands on the cell aimed at, within four
    /// steps, has one tick less to live.
    pub fn attack1(&mut self, pid: u16, x: u16, y: u16) -> (res: Option<u16>)
        requires
            old(self).wf(),
            old(self).processes().contains_key(pid),
        ensures
            final(self).wf(),
            res == if old(self).in_reach(pid, (low8(x), low8(y)), 4) {
                Some(1u16)
            } else {
                None
            },
            res is None ==> final(self).same_as(old(self)),
            res is Some ==> {
                let victim = old(self).map().cell((low8(x), low8(y))).occupant().unwrap();
                final(self).touched_from(
                    old(self),
                    victim,
                    ProcessView {
                        lifetime: if old(self).processes()[victim].lifetime == 0 {
                            0
                        } else {
                            (old(self).processes()[victim].lifetime - 1) as u32
                        },
                        ..old(self).processes()[victim]
                    },
                    seq![GameEvent::Attack { attacker_pid: pid, defender_pid: victim }],
                )
            },
    {
        let target = ((x % 256) as u8, (y % 256) as u8);
        let victim = match self.find_victim(pid, target, 4) {
            None => {
                return None;
            },
            Some(victim) => victim,
        };
        let ghost before = *self;
        let mut process = self.checkout(victim);
        process.lifetime = process.lifetime.saturating_sub(1);
        self.checkin(Ghost(&before), process);
        let event = GameEvent::Attack { attacker_pid: pid, defender_pid: victim };
        self.log(event);
        assert(self.events() =~= before.events() + seq![event]);
        Some(1)
    }

    /// The heavy attack: whoever stands on the cell aimed at, within two
    /// steps, is struck by the corruption primitive.
    pub fn attack2(&mut self, pid: u16, x: u16, y: u16) -> (res: Option<u16>)
        requires
            old(self).wf(),
            old(self).processes().contains_key(pid),
        ensures
            final(self).wf(),
            res == if old(self).in_reach(pid, (low8(x), low8(y)), 2) {
                Some(1u16)
            } else {
                None
            },
            res is None ==> final(self).same_as(old(self)),
            res is Some ==> {
                let victim = old(self).map().cell((low8(x), low8(y))).occupant().unwrap();
                exists|glitch: Glitch|
                    {
                        &&& old(self).chance().allows_glitch(glitch)
                        &&& #[trigger] final(self).touched_from(
                            old(self),
                            victim,
                            old(self).with_machine(
                                victim,
                                old(self).machine(victim).corrupted(glitch),
                            ),
                            seq![GameEvent::Attack { attacker_pid: pid, defender_pid: victim }],
                        )
                    }
            },
    {
        let target = ((x % 256) as u8, (y % 256) as u8);
        let victim = match self.find_victim(pid, target, 2) {
            None => {
                return None;
            },
            Some(victim) => victim,
        };
        let glitch = self.draw_glitch();
        self.strike(victim, glitch);
        let ghost struck = *self;
        let event = GameEvent::Attack { attacker_pid: pid, defender_pid: victim };
        self.log(event);
        proof {
            assert(self.events() =~= old(self).events() + seq![event]);
            assert(self.touched_from(
                old(self),
                victim,
                old(self).with_machine(victim, old(self).machine(victim).corrupted(glitch)),
                seq![event],
            ));
        }
        Some(1)
    }

    /// A strike of the corruption primitive on the machine of a process.
    pub fn strike(&mut self, pid: u16, glitch: Glitch)
        requires
            old(self).wf(),
            old(self).processes().contains_key(pid),
        ensures
            final(self).wf(),
            final(self).touched_from(
                old(self),
                pid,
                old(self).with_machine(pid, old(self).machine(pid).corrupted(glitch)),
                Seq::empty(),
            ),
    {
        let ghost before = *self;
        let mut process = self.checkout(pid);
        process.emulator.suffer(glitch);
        self.checkin(Ghost(&before), process);
    }

    /// The call under a number that names no call: the caller is struck by
    /// the corruption primitive, and nothing is given.
    pub fn reserved(&mut self, pid: u16) -> (res: Option<u16>)
        requires
            old(self).wf(),
            old(self).processes().contains_key(pid),
        ensures
            final(self).wf(),
            res is None,
            exists|glitch: Glitch|
                {
                    &&& old(self).chance().allows_glitch(glitch)
                    &&& #[trigger] final(self).touched_from(
                        old(self),
                        pid,
                        old(self).with_machine(pid, old(self).machine(pid).corrupted(glitch)),
                        Seq::empty(),
                    )
                },
    {
        let glitch = self.draw_glitch();
        self.strike(pid, glitch);
        None
    }

    /// Copies `n + 1` bytes from the memory of a process to its bytecode.
    pub fn update_code(&mut self, pid: u16, mem_addr: u16, code_addr: u16, n: u16) -> (res: Option<
        u16,
    >)
        requires
            old(self).wf(),
            old(self).processes().contains_key(pid),
        ensures
            final(self).wf(),
            res == Some(1u16),
            final(self).touched_from(
                old(self),
                pid,
                old(self).with_machine(
                    pid,
                    old(self).machine(pid).with_code(
                        code_addr,
                        old(self).machine(pid).memory_at(mem_addr, (n + 1) as nat),
                    ),
                ),
                Seq::empty(),
            ),
    {
        let ghost before = *self;
        let mut process = self.checkout(pid);
        let count = n as usize + 1;
        let code = process.emulator.peek_bytes_from_mem(mem_addr, count);
        process.emulator.write_bytes_to_code(code_addr, code.as_slice());
        self.checkin(Ghost(&before), process);
        Some(1)
    }

    /// Whether a process may write into the memory of another: the other
    /// is one of its descendants, and not itself.
    pub open spec fn may_share(&self, pid: u16, target_pid: u16) -> bool {
        &&& pid != target_pid
        &&& self.processes().contains_key(target_pid)
        &&& self.descends(target_pid, pid)
    }

    /// Copies `n + 1` bytes from the memory of a process to the memory of
    /// one of its descendants.
    pub fn share_memory(
        &mut self,
        pid: u16,
        target_pid: u16,
        dst_addr: u16,
        src_addr: u16,
        n: u16,
    ) -> (res: Option<u16>)
        requires
            old(self).wf(),
            old(self).processes().contains_key(pid),
        ensures
            final(self).wf(),
            res == if old(self).may_share(pid, target_pid) {
                Some(1u16)
            } else {
                None
            },
            res is None ==> final(self).same_as(old(self)),
            res is Some ==> final(self).touched_from(
                old(self),
                target_pid,
                old(self).with_machine(
                    target_pid,
                    old(self).machine(target_pid).with_memory(
                        dst_addr,
                        old(self).machine(pid).memory_at(src_addr, (n + 1) as nat),
                    ),
                ),
                Seq::empty(),
            ),
    {
        if pid == target_pid || !self.has_process(target_pid)
            || !self.is_self_or_descendent_process(pid, target_pid) {
            return None;
        }
        let count = n as usize + 1;
        let bytes = self.get_process(pid).emulator.peek_bytes_from_mem(src_addr, count);
        self.write_process_memory(target_pid, dst_addr, bytes.as_slice());
        Some(1)
    }

    /// Reads the statuses of the rectangle of the map between two corners
    /// into the memory of a process, and gives their number as a word.
    pub fn read_map(&mut self, pid: u16, addr: u16, x1: u16, y1: u16, x2: u16, y2: u16) -> (res:
        Option<u16>)
        requires
            old(self).wf(),
            old(self).processes().contains_key(pid),
        ensures
            final(self).wf(),
            res == Some((rectangle_cells(x1, y1, x2, y2) % 65536) as u16),
            final(self).touched_from(
                old(self),
                pid,
                old(self).with_machine(
                    pid,
                    old(self).machine(pid).with_memory(
                        addr,
                        old(self).map().status_block(
                            low8(x1),
                            low8(y1),
                            span_of(x1, x2),
                            span_of(y1, y2),
                        ),
                    ),
                ),
                Seq::empty(),
            ),
    {
        let dx = (span(x1, x2) - 1) as u8;
        let dy = (span(y1, y2) - 1) as u8;
        let data = self.read_statuses((x1 % 256) as u8, (y1 % 256) as u8, dx, dy);
        self.write_process_memory(pid, addr, data.as_slice());
        Some((data.len() % 65536) as u16)
    }

    /// Who looks out for a process: a first process sees nothing.
    pub open spec fn viewer(&self, pid: u16) -> Option<Location> {
        if self.processes()[pid].is_init() {
            None
        } else {
            Some(self.map().locations()[pid])
        }
    }

    /// Reads the details of the rectangle of the map between two corners
    /// into the memory of a process, as the process sees them, and gives
    /// the number of bytes. A rectangle whose details do not fit a word's
    /// worth of bytes is refused.
    pub fn read_map_detail(&mut self, pid: u16, addr: u16, x1: u16, y1: u16, x2: u16, y2: u16) -> (res:
        Option<u16>)
        requires
            old(self).wf(),
            old(self).processes().contains_key(pid),
        ensures
            final(self).wf(),
            res == if rectangle_cells(x1, y1, x2, y2) * 3 > 65535 {
                None
            } else {
                Some((rectangle_cells(x1, y1, x2, y2) * 3) as u16)
            },
            res is None ==> final(self).same_as(old(self)),
            res is Some ==> exists|data: Seq<u8>|
                {
                    &&& data.len() == 3 * rectangle_cells(x1, y1, x2, y2)
                    &&& data == old(self).map().detail_block(
                        old(self).viewer(pid),
                        low8(x1),
                        low8(y1),
                        span_of(x1, x2),
                        span_of(y1, y2),
                        data,
                    )
                    &&& #[trigger] final(self).touched_from(
                        old(self),
                        pid,
                        old(self).with_machine(
                            pid,
                            old(self).machine(pid).with_memory(addr, data),
                        ),
                        Seq::empty(),
                    )
                },
    {
        let cells = count_cells(x1, y1, x2, y2);
        if cells * 3 > 65535 {
            return None;
        }
        let dx = (span(x1, x2) - 1) as u8;
        let dy = (span(y1, y2) - 1) as u8;
        let viewer = if self.get_process(pid).is_init() {
            None
        } else {
            Some(self.get_process_location(pid))
        };
        let data = self.read_details(viewer, (x1 % 256) as u8, (y1 % 256) as u8, dx, dy);
        self.write_process_memory(pid, addr, data.as_slice());
        assert(self.touched_from(
            old(self),
            pid,
            old(self).with_machine(pid, old(self).machine(pid).with_memory(addr, data@)),
            Seq::empty(),
        ));
        Some(data.len() as u16)
    }

    /// Writes what the challenge under a process gives a challenger to work
    /// on into the memory of the process, if there is a challenge and its
    /// record is at most `max_len` bytes long, and gives the length.
    pub fn fetch_challenge(&mut self, pid: u16, addr: u16, max_len: u16) -> (res: Option<u16>)
        requires
            old(self).wf(),
            old(self).processes().contains_key(pid),
        ensures
            final(self).wf(),
            match old(self).map().cell(old(self).map().locations()[pid]).challenge() {
                Some(challenge) if MapCell::challenge_record(challenge).len() <= max_len => {
                    &&& res == Some(MapCell::challenge_record(challenge).len() as u16)
                    &&& final(self).touched_from(
                        old(self),
                        pid,
                        old(self).with_machine(
                            pid,
                            old(self).machine(pid).with_memory(
                                addr,
                                MapCell::challenge_record(challenge),
                            ),
                        ),
                        Seq::empty(),
                    )
                },
                _ => res is None && final(self).same_as(old(self)),
            },
    {
        let data = match self.fetch_challenge_data(pid) {
            None => {
                return None;
            },
            Some(data) => data,
        };
        if data.len() > max_len as usize {
            return None;
        }
        self.write_process_memory(pid, addr, data.as_slice());
        Some(data.len() as u16)
    }
}

impl Kernel {
    /// Whether this kernel has come from `before` by the process `pid`
    /// making a system call with the given arguments, which gave `res`.
    pub open spec fn effected_from(
        &self,
        before: &Kernel,
        syscall: Syscall,
        pid: u16,
        args: SyscallArgs,
        res: Option<u16>,
    ) -> bool {
        let near = (low8(args.0), low8(args.1));
        match syscall {
            Syscall::GetPid => res == Some(pid) && self.same_as(before),
            Syscall::GetUidOf => self.same_as(before) && res == if before.processes().contains_key(
                args.0,
            ) {
                Some(before.processes()[args.0].uid)
            } else {
                None
            },
            Syscall::Fork => {
                &&& !before.can_fork(pid) ==> res is None
                &&& res is None ==> self.same_as(before)
                &&& before.can_fork(pid) ==> exists|offsets: Seq<(i8, i8)>, hit: Option<Location>|
                    {
                        &&& #[trigger] before.map().searched(
                            before.map().locations()[pid],
                            5,
                            2,
                            before.chance(),
                            offsets,
                            hit,
                        )
                        &&& match hit {
                            None => res is None,
                            Some(location) => match res {
                                Some(child) => self.forked_from(before, pid, child, location),
                                None => forall|q: u16|
                                    1 <= q <= 65534 ==> #[trigger] before.processes().contains_key(
                                        q,
                                    ),
                            },
                        }
                    }
                &&& res matches Some(child) ==> {
                    &&& before.can_fork(pid)
                    &&& 1 <= child <= 65534
                    &&& !before.processes().contains_key(child)
                    &&& exists|location: Location|
                        {
                            &&& before.map().cell(location).empty()
                            &&& crate::game::map::GameMap::near(
                                before.map().locations()[pid],
                                location,
                                2,
                            )
                            &&& #[trigger] self.forked_from(before, pid, child, location)
                        }
                }
            },
            Syscall::Kill => {
                &&& res == if before.may_kill(pid, args.0) {
                    Some(1u16)
                } else {
                    None
                }
                &&& res is None ==> self.same_as(before)
                &&& res is Some ==> self.culled_from(before, args.0)
            },
            Syscall::GetProcessInfo => {
                &&& res == if before.may_inspect(pid, args.0) {
                    Some(1u16)
                } else {
                    None
                }
                &&& res is None ==> self.same_as(before)
                &&& res is Some ==> self.touched_from(
                    before,
                    pid,
                    before.with_machine(
                        pid,
                        before.machine(pid).with_memory(
                            args.1,
                            process_record(
                                before.map().locations()[args.0],
                                before.processes()[args.0],
                            ),
                        ),
                    ),
                    Seq::empty(),
                )
            },
            Syscall::Detach => {
                &&& res == if before.can_detach(pid) {
                    Some(1u16)
                } else {
                    None
                }
                &&& res is None ==> self.same_as(before)
                &&& res is Some ==> {
                    &&& self.processes() == crate::kernel::detached(
                        before.processes(),
                        pid,
                        before.users()[before.processes()[pid].uid].initd_pid.unwrap(),
                    )
                    &&& self.users() == before.users()
                    &&& self.map() == before.map()
                    &&& self.events() == before.events().push(GameEvent::Detach { pid })
                }
            },
            Syscall::Renice => {
                let nice = if before.processes()[pid].nice == u16::MAX {
                    u16::MAX
                } else {
                    (before.processes()[pid].nice + 1) as u16
                };
                &&& res == Some(1u16)
                &&& self.touched_from(
                    before,
                    pid,
                    ProcessView { nice, ..before.processes()[pid] },
                    seq![GameEvent::Renice { pid, new_nice: nice }],
                )
            },
            Syscall::Move => {
                &&& res == if !before.processes()[pid].is_init() && chebyshev(
                    before.map().locations()[pid],
                    near,
                ) == 1 && before.map().can_host(near) {
                    Some(1u16)
                } else {
                    None
                }
                &&& res is None ==> self.same_as(before)
                &&& res is Some ==> {
                    &&& self.remapped_from(before, seq![GameEvent::Move { pid, location: near }])
                    &&& self.map().locations() == before.map().locations().insert(pid, near)
                }
            },
            Syscall::ReadMap => {
                &&& res == Some((rectangle_cells(args.1, args.2, args.3, args.4) % 65536) as u16)
                &&& self.touched_from(
                    before,
                    pid,
                    before.with_machine(
                        pid,
                        before.machine(pid).with_memory(
                            args.0,
                            before.map().status_block(
                                low8(args.1),
                                low8(args.2),
                                span_of(args.1, args.3),
                                span_of(args.2, args.4),
                            ),
                        ),
                    ),
                    Seq::empty(),
                )
            },
            Syscall::ReadMapDetail => {
                &&& res == if rectangle_cells(args.1, args.2, args.3, args.4) * 3 > 65535 {
                    None
                } else {
                    Some((rectangle_cells(args.1, args.2, args.3, args.4) * 3) as u16)
                }
                &&& res is None ==> self.same_as(before)
                &&& res is Some ==> exists|data: Seq<u8>|
                    {
                        &&& data.len() == 3 * rectangle_cells(args.1, args.2, args.3, args.4)
                        &&& data == before.map().detail_block(
                            before.viewer(pid),
                            low8(args.1),
                            low8(args.2),
                            span_of(args.1, args.3),
                            span_of(args.2, args.4),
                            data,
                        )
                        &&& #[trigger] self.touched_from(
                            before,
                            pid,
                            before.with_machine(
                                pid,
                                before.machine(pid).with_memory(args.0, data),
                            ),
                            Seq::empty(),
                        )
                    }
            },
            Syscall::FetchChallenge => match before.map().cell(
                before.map().locations()[pid],
            ).challenge() {
                Some(challenge) if MapCell::challenge_record(challenge).len() <= args.1 => {
                    &&& res == Some(MapCell::challenge_record(challenge).len() as u16)
                    &&& self.touched_from(
                        before,
                        pid,
                        before.with_machine(
                            pid,
                            before.machine(pid).with_memory(
                                args.0,
                                MapCell::challenge_record(challenge),
                            ),
                        ),
                        Seq::empty(),
                    )
                },
                _ => res is None && self.same_as(before),
            },
            Syscall::SolveChallenge => match before.map().cell(
                before.map().locations()[pid],
            ).challenge() {
                Some(challenge) if challenge.accepts((args.0, args.1, args.2, args.3)) => res
                    == Some(1u16) && self.solved_from(before, pid),
                _ => res == Some(0u16) && self.culled_from(before, pid),
            },
            Syscall::Attack1 => {
                &&& res == if before.in_reach(pid, near, 4) {
                    Some(1u16)
                } else {
                    None
                }
                &&& res is None ==> self.same_as(before)
                &&& res is Some ==> {
                    let victim = before.map().cell(near).occupant().unwrap();
                    self.touched_from(
                        before,
                        victim,
                        ProcessView {
                            lifetime: if before.processes()[victim].lifetime == 0 {
                                0
                            } else {
                                (before.processes()[victim].lifetime - 1) as u32
                            },
                            ..before.processes()[victim]
                        },
                        seq![GameEvent::Attack { attacker_pid: pid, defender_pid: victim }],
                    )
                }
            },
            Syscall::Attack2 => {
                &&& res == if before.in_reach(pid, near, 2) {
                    Some(1u16)
                } else {
                    None
                }
                &&& res is None ==> self.same_as(before)
                &&& res is Some ==> {
                    let victim = before.map().cell(near).occupant().unwrap();
                    exists|glitch: Glitch|
                        {
                            &&& before.chance().allows_glitch(glitch)
                            &&& #[trigger] self.touched_from(
                                before,
                                victim,
                                before.with_machine(
                                    victim,
                                    before.machine(victim).corrupted(glitch),
                                ),
                                seq![GameEvent::Attack { attacker_pid: pid, defender_pid: victim }],
                            )
                        }
                }
            },
            Syscall::UpdateCode => {
                &&& res == Some(1u16)
                &&& self.touched_from(
                    before,
                    pid,
                    before.with_machine(
                        pid,
                        before.machine(pid).with_code(
                            args.1,
                            before.machine(pid).memory_at(args.0, (args.2 + 1) as nat),
                        ),
                    ),
                    Seq::empty(),
                )
            },
            Syscall::ShareMemory => {
                &&& res == if before.may_share(pid, args.0) {
                    Some(1u16)
                } else {
                    None
                }
                &&& res is None ==> self.same_as(before)
                &&& res is Some ==> self.touched_from(
                    before,
                    args.0,
                    before.with_machine(
                        args.0,
                        before.machine(args.0).with_memory(
                            args.1,
                            before.machine(pid).memory_at(args.2, (args.3 + 1) as nat),
                        ),
                    ),
                    Seq::empty(),
                )
            },
            Syscall::Reserved => {
                &&& res is None
                &&& exists|glitch: Glitch|
                    {
                        &&& before.chance().allows_glitch(glitch)
                        &&& #[trigger] self.touched_from(
                            before,
                            pid,
                            before.with_machine(pid, before.machine(pid).corrupted(glitch)),
                            Seq::empty(),
                        )
                    }
            },
        }
    }
}

impl Syscall {
    /// Carries the call out for the process that made it, and gives what the
    /// call gives. A call that gives nothing has changed nothing, but for
    /// the call under a number that names no call, which strikes the caller.
    pub fn call(&self, kernel: &mut Kernel, pid: u16, args: SyscallArgs) -> (res: Option<u16>)
        requires
            old(kernel).wf(),
            old(kernel).processes().contains_key(pid),
        ensures
            final(kernel).wf(),
            final(kernel).users().dom() == old(kernel).users().dom(),
            final(kernel).config() == old(kernel).config(),
            final(kernel).chance() == old(kernel).chance(),
            old(kernel).events().is_prefix_of(final(kernel).events()),
            res is None && *self != Syscall::Reserved ==> final(kernel).same_as(old(kernel)),
            res is None ==> final(kernel).users() == old(kernel).users(),
            res is None ==> final(kernel).processes().contains_key(pid),
            final(kernel).waned_from(old(kernel), pid),
            final(kernel).effected_from(old(kernel), *self, pid, args, res),
    {
        let res = match self {
            Syscall::GetPid => Some(pid),
            Syscall::GetUidOf => {
                if !kernel.has_process(args.0) {
                    None
                } else {
                    Some(kernel.get_process_owner(args.0))
                }
            },
            Syscall::Fork => kernel.fork_process(pid),
            Syscall::Kill => kernel.kill(pid, args.0),
            Syscall::GetProcessInfo => kernel.get_process_info(pid, args.0, args.1),
            Syscall::Detach => kernel.detach(pid),
            Syscall::Renice => kernel.renice(pid),
            Syscall::Move => kernel.step_to(pid, args.0, args.1),
            Syscall::ReadMap => kernel.read_map(pid, args.0, args.1, args.2, args.3, args.4),
            Syscall::ReadMapDetail => kernel.read_map_detail(
                pid,
                args.0,
                args.1,
                args.2,
                args.3,
                args.4,
            ),
            Syscall::FetchChallenge => kernel.fetch_challenge(pid, args.0, args.1),
            Syscall::SolveChallenge => {
                let nonce: Nonce = (args.0, args.1, args.2, args.3);
                Some(kernel.solve_challenge(pid, nonce))
            },
            Syscall::Attack1 => kernel.attack1(pid, args.0, args.1),
            Syscall::Attack2 => kernel.attack2(pid, args.0, args.1),
            Syscall::UpdateCode => kernel.update_code(pid, args.0, args.1, args.2),
            Syscall::ShareMemory => kernel.share_memory(pid, args.0, args.1, args.2, args.3),
            Syscall::Reserved => kernel.reserved(pid),
        };
        proof {
            let before = old(kernel);
            let low = (low8(args.0), low8(args.1));
            match *self {
                Syscall::Fork => {
                    if res is Some {
                        let child = res.unwrap();
                        let location = choose|location: Location| #[trigger]
                            kernel.forked_from(before, pid, child, location);
                        before.lemma_owner_known(pid);
                        assert(kernel.users().dom() =~= before.users().dom());
                        kernel.lemma_waned_forked(before, pid, child, location);
                    }
                },
                Syscall::Detach => {
                    if res is Some {
                        before.lemma_owner_known(pid);
                        before.lemma_init_lives(before.processes()[pid].uid);
                        kernel.lemma_waned_detached(
                            before,
                            pid,
                            before.users()[before.processes()[pid].uid].initd_pid.unwrap(),
                        );
                    }
                },
                Syscall::Attack1 => {
                    if res is Some {
                        before.lemma_occupant_lives(low);
                        let victim = before.map().cell(low).occupant().unwrap();
                        kernel.lemma_waned_touched(
                            before,
                            pid,
                            victim,
                            kernel.processes()[victim],
                            seq![GameEvent::Attack { attacker_pid: pid, defender_pid: victim }],
                        );
                    }
                },
                Syscall::Attack2 => {
                    if res is Some {
                        before.lemma_occupant_lives(low);
                        let victim = before.map().cell(low).occupant().unwrap();
                        let glitch = choose|glitch: Glitch| #[trigger]
                            kernel.touched_from(
                                before,
                                victim,
                                before.with_machine(victim, before.machine(victim).corrupted(glitch)),
                                seq![GameEvent::Attack { attacker_pid: pid, defender_pid: victim }],
                            );
                        kernel.lemma_waned_touched(
                            before,
                            pid,
                            victim,
                            kernel.processes()[victim],
                            seq![GameEvent::Attack { attacker_pid: pid, defender_pid: victim }],
                        );
                    }
                },
                Syscall::Reserved => {
                    let glitch = choose|glitch: Glitch| #[trigger]
                        kernel.touched_from(
                            before,
                            pid,
                            before.with_machine(pid, before.machine(pid).corrupted(glitch)),
                            Seq::empty(),
                        );
                    kernel.lemma_waned_touched(
                        before,
                        pid,
                        pid,
                        kernel.processes()[pid],
                        Seq::empty(),
                    );
                },
                Syscall::ReadMapDetail => {
                    if res is Some {
                        let data = choose|data: Seq<u8>| #[trigger]
                            kernel.touched_from(
                                before,
                                pid,
                                before.with_machine(pid, before.machine(pid).with_memory(args.0, data)),
                                Seq::empty(),
                            );
                        kernel.lemma_waned_touched(
                            before,
                            pid,
                            pid,
                            kernel.processes()[pid],
                            Seq::empty(),
                        );
                    }
                },
                Syscall::ShareMemory => {
                    if res is Some {
                        kernel.lemma_waned_touched(
                            before,
                            pid,
                            args.0,
                            kernel.processes()[args.0],
                            Seq::empty(),
                        );
                    }
                },
                Syscall::GetProcessInfo | Syscall::Renice | Syscall::ReadMap
                | Syscall::FetchChallenge | Syscall::UpdateCode => {
                    if res is Some {
                        assert(kernel.processes() == before.processes().insert(
                            pid,
                            kernel.processes()[pid],
                        ));
                    }
                },
                _ => {},
            }
            if kernel.same_as(before) {
                kernel.lemma_waned_plainly(before, pid);
            }
        }
        res
    }
}

} // verus!
