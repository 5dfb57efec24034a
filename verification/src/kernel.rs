//! The kernel: processes, their owners, and the system calls between them
//! and the world.

pub mod process;
pub mod syscall;
pub mod user;

use crate::config::{KernelConfiguration, UserConfiguration};
use crate::game::crypto::{CryptoChallenge, Nonce, Wallet};
use crate::game::map::{
    chebyshev, chebyshev_distance, CellType, GameMap, Location, MapCell, Sowing,
};
use crate::game::replay::GameEvent;
use crate::kernel::process::{lemma_without, lemma_without_first, remove_pid, without, Process, ProcessView};
use crate::kernel::syscall::Syscall;
use crate::kernel::user::{cycles_after_sleep_debt, User};
use crate::kernel::process::execution_limit;
use crate::game::crypto::covers;
use crate::vm::emulator::{
    after_nops, all_nops, at_call, calls_at_once, harmless, lemma_idle_run, lemma_run_to_call,
    lemma_stalled_run, CpuFlag, Emulator, Machine,
};
use crate::vm::entropy::{Chance, Entropy, Glitch};
use crate::vm::register::RegisterName;
use vstd::prelude::*;

verus! {

/// The most a process can have left to live, given how many forks lie
/// between it and its owner's first process: every fork halves.
pub open spec fn lifetime_cap(generation: nat) -> nat
    decreases generation,
{
    if generation == 0 {
        u32::MAX as nat
    } else {
        lifetime_cap((generation - 1) as nat) / 2
    }
}

/// Only the first 31 generations can have two ticks or more to live.
pub proof fn lemma_lifetime_cap(generation: nat)
    requires
        lifetime_cap(generation) >= 2,
    ensures
        generation <= 30,
{
    reveal_with_fuel(lifetime_cap, 33);
    if generation > 30 {
        lemma_lifetime_cap_falls(31, generation);
        assert(lifetime_cap(31) == 1);
    }
}

/// A later generation never has more to live than an earlier one.
pub proof fn lemma_lifetime_cap_falls(early: nat, late: nat)
    requires
        early <= late,
    ensures
        lifetime_cap(late) <= lifetime_cap(early),
    decreases late,
{
    if early < late {
        lemma_lifetime_cap_falls(early, (late - 1) as nat);
    }
}

/// The pids of the processes that a user owns.
pub open spec fn owned(processes: Map<u16, ProcessView>, uid: u16) -> Set<u16> {
    processes.dom().filter(|pid: u16| processes[pid].uid == uid)
}

/// Whether `ancestor` is `pid` itself or is reached from it by going from
/// child to parent at most `steps` times.
pub open spec fn reaches(
    processes: Map<u16, ProcessView>,
    pid: u16,
    ancestor: u16,
    steps: nat,
) -> bool
    decreases steps,
{
    pid == ancestor || (steps > 0 && processes.contains_key(pid) && processes[pid].ppid is Some
        && reaches(processes, processes[pid].ppid.unwrap(), ancestor, (steps - 1) as nat))
}

/// What a process has left to live once it has grown a tick older.
pub open spec fn a_tick_less(lifetime: u32) -> u32 {
    if lifetime == 0 {
        0
    } else {
        (lifetime - 1) as u32
    }
}

/// The processes that are left when `pid` goes: all but `pid`, and the
/// parent of `pid` no longer lists it.
pub open spec fn bereft(processes: Map<u16, ProcessView>, pid: u16) -> Map<u16, ProcessView> {
    Map::new(
        |other: u16| processes.contains_key(other) && other != pid,
        |other: u16|
            ProcessView {
                children: if processes[pid].ppid == Some(other) {
                    without(processes[other].children, pid)
                } else {
                    processes[other].children
                },
                ..processes[other]
            },
    )
}

/// The processes after `pid` has forked `child`: the child has half of
/// what the parent had left to live, and the parent loses that half unless
/// it is a first process. The child runs a copy of the parent's machine in
/// which AX holds 0xffff.
pub open spec fn forked(processes: Map<u16, ProcessView>, pid: u16, child: u16) -> Map<
    u16,
    ProcessView,
> {
    let parent = processes[pid];
    let half = (parent.lifetime / 2) as u32;
    processes.insert(
        pid,
        ProcessView {
            lifetime: if parent.is_init() {
                parent.lifetime
            } else {
                (parent.lifetime - half) as u32
            },
            children: parent.children.push(child),
            ..parent
        },
    ).insert(
        child,
        ProcessView {
            pid: child,
            ppid: Some(pid),
            children: Seq::empty(),
            uid: parent.uid,
            lifetime: half,
            nice: 0,
            emulator: parent.emulator.with_reg(RegisterName::AX, 0xffff),
        },
    )
}

/// A fork splits what the parent has left to live between parent and
/// child, unless the parent is a first process, which keeps all of it.
pub proof fn lemma_fork_splits_lifetime(processes: Map<u16, ProcessView>, pid: u16, child: u16)
    requires
        processes.contains_key(pid),
        child != pid,
    ensures
        !processes[pid].is_init() ==> processes[pid].lifetime == forked(
            processes,
            pid,
            child,
        )[pid].lifetime + forked(processes, pid, child)[child].lifetime,
        processes[pid].is_init() ==> processes[pid].lifetime == forked(
            processes,
            pid,
            child,
        )[pid].lifetime,
        forked(processes, pid, child)[child].lifetime == processes[pid].lifetime / 2,
{
}

/// How often a fresh pid is drawn at random before the pids are gone
/// through one by one.
pub const PID_DRAWS: usize = 16;

/// Why a user could not be set up.
#[derive(Clone, Copy, Debug, PartialEq, Eq, Structural)]
pub enum SetupError {
    /// The memory or the bytecode of the first process has the wrong size.
    BadImage,
    /// There is a user of that uid already.
    DuplicateUser,
    /// The cell to start on is a wall, or somebody stands on it.
    SpawnBlocked,
    /// Every pid is taken.
    NoFreePid,
}

/// The machine that a new first process starts with.
pub open spec fn fresh_machine(memory: Seq<u8>, bytecode: Seq<u8>) -> crate::vm::emulator::Machine {
    crate::vm::emulator::Machine {
        memory,
        bytecode,
        registers: Seq::new(16, |i: int| if i == 10 { 0x1337u16 } else { 0u16 }),
    }
}

/// The processes after `pid` has left its parent for `init`: its old parent
/// no longer lists it, `init` lists it last, and it names `init` as parent.
pub open spec fn detached(processes: Map<u16, ProcessView>, pid: u16, init: u16) -> Map<
    u16,
    ProcessView,
> {
    let left = bereft(processes, pid);
    left.insert(
        init,
        ProcessView { children: left[init].children.push(pid), ..left[init] },
    ).insert(pid, ProcessView { ppid: Some(init), ..processes[pid] })
}

/// Whether a process runs before another within a tick: the nicer one
/// first, and of two that are equally nice the one with the lower pid.
pub open spec fn runs_before(first: ProcessView, second: ProcessView) -> bool {
    first.nice > second.nice || (first.nice == second.nice && first.pid < second.pid)
}

/// Whether pids stand in the order in which their processes run.
pub open spec fn in_running_order(processes: Map<u16, ProcessView>, pids: Seq<u16>) -> bool {
    forall|i: int, j: int|
        0 <= i < j < pids.len() ==> runs_before(
            processes[#[trigger] pids[i]],
            processes[#[trigger] pids[j]],
        )
}

/// The pids of a process and of all its descendants down to `depth`
/// generations, in the order in which they die when the process is killed:
/// the descendants first, child after child in the order in which their
/// parent lists them, and then the process itself.
pub open spec fn burial(processes: Map<u16, ProcessView>, pid: u16, depth: nat) -> Seq<u16>
    decreases depth, 0nat,
{
    if depth == 0 {
        seq![pid]
    } else {
        burials(processes, processes[pid].children, (depth - 1) as nat) + seq![pid]
    }
}

/// The burials of several processes, one after another.
pub open spec fn burials(processes: Map<u16, ProcessView>, pids: Seq<u16>, depth: nat) -> Seq<u16>
    decreases depth, pids.len() + 1,
{
    if pids.len() == 0 {
        Seq::empty()
    } else {
        burials(processes, pids.drop_last(), depth) + burial(processes, pids.last(), depth)
    }
}

/// The events that log the death of each of the pids, in their order.
pub open spec fn deaths(pids: Seq<u16>) -> Seq<GameEvent> {
    Seq::new(pids.len(), |i: int| GameEvent::Kill { pid: pids[i] })
}

/// The deaths of one list after another are the deaths of the first list
/// followed by those of the second.
pub proof fn lemma_deaths_add(first: Seq<u16>, second: Seq<u16>)
    ensures
        deaths(first + second) == deaths(first) + deaths(second),
{
    assert(deaths(first + second) =~= deaths(first) + deaths(second));
}

/// One system call within the tick of a process: what chance contributed
/// to the run that led up to it, the kernel when the call was fetched, the
/// call and what it gave, the kernel once the call was resolved, and what was
/// left of the budget.
pub struct Call {
    pub entropies: Seq<Entropy>,
    pub ran: Kernel,
    pub syscall: Syscall,
    pub res: Option<u16>,
    pub after: Kernel,
    pub left: int,
}

pub struct Kernel {
    config: KernelConfiguration,
    process_table: std::collections::HashMap<u16, Process>,
    user_table: std::collections::HashMap<u16, User>,
    game_map: GameMap,
    events: Vec<GameEvent>,
    chance: Chance,
    generations: Ghost<Map<u16, nat>>,
}

impl Kernel {
    /// The processes, by pid.
    pub closed spec fn processes(&self) -> Map<u16, ProcessView> {
        Map::new(
            |pid: u16| self.process_table@.contains_key(pid),
            |pid: u16| self.process_table@[pid]@,
        )
    }

    /// The users, by uid.
    pub closed spec fn users(&self) -> Map<u16, User> {
        self.user_table@
    }

    pub closed spec fn map(&self) -> GameMap {
        self.game_map
    }

    /// The events that have been logged and not yet taken.
    pub closed spec fn events(&self) -> Seq<GameEvent> {
        self.events@
    }

    pub closed spec fn config(&self) -> KernelConfiguration {
        self.config
    }

    pub closed spec fn chance(&self) -> Chance {
        self.chance
    }

    /// For every process, how many forks lie between it and the first
    /// process of its line.
    pub closed spec fn generations(&self) -> Map<u16, nat> {
        self.generations@
    }

    /// Every emulator is well formed, and there are finitely many processes.
    pub closed spec fn sound(&self) -> bool {
        &&& self.process_table@.dom().finite()
        &&& forall|pid: u16| #[trigger]
            self.process_table@.contains_key(pid) ==> self.process_table@[pid].emulator.wf()
    }

    /// The map knows exactly the processes of the table: each of them, and no
    /// other, stands on a cell. Every process is filed under its own pid,
    /// which is neither 0 nor 0xffff.
    #[verifier::opaque]
    pub open spec fn placed(&self) -> bool {
        &&& self.map().wf()
        &&& forall|pid: u16| #[trigger]
            self.processes().contains_key(pid) <==> self.map().locations().contains_key(pid)
        &&& forall|pid: u16| #[trigger]
            self.processes().contains_key(pid) ==> self.processes()[pid].pid == pid && 1 <= pid
                <= 65534
    }

    /// Every process has an owner. Every user is filed under their own uid
    /// and counts the processes they own; the first process that a user
    /// names is theirs and has no parent, and a process without a parent is
    /// the first process that its owner names.
    #[verifier::opaque]
    pub open spec fn owned_up(&self) -> bool {
        &&& forall|pid: u16| #[trigger]
            self.processes().contains_key(pid) ==> {
                &&& self.users().contains_key(self.processes()[pid].uid)
                &&& self.processes()[pid].is_init() ==> self.users()[self.processes()[pid].uid].initd_pid
                    == Some(pid)
            }
        &&& forall|uid: u16| #[trigger]
            self.users().contains_key(uid) ==> {
                &&& self.users()[uid].uid == uid
                &&& self.users()[uid].num_processes == owned(self.processes(), uid).len()
                &&& self.users()[uid].initd_pid matches Some(init) ==> {
                    &&& self.processes().contains_key(init)
                    &&& self.processes()[init].uid == uid
                    &&& self.processes()[init].is_init()
                }
            }
    }

    /// Parents and children agree: the parent of a process is in the table,
    /// has the same owner and lists the process among its children; every
    /// child that a process lists is in the table and names it as parent;
    /// and no process lists a child twice.
    #[verifier::opaque]
    pub open spec fn related(&self) -> bool {
        &&& forall|pid: u16| #[trigger]
            self.processes().contains_key(pid) ==> {
                &&& self.processes()[pid].children.no_duplicates()
                &&& self.processes()[pid].ppid matches Some(parent) ==> {
                    &&& self.processes().contains_key(parent)
                    &&& self.processes()[parent].children.contains(pid)
                    &&& self.processes()[parent].uid == self.processes()[pid].uid
                }
            }
        &&& forall|pid: u16, i: int|
            self.processes().contains_key(pid) && 0 <= i < self.processes()[pid].children.len() ==> {
                &&& self.processes().contains_key(#[trigger] self.processes()[pid].children[i])
                &&& self.processes()[self.processes()[pid].children[i]].ppid == Some(pid)
            }
    }

    /// Every process has a generation: 0 without a parent, and else more
    /// than its parent's. No generation is beyond 31, and no process has
    /// more to live than its generation allows.
    #[verifier::opaque]
    pub open spec fn ranked(&self) -> bool {
        &&& forall|pid: u16| #[trigger]
            self.processes().contains_key(pid) ==> {
                &&& self.generations().contains_key(pid)
                &&& self.generations()[pid] <= 31
                &&& self.processes()[pid].lifetime <= lifetime_cap(self.generations()[pid])
                &&& match self.processes()[pid].ppid {
                    None => self.generations()[pid] == 0,
                    Some(parent) => self.generations().contains_key(parent)
                        && self.generations()[parent] < self.generations()[pid],
                }
            }
    }

    /// Everything that holds of a kernel between any two of its operations.
    pub open spec fn wf(&self) -> bool {
        &&& self.sound()
        &&& self.placed()
        &&& self.owned_up()
        &&& self.related()
        &&& self.ranked()
    }

    /// A kernel over a map on which nobody stands yet, with no processes and
    /// no users. Its draws are made at random.
    pub fn new(kernel_config: KernelConfiguration, game_map: GameMap) -> (kernel: Kernel)
        requires
            game_map.wf(),
            game_map.locations() == Map::<u16, Location>::empty(),
        ensures
            kernel.wf(),
            kernel.processes() == Map::<u16, ProcessView>::empty(),
            kernel.users() == Map::<u16, User>::empty(),
            kernel.map() == game_map,
            kernel.events() == Seq::<GameEvent>::empty(),
            kernel.config() == kernel_config,
            kernel.chance() == Chance::Wild,
    {
        Kernel::with_chance(kernel_config, game_map, Chance::Wild)
    }

    /// A kernel like a new one, whose draws come from `chance`.
    pub fn with_chance(kernel_config: KernelConfiguration, game_map: GameMap, chance: Chance) -> (kernel:
        Kernel)
        requires
            game_map.wf(),
            game_map.locations() == Map::<u16, Location>::empty(),
        ensures
            kernel.wf(),
            kernel.processes() == Map::<u16, ProcessView>::empty(),
            kernel.users() == Map::<u16, User>::empty(),
            kernel.map() == game_map,
            kernel.events() == Seq::<GameEvent>::empty(),
            kernel.config() == kernel_config,
            kernel.chance() == chance,
    {
        broadcast use vstd::std_specs::hash::group_hash_axioms;

        reveal(Kernel::placed);
        reveal(Kernel::owned_up);
        reveal(Kernel::related);
        reveal(Kernel::ranked);
        let kernel = Kernel {
            process_table: std::collections::HashMap::new(),
            user_table: std::collections::HashMap::new(),
            game_map,
            config: kernel_config,
            events: Vec::new(),
            chance,
            generations: Ghost(Map::empty()),
        };
        assert(kernel.processes() =~= Map::<u16, ProcessView>::empty());
        kernel
    }

    /// Hands over the events that have been logged since the last time.
    pub fn take_events(&mut self) -> (events: Vec<GameEvent>)
        ensures
            events@ == old(self).events(),
            final(self).events() == Seq::<GameEvent>::empty(),
            final(self).processes() == old(self).processes(),
            final(self).users() == old(self).users(),
            final(self).map() == old(self).map(),
            final(self).wf() == old(self).wf(),
    {
        reveal(Kernel::placed);
        reveal(Kernel::owned_up);
        reveal(Kernel::related);
        reveal(Kernel::ranked);
        let mut events: Vec<GameEvent> = Vec::new();
        std::mem::swap(&mut events, &mut self.events);
        events
    }

    pub fn has_process(&self, pid: u16) -> (has: bool)
        ensures
            has == self.processes().contains_key(pid),
    {
        broadcast use vstd::std_specs::hash::group_hash_axioms;

        self.process_table.contains_key(&pid)
    }

    /// Whether a user is known under a uid.
    pub fn has_user(&self, uid: u16) -> (has: bool)
        ensures
            has == self.users().contains_key(uid),
    {
        broadcast use vstd::std_specs::hash::group_hash_axioms;

        self.user_table.contains_key(&uid)
    }

    pub fn get_user(&self, uid: u16) -> (user: &User)
        requires
            self.users().contains_key(uid),
        ensures
            *user == self.users()[uid],
    {
        broadcast use vstd::std_specs::hash::group_hash_axioms;

        self.user_table.get(&uid).unwrap()
    }

    pub fn get_process(&self, pid: u16) -> (process: &Process)
        requires
            self.processes().contains_key(pid),
        ensures
            process@ == self.processes()[pid],
            self.sound() ==> process.emulator.wf(),
    {
        broadcast use vstd::std_specs::hash::group_hash_axioms;

        self.process_table.get(&pid).unwrap()
    }

    pub fn get_process_owner(&self, pid: u16) -> (uid: u16)
        requires
            self.processes().contains_key(pid),
        ensures
            uid == self.processes()[pid].uid,
    {
        self.get_process(pid).uid
    }

    pub fn get_owner_user(&self, pid: u16) -> (user: &User)
        requires
            self.wf(),
            self.processes().contains_key(pid),
        ensures
            *user == self.users()[self.processes()[pid].uid],
    {
        reveal(Kernel::owned_up);
        self.get_user(self.get_process_owner(pid))
    }

    pub fn get_process_location(&self, pid: u16) -> (location: Location)
        requires
            self.wf(),
            self.processes().contains_key(pid),
        ensures
            location == self.map().locations()[pid],
            self.map().cell(location).occupant() == Some(pid),
    {
        reveal(Kernel::placed);
        self.game_map.get_process_location(pid)
    }

    pub fn get_map_cell(&self, location: Location) -> (cell: &MapCell)
        requires
            self.wf(),
        ensures
            *cell == self.map().cell(location),
    {
        reveal(Kernel::placed);
        self.game_map.get_cell(location)
    }

    /// Whether `pid` is `ancestor` or one of its descendants. No line of
    /// descent is longer than 31 steps.
    pub open spec fn descends(&self, pid: u16, ancestor: u16) -> bool {
        reaches(self.processes(), pid, ancestor, 31)
    }

    /// Whether `target_pid` is `self_pid` or one of its descendants.
    pub fn is_self_or_descendent_process(&self, self_pid: u16, target_pid: u16) -> (related: bool)
        requires
            self.wf(),
        ensures
            related == self.descends(target_pid, self_pid),
    {
        reveal(Kernel::ranked);
        let mut current = target_pid;
        let ghost mut steps: nat = 31;
        loop
            invariant
                self.wf(),
                self.descends(target_pid, self_pid) == reaches(
                    self.processes(),
                    current,
                    self_pid,
                    steps,
                ),
                self.processes().contains_key(current) ==> self.generations()[current] <= steps,
            decreases steps,
        {
            proof {
                reveal(Kernel::ranked);
            }
            if current == self_pid {
                return true;
            }
            if !self.has_process(current) {
                return false;
            }
            match self.get_process(current).ppid {
                None => {
                    return false;
                },
                Some(parent) => {
                    proof {
                        steps = (steps - 1) as nat;
                    }
                    current = parent;
                },
            }
        }
    }

    /// Whether this kernel can have come from `before` by the death of
    /// `root` and of all its descendants, and of no other process: `root` is
    /// gone; who is left is as before, but that the parent of `root` no
    /// longer lists it; who is gone is `root` or had a parent that is gone,
    /// and is of no earlier generation than `root`. Users keep their wallets
    /// and scores, cells their kind and challenge, and who is left their
    /// place; the log has grown.
    pub open spec fn culled_from(&self, before: &Kernel, root: u16) -> bool {
        &&& !self.processes().contains_key(root)
        &&& forall|pid: u16| #[trigger]
            self.processes().contains_key(pid) ==> {
                &&& before.processes().contains_key(pid)
                &&& self.processes()[pid] == bereft(before.processes(), root)[pid]
                &&& self.generations()[pid] == before.generations()[pid]
                &&& self.map().locations()[pid] == before.map().locations()[pid]
            }
        &&& forall|pid: u16| #[trigger]
            before.processes().contains_key(pid) && !self.processes().contains_key(pid) ==> {
                &&& before.generations()[pid] >= before.generations()[root]
                &&& pid != root ==> {
                    &&& before.processes()[pid].ppid is Some
                    &&& before.processes().contains_key(before.processes()[pid].ppid.unwrap())
                    &&& !self.processes().contains_key(before.processes()[pid].ppid.unwrap())
                }
            }
        &&& self.kept_from(before)
        &&& self.mourned_from(before)
        &&& self.events() == before.events() + deaths(burial(before.processes(), root, 32))
    }

    /// Whether all that has been logged since `before` is the death of
    /// processes that were there in `before` and are gone.
    pub open spec fn mourned_from(&self, before: &Kernel) -> bool {
        forall|i: int|
            before.events().len() <= i < self.events().len() ==> {
                &&& (#[trigger] self.events()[i]) is Kill
                &&& before.processes().contains_key(self.events()[i]->Kill_pid)
                &&& !self.processes().contains_key(self.events()[i]->Kill_pid)
            }
    }

    /// What is mourned is mourned through any number of steps in which
    /// nobody comes back.
    pub proof fn lemma_mourned(&self, middle: &Kernel, before: &Kernel)
        requires
            self.mourned_from(middle),
            middle.mourned_from(before),
            middle.events().is_prefix_of(self.events()),
            before.events().is_prefix_of(middle.events()),
            forall|pid: u16| #[trigger]
                self.processes().contains_key(pid) ==> middle.processes().contains_key(pid),
            forall|pid: u16| #[trigger]
                middle.processes().contains_key(pid) ==> before.processes().contains_key(pid),
        ensures
            self.mourned_from(before),
    {
        assert forall|i: int| before.events().len() <= i < self.events().len() implies {
            &&& (#[trigger] self.events()[i]) is Kill
            &&& before.processes().contains_key(self.events()[i]->Kill_pid)
            &&& !self.processes().contains_key(self.events()[i]->Kill_pid)
        } by {
            if i < middle.events().len() {
                assert(self.events()[i] == middle.events()[i]);
                let pid = middle.events()[i]->Kill_pid;
                if self.processes().contains_key(pid) {
                    assert(middle.processes().contains_key(pid));
                }
            } else {
                let pid = self.events()[i]->Kill_pid;
                assert(middle.processes().contains_key(pid));
            }
        }
    }

    /// Whether everything but the processes and who stands where is as in
    /// `before`: the users are the same and keep their wallets and scores,
    /// the cells keep their kind and challenge, the settings are the same,
    /// and the log has grown.
    pub open spec fn kept_from(&self, before: &Kernel) -> bool {
        &&& self.users().dom() == before.users().dom()
        &&& forall|uid: u16| #[trigger]
            self.users().contains_key(uid) ==> {
                &&& self.users()[uid].wallet == before.users()[uid].wallet
                &&& self.users()[uid].score == before.users()[uid].score
            }
        &&& forall|location: Location|
            {
                &&& (#[trigger] self.map().cell(location)).kind() == before.map().cell(
                    location,
                ).kind()
                &&& self.map().cell(location).challenge() == before.map().cell(
                    location,
                ).challenge()
            }
        &&& self.config() == before.config()
        &&& self.chance() == before.chance()
        &&& before.events().is_prefix_of(self.events())
    }

    /// The death of one process that has no children.
    fn kill_process(&mut self, pid: u16)
        requires
            old(self).wf(),
            old(self).processes().contains_key(pid),
            old(self).processes()[pid].children.len() == 0,
        ensures
            final(self).wf(),
            final(self).processes() == bereft(old(self).processes(), pid),
            final(self).generations() == old(self).generations().remove(pid),
            final(self).map().locations() == old(self).map().locations().remove(pid),
            final(self).kept_from(old(self)),
            final(self).events() == old(self).events().push(GameEvent::Kill { pid }),
    {
        broadcast use vstd::std_specs::hash::group_hash_axioms;
        broadcast use {MapCell::lemma_with_occupant, MapCell::lemma_with_challenge};

        reveal(Kernel::placed);
        reveal(Kernel::owned_up);
        reveal(Kernel::related);
        reveal(Kernel::ranked);
        let ghost before = old(self).processes();
        self.events.push(GameEvent::Kill { pid });
        let process = self.process_table.remove(&pid).unwrap();
        let uid = process.uid;
        let mut user = *self.user_table.get(&uid).unwrap();
        proof {
            assert(before.contains_key(pid));
            assert(owned(before, uid).contains(pid));
            assert(owned(before, uid).finite()) by {
                assert(before.dom() =~= old(self).process_table@.dom());
            }
            if owned(before, uid).len() == 0 {
                owned(before, uid).lemma_len0_is_empty();
            }
        }
        user.num_processes = user.num_processes - 1;
        if process.ppid.is_none() {
            user.initd_pid = None;
        }
        self.user_table.insert(uid, user);
        proof {
            GameMap::lemma_with_cell(
                old(self).map().cells(),
                old(self).map().locations()[pid],
                old(self).map().cell(old(self).map().locations()[pid]).with_occupant(None),
            );
        }
        self.game_map.remove_process_from_map(pid);
        if let Some(parent_pid) = process.ppid {
            let mut parent = self.process_table.remove(&parent_pid).unwrap();
            parent.children = remove_pid(&parent.children, pid);
            self.process_table.insert(parent_pid, parent);
        }
        proof {
            self.generations@ = self.generations@.remove(pid);
            assert(self.processes() =~= bereft(before, pid));
            if let Some(parent_pid) = process.ppid {
                lemma_without(before[parent_pid].children, pid);
            }
            assert(self.process_table@.dom() =~= old(self).process_table@.dom().remove(pid));
            assert(self.sound());
            assert(self.placed());
            assert forall|other: u16| #[trigger] self.users().contains_key(other) implies {
                self.users()[other].num_processes == owned(self.processes(), other).len()
            } by {
                assert(old(self).users().contains_key(other));
                if other == uid {
                    assert(owned(self.processes(), other) =~= owned(before, other).remove(pid));
                } else {
                    assert(owned(self.processes(), other) =~= owned(before, other));
                }
            }
            assert(self.owned_up()) by {
                assert forall|other: u16| #[trigger]
                    self.processes().contains_key(other) implies {
                    &&& self.users().contains_key(self.processes()[other].uid)
                    &&& self.processes()[other].is_init() ==> self.users()[self.processes()[other].uid].initd_pid
                        == Some(other)
                } by {
                    assert(before.contains_key(other));
                }
                assert forall|other: u16| #[trigger] self.users().contains_key(other) implies {
                    &&& self.users()[other].uid == other
                    &&& self.users()[other].num_processes == owned(self.processes(), other).len()
                    &&& self.users()[other].initd_pid matches Some(init) ==> {
                        &&& self.processes().contains_key(init)
                        &&& self.processes()[init].uid == other
                        &&& self.processes()[init].is_init()
                    }
                } by {
                    assert(old(self).users().contains_key(other));
                }
            }
            assert(self.related()) by {
                assert forall|other: u16| #[trigger]
                    self.processes().contains_key(other) implies {
                    &&& self.processes()[other].children.no_duplicates()
                    &&& self.processes()[other].ppid matches Some(parent) ==> {
                        &&& self.processes().contains_key(parent)
                        &&& self.processes()[parent].children.contains(other)
                        &&& self.processes()[parent].uid == self.processes()[other].uid
                    }
                } by {
                    assert(before.contains_key(other));
                    lemma_without(before[other].children, pid);
                    if let Some(parent) = before[other].ppid {
                        lemma_without(before[parent].children, pid);
                        if parent == pid {
                            assert(before[pid].children.contains(other));
                        }
                    }
                }
                assert forall|other: u16, i: int|
                    self.processes().contains_key(other) && 0 <= i
                        < self.processes()[other].children.len() implies {
                    &&& self.processes().contains_key(
                        #[trigger] self.processes()[other].children[i],
                    )
                    &&& self.processes()[self.processes()[other].children[i]].ppid == Some(other)
                } by {
                    assert(before.contains_key(other));
                    lemma_without(before[other].children, pid);
                    let child = self.processes()[other].children[i];
                    assert(self.processes()[other].children.contains(child));
                    assert(before[other].children.contains(child));
                    let j = choose|j: int|
                        0 <= j < before[other].children.len() && before[other].children[j] == child;
                    assert(before.contains_key(before[other].children[j]));
                    if child == pid {
                        assert(before[pid].ppid == Some(other));
                    }
                }
            }
            assert(self.ranked()) by {
                assert forall|other: u16| #[trigger]
                    self.processes().contains_key(other) implies {
                    &&& self.generations().contains_key(other)
                    &&& self.generations()[other] <= 31
                    &&& self.processes()[other].lifetime <= lifetime_cap(self.generations()[other])
                    &&& match self.processes()[other].ppid {
                        None => self.generations()[other] == 0,
                        Some(parent) => self.generations().contains_key(parent)
                            && self.generations()[parent] < self.generations()[other],
                    }
                } by {
                    assert(before.contains_key(other));
                    if let Some(parent) = before[other].ppid {
                        if parent == pid {
                            assert(before[pid].children.contains(other));
                        }
                    }
                }
            }
            assert(self.kept_from(old(self))) by {
                assert(self.users().dom() =~= old(self).users().dom());
                assert forall|location: Location|
                    {
                        &&& (#[trigger] self.map().cell(location)).kind() == old(self).map().cell(
                            location,
                        ).kind()
                        &&& self.map().cell(location).challenge() == old(self).map().cell(
                            location,
                        ).challenge()
                    } by {
                    assert(self.map().cell(location) == GameMap::with_cell(
                        old(self).map().cells(),
                        old(self).map().locations()[pid],
                        old(self).map().cell(old(self).map().locations()[pid]).with_occupant(None),
                    )[GameMap::index_of(location)]);
                }
            }
        }
    }

    /// What is kept is kept through any number of steps.
    pub proof fn lemma_kept(&self, middle: &Kernel, before: &Kernel)
        requires
            self.kept_from(middle),
            middle.kept_from(before),
        ensures
            self.kept_from(before),
    {
        assert forall|uid: u16| #[trigger] self.users().contains_key(uid) implies {
            &&& self.users()[uid].wallet == before.users()[uid].wallet
            &&& self.users()[uid].score == before.users()[uid].score
        } by {
            assert(middle.users().contains_key(uid));
        }
        assert forall|location: Location|
            {
                &&& (#[trigger] self.map().cell(location)).kind() == before.map().cell(
                    location,
                ).kind()
                &&& self.map().cell(location).challenge() == before.map().cell(
                    location,
                ).challenge()
            } by {
            assert(middle.map().cell(location).kind() == before.map().cell(location).kind());
        }
    }

    /// Whether this kernel can have come from `before` by the death of some
    /// children of `pid`, each with all its descendants, where `rest` are
    /// the children that `pid` still lists.
    #[verifier::opaque]
    pub open spec fn culling(&self, before: &Kernel, pid: u16, rest: Seq<u16>) -> bool {
        &&& before.processes().contains_key(pid)
        &&& self.processes().contains_key(pid)
        &&& self.processes()[pid] == (ProcessView { children: rest, ..before.processes()[pid] })
        &&& forall|q: u16| #[trigger]
            self.processes().contains_key(q) ==> {
                &&& before.processes().contains_key(q)
                &&& q != pid ==> self.processes()[q] == before.processes()[q]
                &&& self.generations()[q] == before.generations()[q]
                &&& self.map().locations()[q] == before.map().locations()[q]
            }
        &&& forall|q: u16| #[trigger]
            before.processes().contains_key(q) && !self.processes().contains_key(q) ==> {
                &&& before.generations()[q] > before.generations()[pid]
                &&& before.processes()[q].ppid is Some
                &&& before.processes().contains_key(before.processes()[q].ppid.unwrap())
                &&& (!self.processes().contains_key(before.processes()[q].ppid.unwrap())
                    || before.processes()[q].ppid.unwrap() == pid)
            }
        &&& self.kept_from(before)
        &&& self.mourned_from(before)
    }

    /// Whether every process of this kernel that is of the generation of
    /// `pid` or of a later one is in `other` just as it is here.
    pub open spec fn same_below(&self, other: &Kernel, pid: u16) -> bool {
        forall|r: u16| #[trigger]
            self.processes().contains_key(r) && self.generations()[r] >= self.generations()[pid]
                ==> other.processes().contains_key(r) && other.processes()[r]
                == self.processes()[r]
    }

    /// The burial of a process is the same in two kernels in which its
    /// descendants are the same, to whatever depth beyond the last
    /// generation it is taken.
    proof fn lemma_burial_same(&self, other: &Kernel, pid: u16, here: nat, there: nat)
        requires
            self.wf(),
            self.processes().contains_key(pid),
            self.same_below(other, pid),
            here + self.generations()[pid] >= 32,
            there + self.generations()[pid] >= 32,
        ensures
            burial(self.processes(), pid, here) == burial(other.processes(), pid, there),
        decreases 2 * (32 - self.generations()[pid]) + 1, 0nat,
    {
        reveal(Kernel::related);
        reveal(Kernel::ranked);
        let children = self.processes()[pid].children;
        assert forall|k: int| 0 <= k < children.len() implies {
            &&& self.processes().contains_key(#[trigger] children[k])
            &&& self.processes()[children[k]].ppid == Some(pid)
        } by {
            assert(self.processes().contains_key(self.processes()[pid].children[k]));
        }
        self.lemma_burials_same(other, pid, children, (here - 1) as nat, (there - 1) as nat);
    }

    /// The burials of children of one process are the same in two kernels
    /// in which the descendants of that process are the same.
    proof fn lemma_burials_same(
        &self,
        other: &Kernel,
        parent: u16,
        pids: Seq<u16>,
        here: nat,
        there: nat,
    )
        requires
            self.wf(),
            self.processes().contains_key(parent),
            self.same_below(other, parent),
            forall|k: int|
                0 <= k < pids.len() ==> {
                    &&& self.processes().contains_key(#[trigger] pids[k])
                    &&& self.processes()[pids[k]].ppid == Some(parent)
                },
            here + self.generations()[parent] + 1 >= 32,
            there + self.generations()[parent] + 1 >= 32,
        ensures
            burials(self.processes(), pids, here) == burials(other.processes(), pids, there),
        decreases 2 * (32 - self.generations()[parent]), pids.len(),
    {
        reveal(Kernel::ranked);
        if pids.len() > 0 {
            let front = pids.drop_last();
            let child = pids.last();
            assert forall|k: int| 0 <= k < front.len() implies {
                &&& self.processes().contains_key(#[trigger] front[k])
                &&& self.processes()[front[k]].ppid == Some(parent)
            } by {
                assert(front[k] == pids[k]);
            }
            self.lemma_burials_same(other, parent, front, here, there);
            assert(self.processes().contains_key(pids[pids.len() - 1]));
            assert(self.generations()[child] > self.generations()[parent]);
            self.lemma_burial_same(other, child, here, there);
        }
    }

    /// When the next child has died with all its descendants, the log has
    /// grown by their burial.
    proof fn lemma_culling_events(
        &self,
        middle: &Kernel,
        before: &Kernel,
        pid: u16,
        rest: Seq<u16>,
        done: Seq<u16>,
    )
        requires
            middle.wf(),
            middle.culling(before, pid, rest),
            rest.len() > 0,
            self.culled_from(middle, rest[0]),
            middle.events() == before.events() + deaths(burials(before.processes(), done, 31)),
        ensures
            self.events() == before.events() + deaths(
                burials(before.processes(), done.push(rest[0]), 31),
            ),
    {
        reveal(Kernel::culling);
        reveal(Kernel::related);
        reveal(Kernel::ranked);
        let child = rest[0];
        assert(middle.processes()[pid].children[0] == child);
        assert(middle.processes().contains_key(middle.processes()[pid].children[0]));
        assert(middle.processes()[child].ppid == Some(pid));
        assert(middle.same_below(before, child));
        middle.lemma_burial_same(before, child, 32, 31);
        let longer = done.push(child);
        assert(longer.drop_last() =~= done);
        assert(longer.last() == child);
        lemma_deaths_add(
            burials(before.processes(), done, 31),
            burial(before.processes(), child, 31),
        );
        assert(self.events() =~= before.events() + deaths(
            burials(before.processes(), longer, 31),
        ));
    }

    proof fn lemma_culling_start(&self, pid: u16)
        requires
            self.processes().contains_key(pid),
        ensures
            self.culling(self, pid, self.processes()[pid].children),
    {
        reveal(Kernel::culling);
    }

    proof fn lemma_culling_child(&self, before: &Kernel, pid: u16, rest: Seq<u16>)
        requires
            self.wf(),
            before.wf(),
            self.culling(before, pid, rest),
            rest.len() > 0,
        ensures
            self.processes().contains_key(rest[0]),
            self.generations()[rest[0]] > before.generations()[pid],
            self.generations()[rest[0]] <= 31,
    {
        reveal(Kernel::culling);
        reveal(Kernel::related);
        reveal(Kernel::ranked);
        let child = self.processes()[pid].children[0];
        assert(self.processes().contains_key(child));
        assert(self.processes()[child].ppid == Some(pid));
    }

    proof fn lemma_culling_step(&self, middle: &Kernel, before: &Kernel, pid: u16, rest: Seq<u16>)
        requires
            middle.wf(),
            middle.culling(before, pid, rest),
            rest.len() > 0,
            self.culled_from(middle, rest[0]),
        ensures
            self.culling(before, pid, rest.drop_first()),
    {
        reveal(Kernel::culling);
        reveal(Kernel::related);
        reveal(Kernel::ranked);
        let child = rest[0];
        assert(middle.processes()[pid].children[0] == child);
        assert(middle.processes().contains_key(middle.processes()[pid].children[0]));
        assert(middle.processes()[child].ppid == Some(pid));
        lemma_without_first(rest);
        assert(self.processes().contains_key(pid)) by {
            if !self.processes().contains_key(pid) {
                assert(middle.generations()[pid] >= middle.generations()[child]);
            }
        }
        assert(self.processes()[pid] == bereft(middle.processes(), child)[pid]);
        assert forall|q: u16| #[trigger] self.processes().contains_key(q) implies {
            &&& before.processes().contains_key(q)
            &&& q != pid ==> self.processes()[q] == before.processes()[q]
            &&& self.generations()[q] == before.generations()[q]
            &&& self.map().locations()[q] == before.map().locations()[q]
        } by {
            assert(middle.processes().contains_key(q));
            assert(self.processes()[q] == bereft(middle.processes(), child)[q]);
        }
        assert forall|q: u16| #[trigger]
            before.processes().contains_key(q) && !self.processes().contains_key(q) implies {
            &&& before.generations()[q] > before.generations()[pid]
            &&& before.processes()[q].ppid is Some
            &&& before.processes().contains_key(before.processes()[q].ppid.unwrap())
            &&& (!self.processes().contains_key(before.processes()[q].ppid.unwrap())
                || before.processes()[q].ppid.unwrap() == pid)
        } by {
            if middle.processes().contains_key(q) {
                assert(q != pid);
                assert(middle.processes()[q] == before.processes()[q]);
            } else {
                let parent = before.processes()[q].ppid.unwrap();
                if parent != pid {
                    assert(!middle.processes().contains_key(parent));
                    if self.processes().contains_key(parent) {
                        assert(middle.processes().contains_key(parent));
                    }
                }
            }
        }
        self.lemma_mourned(middle, before);
        self.lemma_kept(middle, before);
    }

    proof fn lemma_culling_end(&self, last: &Kernel, before: &Kernel, pid: u16)
        requires
            last.culling(before, pid, Seq::<u16>::empty()),
            self.processes() == bereft(last.processes(), pid),
            self.generations() == last.generations().remove(pid),
            self.map().locations() == last.map().locations().remove(pid),
            self.kept_from(last),
            self.events() == last.events().push(GameEvent::Kill { pid }),
            self.events() == before.events() + deaths(burial(before.processes(), pid, 32)),
        ensures
            self.culled_from(before, pid),
    {
        reveal(Kernel::culling);
        assert(self.mourned_from(last)) by {
            assert(self.events()[last.events().len() as int] == (GameEvent::Kill { pid }));
        }
        self.lemma_mourned(last, before);
        self.lemma_kept(last, before);
        assert forall|q: u16| #[trigger] self.processes().contains_key(q) implies {
            &&& before.processes().contains_key(q)
            &&& self.processes()[q] == bereft(before.processes(), pid)[q]
            &&& self.generations()[q] == before.generations()[q]
            &&& self.map().locations()[q] == before.map().locations()[q]
        } by {
            assert(last.processes().contains_key(q));
        }
        assert forall|q: u16| #[trigger]
            before.processes().contains_key(q) && !self.processes().contains_key(q) implies {
            &&& before.generations()[q] >= before.generations()[pid]
            &&& q != pid ==> {
                &&& before.processes()[q].ppid is Some
                &&& before.processes().contains_key(before.processes()[q].ppid.unwrap())
                &&& !self.processes().contains_key(before.processes()[q].ppid.unwrap())
            }
        } by {
            if q != pid {
                assert(!last.processes().contains_key(q));
                let parent = before.processes()[q].ppid.unwrap();
                if self.processes().contains_key(parent) {
                    assert(last.processes().contains_key(parent));
                }
            }
        }
    }

    /// The death of a process and of all its descendants: the descendants
    /// die first, child after child in the order in which their parent
    /// lists them, and then the process itself.
    pub fn kill_process_recursive(&mut self, pid: u16)
        requires
            old(self).wf(),
            old(self).processes().contains_key(pid),
        ensures
            final(self).wf(),
            final(self).culled_from(old(self), pid),
        decreases 32 - old(self).generations()[pid],
    {
        let children = self.get_process(pid).children.clone();
        proof {
            self.lemma_culling_start(pid);
            assert(children@.subrange(0, children@.len() as int) =~= children@);
            assert(self.events() =~= old(self).events() + deaths(
                burials(old(self).processes(), children@.subrange(0, 0), 31),
            ));
        }
        let mut i: usize = 0;
        while i < children.len()
            invariant
                self.wf(),
                old(self).wf(),
                i <= children@.len(),
                children@ == old(self).processes()[pid].children,
                self.culling(old(self), pid, children@.subrange(i as int, children@.len() as int)),
                self.events() == old(self).events() + deaths(
                    burials(old(self).processes(), children@.subrange(0, i as int), 31),
                ),
            decreases children@.len() - i,
        {
            let child = children[i];
            let ghost middle = *self;
            let ghost rest = children@.subrange(i as int, children@.len() as int);
            let ghost done = children@.subrange(0, i as int);
            proof {
                middle.lemma_culling_child(old(self), pid, rest);
            }
            self.kill_process_recursive(child);
            proof {
                self.lemma_culling_step(&middle, old(self), pid, rest);
                self.lemma_culling_events(&middle, old(self), pid, rest, done);
                assert(rest.drop_first() =~= children@.subrange(i + 1, children@.len() as int));
                assert(done.push(rest[0]) =~= children@.subrange(0, i + 1));
            }
            i += 1;
        }
        let ghost last = *self;
        proof {
            reveal(Kernel::culling);
            assert(children@.subrange(i as int, children@.len() as int) =~= Seq::<u16>::empty());
            assert(children@.subrange(0, i as int) =~= children@);
        }
        self.kill_process(pid);
        proof {
            lemma_deaths_add(burials(old(self).processes(), children@, 31), seq![pid]);
            assert(deaths(seq![pid]) =~= seq![GameEvent::Kill { pid }]);
            assert(self.events() =~= old(self).events() + deaths(
                burial(old(self).processes(), pid, 32),
            ));
            self.lemma_culling_end(&last, old(self), pid);
        }
    }

    /// Whether nothing that can be seen of this kernel differs from
    /// `before`.
    pub open spec fn same_as(&self, before: &Kernel) -> bool {
        &&& self.processes() == before.processes()
        &&& self.users() == before.users()
        &&& self.map().cells() == before.map().cells()
        &&& self.map().locations() == before.map().locations()
        &&& self.events() == before.events()
        &&& self.generations() == before.generations()
        &&& self.config() == before.config()
        &&& self.chance() == before.chance()
    }

    /// A pid that no process has: one drawn at random, or, after a number
    /// of unlucky draws, the lowest. There is none only if all are taken.
    pub fn allocate_pid(&self) -> (pid: Option<u16>)
        ensures
            match pid {
                Some(pid) => 1 <= pid <= 65534 && !self.processes().contains_key(pid),
                None => forall|pid: u16|
                    1 <= pid <= 65534 ==> #[trigger] self.processes().contains_key(pid),
            },
    {
        let mut tries: usize = 0;
        while tries < PID_DRAWS
            invariant
                tries <= PID_DRAWS,
            decreases PID_DRAWS - tries,
        {
            let candidate = self.chance.between(1, 65534) as u16;
            if !self.has_process(candidate) {
                return Some(candidate);
            }
            tries += 1;
        }
        let mut candidate: u16 = 1;
        while candidate <= 65534
            invariant
                1 <= candidate <= 65535,
                forall|pid: u16|
                    1 <= pid < candidate ==> #[trigger] self.processes().contains_key(pid),
            decreases 65535 - candidate,
        {
            if !self.has_process(candidate) {
                return Some(candidate);
            }
            candidate += 1;
        }
        None
    }

    /// Whether a process may fork: its owner has room for another process
    /// and it has at least two ticks left to live.
    pub open spec fn can_fork(&self, pid: u16) -> bool {
        &&& self.users()[self.processes()[pid].uid].num_processes < self.config().max_processes
        &&& self.processes()[pid].lifetime >= 2
    }

    /// Whether this kernel has come from `before` by `pid` forking `child`
    /// onto the cell at `location`.
    pub open spec fn forked_from(
        &self,
        before: &Kernel,
        pid: u16,
        child: u16,
        location: Location,
    ) -> bool {
        let uid = before.processes()[pid].uid;
        &&& self.processes() == forked(before.processes(), pid, child)
        &&& self.users() == before.users().insert(
            uid,
            User {
                num_processes: (before.users()[uid].num_processes + 1) as usize,
                ..before.users()[uid]
            },
        )
        &&& self.map().locations() == before.map().locations().insert(child, location)
        &&& self.map().cells() == GameMap::with_cell(
            before.map().cells(),
            location,
            before.map().cell(location).with_occupant(Some(child)),
        )
        &&& self.events() == before.events().push(
            GameEvent::NewProcess { uid, ppid: Some(pid), pid: child, location },
        )
        &&& self.config() == before.config()
        &&& self.chance() == before.chance()
    }

    /// The fork itself, once it is settled where the child stands and which
    /// pid it gets.
    pub fn fork_at(&mut self, pid: u16, child_location: Location, child_pid: u16)
        requires
            old(self).wf(),
            old(self).processes().contains_key(pid),
            old(self).can_fork(pid),
            old(self).map().cell(child_location).kind() == CellType::Land,
            old(self).map().cell(child_location).occupant() is None,
            1 <= child_pid <= 65534,
            !old(self).processes().contains_key(child_pid),
        ensures
            final(self).wf(),
            final(self).forked_from(old(self), pid, child_pid, child_location),
    {
        broadcast use vstd::std_specs::hash::group_hash_axioms;
        broadcast use {MapCell::lemma_with_occupant, MapCell::lemma_with_challenge};

        reveal(Kernel::placed);
        reveal(Kernel::owned_up);
        reveal(Kernel::related);
        reveal(Kernel::ranked);
        let ghost before = old(self).processes();
        proof {
            GameMap::lemma_with_cell(
                self.map().cells(),
                child_location,
                self.map().cell(child_location).with_occupant(Some(child_pid)),
            );
            lemma_lifetime_cap(self.generations()[pid]);
        }
        self.game_map.add_process_to_map(child_pid, child_location);
        let mut parent_process = self.process_table.remove(&pid).unwrap();
        let half_lifetime = parent_process.lifetime / 2;
        if !parent_process.is_init() {
            parent_process.lifetime -= half_lifetime;
        }
        parent_process.children.push(child_pid);
        let uid = parent_process.uid;
        let mut child_process = Process {
            pid: child_pid,
            ppid: Some(pid),
            children: Vec::new(),
            uid,
            lifetime: half_lifetime,
            nice: 0,
            emulator: parent_process.emulator.duplicate(),
        };
        self.events.push(
            GameEvent::NewProcess { uid, ppid: Some(pid), pid: child_pid, location: child_location },
        );
        child_process.emulator.set_syscall_return_value(0xffff);
        self.process_table.insert(pid, parent_process);
        self.process_table.insert(child_pid, child_process);
        let mut user = *self.user_table.get(&uid).unwrap();
        user.num_processes = user.num_processes + 1;
        self.user_table.insert(uid, user);
        proof {
            self.generations@ = self.generations@.insert(
                child_pid,
                self.generations@[pid] + 1,
            );
            assert(self.processes() =~= forked(before, pid, child_pid));
            assert(self.process_table@.dom() =~= old(self).process_table@.dom().insert(child_pid));
            assert(self.sound());
            assert(self.placed());
            assert forall|other: u16| #[trigger] self.users().contains_key(other) implies {
                self.users()[other].num_processes == owned(self.processes(), other).len()
            } by {
                assert(owned(before, other).finite()) by {
                    assert(before.dom() =~= old(self).process_table@.dom());
                }
                if other == uid {
                    assert(owned(self.processes(), other) =~= owned(before, other).insert(
                        child_pid,
                    ));
                } else {
                    assert(owned(self.processes(), other) =~= owned(before, other));
                }
            }
            assert(self.owned_up()) by {
                assert forall|other: u16| #[trigger]
                    self.processes().contains_key(other) implies {
                    &&& self.users().contains_key(self.processes()[other].uid)
                    &&& self.processes()[other].is_init() ==> self.users()[self.processes()[other].uid].initd_pid
                        == Some(other)
                } by {
                    if other != child_pid {
                        assert(before.contains_key(other));
                    }
                }
                assert forall|other: u16| #[trigger] self.users().contains_key(other) implies {
                    &&& self.users()[other].uid == other
                    &&& self.users()[other].num_processes == owned(self.processes(), other).len()
                    &&& self.users()[other].initd_pid matches Some(init) ==> {
                        &&& self.processes().contains_key(init)
                        &&& self.processes()[init].uid == other
                        &&& self.processes()[init].is_init()
                    }
                } by {
                    assert(old(self).users().contains_key(other));
                }
            }
            assert(self.related()) by {
                assert(!before[pid].children.contains(child_pid)) by {
                    if before[pid].children.contains(child_pid) {
                        let i = choose|i: int|
                            0 <= i < before[pid].children.len() && before[pid].children[i]
                                == child_pid;
                        assert(before.contains_key(before[pid].children[i]));
                    }
                }
                assert forall|other: u16| #[trigger]
                    self.processes().contains_key(other) implies {
                    &&& self.processes()[other].children.no_duplicates()
                    &&& self.processes()[other].ppid matches Some(parent) ==> {
                        &&& self.processes().contains_key(parent)
                        &&& self.processes()[parent].children.contains(other)
                        &&& self.processes()[parent].uid == self.processes()[other].uid
                    }
                } by {
                    let grown = before[pid].children.push(child_pid);
                    assert(grown[grown.len() - 1] == child_pid);
                    if other != child_pid {
                        assert(before.contains_key(other));
                        if let Some(parent) = before[other].ppid {
                            if parent == pid {
                                let i = choose|i: int|
                                    0 <= i < before[pid].children.len() && before[pid].children[i]
                                        == other;
                                assert(grown[i] == other);
                            }
                        }
                    }
                }
                assert forall|other: u16, i: int|
                    self.processes().contains_key(other) && 0 <= i
                        < self.processes()[other].children.len() implies {
                    &&& self.processes().contains_key(
                        #[trigger] self.processes()[other].children[i],
                    )
                    &&& self.processes()[self.processes()[other].children[i]].ppid == Some(other)
                } by {
                    if other == pid {
                        if i < before[pid].children.len() {
                            assert(before.contains_key(before[pid].children[i]));
                        }
                    } else {
                        assert(before.contains_key(before[other].children[i]));
                    }
                }
            }
            assert(self.ranked()) by {
                assert forall|other: u16| #[trigger]
                    self.processes().contains_key(other) implies {
                    &&& self.generations().contains_key(other)
                    &&& self.generations()[other] <= 31
                    &&& self.processes()[other].lifetime <= lifetime_cap(self.generations()[other])
                    &&& match self.processes()[other].ppid {
                        None => self.generations()[other] == 0,
                        Some(parent) => self.generations().contains_key(parent)
                            && self.generations()[parent] < self.generations()[other],
                    }
                } by {
                    if other != child_pid {
                        assert(before.contains_key(other));
                    }
                }
            }
        }
    }

    /// A fork: where the owner has room for another process and the parent
    /// at least two ticks to live, an empty cell is looked for within two
    /// steps of the parent, in up to five draws, and a fresh pid is taken
    /// for the child. The result is the child's pid; without one, nothing
    /// has changed.
    pub fn fork_process(&mut self, pid: u16) -> (child: Option<u16>)
        requires
            old(self).wf(),
            old(self).processes().contains_key(pid),
        ensures
            final(self).wf(),
            !old(self).can_fork(pid) ==> child is None,
            child is None ==> final(self).same_as(old(self)),
            old(self).can_fork(pid) ==> exists|offsets: Seq<(i8, i8)>, hit: Option<Location>|
                {
                    &&& #[trigger] old(self).map().searched(
                        old(self).map().locations()[pid],
                        5,
                        2,
                        old(self).chance(),
                        offsets,
                        hit,
                    )
                    &&& match hit {
                        None => child is None,
                        Some(location) => match child {
                            Some(child_pid) => final(self).forked_from(
                                old(self),
                                pid,
                                child_pid,
                                location,
                            ),
                            None => forall|q: u16|
                                1 <= q <= 65534 ==> #[trigger] old(self).processes().contains_key(q),
                        },
                    }
                },
            child matches Some(child_pid) ==> {
                &&& old(self).can_fork(pid)
                &&& 1 <= child_pid <= 65534
                &&& !old(self).processes().contains_key(child_pid)
                &&& exists|location: Location|
                    {
                        &&& old(self).map().cell(location).empty()
                        &&& GameMap::near(old(self).map().locations()[pid], location, 2)
                        &&& #[trigger] final(self).forked_from(old(self), pid, child_pid, location)
                    }
            },
    {
        if self.get_owner_user(pid).num_processes >= self.config.max_processes || self.get_process(
            pid,
        ).lifetime < 2 {
            return None;
        }
        let parent_location = self.get_process_location(pid);
        proof {
            reveal(Kernel::placed);
        }
        let found = self.game_map.find_empty_location_nearby(parent_location, 5, 2, &self.chance);
        let ghost offsets = choose|offsets: Seq<(i8, i8)>| #[trigger]
            self.map().searched(parent_location, 5, 2, self.chance(), offsets, found);
        let child_location = match found {
            None => {
                proof {
                    assert(old(self).map().searched(
                        old(self).map().locations()[pid],
                        5,
                        2,
                        old(self).chance(),
                        offsets,
                        None,
                    ));
                }
                return None;
            },
            Some(location) => location,
        };
        proof {
            self.map().lemma_searched(
                parent_location,
                5,
                2,
                self.chance(),
                offsets,
                child_location,
            );
            assert(old(self).map().searched(
                old(self).map().locations()[pid],
                5,
                2,
                old(self).chance(),
                offsets,
                Some(child_location),
            ));
        }
        let child_pid = match self.allocate_pid() {
            None => {
                return None;
            },
            Some(pid) => pid,
        };
        self.fork_at(pid, child_location, child_pid);
        Some(child_pid)
    }

    /// Why a user cannot be set up, if there is a reason that does not
    /// depend on which pids are free.
    pub open spec fn setup_obstacle(&self, config: &UserConfiguration) -> Option<SetupError> {
        if config.initd_memory@.len() != 65536 || config.initd_bytecode@.len() != 65536 {
            Some(SetupError::BadImage)
        } else if self.users().contains_key(config.uid) {
            Some(SetupError::DuplicateUser)
        } else if !self.map().can_host(config.spawn_point) {
            Some(SetupError::SpawnBlocked)
        } else {
            None
        }
    }

    /// Whether a user cannot be set up for the reason given: the reason is
    /// the obstacle that stands in the way, or there is no obstacle and no
    /// pid from 1 to 65534 is free.
    pub open spec fn refuses(&self, config: &UserConfiguration, error: SetupError) -> bool {
        match self.setup_obstacle(config) {
            Some(obstacle) => error == obstacle,
            None => {
                &&& error == SetupError::NoFreePid
                &&& forall|q: u16| 1 <= q <= 65534 ==> #[trigger] self.processes().contains_key(q)
            },
        }
    }

    /// Whether this kernel has come from `before` by setting up a user
    /// whose first process got the pid `pid`.
    pub open spec fn joined_from(&self, before: &Kernel, config: &UserConfiguration, pid: u16) -> bool {
        &&& self.processes() == before.processes().insert(
            pid,
            ProcessView {
                pid,
                ppid: None,
                children: Seq::empty(),
                uid: config.uid,
                lifetime: before.config().initd_lifetime,
                nice: before.config().default_nice,
                emulator: fresh_machine(config.initd_memory@, config.initd_bytecode@),
            },
        )
        &&& self.users().dom() == before.users().dom().insert(config.uid)
        &&& forall|uid: u16| #[trigger]
            before.users().contains_key(uid) ==> self.users()[uid] == before.users()[uid]
        &&& self.users()[config.uid].uid == config.uid
        &&& self.users()[config.uid].initd_pid == Some(pid)
        &&& self.users()[config.uid].score == 0
        &&& self.users()[config.uid].num_processes == 1
        &&& self.users()[config.uid].wallet@ == Wallet::holding(1337, -690i64, 128, 0, 0, 1)
        &&& self.map().locations() == before.map().locations().insert(pid, config.spawn_point)
        &&& self.map().cells() == GameMap::with_cell(
            before.map().cells(),
            config.spawn_point,
            before.map().cell(config.spawn_point).with_occupant(Some(pid)),
        )
        &&& self.events() == before.events().push(
            GameEvent::NewProcess {
                uid: config.uid,
                ppid: None,
                pid,
                location: config.spawn_point,
            },
        )
        &&& self.config() == before.config()
        &&& self.chance() == before.chance()
    }

    /// Sets up one user: their first process gets a fresh pid, the images
    /// given, and the cell to start on; the user gets the welcome pack.
    /// Where that cannot be, nothing changes.
    pub fn add_user(&mut self, config: UserConfiguration) -> (res: Result<u16, SetupError>)
        requires
            old(self).wf(),
        ensures
            final(self).wf(),
            match res {
                Ok(pid) => {
                    &&& old(self).setup_obstacle(&config) is None
                    &&& 1 <= pid <= 65534
                    &&& !old(self).processes().contains_key(pid)
                    &&& final(self).joined_from(old(self), &config, pid)
                },
                Err(error) => {
                    &&& final(self).same_as(old(self))
                    &&& old(self).refuses(&config, error)
                },
            },
    {
        broadcast use vstd::std_specs::hash::group_hash_axioms;
        broadcast use {MapCell::lemma_with_occupant, MapCell::lemma_with_challenge};

        reveal(Kernel::placed);
        reveal(Kernel::owned_up);
        reveal(Kernel::related);
        reveal(Kernel::ranked);
        if config.initd_memory.len() != 65536 || config.initd_bytecode.len() != 65536 {
            return Err(SetupError::BadImage);
        }
        if self.has_user(config.uid) {
            return Err(SetupError::DuplicateUser);
        }
        let spawn_point = config.spawn_point;
        let cell = self.game_map.get_cell(spawn_point);
        if cell.is_wall() || cell.get_process().is_some() {
            return Err(SetupError::SpawnBlocked);
        }
        let pid = match self.allocate_pid() {
            None => {
                return Err(SetupError::NoFreePid);
            },
            Some(pid) => pid,
        };
        let ghost before = old(self).processes();
        let ghost images = (config.initd_memory@, config.initd_bytecode@);
        let uid = config.uid;
        let initd_process = Process {
            pid,
            ppid: None,
            children: Vec::new(),
            uid,
            lifetime: self.config.initd_lifetime,
            nice: self.config.default_nice,
            emulator: Emulator::new(config.initd_memory, config.initd_bytecode),
        };
        proof {
            GameMap::lemma_with_cell(
                self.map().cells(),
                spawn_point,
                self.map().cell(spawn_point).with_occupant(Some(pid)),
            );
        }
        self.process_table.insert(pid, initd_process);
        self.game_map.add_process_to_map(pid, spawn_point);
        self.events.push(GameEvent::NewProcess { uid, ppid: None, pid, location: spawn_point });
        let user = User {
            uid,
            initd_pid: Some(pid),
            score: 0,
            num_processes: 1,
            wallet: Wallet::get_newbie_welcome_pack(),
        };
        self.user_table.insert(uid, user);
        proof {
            self.generations@ = self.generations@.insert(pid, 0);
            assert(self.processes() =~= before.insert(pid, self.processes()[pid]));
            assert(self.process_table@.dom() =~= old(self).process_table@.dom().insert(pid));
            assert(self.users().dom() =~= old(self).users().dom().insert(uid));
            assert(self.sound());
            assert(self.placed());
            assert forall|other: u16| before.contains_key(other) implies before[other].uid
                != uid by {
                assert(old(self).users().contains_key(before[other].uid));
            }
            assert forall|other: u16| #[trigger] self.users().contains_key(other) implies {
                self.users()[other].num_processes == owned(self.processes(), other).len()
            } by {
                if other == uid {
                    assert(owned(self.processes(), other) =~= Set::<u16>::empty().insert(pid));
                } else {
                    assert(owned(self.processes(), other) =~= owned(before, other));
                }
            }
            assert(self.owned_up()) by {
                assert forall|other: u16| #[trigger]
                    self.processes().contains_key(other) implies {
                    &&& self.users().contains_key(self.processes()[other].uid)
                    &&& self.processes()[other].is_init() ==> self.users()[self.processes()[other].uid].initd_pid
                        == Some(other)
                } by {
                    if other != pid {
                        assert(before.contains_key(other));
                    }
                }
                assert forall|other: u16| #[trigger] self.users().contains_key(other) implies {
                    &&& self.users()[other].uid == other
                    &&& self.users()[other].num_processes == owned(self.processes(), other).len()
                    &&& self.users()[other].initd_pid matches Some(init) ==> {
                        &&& self.processes().contains_key(init)
                        &&& self.processes()[init].uid == other
                        &&& self.processes()[init].is_init()
                    }
                } by {
                    if other != uid {
                        assert(old(self).users().contains_key(other));
                    }
                }
            }
            assert(self.related()) by {
                assert forall|other: u16| #[trigger]
                    self.processes().contains_key(other) implies {
                    &&& self.processes()[other].children.no_duplicates()
                    &&& self.processes()[other].ppid matches Some(parent) ==> {
                        &&& self.processes().contains_key(parent)
                        &&& self.processes()[parent].children.contains(other)
                        &&& self.processes()[parent].uid == self.processes()[other].uid
                    }
                } by {
                    if other != pid {
                        assert(before.contains_key(other));
                    }
                }
                assert forall|other: u16, i: int|
                    self.processes().contains_key(other) && 0 <= i
                        < self.processes()[other].children.len() implies {
                    &&& self.processes().contains_key(
                        #[trigger] self.processes()[other].children[i],
                    )
                    &&& self.processes()[self.processes()[other].children[i]].ppid == Some(other)
                } by {
                    assert(before.contains_key(before[other].children[i]));
                }
            }
            assert(self.ranked()) by {
                assert forall|other: u16| #[trigger]
                    self.processes().contains_key(other) implies {
                    &&& self.generations().contains_key(other)
                    &&& self.generations()[other] <= 31
                    &&& self.processes()[other].lifetime <= lifetime_cap(self.generations()[other])
                    &&& match self.processes()[other].ppid {
                        None => self.generations()[other] == 0,
                        Some(parent) => self.generations().contains_key(parent)
                            && self.generations()[parent] < self.generations()[other],
                    }
                } by {
                    if other != pid {
                        assert(before.contains_key(other));
                    }
                }
            }
        }
        Ok(pid)
    }

    /// Sets up the users, one after another. The first that cannot be set up
    /// ends it; those before it stay.
    pub fn setup_users(&mut self, user_configs: Vec<UserConfiguration>) -> (res: Result<
        (),
        SetupError,
    >)
        requires
            old(self).wf(),
        ensures
            final(self).wf(),
            final(self).config() == old(self).config(),
            final(self).chance() == old(self).chance(),
            old(self).events().is_prefix_of(final(self).events()),
            forall|pid: u16| #[trigger]
                old(self).processes().contains_key(pid) ==> final(self).processes().contains_key(pid)
                    && final(self).processes()[pid] == old(self).processes()[pid],
            forall|uid: u16| #[trigger]
                old(self).users().contains_key(uid) ==> final(self).users().contains_key(uid)
                    && final(self).users()[uid] == old(self).users()[uid],
            res is Ok ==> final(self).seated_first(user_configs@, user_configs@.len() as int),
            res matches Err(error) ==> exists|count: int|
                {
                    &&& 0 <= count < user_configs@.len()
                    &&& #[trigger] final(self).seated_first(user_configs@, count)
                    &&& final(self).refuses(&user_configs@[count], error)
                },
            exists|pids: Seq<u16>, states: Seq<Kernel>| #[trigger]
                final(self).set_up_from(old(self), user_configs@, pids, states, res),
    {
        let ghost all = user_configs@;
        let mut pending = user_configs;
        let ghost mut done: int = 0;
        let ghost mut pids: Seq<u16> = Seq::empty();
        let ghost mut states: Seq<Kernel> = seq![*self];
        while pending.len() > 0
            invariant
                self.wf(),
                pids.len() == done,
                states.len() == done + 1,
                states[0] == *old(self),
                states[done] == *self,
                forall|i: int| 0 <= i < done ==> #[trigger] Kernel::seat_taken(states, all, pids, i),
                all == user_configs@,
                self.config() == old(self).config(),
                self.chance() == old(self).chance(),
                old(self).events().is_prefix_of(self.events()),
                0 <= done <= all.len(),
                pending@ == all.subrange(done, all.len() as int),
                forall|pid: u16| #[trigger]
                    old(self).processes().contains_key(pid) ==> self.processes().contains_key(pid)
                        && self.processes()[pid] == old(self).processes()[pid],
                forall|uid: u16| #[trigger]
                    old(self).users().contains_key(uid) ==> self.users().contains_key(uid)
                        && self.users()[uid] == old(self).users()[uid],
                forall|i: int| 0 <= i < done ==> self.seated(#[trigger] all[i]),
            decreases pending@.len(),
        {
            let config = pending.remove(0);
            let ghost middle = *self;
            assert(config == all[done]);
            match self.add_user(config) {
                Err(error) => {
                    proof {
                        assert forall|i: int| 0 <= i < done implies self.seated(
                            #[trigger] all[i],
                        ) by {
                            assert(middle.seated(all[i]));
                        }
                        assert(self.seated_first(all, done));
                        assert(self.map().cell(all[done].spawn_point) == middle.map().cell(
                            all[done].spawn_point,
                        ));
                        assert(self.refuses(&all[done], error));
                        assert(self.set_up_from(old(self), all, pids, states, Err(error)));
                    }
                    return Err(error);
                },
                Ok(pid) => {
                    proof {
                        assert forall|i: int| 0 <= i < done + 1 implies self.seated(
                            #[trigger] all[i],
                        ) by {
                            if i < done {
                                assert(middle.seated(all[i]));
                                let init = middle.users()[all[i].uid].initd_pid.unwrap();
                                assert(self.processes()[init] == middle.processes()[init]);
                            }
                        }
                        assert(pending@ =~= all.subrange(done + 1, all.len() as int));
                        let longer = states.push(*self);
                        let more = pids.push(pid);
                        assert forall|i: int| 0 <= i < done + 1 implies #[trigger] Kernel::seat_taken(
                            longer,
                            all,
                            more,
                            i,
                        ) by {
                            assert(longer[i] == states[i]);
                            if i < done {
                                assert(longer[i + 1] == states[i + 1]);
                                assert(more[i] == pids[i]);
                                assert(Kernel::seat_taken(states, all, pids, i));
                            } else {
                                assert(longer[i + 1] == *self);
                                assert(more[i] == pid);
                                assert(states[i] == middle);
                            }
                        }
                        states = longer;
                        pids = more;
                        done = done + 1;
                    }
                },
            }
        }
        proof {
            assert(self.set_up_from(old(self), all, pids, states, Ok(())));
        }
        Ok(())
    }

    /// Whether the `i`th user took their seat: nothing stood in the way,
    /// the pid was free, and the next kernel has come from this one by
    /// setting that user up with that pid.
    pub open spec fn seat_taken(
        states: Seq<Kernel>,
        configs: Seq<UserConfiguration>,
        pids: Seq<u16>,
        i: int,
    ) -> bool {
        &&& states[i].wf()
        &&& states[i].setup_obstacle(&configs[i]) is None
        &&& 1 <= pids[i] <= 65534
        &&& !states[i].processes().contains_key(pids[i])
        &&& states[i + 1].joined_from(&states[i], &configs[i], pids[i])
    }

    /// Whether this kernel has come from `before` by setting up users one
    /// after another: as many as there are pids took their seats, each
    /// with its pid, and nothing else happened. On success these are all
    /// the users; on failure the next user is refused for the reason given.
    pub open spec fn set_up_from(
        &self,
        before: &Kernel,
        configs: Seq<UserConfiguration>,
        pids: Seq<u16>,
        states: Seq<Kernel>,
        res: Result<(), SetupError>,
    ) -> bool {
        &&& pids.len() <= configs.len()
        &&& states.len() == pids.len() + 1
        &&& states[0] == *before
        &&& forall|i: int|
            0 <= i < pids.len() ==> #[trigger] Kernel::seat_taken(states, configs, pids, i)
        &&& states[pids.len() as int].wf()
        &&& self.same_as(&states[pids.len() as int])
        &&& match res {
            Ok(_) => pids.len() == configs.len(),
            Err(error) => pids.len() < configs.len() && states[pids.len() as int].refuses(
                &configs[pids.len() as int],
                error,
            ),
        }
    }

    /// Whether the first `count` of the users have been set up.
    pub open spec fn seated_first(&self, configs: Seq<UserConfiguration>, count: int) -> bool {
        forall|i: int| 0 <= i < count ==> self.seated(#[trigger] configs[i])
    }

    /// Whether a user has been set up as the configuration says and has
    /// not been touched since: their first process stands where it was to
    /// start, with the images given and everything else at rest.
    pub open spec fn seated(&self, config: UserConfiguration) -> bool {
        &&& self.users().contains_key(config.uid)
        &&& self.users()[config.uid].initd_pid is Some
        &&& self.users()[config.uid].num_processes == 1
        &&& self.users()[config.uid].score == 0
        &&& self.users()[config.uid].wallet@ == Wallet::holding(1337, -690i64, 128, 0, 0, 1)
        &&& {
            let pid = self.users()[config.uid].initd_pid.unwrap();
            &&& self.processes().contains_key(pid)
            &&& self.processes()[pid] == (ProcessView {
                pid,
                ppid: None,
                children: Seq::empty(),
                uid: config.uid,
                lifetime: self.config().initd_lifetime,
                nice: self.config().default_nice,
                emulator: fresh_machine(config.initd_memory@, config.initd_bytecode@),
            })
            &&& self.map().locations().contains_key(pid)
            &&& self.map().locations()[pid] == config.spawn_point
        }
    }

    /// The pids of all processes, each once, in no particular order.
    pub fn live_pids(&self) -> (pids: Vec<u16>)
        ensures
            pids@.no_duplicates(),
            pids@.to_set() == self.processes().dom(),
    {
        broadcast use vstd::std_specs::hash::group_hash_axioms;
        broadcast use vstd::std_specs::hash::axiom_spec_keys_iter;

        let mut pids: Vec<u16> = Vec::new();
        for key in iter: self.process_table.keys()
            invariant
                pids@.len() == iter.index(),
                forall|i: int| 0 <= i < pids@.len() ==> pids@[i] == *iter.seq()[i],
        {
            pids.push(*key);
        }
        assert(pids@ =~= vstd::std_specs::iter::IteratorSpec::remaining(
            &vstd::std_specs::hash::spec_keys_iter(&self.process_table),
        ).unref());
        assert(self.processes().dom() =~= self.process_table@.dom());
        pids
    }

    /// Whether the process `first` runs before the process `second`.
    pub fn goes_before(&self, first: u16, second: u16) -> (before: bool)
        requires
            self.processes().contains_key(first),
            self.processes().contains_key(second),
        ensures
            before == runs_before(self.processes()[first], self.processes()[second]),
    {
        let one = self.get_process(first);
        let other = self.get_process(second);
        one.nice > other.nice || (one.nice == other.nice && one.pid < other.pid)
    }

    /// The pids of all processes in the order in which they run within a
    /// tick: by niceness, the nicest first, and by pid where that is equal.
    pub fn execution_order(&self) -> (order: Vec<u16>)
        requires
            self.wf(),
        ensures
            order@.no_duplicates(),
            order@.to_set() == self.processes().dom(),
            in_running_order(self.processes(), order@),
    {
        let pids = self.live_pids();
        let mut order: Vec<u16> = Vec::new();
        let mut i: usize = 0;
        assert(order@.to_set() =~= pids@.subrange(0, 0).to_set());
        while i < pids.len()
            invariant
                self.wf(),
                i <= pids@.len(),
                pids@.no_duplicates(),
                pids@.to_set() == self.processes().dom(),
                order@.no_duplicates(),
                order@.to_set() == pids@.subrange(0, i as int).to_set(),
                in_running_order(self.processes(), order@),
            decreases pids@.len() - i,
        {
            let pid = pids[i];
            proof {
                reveal(Kernel::placed);
                assert(pids@.to_set().contains(pid));
                assert(!order@.contains(pid)) by {
                    if order@.contains(pid) {
                        assert(order@.to_set().contains(pid));
                        assert(pids@.subrange(0, i as int).contains(pid));
                        let k = choose|k: int|
                            0 <= k < i && pids@.subrange(0, i as int)[k] == pid;
                        assert(pids@[k] == pids@[i as int]);
                    }
                }
            }
            proof {
                assert forall|j: int| 0 <= j < order@.len() implies self.processes().contains_key(
                    #[trigger] order@[j],
                ) by {
                    assert(order@.to_set().contains(order@[j]));
                    assert(pids@.subrange(0, i as int).contains(order@[j]));
                    let c = choose|c: int| 0 <= c < i && pids@.subrange(0, i as int)[c] == order@[j];
                    assert(pids@[c] == order@[j]);
                    assert(pids@.to_set().contains(pids@[c]));
                }
            }
            let mut k: usize = 0;
            while k < order.len() && self.goes_before(order[k], pid)
                invariant
                    self.wf(),
                    k <= order@.len(),
                    self.processes().contains_key(pid),
                    forall|j: int|
                        0 <= j < order@.len() ==> self.processes().contains_key(#[trigger] order@[j]),
                    forall|j: int|
                        0 <= j < k ==> runs_before(
                            self.processes()[#[trigger] order@[j]],
                            self.processes()[pid],
                        ),
                decreases order@.len() - k,
            {
                k += 1;
            }
            let ghost before = order@;
            order.insert(k, pid);
            proof {
                reveal(Kernel::placed);
                assert(order@ == before.insert(k as int, pid));
                assert forall|a: int, b: int| 0 <= a < b < order@.len() implies runs_before(
                    self.processes()[#[trigger] order@[a]],
                    self.processes()[#[trigger] order@[b]],
                ) by {
                    if b == k {
                        assert(order@[a] == before[a]);
                    } else if a == k {
                        assert(order@[b] == before[b - 1]);
                        assert(self.processes().contains_key(before[k as int]));
                        if b - 1 > k {
                            assert(runs_before(
                                self.processes()[before[k as int]],
                                self.processes()[before[b - 1]],
                            ));
                        }
                    } else {
                        let a0 = if a < k {
                            a
                        } else {
                            a - 1
                        };
                        let b0 = if b < k {
                            b
                        } else {
                            b - 1
                        };
                        assert(order@[a] == before[a0]);
                        assert(order@[b] == before[b0]);
                    }
                }
                assert forall|a: int, b: int|
                    0 <= a < order@.len() && 0 <= b < order@.len() && a != b implies order@[a]
                    != order@[b] by {
                    let a0 = if a < k {
                        a
                    } else {
                        a - 1
                    };
                    let b0 = if b < k {
                        b
                    } else {
                        b - 1
                    };
                    if a == k {
                        assert(before.contains(before[b0]));
                    } else if b == k {
                        assert(before.contains(before[a0]));
                    } else {
                        assert(order@[a] == before[a0]);
                        assert(order@[b] == before[b0]);
                    }
                }
                let grown = pids@.subrange(0, i + 1);
                assert(order@.to_set() =~= grown.to_set()) by {
                    assert forall|q: u16| order@.to_set().contains(q) <==> grown.to_set().contains(q) by {
                        if order@.contains(q) {
                            let a = choose|a: int| 0 <= a < order@.len() && order@[a] == q;
                            if a == k {
                                assert(grown[i as int] == q);
                            } else {
                                let a0 = if a < k {
                                    a
                                } else {
                                    a - 1
                                };
                                assert(before[a0] == q);
                                assert(before.to_set().contains(q));
                                assert(pids@.subrange(0, i as int).contains(q));
                                let c = choose|c: int|
                                    0 <= c < i && pids@.subrange(0, i as int)[c] == q;
                                assert(grown[c] == q);
                            }
                        }
                        if grown.contains(q) {
                            let c = choose|c: int|
                                0 <= c < i + 1 && grown[c] == q;
                            if c == i {
                                assert(order@[k as int] == q);
                            } else {
                                assert(pids@.subrange(0, i as int)[c] == q);
                                assert(pids@.subrange(0, i as int).to_set().contains(q));
                                assert(before.contains(q));
                                let a0 = choose|a0: int| 0 <= a0 < before.len() && before[a0] == q;
                                if a0 < k {
                                    assert(order@[a0] == q);
                                } else {
                                    assert(order@[a0 + 1] == q);
                                }
                            }
                        }
                    }
                }
            }
            i += 1;
        }
        assert(pids@.subrange(0, i as int) =~= pids@);
        order
    }

    /// Whether this kernel differs from `before` in one process at most,
    /// which is now `now`, and in what has been logged since.
    pub open spec fn touched_from(
        &self,
        before: &Kernel,
        pid: u16,
        now: ProcessView,
        logged: Seq<GameEvent>,
    ) -> bool {
        &&& self.processes() == before.processes().insert(pid, now)
        &&& self.users() == before.users()
        &&& self.map().cells() == before.map().cells()
        &&& self.map().locations() == before.map().locations()
        &&& self.events() == before.events() + logged
        &&& self.generations() == before.generations()
        &&& self.config() == before.config()
        &&& self.chance() == before.chance()
    }

    /// Whether this kernel is `before` with one process taken out of the
    /// table for a while; more may have been logged since.
    pub closed spec fn lacks(&self, before: &Kernel, pid: u16) -> bool {
        &&& self.process_table@ == before.process_table@.remove(pid)
        &&& self.user_table@ == before.user_table@
        &&& self.game_map == before.game_map
        &&& self.config == before.config
        &&& self.chance == before.chance
        &&& self.generations@ == before.generations@
        &&& before.events@.is_prefix_of(self.events@)
    }

    /// Takes a process out of the table, to be worked on and put back.
    pub(crate) fn checkout(&mut self, pid: u16) -> (process: Process)
        requires
            old(self).wf(),
            old(self).processes().contains_key(pid),
        ensures
            process@ == old(self).processes()[pid],
            process.pid == pid,
            process.emulator.wf(),
            final(self).lacks(old(self), pid),
            final(self).events() == old(self).events(),
            final(self).chance() == old(self).chance(),
    {
        broadcast use vstd::std_specs::hash::group_hash_axioms;

        reveal(Kernel::placed);
        self.process_table.remove(&pid).unwrap()
    }

    /// Puts a process back that was taken out and worked on. The work may
    /// have changed its machine and its niceness, and may have shortened
    /// its life; nothing else.
    pub(crate) fn checkin(&mut self, Ghost(before): Ghost<&Kernel>, process: Process)
        requires
            before.wf(),
            before.processes().contains_key(process.pid),
            old(self).lacks(before, process.pid),
            process.emulator.wf(),
            process@.lifetime <= before.processes()[process.pid].lifetime,
            process@ == (ProcessView {
                emulator: process@.emulator,
                lifetime: process@.lifetime,
                nice: process@.nice,
                ..before.processes()[process.pid]
            }),
        ensures
            final(self).wf(),
            final(self).touched_from(
                before,
                process.pid,
                process@,
                old(self).events().skip(before.events().len() as int),
            ),
            final(self).events() == old(self).events(),
            old(self).events() == before.events() ==> final(self).touched_from(
                before,
                process.pid,
                process@,
                Seq::empty(),
            ),
    {
        broadcast use vstd::std_specs::hash::group_hash_axioms;

        reveal(Kernel::placed);
        reveal(Kernel::owned_up);
        reveal(Kernel::related);
        reveal(Kernel::ranked);
        let ghost pid = process.pid;
        let ghost view = process@;
        assert(before.events().skip(before.events().len() as int) =~= Seq::<GameEvent>::empty());
        self.process_table.insert(process.pid, process);
        proof {
            let was = before.processes();
            assert(self.processes() =~= was.insert(pid, view));
            assert(self.process_table@.dom() =~= before.process_table@.dom());
            assert(self.events() =~= before.events() + old(self).events().skip(
                before.events().len() as int,
            ));
            assert(self.sound());
            assert(self.placed());
            assert forall|uid: u16| owned(self.processes(), uid) == owned(was, uid) by {
                assert(owned(self.processes(), uid) =~= owned(was, uid));
            }
            assert(self.owned_up()) by {
                assert forall|other: u16| #[trigger]
                    self.processes().contains_key(other) implies {
                    &&& self.users().contains_key(self.processes()[other].uid)
                    &&& self.processes()[other].is_init() ==> self.users()[self.processes()[other].uid].initd_pid
                        == Some(other)
                } by {
                    assert(was.contains_key(other));
                }
                assert forall|other: u16| #[trigger] self.users().contains_key(other) implies {
                    &&& self.users()[other].uid == other
                    &&& self.users()[other].num_processes == owned(self.processes(), other).len()
                    &&& self.users()[other].initd_pid matches Some(init) ==> {
                        &&& self.processes().contains_key(init)
                        &&& self.processes()[init].uid == other
                        &&& self.processes()[init].is_init()
                    }
                } by {
                    assert(before.users().contains_key(other));
                }
            }
            assert(self.related()) by {
                assert forall|other: u16| #[trigger]
                    self.processes().contains_key(other) implies {
                    &&& self.processes()[other].children.no_duplicates()
                    &&& self.processes()[other].ppid matches Some(parent) ==> {
                        &&& self.processes().contains_key(parent)
                        &&& self.processes()[parent].children.contains(other)
                        &&& self.processes()[parent].uid == self.processes()[other].uid
                    }
                } by {
                    assert(was.contains_key(other));
                }
                assert forall|other: u16, i: int|
                    self.processes().contains_key(other) && 0 <= i
                        < self.processes()[other].children.len() implies {
                    &&& self.processes().contains_key(
                        #[trigger] self.processes()[other].children[i],
                    )
                    &&& self.processes()[self.processes()[other].children[i]].ppid == Some(other)
                } by {
                    assert(was.contains_key(was[other].children[i]));
                }
            }
            assert(self.ranked()) by {
                assert forall|other: u16| #[trigger]
                    self.processes().contains_key(other) implies {
                    &&& self.generations().contains_key(other)
                    &&& self.generations()[other] <= 31
                    &&& self.processes()[other].lifetime <= lifetime_cap(self.generations()[other])
                    &&& match self.processes()[other].ppid {
                        None => self.generations()[other] == 0,
                        Some(parent) => self.generations().contains_key(parent)
                            && self.generations()[parent] < self.generations()[other],
                    }
                } by {
                    assert(was.contains_key(other));
                }
            }
        }
    }

    /// Whether this kernel differs from `before` in one user at most, who is
    /// now `now`, and in what has been logged since.
    pub open spec fn settled_from(&self, before: &Kernel, now: User, logged: Seq<GameEvent>) -> bool {
        &&& self.processes() == before.processes()
        &&& self.users() == before.users().insert(now.uid, now)
        &&& self.map().cells() == before.map().cells()
        &&& self.map().locations() == before.map().locations()
        &&& self.events() == before.events() + logged
        &&& self.generations() == before.generations()
        &&& self.config() == before.config()
        &&& self.chance() == before.chance()
    }

    /// Files a user anew whose wallet or score has changed.
    pub(crate) fn update_user(&mut self, user: User)
        requires
            old(self).wf(),
            old(self).users().contains_key(user.uid),
            user.initd_pid == old(self).users()[user.uid].initd_pid,
            user.num_processes == old(self).users()[user.uid].num_processes,
        ensures
            final(self).wf(),
            final(self).settled_from(old(self), user, Seq::empty()),
    {
        broadcast use vstd::std_specs::hash::group_hash_axioms;

        reveal(Kernel::placed);
        reveal(Kernel::owned_up);
        reveal(Kernel::related);
        reveal(Kernel::ranked);
        self.user_table.insert(user.uid, user);
        proof {
            assert(self.processes() =~= old(self).processes());
            assert(self.events() =~= old(self).events() + Seq::<GameEvent>::empty());
            assert(self.owned_up()) by {
                assert forall|other: u16| #[trigger] self.users().contains_key(other) implies {
                    &&& self.users()[other].uid == other
                    &&& self.users()[other].num_processes == owned(self.processes(), other).len()
                    &&& self.users()[other].initd_pid matches Some(init) ==> {
                        &&& self.processes().contains_key(init)
                        &&& self.processes()[init].uid == other
                        &&& self.processes()[init].is_init()
                    }
                } by {
                    assert(old(self).users().contains_key(other));
                }
            }
        }
    }

    /// Whether this kernel differs from `before` only in what has been
    /// logged since.
    pub open spec fn logged_from(&self, before: &Kernel, logged: Seq<GameEvent>) -> bool {
        &&& self.processes() == before.processes()
        &&& self.users() == before.users()
        &&& self.map().cells() == before.map().cells()
        &&& self.map().locations() == before.map().locations()
        &&& self.events() == before.events() + logged
        &&& self.generations() == before.generations()
        &&& self.config() == before.config()
        &&& self.chance() == before.chance()
    }

    /// Logs an event.
    pub fn log(&mut self, event: GameEvent)
        requires
            old(self).wf(),
        ensures
            final(self).wf(),
            final(self).logged_from(old(self), seq![event]),
    {
        reveal(Kernel::placed);
        reveal(Kernel::owned_up);
        reveal(Kernel::related);
        reveal(Kernel::ranked);
        self.events.push(event);
        assert(self.events() =~= old(self).events() + seq![event]);
        assert(self.processes() =~= old(self).processes());
    }

    /// Whether this kernel differs from `before` only in the map and in
    /// what has been logged since.
    pub open spec fn remapped_from(&self, before: &Kernel, logged: Seq<GameEvent>) -> bool {
        &&& self.processes() == before.processes()
        &&& self.users() == before.users()
        &&& self.events() == before.events() + logged
        &&& self.generations() == before.generations()
        &&& self.config() == before.config()
        &&& self.chance() == before.chance()
    }

    /// One step of a process to a cell next to its own: the cell must be
    /// land on which nobody stands.
    pub fn move_process_to(&mut self, pid: u16, location: Location) -> (moved: bool)
        requires
            old(self).wf(),
            old(self).processes().contains_key(pid),
        ensures
            final(self).wf(),
            moved == (chebyshev(old(self).map().locations()[pid], location) == 1 && old(
                self,
            ).map().can_host(location)),
            moved ==> {
                &&& final(self).remapped_from(old(self), seq![GameEvent::Move { pid, location }])
                &&& final(self).map().locations() == old(self).map().locations().insert(
                    pid,
                    location,
                )
                &&& final(self).map().cells() == GameMap::with_cell(
                    GameMap::with_cell(
                        old(self).map().cells(),
                        old(self).map().locations()[pid],
                        old(self).map().cell(old(self).map().locations()[pid]).with_occupant(None),
                    ),
                    location,
                    old(self).map().cell(location).with_occupant(Some(pid)),
                )
            },
            !moved ==> final(self).same_as(old(self)),
    {
        reveal(Kernel::placed);
        reveal(Kernel::owned_up);
        reveal(Kernel::related);
        reveal(Kernel::ranked);
        let old_location = self.game_map.get_process_location(pid);
        if chebyshev_distance(old_location, location) != 1 {
            return false;
        }
        let moved = self.game_map.move_process_to(pid, location, &mut self.events);
        proof {
            assert(self.processes() =~= old(self).processes());
            if moved {
                assert(self.events() =~= old(self).events() + seq![
                    GameEvent::Move { pid, location },
                ]);
            }
        }
        moved
    }

    /// A jump of a process to an empty cell near `location`, looked for in
    /// up to five draws within two steps of it.
    pub fn teleport_process_to(&mut self, pid: u16, location: Location) -> (moved: bool)
        requires
            old(self).wf(),
            old(self).processes().contains_key(pid),
        ensures
            final(self).wf(),
            !moved ==> final(self).same_as(old(self)),
            exists|offsets: Seq<(i8, i8)>, hit: Option<Location>|
                {
                    &&& #[trigger] old(self).map().searched(
                        location,
                        5,
                        2,
                        old(self).chance(),
                        offsets,
                        hit,
                    )
                    &&& moved == hit is Some
                    &&& hit matches Some(target) ==> final(self).teleported_from(
                        old(self),
                        pid,
                        target,
                    )
                },
            moved ==> exists|target: Location|
                {
                    &&& old(self).map().cell(target).empty()
                    &&& GameMap::near(location, target, 2)
                    &&& #[trigger] final(self).teleported_from(old(self), pid, target)
                },
    {
        reveal(Kernel::placed);
        reveal(Kernel::owned_up);
        reveal(Kernel::related);
        reveal(Kernel::ranked);
        let found = self.game_map.find_empty_location_nearby(location, 5, 2, &self.chance);
        let ghost offsets = choose|offsets: Seq<(i8, i8)>| #[trigger]
            self.map().searched(location, 5, 2, self.chance(), offsets, found);
        let target = match found {
            None => {
                proof {
                    assert(old(self).map().searched(
                        location,
                        5,
                        2,
                        old(self).chance(),
                        offsets,
                        None,
                    ));
                }
                return false;
            },
            Some(target) => target,
        };
        proof {
            self.map().lemma_searched(location, 5, 2, self.chance(), offsets, target);
        }
        let moved = self.game_map.move_process_to(pid, target, &mut self.events);
        proof {
            assert(self.processes() =~= old(self).processes());
            assert(moved);
            assert(self.events() =~= old(self).events() + seq![
                GameEvent::Move { pid, location: target },
            ]);
            assert(self.teleported_from(old(self), pid, target));
            assert(old(self).map().searched(
                location,
                5,
                2,
                old(self).chance(),
                offsets,
                Some(target),
            ));
        }
        moved
    }

    /// Whether this kernel has come from `before` by `pid` jumping to the
    /// cell at `target`, which has been logged as a move.
    pub open spec fn teleported_from(&self, before: &Kernel, pid: u16, target: Location) -> bool {
        &&& self.remapped_from(before, seq![GameEvent::Move { pid, location: target }])
        &&& self.map().locations() == before.map().locations().insert(pid, target)
        &&& self.map().cells() == GameMap::with_cell(
            GameMap::with_cell(
                before.map().cells(),
                before.map().locations()[pid],
                before.map().cell(before.map().locations()[pid]).with_occupant(None),
            ),
            target,
            before.map().cell(target).with_occupant(Some(pid)),
        )
    }

    /// What the challenge on the cell of a process gives a challenger to
    /// work on, if there is a challenge.
    pub fn fetch_challenge_data(&self, pid: u16) -> (data: Option<Vec<u8>>)
        requires
            self.wf(),
            self.processes().contains_key(pid),
        ensures
            match self.map().cell(self.map().locations()[pid]).challenge() {
                Some(challenge) => data is Some && data.unwrap()@ == MapCell::challenge_record(
                    challenge,
                ),
                None => data is None,
            },
    {
        let location = self.get_process_location(pid);
        self.get_map_cell(location).crypto_data()
    }

    /// Whether this kernel has come from `before` by `pid` solving the
    /// challenge under it: the challenge is gone, its reward is in the
    /// owner's wallet, and both have been logged.
    pub open spec fn solved_from(&self, before: &Kernel, pid: u16) -> bool {
        let location = before.map().locations()[pid];
        let uid = before.processes()[pid].uid;
        let challenge = before.map().cell(location).challenge().unwrap();
        &&& self.processes() == before.processes()
        &&& self.users().dom() == before.users().dom()
        &&& forall|other: u16| #[trigger]
            self.users().contains_key(other) && other != uid ==> self.users()[other]
                == before.users()[other]
        &&& self.users()[uid].uid == uid
        &&& self.users()[uid].initd_pid == before.users()[uid].initd_pid
        &&& self.users()[uid].score == before.users()[uid].score
        &&& self.users()[uid].num_processes == before.users()[uid].num_processes
        &&& self.users()[uid].wallet@ == Seq::new(
            6,
            |i: int| before.users()[uid].wallet@[i].wrapping_add(challenge.reward()[i]),
        )
        &&& self.map().locations() == before.map().locations()
        &&& self.map().cells() == GameMap::with_cell(
            before.map().cells(),
            location,
            before.map().cell(location).with_challenge(None),
        )
        &&& self.events() == before.events() + seq![
            GameEvent::ChallengeSolved { pid, location },
            GameEvent::WalletUpdate { uid, new_wallet: self.users()[uid].wallet },
        ]
        &&& self.generations() == before.generations()
        &&& self.config() == before.config()
        &&& self.chance() == before.chance()
    }

    /// Credits the reward of a challenge that `pid` has solved to its
    /// owner, and logs both the solution and the new wallet. The challenge
    /// has been taken off the map already.
    fn reward_owner(&mut self, Ghost(before): Ghost<&Kernel>, pid: u16, location: Location, reward: &Wallet)
        requires
            before.wf(),
            before.processes().contains_key(pid),
            location == before.map().locations()[pid],
            before.map().cell(location).challenge() is Some,
            reward@ == before.map().cell(location).challenge().unwrap().reward(),
            old(self).game_map.wf(),
            old(self).game_map.locations() == before.game_map.locations(),
            old(self).game_map.cells() == GameMap::with_cell(
                before.game_map.cells(),
                location,
                before.game_map.cell(location).with_challenge(None),
            ),
            old(self).process_table == before.process_table,
            old(self).user_table == before.user_table,
            old(self).events == before.events,
            old(self).config == before.config,
            old(self).chance == before.chance,
            old(self).generations == before.generations,
        ensures
            final(self).wf(),
            final(self).solved_from(before, pid),
    {
        broadcast use vstd::std_specs::hash::group_hash_axioms;

        reveal(Kernel::placed);
        reveal(Kernel::owned_up);
        reveal(Kernel::related);
        reveal(Kernel::ranked);
        let uid = self.process_table.get(&pid).unwrap().uid;
        let mut user = *self.user_table.get(&uid).unwrap();
        std::ops::AddAssign::add_assign(&mut user.wallet, reward);
        self.user_table.insert(uid, user);
        self.events.push(GameEvent::ChallengeSolved { pid, location });
        self.events.push(GameEvent::WalletUpdate { uid, new_wallet: user.wallet });
        proof {
            assert(self.processes() =~= before.processes());
            assert(self.users().dom() =~= before.users().dom());
            assert(self.users()[uid].wallet@ =~= Seq::new(
                6,
                |i: int|
                    before.users()[uid].wallet@[i].wrapping_add(
                        before.map().cell(location).challenge().unwrap().reward()[i],
                    ),
            ));
            assert(self.events() =~= before.events() + seq![
                GameEvent::ChallengeSolved { pid, location },
                GameEvent::WalletUpdate { uid, new_wallet: self.users()[uid].wallet },
            ]);
            assert(self.owned_up()) by {
                assert forall|other: u16| #[trigger] self.users().contains_key(other) implies {
                    &&& self.users()[other].uid == other
                    &&& self.users()[other].num_processes == owned(self.processes(), other).len()
                    &&& self.users()[other].initd_pid matches Some(init) ==> {
                        &&& self.processes().contains_key(init)
                        &&& self.processes()[init].uid == other
                        &&& self.processes()[init].is_init()
                    }
                } by {
                    assert(before.users().contains_key(other));
                }
            }
        }
    }

    /// Tries a nonce on the challenge under a process. Where the challenge
    /// accepts it, the challenge is taken off the map and its reward goes to
    /// the owner, which gives 1. Where it does not, or where there is no
    /// challenge, the process dies with all its descendants, which gives 0.
    pub fn solve_challenge(&mut self, pid: u16, nonce: Nonce) -> (solved: u16)
        requires
            old(self).wf(),
            old(self).processes().contains_key(pid),
        ensures
            final(self).wf(),
            match old(self).map().cell(old(self).map().locations()[pid]).challenge() {
                Some(challenge) if challenge.accepts(nonce) => solved == 1
                    && final(self).solved_from(old(self), pid),
                _ => solved == 0 && final(self).culled_from(old(self), pid),
            },
    {
        broadcast use vstd::std_specs::hash::group_hash_axioms;

        let location = self.get_process_location(pid);
        let uid = self.get_process_owner(pid);
        proof {
            reveal(Kernel::placed);
            reveal(Kernel::owned_up);
        }
        match self.game_map.solve_crypto_at(location, nonce) {
            Some(reward) => {
                self.reward_owner(Ghost(old(self)), pid, location, &reward);
                1
            },
            None => {
                proof {
                    reveal(Kernel::related);
                    reveal(Kernel::ranked);
                    assert(self.processes() =~= old(self).processes());
                    assert(self.wf());
                }
                let ghost middle = *self;
                self.kill_process_recursive(pid);
                proof {
                    assert(self.culled_from(old(self), pid)) by {
                        assert forall|location: Location|
                            {
                                &&& (#[trigger] self.map().cell(location)).kind() == old(
                                    self,
                                ).map().cell(location).kind()
                                &&& self.map().cell(location).challenge() == old(self).map().cell(
                                    location,
                                ).challenge()
                            } by {
                            assert(middle.map().cell(location) == old(self).map().cell(location));
                        }
                    }
                }
                0
            },
        }
    }

    /// Whether a process may leave its parent for the first process of its
    /// owner: it is not a first process itself, and its owner has one.
    pub open spec fn can_detach(&self, pid: u16) -> bool {
        &&& !self.processes()[pid].is_init()
        &&& self.users()[self.processes()[pid].uid].initd_pid is Some
    }

    /// A process leaves its parent and becomes a child of the first process
    /// of its owner, which is logged. A first process cannot.
    pub fn detach(&mut self, pid: u16) -> (res: Option<u16>)
        requires
            old(self).wf(),
            old(self).processes().contains_key(pid),
        ensures
            final(self).wf(),
            res == if old(self).can_detach(pid) {
                Some(1u16)
            } else {
                None
            },
            res is None ==> final(self).same_as(old(self)),
            res is Some ==> {
                &&& final(self).processes() == detached(
                    old(self).processes(),
                    pid,
                    old(self).users()[old(self).processes()[pid].uid].initd_pid.unwrap(),
                )
                &&& final(self).users() == old(self).users()
                &&& final(self).map() == old(self).map()
                &&& final(self).events() == old(self).events().push(GameEvent::Detach { pid })
                &&& final(self).config() == old(self).config()
                &&& final(self).chance() == old(self).chance()
            },
    {
        broadcast use vstd::std_specs::hash::group_hash_axioms;

        reveal(Kernel::placed);
        reveal(Kernel::owned_up);
        reveal(Kernel::related);
        reveal(Kernel::ranked);
        let old_parent = match self.get_process(pid).ppid {
            None => {
                return None;
            },
            Some(parent) => parent,
        };
        let init_pid = match self.get_owner_user(pid).initd_pid {
            None => {
                return None;
            },
            Some(init) => init,
        };
        let ghost before = old(self).processes();
        self.events.push(GameEvent::Detach { pid });
        let mut parent = self.process_table.remove(&old_parent).unwrap();
        parent.children = remove_pid(&parent.children, pid);
        self.process_table.insert(old_parent, parent);
        let mut init = self.process_table.remove(&init_pid).unwrap();
        init.children.push(pid);
        self.process_table.insert(init_pid, init);
        let mut process = self.process_table.remove(&pid).unwrap();
        process.ppid = Some(init_pid);
        self.process_table.insert(pid, process);
        proof {
            lemma_without(before[old_parent].children, pid);
            assert(before.contains_key(init_pid));
            assert(init_pid != pid);
            assert(self.processes() =~= detached(before, pid, init_pid));
            assert(self.process_table@.dom() =~= old(self).process_table@.dom());
            let now = self.processes();
            let grown = now[init_pid].children;
            assert(grown[grown.len() - 1] == pid);
            assert(self.sound());
            assert(self.placed());
            assert forall|uid: u16| owned(now, uid) == owned(before, uid) by {
                assert(owned(now, uid) =~= owned(before, uid));
            }
            assert(self.owned_up()) by {
                assert forall|other: u16| #[trigger] now.contains_key(other) implies {
                    &&& self.users().contains_key(now[other].uid)
                    &&& now[other].is_init() ==> self.users()[now[other].uid].initd_pid == Some(
                        other,
                    )
                } by {
                    assert(before.contains_key(other));
                }
                assert forall|other: u16| #[trigger] self.users().contains_key(other) implies {
                    &&& self.users()[other].uid == other
                    &&& self.users()[other].num_processes == owned(now, other).len()
                    &&& self.users()[other].initd_pid matches Some(first) ==> {
                        &&& now.contains_key(first)
                        &&& now[first].uid == other
                        &&& now[first].is_init()
                    }
                } by {
                    assert(old(self).users().contains_key(other));
                    if let Some(first) = self.users()[other].initd_pid {
                        assert(before.contains_key(first));
                        assert(first != pid);
                    }
                }
            }
            assert(!bereft(before, pid)[init_pid].children.contains(pid)) by {
                lemma_without(before[init_pid].children, pid);
            }
            assert(self.related()) by {
                assert forall|other: u16| #[trigger] now.contains_key(other) implies {
                    &&& now[other].children.no_duplicates()
                    &&& now[other].ppid matches Some(up) ==> {
                        &&& now.contains_key(up)
                        &&& now[up].children.contains(other)
                        &&& now[up].uid == now[other].uid
                    }
                } by {
                    assert(before.contains_key(other));
                    lemma_without(before[other].children, pid);
                    if other == init_pid {
                        let kept = bereft(before, pid)[init_pid].children;
                        assert forall|i: int, j: int|
                            0 <= i < grown.len() && 0 <= j < grown.len() && i != j implies grown[i]
                            != grown[j] by {
                            if i == kept.len() {
                                assert(kept.contains(kept[j]));
                            } else if j == kept.len() {
                                assert(kept.contains(kept[i]));
                            }
                        }
                    }
                    if other == pid {
                        assert(grown.contains(pid));
                    } else if let Some(up) = before[other].ppid {
                        lemma_without(before[up].children, pid);
                        assert(before[up].children.contains(other));
                        if up == init_pid {
                            let kept = bereft(before, pid)[init_pid].children;
                            assert(kept.contains(other));
                            let i = choose|i: int| 0 <= i < kept.len() && kept[i] == other;
                            assert(grown[i] == other);
                        }
                    }
                }
                assert forall|other: u16, i: int|
                    now.contains_key(other) && 0 <= i < now[other].children.len() implies {
                    &&& now.contains_key(#[trigger] now[other].children[i])
                    &&& now[now[other].children[i]].ppid == Some(other)
                } by {
                    assert(before.contains_key(other));
                    lemma_without(before[other].children, pid);
                    let child = now[other].children[i];
                    if other == init_pid && i == grown.len() - 1 {
                    } else if other == pid {
                        assert(before.contains_key(before[pid].children[i]));
                        assert(before[child].ppid == Some(pid));
                        assert(child != pid);
                    } else {
                        let kept = bereft(before, pid)[other].children;
                        assert(kept[i] == child);
                        assert(kept.contains(child));
                        assert(before[other].children.contains(child));
                        let j = choose|j: int|
                            0 <= j < before[other].children.len() && before[other].children[j]
                                == child;
                        assert(before.contains_key(before[other].children[j]));
                        assert(child != pid);
                    }
                }
            }
            assert(self.ranked()) by {
                assert forall|other: u16| #[trigger] now.contains_key(other) implies {
                    &&& self.generations().contains_key(other)
                    &&& self.generations()[other] <= 31
                    &&& now[other].lifetime <= lifetime_cap(self.generations()[other])
                    &&& match now[other].ppid {
                        None => self.generations()[other] == 0,
                        Some(up) => self.generations().contains_key(up) && self.generations()[up]
                            < self.generations()[other],
                    }
                } by {
                    assert(before.contains_key(other));
                    assert(before.contains_key(old_parent));
                }
            }
        }
        Some(1)
    }

    /// Who stands on a cell is a process of the table.
    pub proof fn lemma_occupant_lives(&self, location: Location)
        requires
            self.wf(),
        ensures
            self.map().cell(location).occupant() matches Some(pid) ==> self.processes().contains_key(
                pid,
            ) && self.map().locations()[pid] == location,
    {
        reveal(Kernel::placed);
    }

    /// A strike of the corruption primitive, as this kernel's source of
    /// chance hands it out.
    pub fn draw_glitch(&self) -> (glitch: Glitch)
        ensures
            self.chance().allows_glitch(glitch),
    {
        self.chance.glitch()
    }

    /// Reads the statuses of a rectangle of the map.
    pub fn read_statuses(&self, x1: u8, y1: u8, dx: u8, dy: u8) -> (data: Vec<u8>)
        requires
            self.wf(),
        ensures
            data@ == self.map().status_block(x1, y1, (dx + 1) as nat, (dy + 1) as nat),
            data@.len() == (dx + 1) * (dy + 1),
    {
        reveal(Kernel::placed);
        self.game_map.read_statuses(x1, y1, dx, dy)
    }

    /// Reads the details of a rectangle of the map as `viewer` sees them.
    pub fn read_details(&self, viewer: Option<Location>, x1: u8, y1: u8, dx: u8, dy: u8) -> (data:
        Vec<u8>)
        requires
            self.wf(),
        ensures
            data@ == self.map().detail_block(
                viewer,
                x1,
                y1,
                (dx + 1) as nat,
                (dy + 1) as nat,
                data@,
            ),
            data@.len() == 3 * ((dx + 1) * (dy + 1)),
    {
        reveal(Kernel::placed);
        self.game_map.read_details(viewer, x1, y1, dx, dy, &self.chance)
    }

    /// The owner of a process is a user.
    pub proof fn lemma_owner_known(&self, pid: u16)
        requires
            self.wf(),
            self.processes().contains_key(pid),
        ensures
            self.users().contains_key(self.processes()[pid].uid),
            self.users()[self.processes()[pid].uid].uid == self.processes()[pid].uid,
    {
        reveal(Kernel::owned_up);
    }

    /// Whether lifetimes have only waned since `before`, when `pid` was at
    /// work: every process was there before with no less to live, or has at
    /// most half of what `pid` had, which was two ticks or more.
    pub open spec fn waned_from(&self, before: &Kernel, pid: u16) -> bool {
        forall|q: u16| #[trigger]
            self.processes().contains_key(q) ==> {
                ||| before.processes().contains_key(q) && self.processes()[q].lifetime
                    <= before.processes()[q].lifetime
                ||| before.processes().contains_key(pid) && before.processes()[pid].lifetime >= 2
                    && self.processes()[q].lifetime * 2 <= before.processes()[pid].lifetime
            }
    }

    /// Whether the tick keeps pace: no process has more than `bound` to
    /// live; who is not waiting for its turn has less than that, or
    /// nothing; and where `bound` is nothing, all processes are of the
    /// roll that was called at the start of the tick.
    pub open spec fn paced(&self, waiting: Set<u16>, roll: Set<u16>, bound: u32) -> bool {
        forall|q: u16| #[trigger]
            self.processes().contains_key(q) ==> {
                &&& self.processes()[q].lifetime <= bound
                &&& !waiting.contains(q) ==> self.processes()[q].lifetime == 0
                    || self.processes()[q].lifetime < bound
                &&& bound == 0 ==> roll.contains(q)
            }
    }

    /// A process that is not waiting for its turn, and whatever it does to
    /// lifetimes, keeps the pace of the tick.
    pub proof fn lemma_paced(
        &self,
        before: &Kernel,
        pid: u16,
        waiting: Set<u16>,
        roll: Set<u16>,
        bound: u32,
    )
        requires
            self.waned_from(before, pid),
            before.paced(waiting, roll, bound),
            !waiting.contains(pid),
        ensures
            self.paced(waiting, roll, bound),
    {
        assert forall|q: u16| #[trigger] self.processes().contains_key(q) implies {
            &&& self.processes()[q].lifetime <= bound
            &&& !waiting.contains(q) ==> self.processes()[q].lifetime == 0
                || self.processes()[q].lifetime < bound
            &&& bound == 0 ==> roll.contains(q)
        } by {
            if before.processes().contains_key(q) && self.processes()[q].lifetime
                <= before.processes()[q].lifetime {
            } else {
                assert(before.processes().contains_key(pid));
            }
        }
    }

    /// Lifetimes have waned where every process was there before with no
    /// less to live.
    pub proof fn lemma_waned_plainly(&self, before: &Kernel, pid: u16)
        requires
            forall|q: u16| #[trigger]
                self.processes().contains_key(q) ==> before.processes().contains_key(q)
                    && self.processes()[q].lifetime <= before.processes()[q].lifetime,
        ensures
            self.waned_from(before, pid),
    {
    }

    /// Lifetimes have waned where one process has changed and has no more
    /// to live than before.
    pub proof fn lemma_waned_touched(
        &self,
        before: &Kernel,
        pid: u16,
        touched: u16,
        now: ProcessView,
        logged: Seq<GameEvent>,
    )
        requires
            self.touched_from(before, touched, now, logged),
            before.processes().contains_key(touched),
            now.lifetime <= before.processes()[touched].lifetime,
        ensures
            self.waned_from(before, pid),
    {
    }

    /// Lifetimes have waned after a fork.
    pub proof fn lemma_waned_forked(&self, before: &Kernel, pid: u16, child: u16, location: Location)
        requires
            self.forked_from(before, pid, child, location),
            before.processes().contains_key(pid),
            before.can_fork(pid),
            child != pid,
        ensures
            self.waned_from(before, pid),
    {
        assert forall|q: u16| #[trigger] self.processes().contains_key(q) implies {
            ||| before.processes().contains_key(q) && self.processes()[q].lifetime
                <= before.processes()[q].lifetime
            ||| before.processes().contains_key(pid) && before.processes()[pid].lifetime >= 2
                && self.processes()[q].lifetime * 2 <= before.processes()[pid].lifetime
        } by {
            if q == child {
            } else if q == pid {
            } else {
                assert(before.processes().contains_key(q));
            }
        }
    }

    /// Lifetimes have waned after a detachment.
    pub proof fn lemma_waned_detached(&self, before: &Kernel, pid: u16, init: u16)
        requires
            self.processes() == detached(before.processes(), pid, init),
            before.processes().contains_key(pid),
            before.processes().contains_key(init),
        ensures
            self.waned_from(before, pid),
    {
    }

    /// The first process that a user names is a process of the table.
    pub proof fn lemma_init_lives(&self, uid: u16)
        requires
            self.wf(),
            self.users().contains_key(uid),
        ensures
            self.users()[uid].initd_pid matches Some(init) ==> self.processes().contains_key(init),
    {
        reveal(Kernel::owned_up);
    }

    /// Whether the owner of a process can pay for a system call with the
    /// arguments that the process holds.
    pub open spec fn can_pay(&self, pid: u16, syscall: Syscall) -> bool {
        covers(
            self.users()[self.processes()[pid].uid].wallet@,
            syscall.cost(self.processes()[pid].emulator.syscall_args()),
        )
    }

    /// Whether this kernel has come from `called`, in which a system call
    /// of `pid` had just been carried out and had given `res`, by the end of
    /// the call: what the call gave, or zero if it gave nothing, is in AX
    /// of the caller if the caller is still there; and a call that gave
    /// something has been paid for by the owner, which has been logged.
    pub open spec fn concluded_from(
        &self,
        called: &Kernel,
        pid: u16,
        cost: Seq<i64>,
        res: Option<u16>,
        uid: u16,
    ) -> bool {
        let value = match res {
            Some(value) => value,
            None => 0,
        };
        &&& self.processes() == if called.processes().contains_key(pid) {
            called.processes().insert(
                pid,
                called.with_machine(pid, called.machine(pid).with_reg(RegisterName::AX, value)),
            )
        } else {
            called.processes()
        }
        &&& self.map().cells() == called.map().cells()
        &&& self.map().locations() == called.map().locations()
        &&& self.generations() == called.generations()
        &&& self.config() == called.config()
        &&& self.chance() == called.chance()
        &&& match res {
            None => self.users() == called.users() && self.events() == called.events(),
            Some(_) => {
                &&& self.users().dom() == called.users().dom()
                &&& forall|other: u16| #[trigger]
                    self.users().contains_key(other) && other != uid ==> self.users()[other]
                        == called.users()[other]
                &&& self.users()[uid].uid == called.users()[uid].uid
                &&& self.users()[uid].initd_pid == called.users()[uid].initd_pid
                &&& self.users()[uid].score == called.users()[uid].score
                &&& self.users()[uid].num_processes == called.users()[uid].num_processes
                &&& self.users()[uid].wallet@ == Seq::new(
                    6,
                    |i: int| called.users()[uid].wallet@[i].wrapping_sub(cost[i]),
                )
                &&& self.events() == called.events().push(
                    GameEvent::WalletUpdate { uid, new_wallet: self.users()[uid].wallet },
                )
            },
        }
    }

    /// Whether this kernel has come from `before` by resolving a system
    /// call of `pid` that gave `res`. Where the owner cannot pay, nothing
    /// is given and only AX of the caller changes, to zero; else the call
    /// is carried out and concluded.
    pub open spec fn resolved_from(
        &self,
        before: &Kernel,
        pid: u16,
        syscall: Syscall,
        res: Option<u16>,
    ) -> bool {
        if before.can_pay(pid, syscall) {
            exists|called: Kernel|
                {
                    &&& called.wf()
                    &&& #[trigger] called.effected_from(
                        before,
                        syscall,
                        pid,
                        before.processes()[pid].emulator.syscall_args(),
                        res,
                    )
                    &&& self.concluded_from(
                        &called,
                        pid,
                        syscall.cost(before.processes()[pid].emulator.syscall_args()),
                        res,
                        before.processes()[pid].uid,
                    )
                }
        } else {
            &&& res is None
            &&& self.touched_from(
                before,
                pid,
                before.with_machine(
                    pid,
                    before.processes()[pid].emulator.with_reg(RegisterName::AX, 0),
                ),
                Seq::empty(),
            )
        }
    }

    /// Resolves a system call that a process has made. Where the owner
    /// cannot pay for it, nothing happens; else the call is carried out. A
    /// call that gives something is paid for, which is logged, and what it
    /// gave goes to AX of the caller, if the caller is still there. In all
    /// other cases nothing is paid and AX of the caller is set to zero.
    pub fn resolve_syscall(&mut self, pid: u16, syscall: Syscall) -> (res: Option<u16>)
        requires
            old(self).wf(),
            old(self).processes().contains_key(pid),
        ensures
            final(self).wf(),
            final(self).users().dom() == old(self).users().dom(),
            final(self).config() == old(self).config(),
            final(self).chance() == old(self).chance(),
            old(self).events().is_prefix_of(final(self).events()),
            final(self).waned_from(old(self), pid),
            final(self).resolved_from(old(self), pid, syscall, res),
            !old(self).can_pay(pid, syscall) ==> res is None,
            res is None ==> final(self).users() == old(self).users(),
            res is None && (syscall != Syscall::Reserved || !old(self).can_pay(pid, syscall))
                ==> final(self).touched_from(
                old(self),
                pid,
                old(self).with_machine(
                    pid,
                    old(self).processes()[pid].emulator.with_reg(RegisterName::AX, 0),
                ),
                Seq::empty(),
            ),
            res is None ==> final(self).processes().contains_key(pid) && final(self).processes()[pid].emulator.reg(RegisterName::AX) == 0,
            old(self).can_pay(pid, syscall) ==> exists|called: Kernel|
                {
                    &&& called.wf()
                    &&& #[trigger] called.effected_from(
                        old(self),
                        syscall,
                        pid,
                        old(self).processes()[pid].emulator.syscall_args(),
                        res,
                    )
                    &&& final(self).concluded_from(
                        &called,
                        pid,
                        syscall.cost(old(self).processes()[pid].emulator.syscall_args()),
                        res,
                        old(self).processes()[pid].uid,
                    )
                },
            res matches Some(value) ==> {
                &&& old(self).can_pay(pid, syscall)
                &&& final(self).events().len() > 0
                &&& final(self).events().last() == (GameEvent::WalletUpdate {
                    uid: old(self).processes()[pid].uid,
                    new_wallet: final(self).users()[old(self).processes()[pid].uid].wallet,
                })
                &&& final(self).processes().contains_key(pid) ==> final(self).processes()[pid].emulator.reg(RegisterName::AX) == value
            },
    {
        let process = self.get_process(pid);
        let args = process.emulator.get_syscall_args();
        let uid = process.uid;
        let cost = syscall.compute_cost(args);
        proof {
            self.lemma_owner_known(pid);
        }
        if !self.get_user(uid).wallet.can_afford(&cost) {
            self.set_syscall_result(pid, 0);
            proof {
                self.lemma_waned_touched(old(self), pid, pid, self.processes()[pid], Seq::empty());
            }
            return None;
        }
        let res = syscall.call(self, pid, args);
        let ghost called = *self;
        match res {
            Some(value) => {
                proof {
                    self.lemma_user_filed(uid);
                }
                let mut user = *self.get_user(uid);
                std::ops::SubAssign::sub_assign(&mut user.wallet, &cost);
                self.update_user(user);
                self.log(GameEvent::WalletUpdate { uid, new_wallet: user.wallet });
                let ghost paid = *self;
                if self.has_process(pid) {
                    self.set_syscall_result(pid, value);
                    proof {
                        self.lemma_waned_touched(
                            &paid,
                            pid,
                            pid,
                            self.processes()[pid],
                            Seq::empty(),
                        );
                    }
                }
                proof {
                    assert(self.users().dom() =~= old(self).users().dom());
                    assert(self.users().dom() =~= called.users().dom());
                    assert(self.users()[uid].wallet@ =~= Seq::new(
                        6,
                        |i: int| called.users()[uid].wallet@[i].wrapping_sub(cost@[i]),
                    ));
                    assert(self.events() =~= called.events().push(
                        GameEvent::WalletUpdate { uid, new_wallet: self.users()[uid].wallet },
                    ));
                    assert(self.concluded_from(&called, pid, cost@, res, uid));
                    assert(self.waned_from(old(self), pid)) by {
                        assert forall|q: u16| #[trigger]
                            self.processes().contains_key(q) implies {
                            ||| old(self).processes().contains_key(q)
                                && self.processes()[q].lifetime
                                <= old(self).processes()[q].lifetime
                            ||| old(self).processes().contains_key(pid) && old(
                                self,
                            ).processes()[pid].lifetime >= 2 && self.processes()[q].lifetime * 2
                                <= old(self).processes()[pid].lifetime
                        } by {
                            assert(called.processes().contains_key(q));
                            assert(self.processes()[q].lifetime == called.processes()[q].lifetime);
                        }
                    }
                }
            },
            None => {
                self.set_syscall_result(pid, 0);
                proof {
                    assert(self.events() =~= called.events());
                    assert(self.concluded_from(&called, pid, cost@, res, uid));
                    assert(self.waned_from(old(self), pid)) by {
                        assert forall|q: u16| #[trigger]
                            self.processes().contains_key(q) implies {
                            ||| old(self).processes().contains_key(q)
                                && self.processes()[q].lifetime
                                <= old(self).processes()[q].lifetime
                            ||| old(self).processes().contains_key(pid) && old(
                                self,
                            ).processes()[pid].lifetime >= 2 && self.processes()[q].lifetime * 2
                                <= old(self).processes()[pid].lifetime
                        } by {
                            assert(called.processes().contains_key(q));
                            assert(self.processes()[q].lifetime == called.processes()[q].lifetime);
                        }
                    }
                }
            },
        }
        res
    }

    /// Every user is filed under their own uid.
    pub proof fn lemma_user_filed(&self, uid: u16)
        requires
            self.wf(),
            self.users().contains_key(uid),
        ensures
            self.users()[uid].uid == uid,
    {
        reveal(Kernel::owned_up);
    }

    /// What a process may spend in a tick: its execution limit less the
    /// sleep debt of its owner.
    pub open spec fn budget(&self, pid: u16) -> int {
        cycles_after_sleep_debt(
            execution_limit(self.processes()[pid].nice),
            self.users()[self.processes()[pid].uid].wallet@[1] as int,
        )
    }

    /// Whether this kernel has come from `before` by the start of the tick
    /// of `pid`: the process is a tick older, its machine a tick later, and
    /// its owner has gained a hundredth of the budget in score, which has
    /// been logged.
    pub open spec fn started_from(&self, before: &Kernel, pid: u16) -> bool {
        let was = before.processes()[pid];
        let owner = before.users()[was.uid];
        let score = owner.score.wrapping_add((before.budget(pid) / 100) as i64);
        &&& self.processes() == before.processes().insert(
            pid,
            ProcessView {
                lifetime: if was.lifetime == 0 {
                    0
                } else {
                    (was.lifetime - 1) as u32
                },
                emulator: was.emulator.with_reg(
                    RegisterName::TS,
                    was.emulator.reg(RegisterName::TS).wrapping_add(1),
                ),
                ..was
            },
        )
        &&& self.users() == before.users().insert(was.uid, User { score, ..owner })
        &&& self.map().cells() == before.map().cells()
        &&& self.map().locations() == before.map().locations()
        &&& self.events() == before.events().push(
            GameEvent::ScoreUpdate { uid: was.uid, new_score: score },
        )
        &&& self.generations() == before.generations()
        &&& self.config() == before.config()
        &&& self.chance() == before.chance()
    }

    /// Starts the tick of a process and gives the cycles that it may spend.
    pub fn begin_process_tick(&mut self, pid: u16) -> (cycles: usize)
        requires
            old(self).wf(),
            old(self).processes().contains_key(pid),
        ensures
            final(self).wf(),
            final(self).started_from(old(self), pid),
            cycles == old(self).budget(pid),
            cycles <= 3500,
    {
        let ghost before = *self;
        let mut process = self.checkout(pid);
        process.lifetime = process.lifetime.saturating_sub(1);
        process.emulator.increment_ts();
        let limit = process.get_execution_limit();
        let uid = process.uid;
        self.checkin(Ghost(&before), process);
        proof {
            before.lemma_owner_known(pid);
            self.lemma_user_filed(uid);
        }
        let mut user = *self.get_user(uid);
        let cycles = user.compute_sleep_debt(limit);
        user.score = user.score.wrapping_add((cycles / 100) as i64);
        self.update_user(user);
        let event = GameEvent::ScoreUpdate { uid, new_score: user.score };
        self.log(event);
        proof {
            assert(self.events() =~= before.events().push(event));
        }
        cycles
    }

    /// The kernel in which the `i`th call of a tick is made: the kernel at
    /// the start of the tick, or the one that the call before left.
    pub open spec fn state_before(started: Kernel, calls: Seq<Call>, i: int) -> Kernel {
        if i == 0 {
            started
        } else {
            calls[i - 1].after
        }
    }

    /// What is left of the budget when the `i`th call of a tick is made.
    pub open spec fn budget_before(budget: int, calls: Seq<Call>, i: int) -> int {
        if i == 0 {
            budget
        } else {
            calls[i - 1].left
        }
    }

    /// Whether a system call was made by `pid` from the kernel `before` on
    /// the budget given: the machine of the process ran, on what the source
    /// of chance hands out, until it fetched the call; nothing but that
    /// machine changed on the way; and then the call was resolved.
    pub open spec fn call_made(before: Kernel, budget: int, pid: u16, call: Call) -> bool {
        &&& before.processes().contains_key(pid)
        &&& forall|k: int|
            0 <= k < call.entropies.len() ==> before.chance().allows(#[trigger] call.entropies[k])
        &&& before.machine(pid).runs_to(
            budget,
            call.entropies,
            call.ran.machine(pid),
            call.left,
            Some(call.syscall),
        )
        &&& call.ran.wf()
        &&& call.ran.touched_from(
            &before,
            pid,
            before.with_machine(pid, call.ran.machine(pid)),
            Seq::empty(),
        )
        &&& call.after.wf()
        &&& call.after.resolved_from(&call.ran, pid, call.syscall, call.res)
    }

    /// Whether the calls were made one after another, each from the kernel
    /// and on the budget that the one before left.
    pub open spec fn calls_made(started: Kernel, budget: int, pid: u16, calls: Seq<Call>) -> bool {
        forall|i: int|
            0 <= i < calls.len() ==> Kernel::call_made(
                Kernel::state_before(started, calls, i),
                Kernel::budget_before(budget, calls, i),
                pid,
                #[trigger] calls[i],
            )
    }

    /// Calls that were made stay made when one more is made after them.
    pub proof fn lemma_call_pushed(
        started: Kernel,
        budget: int,
        pid: u16,
        calls: Seq<Call>,
        call: Call,
    )
        requires
            Kernel::calls_made(started, budget, pid, calls),
            Kernel::call_made(
                Kernel::state_before(started, calls, calls.len() as int),
                Kernel::budget_before(budget, calls, calls.len() as int),
                pid,
                call,
            ),
        ensures
            Kernel::calls_made(started, budget, pid, calls.push(call)),
            Kernel::state_before(started, calls.push(call), calls.len() as int + 1) == call.after,
            Kernel::budget_before(budget, calls.push(call), calls.len() as int + 1) == call.left,
    {
        let longer = calls.push(call);
        assert forall|i: int| 0 <= i < longer.len() implies Kernel::call_made(
            Kernel::state_before(started, longer, i),
            Kernel::budget_before(budget, longer, i),
            pid,
            #[trigger] longer[i],
        ) by {
            if i < calls.len() {
                assert(longer[i] == calls[i]);
                if i > 0 {
                    assert(longer[i - 1] == calls[i - 1]);
                }
            } else {
                if i > 0 {
                    assert(longer[i - 1] == calls[i - 1]);
                }
            }
        }
    }

    /// Whether this kernel has come from `started`, the kernel at the start
    /// of the tick of `pid`, by the run of the process on its budget: the
    /// calls were made one after another, and then either the process was
    /// gone, or its machine ran on until the budget no longer covered the
    /// next instruction, with `left` left over, and nothing but that machine
    /// changed.
    pub open spec fn ran_from(
        &self,
        started: Kernel,
        budget: int,
        pid: u16,
        calls: Seq<Call>,
        rest: Seq<Entropy>,
        left: int,
    ) -> bool {
        let last = Kernel::state_before(started, calls, calls.len() as int);
        let remaining = Kernel::budget_before(budget, calls, calls.len() as int);
        &&& Kernel::calls_made(started, budget, pid, calls)
        &&& if last.processes().contains_key(pid) {
            &&& forall|k: int| 0 <= k < rest.len() ==> last.chance().allows(#[trigger] rest[k])
            &&& last.machine(pid).runs_to(remaining, rest, self.machine(pid), left, None)
            &&& self.touched_from(
                &last,
                pid,
                last.with_machine(pid, self.machine(pid)),
                Seq::empty(),
            )
        } else {
            *self == last
        }
    }

    /// Whether this kernel has come from `before` by the tick of `pid`:
    /// nothing has changed if there is no such process; else the tick was
    /// started and the process ran on its budget.
    pub open spec fn process_ticked_from(&self, before: &Kernel, pid: u16) -> bool {
        if before.processes().contains_key(pid) {
            exists|started: Kernel, calls: Seq<Call>, rest: Seq<Entropy>, left: int|
                {
                    &&& started.wf()
                    &&& started.started_from(before, pid)
                    &&& #[trigger] self.ran_from(
                        started,
                        before.budget(pid),
                        pid,
                        calls,
                        rest,
                        left,
                    )
                }
        } else {
            self.same_as(before)
        }
    }

    /// The tick of one process: it grows a tick older, and then runs on its
    /// budget of cycles. Whenever it makes a system call, the call is
    /// resolved and the process runs on, until the budget is spent or the
    /// process is gone.
    fn run_process_tick(
        &mut self,
        pid: u16,
        Ghost(waiting): Ghost<Set<u16>>,
        Ghost(roll): Ghost<Set<u16>>,
        Ghost(bound): Ghost<u32>,
    )
        requires
            old(self).wf(),
            old(self).paced(waiting, roll, bound),
        ensures
            final(self).wf(),
            final(self).paced(waiting.remove(pid), roll, bound),
            final(self).users().dom() == old(self).users().dom(),
            final(self).config() == old(self).config(),
            final(self).chance() == old(self).chance(),
            old(self).events().is_prefix_of(final(self).events()),
            !old(self).processes().contains_key(pid) ==> final(self).same_as(old(self)),
            final(self).process_ticked_from(old(self), pid),
    {
        if !self.has_process(pid) {
            return ;
        }
        let mut cycle_count = self.begin_process_tick(pid);
        let ghost started = *self;
        let ghost budget = cycle_count as int;
        let ghost mut calls: Seq<Call> = Seq::empty();
        proof {
            old(self).lemma_owner_known(pid);
            assert(self.users().dom() =~= old(self).users().dom());
            assert(self.paced(waiting.remove(pid), roll, bound)) by {
                assert forall|q: u16| #[trigger] self.processes().contains_key(q) implies {
                    &&& self.processes()[q].lifetime <= bound
                    &&& !waiting.remove(pid).contains(q) ==> self.processes()[q].lifetime == 0
                        || self.processes()[q].lifetime < bound
                    &&& bound == 0 ==> roll.contains(q)
                } by {
                    assert(old(self).processes().contains_key(q));
                }
            }
        }
        loop
            invariant
                self.wf(),
                self.paced(waiting.remove(pid), roll, bound),
                self.users().dom() == old(self).users().dom(),
                self.config() == old(self).config(),
                self.chance() == old(self).chance(),
                old(self).events().is_prefix_of(self.events()),
                old(self).processes().contains_key(pid),
                started.wf(),
                started.started_from(old(self), pid),
                budget == old(self).budget(pid),
                Kernel::calls_made(started, budget, pid, calls),
                *self == Kernel::state_before(started, calls, calls.len() as int),
                cycle_count == Kernel::budget_before(budget, calls, calls.len() as int),
            decreases cycle_count,
        {
            if !self.has_process(pid) {
                proof {
                    assert(self.ran_from(started, budget, pid, calls, Seq::empty(), 0));
                }
                return ;
            }
            let ghost middle = *self;
            let ghost remaining = cycle_count as int;
            let chance = self.chance;
            let mut process = self.checkout(pid);
            let ghost machine = process.emulator@;
            let interrupt = process.emulator.run_by_chance(&mut cycle_count, &chance);
            let ghost entropies = choose|entropies: Seq<Entropy>|
                {
                    &&& forall|i: int|
                        0 <= i < entropies.len() ==> chance.allows(#[trigger] entropies[i])
                    &&& #[trigger] machine.runs_to(
                        remaining,
                        entropies,
                        process.emulator@,
                        cycle_count as int,
                        interrupt,
                    )
                };
            self.checkin(Ghost(&middle), process);
            proof {
                assert(self.paced(waiting.remove(pid), roll, bound)) by {
                    assert forall|q: u16| #[trigger] self.processes().contains_key(q) implies {
                        &&& self.processes()[q].lifetime <= bound
                        &&& !waiting.remove(pid).contains(q) ==> self.processes()[q].lifetime
                            == 0 || self.processes()[q].lifetime < bound
                        &&& bound == 0 ==> roll.contains(q)
                    } by {
                        assert(middle.processes().contains_key(q));
                    }
                }
            }
            match interrupt {
                None => {
                    proof {
                        assert(self.ran_from(
                            started,
                            budget,
                            pid,
                            calls,
                            entropies,
                            cycle_count as int,
                        ));
                    }
                    return ;
                },
                Some(syscall) => {
                    let ghost ran = *self;
                    let ghost left = cycle_count as int;
                    let res = self.resolve_syscall(pid, syscall);
                    proof {
                        self.lemma_paced(&ran, pid, waiting.remove(pid), roll, bound);
                        let call = Call { entropies, ran, syscall, res, after: *self, left };
                        assert(Kernel::call_made(middle, remaining, pid, call));
                        Kernel::lemma_call_pushed(started, budget, pid, calls, call);
                        calls = calls.push(call);
                    }
                },
            }
        }
    }

    /// Among the processes of a list that is not empty, one has the most
    /// to live.
    pub proof fn lemma_longest(processes: Map<u16, ProcessView>, pids: Seq<u16>) -> (longest: u16)
        requires
            pids.len() > 0,
        ensures
            pids.contains(longest),
            forall|i: int|
                0 <= i < pids.len() ==> processes[#[trigger] pids[i]].lifetime
                    <= processes[longest].lifetime,
        decreases pids.len(),
    {
        if pids.len() == 1 {
            assert(pids[0] == pids[0]);
            pids[0]
        } else {
            let front = pids.drop_last();
            let best = Kernel::lemma_longest(processes, front);
            let i = choose|i: int| 0 <= i < front.len() && front[i] == best;
            assert(pids[i] == best);
            let last = pids[pids.len() - 1];
            if processes[last].lifetime > processes[best].lifetime {
                assert forall|j: int| 0 <= j < pids.len() implies processes[#[trigger] pids[j]].lifetime
                    <= processes[last].lifetime by {
                    if j < front.len() {
                        assert(front[j] == pids[j]);
                    }
                }
                last
            } else {
                assert forall|j: int| 0 <= j < pids.len() implies processes[#[trigger] pids[j]].lifetime
                    <= processes[best].lifetime by {
                    if j < front.len() {
                        assert(front[j] == pids[j]);
                    }
                }
                best
            }
        }
    }

    /// Whether every process has less to live than some process had in
    /// `before`.
    pub open spec fn aged_from(&self, before: &Kernel) -> bool {
        forall|q: u16| #[trigger]
            self.processes().contains_key(q) ==> exists|p: u16| #[trigger]
                before.processes().contains_key(p) && self.processes()[q].lifetime
                    < before.processes()[p].lifetime
    }

    /// Whether pids are the pids of the processes, each once, in the order
    /// in which the processes run.
    pub open spec fn is_running_order(processes: Map<u16, ProcessView>, order: Seq<u16>) -> bool {
        &&& order.no_duplicates()
        &&& order.to_set() == processes.dom()
        &&& in_running_order(processes, order)
    }

    /// Whether the `i`th turn was taken: the kernel after it has come from
    /// the kernel before it by the tick of the `i`th process of the order.
    pub open spec fn turn_taken(turned: Seq<Kernel>, order: Seq<u16>, i: int) -> bool {
        &&& turned[i].wf()
        &&& turned[i + 1].process_ticked_from(&turned[i], order[i])
    }

    /// Whether this kernel has come from `before` by the expiry of `pid`:
    /// a process that has nothing left to live dies with all its
    /// descendants, and nothing happens to any other.
    pub open spec fn reaped_from(&self, before: &Kernel, pid: u16) -> bool {
        if before.processes().contains_key(pid) && before.processes()[pid].lifetime == 0 {
            self.culled_from(before, pid)
        } else {
            *self == *before
        }
    }

    /// Whether the `j`th process of the roll of expiry was dealt with.
    pub open spec fn grave_dug(reaped: Seq<Kernel>, graves: Seq<u16>, j: int) -> bool {
        &&& reaped[j].wf()
        &&& reaped[j + 1].reaped_from(&reaped[j], graves[j])
    }

    /// Whether this kernel has come from `before` by one tick of all
    /// processes. The processes of `before` took their turns in the order
    /// in which they run, one after another, each as its tick says. Then
    /// the processes that were there after the last turn were gone through
    /// in the order in which they run, and each that had nothing left to
    /// live died with all its descendants.
    pub open spec fn all_ticked_from(
        &self,
        before: &Kernel,
        order: Seq<u16>,
        turned: Seq<Kernel>,
        graves: Seq<u16>,
        reaped: Seq<Kernel>,
    ) -> bool {
        &&& Kernel::is_running_order(before.processes(), order)
        &&& turned.len() == order.len() + 1
        &&& turned[0] == *before
        &&& forall|i: int| 0 <= i < order.len() ==> #[trigger] Kernel::turn_taken(turned, order, i)
        &&& Kernel::is_running_order(turned[order.len() as int].processes(), graves)
        &&& reaped.len() == graves.len() + 1
        &&& reaped[0] == turned[order.len() as int]
        &&& forall|j: int| 0 <= j < graves.len() ==> #[trigger] Kernel::grave_dug(reaped, graves, j)
        &&& *self == reaped[graves.len() as int]
    }

    /// One tick of all processes. They take their turns in the order in
    /// which they run, each as its tick says. After the last turn, every
    /// process that has nothing left to live dies with all its descendants.
    pub fn tick_processes(&mut self)
        requires
            old(self).wf(),
        ensures
            final(self).wf(),
            final(self).users().dom() == old(self).users().dom(),
            final(self).config() == old(self).config(),
            final(self).chance() == old(self).chance(),
            old(self).events().is_prefix_of(final(self).events()),
            final(self).aged_from(old(self)),
            forall|q: u16| #[trigger]
                final(self).processes().contains_key(q) ==> final(self).processes()[q].lifetime
                    > 0,
            exists|order: Seq<u16>, turned: Seq<Kernel>, graves: Seq<u16>, reaped: Seq<Kernel>| #[trigger]
                final(self).all_ticked_from(old(self), order, turned, graves, reaped),
    {
        let process_queue = self.execution_order();
        let ghost roll = process_queue@.to_set();
        let ghost longest = if process_queue@.len() > 0 {
            Kernel::lemma_longest(self.processes(), process_queue@)
        } else {
            0u16
        };
        let ghost bound = if process_queue@.len() > 0 {
            self.processes()[longest].lifetime
        } else {
            0u32
        };
        let ghost mut turned: Seq<Kernel> = seq![*self];
        proof {
            assert forall|q: u16| #[trigger] self.processes().contains_key(q) implies {
                &&& self.processes()[q].lifetime <= bound
                &&& roll.contains(q)
            } by {
                assert(roll.contains(q));
                assert(process_queue@.contains(q));
                let i = choose|i: int| 0 <= i < process_queue@.len() && process_queue@[i] == q;
                assert(self.processes()[process_queue@[i]].lifetime <= bound);
            }
            assert(process_queue@.subrange(0, process_queue@.len() as int) =~= process_queue@);
        }
        let mut i: usize = 0;
        while i < process_queue.len()
            invariant
                self.wf(),
                i <= process_queue@.len(),
                process_queue@.no_duplicates(),
                roll == process_queue@.to_set(),
                self.paced(
                    process_queue@.subrange(i as int, process_queue@.len() as int).to_set(),
                    roll,
                    bound,
                ),
                self.users().dom() == old(self).users().dom(),
                self.config() == old(self).config(),
                self.chance() == old(self).chance(),
                old(self).events().is_prefix_of(self.events()),
                turned.len() == i + 1,
                turned[0] == *old(self),
                turned[i as int] == *self,
                forall|k: int| 0 <= k < i ==> #[trigger] Kernel::turn_taken(turned, process_queue@, k),
            decreases process_queue@.len() - i,
        {
            let ghost waiting = process_queue@.subrange(
                i as int,
                process_queue@.len() as int,
            ).to_set();
            let ghost rest = process_queue@.subrange(i + 1, process_queue@.len() as int).to_set();
            proof {
                assert(waiting.remove(process_queue@[i as int]) =~= rest) by {
                    let here = process_queue@.subrange(i as int, process_queue@.len() as int);
                    let next = process_queue@.subrange(i + 1, process_queue@.len() as int);
                    assert forall|q: u16| waiting.remove(process_queue@[i as int]).contains(q)
                        <==> rest.contains(q) by {
                        if here.contains(q) && q != process_queue@[i as int] {
                            let k = choose|k: int| 0 <= k < here.len() && here[k] == q;
                            assert(next[k - 1] == q);
                        }
                        if next.contains(q) {
                            let k = choose|k: int| 0 <= k < next.len() && next[k] == q;
                            assert(here[k + 1] == q);
                            assert(process_queue@[i + 1 + k] == q);
                        }
                    }
                }
            }
            let ghost before_turn = *self;
            self.run_process_tick(process_queue[i], Ghost(waiting), Ghost(roll), Ghost(bound));
            proof {
                let longer = turned.push(*self);
                assert forall|k: int| 0 <= k < i + 1 implies #[trigger] Kernel::turn_taken(
                    longer,
                    process_queue@,
                    k,
                ) by {
                    assert(longer[k] == turned[k]);
                    if k < i {
                        assert(longer[k + 1] == turned[k + 1]);
                        assert(Kernel::turn_taken(turned, process_queue@, k));
                    } else {
                        assert(longer[k + 1] == *self);
                        assert(turned[k] == before_turn);
                    }
                }
                turned = longer;
            }
            i += 1;
        }
        let graves = self.execution_order();
        let ghost mut reaped: Seq<Kernel> = seq![*self];
        let ghost ran = *self;
        let mut j: usize = 0;
        proof {
            assert(process_queue@.subrange(i as int, process_queue@.len() as int).to_set()
                =~= Set::<u16>::empty());
        }
        while j < graves.len()
            invariant
                self.wf(),
                j <= graves@.len(),
                graves@.to_set() == ran.processes().dom(),
                self.paced(Set::<u16>::empty(), roll, bound),
                forall|q: u16| #[trigger]
                    self.processes().contains_key(q) ==> ran.processes().contains_key(q),
                forall|k: int|
                    0 <= k < j ==> (self.processes().contains_key(#[trigger] graves@[k])
                        ==> self.processes()[graves@[k]].lifetime > 0),
                self.users().dom() == old(self).users().dom(),
                self.config() == old(self).config(),
                self.chance() == old(self).chance(),
                old(self).events().is_prefix_of(self.events()),
                reaped.len() == j + 1,
                reaped[0] == ran,
                reaped[j as int] == *self,
                forall|k: int| 0 <= k < j ==> #[trigger] Kernel::grave_dug(reaped, graves@, k),
            decreases graves@.len() - j,
        {
            let pid = graves[j];
            let ghost middle = *self;
            if self.has_process(pid) && self.get_process(pid).lifetime == 0 {
                self.kill_process_recursive(pid);
                proof {
                    assert forall|q: u16| #[trigger] self.processes().contains_key(q) implies {
                        &&& middle.processes().contains_key(q)
                        &&& self.processes()[q].lifetime == middle.processes()[q].lifetime
                    } by {
                        assert(self.processes()[q] == bereft(middle.processes(), pid)[q]);
                    }
                }
            }
            proof {
                let longer = reaped.push(*self);
                assert forall|k: int| 0 <= k < j + 1 implies #[trigger] Kernel::grave_dug(
                    longer,
                    graves@,
                    k,
                ) by {
                    assert(longer[k] == reaped[k]);
                    if k < j {
                        assert(longer[k + 1] == reaped[k + 1]);
                        assert(Kernel::grave_dug(reaped, graves@, k));
                    } else {
                        assert(longer[k + 1] == *self);
                        assert(reaped[k] == middle);
                    }
                }
                reaped = longer;
            }
            j += 1;
        }
        proof {
            assert forall|q: u16| #[trigger]
                self.processes().contains_key(q) implies self.processes()[q].lifetime > 0 by {
                assert(ran.processes().contains_key(q));
                assert(graves@.to_set().contains(q));
                assert(graves@.contains(q));
                let k = choose|k: int| 0 <= k < graves@.len() && graves@[k] == q;
                assert(self.processes().contains_key(graves@[k]));
            }
            assert forall|q: u16| #[trigger] self.processes().contains_key(q) implies exists|p: u16| #[trigger]
                old(self).processes().contains_key(p) && self.processes()[q].lifetime < old(
                    self,
                ).processes()[p].lifetime by {
                assert(self.processes()[q].lifetime > 0);
                assert(bound > 0);
                assert(old(self).processes().contains_key(longest));
            }
            assert(self.all_ticked_from(old(self), process_queue@, turned, graves@, reaped));
        }
    }

    /// Whether the game is over: no process is left.
    pub fn is_over(&self) -> (over: bool)
        ensures
            over == (self.processes().dom() == Set::<u16>::empty()),
    {
        broadcast use vstd::std_specs::hash::group_hash_axioms;

        let over = self.process_table.is_empty();
        proof {
            assert(self.processes().dom() =~= self.process_table@.dom());
            if over {
                assert(self.processes().dom() =~= Set::<u16>::empty());
            } else {
                assert(self.process_table@.dom() !== Set::<u16>::empty());
            }
        }
        over
    }

    /// Whether this kernel has come from `before` by the map's part of a
    /// tick: challenges have been sown as the rounds say, which has been
    /// logged, and nothing else has changed.
    pub open spec fn spawned_from(&self, before: &Kernel, rounds: Seq<Seq<Sowing>>) -> bool {
        &&& self.processes() == before.processes()
        &&& self.users() == before.users()
        &&& self.map().locations() == before.map().locations()
        &&& (self.map().cells(), self.events()) == GameMap::sown_rounds(
            (before.map().cells(), before.events()),
            rounds,
        )
        &&& self.generations() == before.generations()
        &&& self.config() == before.config()
        &&& self.chance() == before.chance()
    }

    /// Whether this kernel has come from `before` by one tick of the game:
    /// first the map's part, with rounds of sowings that the source of
    /// chance can hand out for the configured kinds, which gave `spawned`;
    /// and then one tick of all processes.
    pub open spec fn ticked_from(
        &self,
        before: &Kernel,
        rounds: Seq<Seq<Sowing>>,
        spawned: Kernel,
        order: Seq<u16>,
        turned: Seq<Kernel>,
        graves: Seq<u16>,
        reaped: Seq<Kernel>,
    ) -> bool {
        &&& GameMap::rounds_allowed(before.config().crypto_spawn@, before.chance(), rounds)
        &&& spawned.wf()
        &&& spawned.spawned_from(before, rounds)
        &&& self.all_ticked_from(&spawned, order, turned, graves, reaped)
    }

    /// One tick of the game: new challenges may appear on the map, and then
    /// all processes take their turns.
    pub fn tick(&mut self)
        requires
            old(self).wf(),
        ensures
            final(self).wf(),
            final(self).users().dom() == old(self).users().dom(),
            final(self).config() == old(self).config(),
            final(self).chance() == old(self).chance(),
            old(self).events().is_prefix_of(final(self).events()),
            final(self).aged_from(old(self)),
            forall|q: u16| #[trigger]
                final(self).processes().contains_key(q) ==> final(self).processes()[q].lifetime
                    > 0,
            exists|
                rounds: Seq<Seq<Sowing>>,
                spawned: Kernel,
                order: Seq<u16>,
                turned: Seq<Kernel>,
                graves: Seq<u16>,
                reaped: Seq<Kernel>,
            | #[trigger]
                final(self).ticked_from(old(self), rounds, spawned, order, turned, graves, reaped),
    {
        reveal(Kernel::placed);
        reveal(Kernel::owned_up);
        reveal(Kernel::related);
        reveal(Kernel::ranked);
        self.game_map.tick(&self.config.crypto_spawn, &self.chance, &mut self.events);
        proof {
            assert(self.processes() =~= old(self).processes());
        }
        let ghost spawned = *self;
        let ghost rounds = choose|rounds: Seq<Seq<Sowing>>|
            {
                &&& #[trigger] GameMap::rounds_allowed(
                    old(self).config().crypto_spawn@,
                    old(self).chance(),
                    rounds,
                )
                &&& (spawned.map().cells(), spawned.events()) == GameMap::sown_rounds(
                    (old(self).map().cells(), old(self).events()),
                    rounds,
                )
            };
        self.tick_processes();
        proof {
            assert forall|q: u16| #[trigger] self.processes().contains_key(q) implies exists|p: u16| #[trigger]
                old(self).processes().contains_key(p) && self.processes()[q].lifetime < old(
                    self,
                ).processes()[p].lifetime by {
                let p = choose|p: u16| #[trigger]
                    spawned.processes().contains_key(p) && self.processes()[q].lifetime
                        < spawned.processes()[p].lifetime;
                assert(old(self).processes().contains_key(p));
            }
            let (order, turned, graves, reaped) = choose|
                order: Seq<u16>,
                turned: Seq<Kernel>,
                graves: Seq<u16>,
                reaped: Seq<Kernel>,
            | #[trigger] self.all_ticked_from(&spawned, order, turned, graves, reaped);
            assert(self.ticked_from(old(self), rounds, spawned, order, turned, graves, reaped));
        }
    }

    /// Whether no process has more than `bound` to live.
    pub open spec fn all_within(&self, bound: u32) -> bool {
        forall|q: u16| #[trigger]
            self.processes().contains_key(q) ==> self.processes()[q].lifetime <= bound
    }

    /// After a tick, every bound on what processes have to live has come
    /// down by one; and where nobody had anything to live, nobody is left.
    pub proof fn lemma_aged(&self, before: &Kernel, bound: u32)
        requires
            self.aged_from(before),
            before.all_within(bound),
        ensures
            bound > 0 ==> self.all_within((bound - 1) as u32),
            bound == 0 ==> self.processes().dom() == Set::<u16>::empty(),
    {
        assert forall|q: u16| #[trigger] self.processes().contains_key(q) implies bound > 0
            && self.processes()[q].lifetime <= bound - 1 by {
            let p = choose|p: u16| #[trigger]
                before.processes().contains_key(p) && self.processes()[q].lifetime
                    < before.processes()[p].lifetime;
            assert(before.processes()[p].lifetime <= bound);
        }
        if bound == 0 {
            assert(self.processes().dom() =~= Set::<u16>::empty());
        }
    }

    /// The uids of all users, each once, in no particular order.
    pub fn all_uids(&self) -> (uids: Vec<u16>)
        ensures
            uids@.no_duplicates(),
            uids@.to_set() == self.users().dom(),
    {
        broadcast use vstd::std_specs::hash::group_hash_axioms;
        broadcast use vstd::std_specs::hash::axiom_spec_keys_iter;

        let mut uids: Vec<u16> = Vec::new();
        for key in iter: self.user_table.keys()
            invariant
                uids@.len() == iter.index(),
                forall|i: int| 0 <= i < uids@.len() ==> uids@[i] == *iter.seq()[i],
        {
            uids.push(*key);
        }
        assert(uids@ =~= vstd::std_specs::iter::IteratorSpec::remaining(
            &vstd::std_specs::hash::spec_keys_iter(&self.user_table),
        ).unref());
        uids
    }

    /// Whether a user's wallet has been turned into score since `before`.
    pub open spec fn cashed_from(&self, before: &Kernel, uid: u16) -> bool {
        let was = before.users()[uid];
        let now = self.users()[uid];
        &&& now.uid == was.uid
        &&& now.initd_pid == was.initd_pid
        &&& now.num_processes == was.num_processes
        &&& now.wallet@ == Wallet::holding(0, 0, 0, 0, 0, 0)
        &&& now.score == was.score.wrapping_add(was.wallet.score() as i64)
    }

    /// The end of a game: every user's wallet is turned into score, which
    /// is logged user by user, in no particular order.
    pub fn settle_scores(&mut self)
        requires
            old(self).wf(),
        ensures
            final(self).wf(),
            final(self).processes() == old(self).processes(),
            final(self).users().dom() == old(self).users().dom(),
            forall|uid: u16| #[trigger]
                final(self).users().contains_key(uid) ==> final(self).cashed_from(old(self), uid),
            final(self).map().cells() == old(self).map().cells(),
            final(self).map().locations() == old(self).map().locations(),
            final(self).config() == old(self).config(),
            final(self).chance() == old(self).chance(),
            old(self).events().is_prefix_of(final(self).events()),
            final(self).events().len() == old(self).events().len() + 2 * old(
                self,
            ).users().dom().len(),
    {
        let uids = self.all_uids();
        proof {
            uids@.unique_seq_to_set();
            assert(uids@.subrange(0, 0).to_set() =~= Set::<u16>::empty());
        }
        let mut i: usize = 0;
        while i < uids.len()
            invariant
                self.wf(),
                i <= uids@.len(),
                uids@.no_duplicates(),
                uids@.to_set() == old(self).users().dom(),
                uids@.len() == old(self).users().dom().len(),
                self.processes() == old(self).processes(),
                self.users().dom() == old(self).users().dom(),
                forall|uid: u16| #[trigger]
                    self.users().contains_key(uid) ==> if uids@.subrange(0, i as int).contains(uid) {
                        self.cashed_from(old(self), uid)
                    } else {
                        self.users()[uid] == old(self).users()[uid]
                    },
                self.map().cells() == old(self).map().cells(),
                self.map().locations() == old(self).map().locations(),
                self.config() == old(self).config(),
                self.chance() == old(self).chance(),
                old(self).events().is_prefix_of(self.events()),
                self.events().len() == old(self).events().len() + 2 * i,
            decreases uids@.len() - i,
        {
            let uid = uids[i];
            proof {
                assert(uids@.to_set().contains(uid));
                self.lemma_user_filed(uid);
                assert(!uids@.subrange(0, i as int).contains(uid)) by {
                    if uids@.subrange(0, i as int).contains(uid) {
                        let k = choose|k: int| 0 <= k < i && uids@.subrange(0, i as int)[k] == uid;
                        assert(uids@[k] == uids@[i as int]);
                    }
                }
            }
            let ghost middle = *self;
            let mut user = *self.get_user(uid);
            let mut log: Vec<GameEvent> = Vec::new();
            user.convert_wallet_to_score(&mut log);
            self.update_user(user);
            let score_event = log.pop().unwrap();
            let wallet_event = log.pop().unwrap();
            self.log(wallet_event);
            self.log(score_event);
            proof {
                assert(self.users().dom() =~= old(self).users().dom());
                let done = uids@.subrange(0, i as int);
                let grown = uids@.subrange(0, i + 1);
                assert(grown[i as int] == uid);
                assert forall|other: u16| #[trigger] self.users().contains_key(other) implies if grown.contains(
                    other,
                ) {
                    self.cashed_from(old(self), other)
                } else {
                    self.users()[other] == old(self).users()[other]
                } by {
                    assert(middle.users().contains_key(other));
                    if other == uid {
                    } else {
                        if done.contains(other) {
                            let k = choose|k: int| 0 <= k < done.len() && done[k] == other;
                            assert(grown[k] == other);
                        }
                        if grown.contains(other) {
                            let k = choose|k: int| 0 <= k < grown.len() && grown[k] == other;
                            assert(done[k] == other);
                        }
                    }
                }
            }
            i += 1;
        }
        proof {
            assert(uids@.subrange(0, i as int) =~= uids@);
            assert forall|uid: u16| #[trigger] self.users().contains_key(uid) implies self.cashed_from(
                old(self),
                uid,
            ) by {
                assert(uids@.to_set().contains(uid));
            }
        }
    }

    /// Whether this kernel has come from `before` by one tick of the game,
    /// whatever chance contributed to it.
    pub open spec fn game_ticked_from(&self, before: &Kernel) -> bool {
        exists|
            rounds: Seq<Seq<Sowing>>,
            spawned: Kernel,
            order: Seq<u16>,
            turned: Seq<Kernel>,
            graves: Seq<u16>,
            reaped: Seq<Kernel>,
        | #[trigger]
            self.ticked_from(before, rounds, spawned, order, turned, graves, reaped)
    }

    /// Whether the `i`th tick of a game was made: somebody was left to
    /// play, and the next kernel has come from this one by one tick.
    pub open spec fn tick_made(ticks: Seq<Kernel>, i: int) -> bool {
        &&& ticks[i].wf()
        &&& ticks[i].processes().dom() != Set::<u16>::empty()
        &&& ticks[i + 1].game_ticked_from(&ticks[i])
    }

    /// Whether this kernel has come from `before` by settling the scores:
    /// every user's wallet has been turned into score, which has been
    /// logged with two events for each user, and nothing else has changed.
    pub open spec fn scores_settled_from(&self, before: &Kernel) -> bool {
        &&& self.processes() == before.processes()
        &&& self.users().dom() == before.users().dom()
        &&& forall|uid: u16| #[trigger]
            self.users().contains_key(uid) ==> self.cashed_from(before, uid)
        &&& self.map().cells() == before.map().cells()
        &&& self.map().locations() == before.map().locations()
        &&& self.config() == before.config()
        &&& self.chance() == before.chance()
        &&& before.events().is_prefix_of(self.events())
        &&& self.events().len() == before.events().len() + 2 * before.users().dom().len()
    }

    /// Whether this kernel has come from `before` by a whole game: tick
    /// after tick was made as long as somebody was left to play, and then
    /// the scores were settled.
    pub open spec fn played_from(&self, before: &Kernel, ticks: Seq<Kernel>) -> bool {
        &&& ticks.len() >= 1
        &&& ticks[0] == *before
        &&& forall|i: int| 0 <= i < ticks.len() - 1 ==> #[trigger] Kernel::tick_made(ticks, i)
        &&& ticks[ticks.len() - 1].wf()
        &&& ticks[ticks.len() - 1].processes().dom() == Set::<u16>::empty()
        &&& self.scores_settled_from(&ticks[ticks.len() - 1])
    }

    /// The whole game: tick after tick until no process is left, and then
    /// the scores are settled.
    pub fn run_full_game(&mut self)
        requires
            old(self).wf(),
        ensures
            final(self).wf(),
            final(self).processes().dom() == Set::<u16>::empty(),
            final(self).users().dom() == old(self).users().dom(),
            forall|uid: u16| #[trigger]
                final(self).users().contains_key(uid) ==> final(self).users()[uid].wallet@
                    == Wallet::holding(0, 0, 0, 0, 0, 0),
            final(self).config() == old(self).config(),
            final(self).chance() == old(self).chance(),
            old(self).events().is_prefix_of(final(self).events()),
            exists|ticks: Seq<Kernel>| #[trigger] final(self).played_from(old(self), ticks),
    {
        let ghost mut bound: u32 = u32::MAX;
        let ghost mut ticks: Seq<Kernel> = seq![*self];
        while !self.is_over()
            invariant
                self.wf(),
                self.all_within(bound),
                ticks.len() >= 1,
                ticks[0] == *old(self),
                ticks[ticks.len() - 1] == *self,
                forall|i: int| 0 <= i < ticks.len() - 1 ==> #[trigger] Kernel::tick_made(ticks, i),
                self.users().dom() == old(self).users().dom(),
                self.config() == old(self).config(),
                self.chance() == old(self).chance(),
                old(self).events().is_prefix_of(self.events()),
            decreases
                    (if self.processes().dom() == Set::<u16>::empty() {
                        0int
                    } else {
                        bound + 1
                    }),
        {
            let ghost before = *self;
            self.tick();
            proof {
                self.lemma_aged(&before, bound);
                if bound > 0 {
                    bound = (bound - 1) as u32;
                }
                assert(self.game_ticked_from(&before));
                let longer = ticks.push(*self);
                assert forall|i: int| 0 <= i < longer.len() - 1 implies #[trigger] Kernel::tick_made(
                    longer,
                    i,
                ) by {
                    assert(longer[i] == ticks[i]);
                    if i < ticks.len() - 1 {
                        assert(longer[i + 1] == ticks[i + 1]);
                        assert(Kernel::tick_made(ticks, i));
                    } else {
                        assert(longer[i + 1] == *self);
                        assert(ticks[i] == before);
                    }
                }
                ticks = longer;
            }
        }
        let ghost ticked = *self;
        self.settle_scores();
        proof {
            assert(self.processes().dom() =~= Set::<u16>::empty());
            assert(self.played_from(old(self), ticks));
        }
    }

    /// The map and the table agree. A process is in the table exactly if
    /// the map names a cell for it, and it is the occupant of that cell;
    /// whoever occupies a cell is a process for which the map names that
    /// cell; and a wall holds nothing.
    pub proof fn lemma_map_and_table_agree(&self, pid: u16, location: Location)
        requires
            self.wf(),
        ensures
            self.processes().contains_key(pid) <==> self.map().locations().contains_key(pid),
            self.processes().contains_key(pid) ==> self.map().cell(
                self.map().locations()[pid],
            ).occupant() == Some(pid),
            self.map().cell(location).occupant() matches Some(occupant)
                ==> self.processes().contains_key(occupant) && self.map().locations()[occupant]
                == location,
            self.map().cell(location).kind() == CellType::Wall ==> self.map().cell(
                location,
            ).occupant() is None && self.map().cell(location).challenge() is None,
    {
        reveal(Kernel::placed);
        assert(self.map().cell(location).wf());
    }

    /// Parents and children agree. The parent of a process is in the table,
    /// has the same owner and lists the process exactly once; every child
    /// that a process lists is in the table and names it as its parent. The
    /// only processes without a parent are the first processes that their
    /// owners name, and every owner counts exactly the processes they own.
    pub proof fn lemma_families_agree(&self, pid: u16)
        requires
            self.wf(),
            self.processes().contains_key(pid),
        ensures
            self.processes()[pid].ppid matches Some(parent) ==> {
                &&& self.processes().contains_key(parent)
                &&& self.processes()[parent].children.contains(pid)
                &&& self.processes()[parent].uid == self.processes()[pid].uid
            },
            self.processes()[pid].children.no_duplicates(),
            forall|i: int|
                0 <= i < self.processes()[pid].children.len() ==> {
                    &&& self.processes().contains_key(#[trigger] self.processes()[pid].children[i])
                    &&& self.processes()[self.processes()[pid].children[i]].ppid == Some(pid)
                },
            self.users().contains_key(self.processes()[pid].uid),
            self.processes()[pid].ppid is None <==> self.users()[self.processes()[pid].uid].initd_pid
                == Some(pid),
            self.users()[self.processes()[pid].uid].num_processes == owned(
                self.processes(),
                self.processes()[pid].uid,
            ).len(),
            self.users()[self.processes()[pid].uid].num_processes >= 1,
    {
        reveal(Kernel::owned_up);
        reveal(Kernel::related);
        let uid = self.processes()[pid].uid;
        assert(self.users().contains_key(uid));
        assert(owned(self.processes(), uid).contains(pid));
        assert(owned(self.processes(), uid).finite()) by {
            assert(self.processes().dom() =~= self.process_table@.dom());
        }
        if owned(self.processes(), uid).len() == 0 {
            owned(self.processes(), uid).lemma_len0_is_empty();
        }
    }

    /// Gives a user another wallet.
    pub fn set_wallet(&mut self, uid: u16, wallet: Wallet)
        requires
            old(self).wf(),
            old(self).users().contains_key(uid),
        ensures
            final(self).wf(),
            final(self).settled_from(
                old(self),
                User { wallet, ..old(self).users()[uid] },
                Seq::empty(),
            ),
    {
        proof {
            self.lemma_user_filed(uid);
        }
        let mut user = *self.get_user(uid);
        user.wallet = wallet;
        self.update_user(user);
    }

    /// Gives a user another score.
    pub fn set_score(&mut self, uid: u16, score: i64)
        requires
            old(self).wf(),
            old(self).users().contains_key(uid),
        ensures
            final(self).wf(),
            final(self).settled_from(
                old(self),
                User { score, ..old(self).users()[uid] },
                Seq::empty(),
            ),
    {
        proof {
            self.lemma_user_filed(uid);
        }
        let mut user = *self.get_user(uid);
        user.score = score;
        self.update_user(user);
    }

    /// Gives a process another niceness.
    pub fn set_nice(&mut self, pid: u16, nice: u16)
        requires
            old(self).wf(),
            old(self).processes().contains_key(pid),
        ensures
            final(self).wf(),
            final(self).touched_from(
                old(self),
                pid,
                ProcessView { nice, ..old(self).processes()[pid] },
                Seq::empty(),
            ),
    {
        let ghost before = *self;
        let mut process = self.checkout(pid);
        process.nice = nice;
        self.checkin(Ghost(&before), process);
    }

    /// Leaves a process at most `lifetime` to live. What a process has
    /// left can be cut, never raised.
    pub fn cut_lifetime(&mut self, pid: u16, lifetime: u32)
        requires
            old(self).wf(),
            old(self).processes().contains_key(pid),
        ensures
            final(self).wf(),
            final(self).touched_from(
                old(self),
                pid,
                ProcessView {
                    lifetime: if lifetime < old(self).processes()[pid].lifetime {
                        lifetime
                    } else {
                        old(self).processes()[pid].lifetime
                    },
                    ..old(self).processes()[pid]
                },
                Seq::empty(),
            ),
    {
        let ghost before = *self;
        let mut process = self.checkout(pid);
        if lifetime < process.lifetime {
            process.lifetime = lifetime;
        }
        self.checkin(Ghost(&before), process);
    }

    /// Writes to a register of the machine of a process.
    pub fn set_register(&mut self, pid: u16, register: RegisterName, value: u16)
        requires
            old(self).wf(),
            old(self).processes().contains_key(pid),
        ensures
            final(self).wf(),
            final(self).touched_from(
                old(self),
                pid,
                old(self).with_machine(pid, old(self).machine(pid).with_reg(register, value)),
                Seq::empty(),
            ),
    {
        let ghost before = *self;
        let mut process = self.checkout(pid);
        process.emulator.set_reg(register, value);
        self.checkin(Ghost(&before), process);
    }

    /// The pids from 1 up to `top`.
    pub open spec fn pids_up_to(top: u16) -> Set<u16> {
        Set::new(|q: u16| 1 <= q <= top)
    }

    /// There are `top` pids from 1 up to `top`.
    pub proof fn lemma_pids_up_to(top: u16)
        ensures
            Kernel::pids_up_to(top).finite(),
            Kernel::pids_up_to(top).len() == top,
        decreases top,
    {
        if top == 0 {
            assert(Kernel::pids_up_to(top) =~= Set::<u16>::empty());
        } else {
            let less = (top - 1) as u16;
            Kernel::lemma_pids_up_to(less);
            assert(Kernel::pids_up_to(top) =~= Kernel::pids_up_to(less).insert(top));
        }
    }

    /// After the first `k` users of a chain have taken their seats, there
    /// are `k` processes more than before; no uid is a user that was none
    /// before and is none of theirs; and every cell that could take a
    /// process before and is none of their cells to start on still can.
    pub proof fn lemma_seats(
        before: &Kernel,
        configs: Seq<UserConfiguration>,
        pids: Seq<u16>,
        states: Seq<Kernel>,
        k: int,
    )
        requires
            before.wf(),
            pids.len() <= configs.len(),
            states.len() == pids.len() + 1,
            states[0] == *before,
            forall|i: int|
                0 <= i < pids.len() ==> #[trigger] Kernel::seat_taken(states, configs, pids, i),
            0 <= k <= pids.len(),
        ensures
            states[k].processes().dom().finite(),
            states[k].processes().dom().len() == before.processes().dom().len() + k,
            forall|uid: u16|
                !before.users().contains_key(uid) && (forall|i: int|
                    0 <= i < k ==> (#[trigger] configs[i]).uid != uid)
                    ==> !(#[trigger] states[k].users().contains_key(uid)),
            forall|location: Location|
                before.map().can_host(location) && (forall|i: int|
                    0 <= i < k ==> (#[trigger] configs[i]).spawn_point != location)
                    ==> #[trigger] states[k].map().can_host(location),
        decreases k,
    {
        broadcast use {MapCell::lemma_with_occupant, MapCell::lemma_with_challenge};

        if k == 0 {
            assert(before.processes().dom() =~= before.process_table@.dom());
        } else {
            Kernel::lemma_seats(before, configs, pids, states, k - 1);
            assert(Kernel::seat_taken(states, configs, pids, k - 1));
            let prev = states[k - 1];
            let next = states[k];
            let config = configs[k - 1];
            assert(next.processes().dom() =~= prev.processes().dom().insert(pids[k - 1]));
            assert forall|uid: u16|
                !before.users().contains_key(uid) && (forall|i: int|
                    0 <= i < k ==> (#[trigger] configs[i]).uid != uid) implies !(
            #[trigger] next.users().contains_key(uid)) by {
                assert(configs[k - 1].uid != uid);
                assert(!prev.users().contains_key(uid));
                assert(next.users().dom() == prev.users().dom().insert(config.uid));
            }
            assert forall|location: Location|
                before.map().can_host(location) && (forall|i: int|
                    0 <= i < k ==> (#[trigger] configs[i]).spawn_point
                    != location) implies #[trigger] next.map().can_host(location) by {
                assert(configs[k - 1].spawn_point != location);
                assert(prev.map().can_host(location));
                prev.lemma_cells_sized();
                GameMap::lemma_with_cell(
                    prev.map().cells(),
                    config.spawn_point,
                    prev.map().cell(config.spawn_point).with_occupant(Some(pids[k - 1])),
                );
                assert(next.map().cell(location) == prev.map().cell(location));
            }
        }
    }

    /// The map of a well-formed kernel has all its cells.
    pub proof fn lemma_cells_sized(&self)
        requires
            self.wf(),
        ensures
            self.map().cells().len() == 65536,
    {
        reveal(Kernel::placed);
    }

    /// Users whom nothing stands in the way of are all set up. Where every
    /// image has its full size, the uids are new and differ from one
    /// another, the cells to start on can take a process and differ from
    /// one another, and fewer than 65534 processes would be there in the
    /// end, the set-up succeeds.
    pub proof fn lemma_setup_succeeds(
        &self,
        before: &Kernel,
        configs: Seq<UserConfiguration>,
        pids: Seq<u16>,
        states: Seq<Kernel>,
        res: Result<(), SetupError>,
    )
        requires
            before.wf(),
            self.set_up_from(before, configs, pids, states, res),
            before.processes().dom().len() + configs.len() < 65534,
            forall|i: int|
                0 <= i < configs.len() ==> {
                    &&& (#[trigger] configs[i]).initd_memory@.len() == 65536
                    &&& configs[i].initd_bytecode@.len() == 65536
                    &&& !before.users().contains_key(configs[i].uid)
                    &&& before.map().can_host(configs[i].spawn_point)
                },
            forall|i: int, j: int|
                0 <= i < j < configs.len() ==> {
                    &&& (#[trigger] configs[i]).uid != (#[trigger] configs[j]).uid
                    &&& configs[i].spawn_point != configs[j].spawn_point
                },
        ensures
            res is Ok,
            pids.len() == configs.len(),
    {
        let count = pids.len() as int;
        Kernel::lemma_seats(before, configs, pids, states, count);
        if res is Err {
            let last = states[count];
            let config = configs[count];
            assert(!last.users().contains_key(config.uid));
            assert(last.map().can_host(config.spawn_point));
            assert(last.setup_obstacle(&config) is None);
            Kernel::lemma_pids_up_to(65534);
            assert(Kernel::pids_up_to(65534).subset_of(last.processes().dom())) by {
                assert forall|q: u16| Kernel::pids_up_to(65534).contains(q) implies #[trigger] last.processes().dom().contains(
                    q,
                ) by {
                    assert(last.processes().contains_key(q));
                }
            }
            vstd::set_lib::lemma_len_subset(Kernel::pids_up_to(65534), last.processes().dom());
        }
    }

    /// The machine of a process is a well-formed machine.
    pub proof fn lemma_machine_wf(&self, pid: u16)
        requires
            self.wf(),
            self.processes().contains_key(pid),
        ensures
            self.processes()[pid].emulator.wf(),
    {
        self.process_table@[pid].emulator.lemma_wf();
    }

    /// A fork by system call is paid for and answered. Where the call gave
    /// a child and has been concluded, the owner has four ether less and
    /// one process more and nothing else of the owner has changed; the
    /// child is in the table under a pid from 1 to 65534 that was free; AX
    /// of the parent holds that pid and AX of the child 0xffff; the child
    /// has half of what the parent had left to live; and the last event
    /// logged is the owner's new wallet.
    pub proof fn lemma_fork_paid_and_answered(
        &self,
        called: &Kernel,
        before: &Kernel,
        pid: u16,
        args: crate::kernel::syscall::SyscallArgs,
        child: u16,
    )
        requires
            before.wf(),
            before.processes().contains_key(pid),
            called.effected_from(before, Syscall::Fork, pid, args, Some(child)),
            self.concluded_from(
                called,
                pid,
                Syscall::Fork.cost(args),
                Some(child),
                before.processes()[pid].uid,
            ),
        ensures
            ({
                let uid = before.processes()[pid].uid;
                let was = before.users()[uid];
                let now = self.users()[uid];
                &&& 1 <= child <= 65534
                &&& child != pid
                &&& !before.processes().contains_key(child)
                &&& self.processes().contains_key(child)
                &&& self.processes().contains_key(pid)
                &&& self.processes()[pid].emulator.reg(RegisterName::AX) == child
                &&& self.processes()[child].emulator.reg(RegisterName::AX) == 0xffff
                &&& self.processes()[child].ppid == Some(pid)
                &&& self.processes()[child].uid == uid
                &&& self.processes()[child].lifetime == before.processes()[pid].lifetime / 2
                &&& now.num_processes == was.num_processes + 1
                &&& now.score == was.score
                &&& now.initd_pid == was.initd_pid
                &&& now.wallet@[2] == was.wallet@[2].wrapping_sub(4)
                &&& forall|i: int| 0 <= i < 6 && i != 2 ==> now.wallet@[i] == was.wallet@[i]
                &&& self.events().len() > 0
                &&& self.events().last() == (GameEvent::WalletUpdate {
                    uid,
                    new_wallet: now.wallet,
                })
            }),
    {
        let uid = before.processes()[pid].uid;
        before.lemma_owner_known(pid);
        before.lemma_machine_wf(pid);
        let location = choose|location: Location| #[trigger]
            called.forked_from(before, pid, child, location);
        assert(called.processes() == forked(before.processes(), pid, child));
        assert(called.processes().contains_key(pid));
        assert(called.processes().contains_key(child));
        assert(called.users()[uid].wallet == before.users()[uid].wallet);
        let cost = Syscall::Fork.cost(args);
        assert(cost[2] == 4);
        assert forall|i: int| 0 <= i < 6 && i != 2 implies self.users()[uid].wallet@[i]
            == before.users()[uid].wallet@[i] by {
            assert(cost[i] == 0);
        }
    }

    /// Whether every strike that the source of chance of this kernel hands
    /// out for a rude awakening writes to memory only.
    pub open spec fn strikes_memory_only(&self) -> bool {
        forall|entropy: Entropy| #[trigger] self.chance().allows(entropy) ==> harmless(entropy)
    }

    /// The idle tick. A process whose bytecode is Nop throughout, under a
    /// source of chance whose strikes write to memory only, makes no
    /// system call in its tick and spends its whole budget on Nops. After
    /// the tick it is a tick older, its tick counter is one higher, its
    /// program counter has moved on by the budget and its Sleep flag is
    /// set; no other register, no bytecode and nothing else of the process
    /// has changed. Its owner's score has gained a hundredth of the budget,
    /// which is all that has been logged, and nothing else has changed.
    pub proof fn lemma_idle_tick(&self, before: &Kernel, pid: u16)
        requires
            before.wf(),
            before.processes().contains_key(pid),
            all_nops(before.processes()[pid].emulator),
            before.strikes_memory_only(),
            self.process_ticked_from(before, pid),
        ensures
            ({
                let was = before.processes()[pid];
                let owner = before.users()[was.uid];
                let score = owner.score.wrapping_add((before.budget(pid) / 100) as i64);
                let ticking = was.emulator.with_reg(
                    RegisterName::TS,
                    was.emulator.reg(RegisterName::TS).wrapping_add(1),
                );
                &&& self.processes().dom() == before.processes().dom()
                &&& forall|q: u16| #[trigger]
                    self.processes().contains_key(q) && q != pid ==> self.processes()[q]
                        == before.processes()[q]
                &&& self.processes()[pid].lifetime == if was.lifetime == 0 {
                    0
                } else {
                    (was.lifetime - 1) as u32
                }
                &&& self.processes()[pid].nice == was.nice
                &&& self.processes()[pid].ppid == was.ppid
                &&& self.processes()[pid].children == was.children
                &&& self.processes()[pid].uid == was.uid
                &&& self.processes()[pid].emulator.bytecode == was.emulator.bytecode
                &&& 0 <= before.budget(pid)
                &&& self.processes()[pid].emulator.registers == after_nops(
                    ticking,
                    before.budget(pid) as nat,
                )
                &&& self.users() == before.users().insert(was.uid, User { score, ..owner })
                &&& self.map().cells() == before.map().cells()
                &&& self.map().locations() == before.map().locations()
                &&& self.events() == before.events().push(
                    GameEvent::ScoreUpdate { uid: was.uid, new_score: score },
                )
                &&& self.chance() == before.chance()
                &&& self.config() == before.config()
            }),
    {
        let was = before.processes()[pid];
        let (started, calls, rest, left) = choose|
            started: Kernel,
            calls: Seq<Call>,
            rest: Seq<Entropy>,
            left: int,
        |
            {
                &&& started.wf()
                &&& started.started_from(before, pid)
                &&& #[trigger] self.ran_from(started, before.budget(pid), pid, calls, rest, left)
            };
        before.lemma_machine_wf(pid);
        let budget = before.budget(pid);
        let ticking = started.processes()[pid].emulator;
        assert(ticking.bytecode == was.emulator.bytecode);
        assert(all_nops(ticking));
        assert(ticking.wf());
        if calls.len() > 0 {
            let call = calls[0];
            assert(Kernel::call_made(
                Kernel::state_before(started, calls, 0),
                Kernel::budget_before(budget, calls, 0),
                pid,
                call,
            ));
            assert forall|i: int| 0 <= i < call.entropies.len() implies harmless(
                #[trigger] call.entropies[i],
            ) by {
                assert(before.chance().allows(call.entropies[i]));
            }
            lemma_idle_run(
                ticking,
                budget,
                call.entropies,
                call.ran.machine(pid),
                call.left,
                Some(call.syscall),
            );
            assert(false);
        }
        assert(Kernel::state_before(started, calls, 0) == started);
        assert forall|i: int| 0 <= i < rest.len() implies harmless(#[trigger] rest[i]) by {
            assert(before.chance().allows(rest[i]));
        }
        lemma_idle_run(ticking, budget, rest, self.machine(pid), left, None);
        assert(self.processes().dom() =~= before.processes().dom());
        assert(self.events() =~= before.events().push(
            GameEvent::ScoreUpdate {
                uid: was.uid,
                new_score: before.users()[was.uid].score.wrapping_add((budget / 100) as i64),
            },
        ));
    }

    /// Whether the process stands, awake, at `MovImm8 AX, 2; syscall`, has
    /// the 103 cycles that the two cost, and is followed by an instruction
    /// that costs more than what is then left of its budget.
    pub open spec fn forks_at_once(&self, pid: u16) -> bool {
        let machine = self.machine(pid);
        &&& !machine.flag(CpuFlag::Sleep)
        &&& calls_at_once(machine, 2)
        &&& self.budget(pid) >= 103
        &&& at_call(machine, 2).stalls(self.budget(pid) - 103)
    }

    /// The tick of a process that forks at once and can do nothing more in
    /// its tick. The process makes that one call and stops behind it. If
    /// AX then holds zero, nothing was forked: the owner could not pay,
    /// the process could not fork, or no cell or pid was free; only the
    /// score has changed. Else AX holds the pid of the child, which was
    /// free; the child is in the table with AX at 0xffff and the program
    /// counter where the parent's is, and has half of what the parent had
    /// left to live after growing a tick older; the owner has four ether
    /// less and one process more; and what has been logged is the score,
    /// the new process and the wallet, in that order.
    #[verifier::spinoff_prover]
    pub proof fn lemma_fork_tick(&self, before: &Kernel, pid: u16)
        requires
            before.wf(),
            before.processes().contains_key(pid),
            before.forks_at_once(pid),
            self.process_ticked_from(before, pid),
        ensures
            ({
                let was = before.processes()[pid];
                let uid = was.uid;
                let owner = before.users()[uid];
                let now = self.users()[uid];
                let score = owner.score.wrapping_add((before.budget(pid) / 100) as i64);
                let lifetime = if was.lifetime == 0 {
                    0
                } else {
                    was.lifetime - 1
                };
                let parent = self.processes()[pid];
                let child = parent.emulator.reg(RegisterName::AX);
                &&& self.processes().contains_key(pid)
                &&& parent.emulator.pc() == (was.emulator.pc() + 4) % 65536
                &&& parent.emulator.reg(RegisterName::TS) == was.emulator.reg(
                    RegisterName::TS,
                ).wrapping_add(1)
                &&& now.score == score
                &&& (owner.wallet@[2] < 4 || owner.num_processes >= before.config().max_processes
                    || lifetime < 2) ==> child == 0
                &&& child == 0 ==> {
                    ||| owner.wallet@[2] < 4
                    ||| owner.num_processes >= before.config().max_processes
                    ||| lifetime < 2
                    ||| forall|q: u16|
                        1 <= q <= 65534 ==> #[trigger] before.processes().contains_key(q)
                    ||| exists|offsets: Seq<(i8, i8)>| #[trigger]
                        before.map().searched(
                            before.map().locations()[pid],
                            5,
                            2,
                            before.chance(),
                            offsets,
                            None,
                        )
                }
                &&& if child == 0 {
                    &&& self.processes().dom() == before.processes().dom()
                    &&& parent.lifetime == lifetime
                    &&& now == (User { score, ..owner })
                    &&& self.events() == before.events().push(
                        GameEvent::ScoreUpdate { uid, new_score: score },
                    )
                } else {
                    &&& 1 <= child <= 65534
                    &&& !before.processes().contains_key(child)
                    &&& self.processes().dom() == before.processes().dom().insert(child)
                    &&& self.processes()[child].emulator.reg(RegisterName::AX) == 0xffff
                    &&& self.processes()[child].emulator.pc() == parent.emulator.pc()
                    &&& self.processes()[child].ppid == Some(pid)
                    &&& self.processes()[child].uid == uid
                    &&& self.processes()[child].lifetime == lifetime / 2
                    &&& now.num_processes == owner.num_processes + 1
                    &&& now.wallet@[2] == owner.wallet@[2] - 4
                    &&& forall|i: int| 0 <= i < 6 && i != 2 ==> now.wallet@[i] == owner.wallet@[i]
                    &&& self.events() == before.events().push(
                        GameEvent::ScoreUpdate { uid, new_score: score },
                    ).push(
                        GameEvent::NewProcess {
                            uid,
                            ppid: Some(pid),
                            pid: child,
                            location: self.map().locations()[child],
                        },
                    ).push(GameEvent::WalletUpdate { uid, new_wallet: now.wallet })
                }
            }),
    {
        let was = before.processes()[pid];
        let uid = was.uid;
        let owner = before.users()[uid];
        before.lemma_owner_known(pid);
        before.lemma_machine_wf(pid);
        let (ran, res) = self.lemma_tick_of_one_fork(before, pid);
        let fetched = ran.machine(pid);
        assert(was.emulator.registers.len() == 16);
        let ticking = was.emulator.with_reg(
            RegisterName::TS,
            was.emulator.reg(RegisterName::TS).wrapping_add(1),
        );
        assert(fetched == at_call(ticking, 2));
        assert(ticking.registers =~= was.emulator.registers.update(
            13,
            was.emulator.reg(RegisterName::TS).wrapping_add(1),
        ));
        assert(ran.processes()[pid].uid == uid);
        assert(ran.processes()[pid].lifetime == a_tick_less(was.lifetime));
        assert(ran.users()[uid].wallet == owner.wallet);
        assert(ran.users()[uid].num_processes == owner.num_processes);
        assert(ran.can_fork(pid) == (owner.num_processes < before.config().max_processes
            && a_tick_less(was.lifetime) >= 2));
        assert(self.fork_answered_from(&ran, pid, res));
        match res {
            Some(child) => {
                let answered = fetched.with_reg(RegisterName::AX, child);
                let copied = fetched.with_reg(RegisterName::AX, 0xffff);
                assert(answered.registers =~= fetched.registers.update(15, child));
                assert(copied.registers =~= fetched.registers.update(15, 0xffff));
                let born = forked(ran.processes(), pid, child);
                assert(self.processes()[pid].emulator == answered);
                assert(self.processes()[child] == born[child]);
                assert(self.processes()[child].emulator == copied);
                assert(fetched.registers.len() == 16);
                assert(copied.registers[15] == 0xffff);
                assert(copied.reg(RegisterName::AX) == 0xffff);
                assert(self.processes().dom() =~= before.processes().dom().insert(child));
                assert(self.processes()[pid].emulator.reg(RegisterName::AX) == child);
            },
            None => {
                let answered = fetched.with_reg(RegisterName::AX, 0);
                assert(answered.registers =~= fetched.registers.update(15, 0));
                assert(self.processes()[pid].emulator == answered);
                assert(self.processes().dom() =~= before.processes().dom());
                assert(self.events() =~= ran.events());
                assert(self.users() == ran.users());
                assert(self.processes()[pid].emulator.reg(RegisterName::AX) == 0);
                if exists|offsets: Seq<(i8, i8)>| #[trigger]
                    ran.map().searched(
                        ran.map().locations()[pid],
                        5,
                        2,
                        ran.chance(),
                        offsets,
                        None,
                    ) {
                    let offsets = choose|offsets: Seq<(i8, i8)>| #[trigger]
                        ran.map().searched(
                            ran.map().locations()[pid],
                            5,
                            2,
                            ran.chance(),
                            offsets,
                            None,
                        );
                    assert(before.map().searched(
                        before.map().locations()[pid],
                        5,
                        2,
                        before.chance(),
                        offsets,
                        None,
                    ));
                }
                if forall|q: u16| 1 <= q <= 65534 ==> #[trigger] ran.processes().contains_key(q) {
                    assert forall|q: u16| 1 <= q <= 65534 implies #[trigger]
                        before.processes().contains_key(q) by {
                        assert(ran.processes().contains_key(q));
                    }
                }
            },
        }
    }

    /// The tick of a process that forks at once and can do nothing more:
    /// it is the start of the tick, the run up to the call, and the fork.
    /// The lemma gives the kernel in which the call was fetched and what
    /// the call gave.
    pub proof fn lemma_tick_of_one_fork(&self, before: &Kernel, pid: u16) -> (trace: (
        Kernel,
        Option<u16>,
    ))
        requires
            before.wf(),
            before.processes().contains_key(pid),
            before.forks_at_once(pid),
            self.process_ticked_from(before, pid),
        ensures
            ({
                let (ran, res) = trace;
                let was = before.processes()[pid];
                let owner = before.users()[was.uid];
                let score = owner.score.wrapping_add((before.budget(pid) / 100) as i64);
                let ticking = was.emulator.with_reg(
                    RegisterName::TS,
                    was.emulator.reg(RegisterName::TS).wrapping_add(1),
                );
                &&& ran.wf()
                &&& ran.processes() == before.processes().insert(
                    pid,
                    ProcessView {
                        lifetime: a_tick_less(was.lifetime),
                        emulator: at_call(ticking, 2),
                        ..was
                    },
                )
                &&& ran.users() == before.users().insert(was.uid, User { score, ..owner })
                &&& ran.map().cells() == before.map().cells()
                &&& ran.map().locations() == before.map().locations()
                &&& ran.events() == before.events().push(
                    GameEvent::ScoreUpdate { uid: was.uid, new_score: score },
                )
                &&& ran.config() == before.config()
                &&& ran.chance() == before.chance()
                &&& self.fork_answered_from(&ran, pid, res)
            }),
    {
        let was = before.processes()[pid];
        let (started, calls, rest, left) = choose|
            started: Kernel,
            calls: Seq<Call>,
            rest: Seq<Entropy>,
            left: int,
        |
            {
                &&& started.wf()
                &&& started.started_from(before, pid)
                &&& #[trigger] self.ran_from(started, before.budget(pid), pid, calls, rest, left)
            };
        before.lemma_machine_wf(pid);
        let budget = before.budget(pid);
        let ticking = started.machine(pid);
        started.lemma_machine_wf(pid);
        assert(ticking.registers =~= was.emulator.registers.update(
            13,
            was.emulator.reg(RegisterName::TS).wrapping_add(1),
        ));
        assert(ticking.pc() == was.emulator.pc());
        assert(!ticking.flag(CpuFlag::Sleep));
        assert(calls_at_once(ticking, 2));
        assert(Kernel::state_before(started, calls, 0) == started);
        assert(Kernel::budget_before(budget, calls, 0) == budget);
        if calls.len() == 0 {
            lemma_run_to_call(ticking, 2, budget, rest, self.machine(pid), left, None);
            assert(false);
        }
        let call = calls[0];
        assert(Kernel::call_made(started, budget, pid, call));
        lemma_run_to_call(
            ticking,
            2,
            budget,
            call.entropies,
            call.ran.machine(pid),
            call.left,
            Some(call.syscall),
        );
        let ran = call.ran;
        let after = call.after;
        let fetched = at_call(ticking, 2);
        assert(ran.processes() =~= before.processes().insert(
            pid,
            ProcessView { lifetime: a_tick_less(was.lifetime), emulator: fetched, ..was },
        ));
        after.lemma_fork_resolved(&ran, pid, call.res);
        let value = match call.res {
            Some(value) => value,
            None => 0,
        };
        let answered = fetched.with_reg(RegisterName::AX, value);
        assert(after.processes().contains_key(pid));
        assert(after.machine(pid) == answered);
        assert(answered.registers =~= fetched.registers.update(15, value));
        assert(answered.pc() == at_call(was.emulator, 2).pc());
        assert(answered.next_instruction() == at_call(was.emulator, 2).next_instruction());
        assert(answered.stalls(call.left));
        assert(Kernel::state_before(started, calls, 1) == after);
        assert(Kernel::budget_before(budget, calls, 1) == call.left);
        if calls.len() > 1 {
            let next = calls[1];
            assert(Kernel::call_made(after, call.left, pid, next));
            lemma_stalled_run(
                answered,
                call.left,
                next.entropies,
                next.ran.machine(pid),
                next.left,
                Some(next.syscall),
            );
            assert(false);
        }
        lemma_stalled_run(answered, call.left, rest, self.machine(pid), left, None);
        assert(self.processes() =~= after.processes());
        assert(self.events() =~= after.events());
        assert(self.resolved_from(&ran, pid, Syscall::Fork, call.res));
        self.lemma_fork_resolved(&ran, pid, call.res);
        (ran, call.res)
    }

    /// Whether this kernel has come from `ran` by a fork of `pid` by
    /// system call that gave `res`. It gives nothing where the owner has
    /// less than four ether or the process cannot fork, and then, or where
    /// no cell or no pid was free, only AX of the caller changes, to zero.
    /// Where it gives a child, the processes are those after the fork,
    /// with the pid of the child in AX of the parent; the owner has four
    /// ether less and one process more; and the new process and the
    /// wallet have been logged.
    pub open spec fn fork_answered_from(&self, ran: &Kernel, pid: u16, res: Option<u16>) -> bool {
        let uid = ran.processes()[pid].uid;
        let owner = ran.users()[uid];
        let now = self.users()[uid];
        &&& (owner.wallet@[2] < 4 || !ran.can_fork(pid)) ==> res is None
        &&& match res {
            None => {
                &&& self.touched_from(
                    ran,
                    pid,
                    ran.with_machine(pid, ran.machine(pid).with_reg(RegisterName::AX, 0)),
                    Seq::empty(),
                )
                &&& {
                    ||| owner.wallet@[2] < 4
                    ||| !ran.can_fork(pid)
                    ||| forall|q: u16|
                        1 <= q <= 65534 ==> #[trigger] ran.processes().contains_key(q)
                    ||| exists|offsets: Seq<(i8, i8)>| #[trigger]
                        ran.map().searched(
                            ran.map().locations()[pid],
                            5,
                            2,
                            ran.chance(),
                            offsets,
                            None,
                        )
                }
            },
            Some(child) => {
                let born = forked(ran.processes(), pid, child);
                &&& 1 <= child <= 65534
                &&& child != pid
                &&& !ran.processes().contains_key(child)
                &&& self.processes() == born.insert(
                    pid,
                    ProcessView {
                        emulator: ran.machine(pid).with_reg(RegisterName::AX, child),
                        ..born[pid]
                    },
                )
                &&& self.users() == ran.users().insert(
                    uid,
                    User {
                        num_processes: (owner.num_processes + 1) as usize,
                        wallet: now.wallet,
                        ..owner
                    },
                )
                &&& now.wallet@[2] == owner.wallet@[2] - 4
                &&& forall|i: int| 0 <= i < 6 && i != 2 ==> now.wallet@[i] == owner.wallet@[i]
                &&& self.events() == ran.events().push(
                    GameEvent::NewProcess {
                        uid,
                        ppid: Some(pid),
                        pid: child,
                        location: self.map().locations()[child],
                    },
                ).push(GameEvent::WalletUpdate { uid, new_wallet: now.wallet })
            },
        }
    }

    /// A fork by system call that has been resolved has been answered.
    pub proof fn lemma_fork_resolved(&self, ran: &Kernel, pid: u16, res: Option<u16>)
        requires
            ran.wf(),
            ran.processes().contains_key(pid),
            self.resolved_from(ran, pid, Syscall::Fork, res),
        ensures
            self.fork_answered_from(ran, pid, res),
    {
        let uid = ran.processes()[pid].uid;
        let args = ran.processes()[pid].emulator.syscall_args();
        let cost = Syscall::Fork.cost(args);
        ran.lemma_owner_known(pid);
        assert(cost[2] == 4);
        if ran.can_pay(pid, Syscall::Fork) {
            let called = choose|called: Kernel|
                {
                    &&& called.wf()
                    &&& #[trigger] called.effected_from(ran, Syscall::Fork, pid, args, res)
                    &&& self.concluded_from(&called, pid, cost, res, uid)
                };
            match res {
                Some(child) => {
                    self.lemma_fork_paid_and_answered(&called, ran, pid, args, child);
                    let location = choose|location: Location| #[trigger]
                        called.forked_from(ran, pid, child, location);
                    assert(called.map().locations()[child] == location);
                    assert(self.users() =~= ran.users().insert(
                        uid,
                        User {
                            num_processes: (ran.users()[uid].num_processes + 1) as usize,
                            wallet: self.users()[uid].wallet,
                            ..ran.users()[uid]
                        },
                    ));
                },
                None => {
                    assert(called.same_as(ran));
                    if ran.can_fork(pid) {
                        let (offsets, hit) = choose|offsets: Seq<(i8, i8)>, hit: Option<Location>|
                            {
                                &&& #[trigger] ran.map().searched(
                                    ran.map().locations()[pid],
                                    5,
                                    2,
                                    ran.chance(),
                                    offsets,
                                    hit,
                                )
                                &&& match hit {
                                    None => true,
                                    Some(location) => forall|q: u16|
                                        1 <= q <= 65534 ==> #[trigger] ran.processes().contains_key(
                                            q,
                                        ),
                                }
                            };
                    }
                },
            }
        }
    }

    /// The order in which the processes of a table with one process run
    /// is that process alone.
    pub proof fn lemma_order_of_one(processes: Map<u16, ProcessView>, order: Seq<u16>, pid: u16)
        requires
            processes.dom() == Set::<u16>::empty().insert(pid),
            Kernel::is_running_order(processes, order),
        ensures
            order == seq![pid],
    {
        order.unique_seq_to_set();
        assert(order.len() == 1);
        assert(order.to_set().contains(order[0]));
        assert(order =~= seq![pid]);
    }

    /// One tick of all processes where the only process is idle and has
    /// two ticks or more to live: the tick of all is the tick of that
    /// process, and nobody dies. So an idle process alone is, after the
    /// tick of all, as the idle tick leaves it.
    pub proof fn lemma_tick_of_one_idler(
        &self,
        before: &Kernel,
        pid: u16,
        order: Seq<u16>,
        turned: Seq<Kernel>,
        graves: Seq<u16>,
        reaped: Seq<Kernel>,
    )
        requires
            before.wf(),
            before.processes().dom() == Set::<u16>::empty().insert(pid),
            before.processes()[pid].lifetime >= 2,
            all_nops(before.processes()[pid].emulator),
            before.strikes_memory_only(),
            self.all_ticked_from(before, order, turned, graves, reaped),
        ensures
            self.process_ticked_from(before, pid),
    {
        assert(before.processes().contains_key(pid));
        Kernel::lemma_order_of_one(before.processes(), order, pid);
        assert(Kernel::turn_taken(turned, order, 0));
        let ticked = turned[1];
        ticked.lemma_idle_tick(before, pid);
        Kernel::lemma_order_of_one(ticked.processes(), graves, pid);
        assert(Kernel::grave_dug(reaped, graves, 0));
        assert(reaped[1] == reaped[0]);
        assert(*self == ticked);
    }

    /// Whether every process is idle: its bytecode is Nop throughout.
    pub open spec fn all_idle(&self) -> bool {
        forall|q: u16| #[trigger] self.processes().contains_key(q) ==> all_nops(self.machine(q))
    }

    /// Whether this kernel has come from `before` by the turns of the
    /// first `count` processes of the order, where each turn took a tick
    /// of life from the process whose turn it was, left the bytecode and
    /// the lives of all others alone, and logged a score and no more.
    pub open spec fn idled_from(&self, before: &Kernel, order: Seq<u16>, count: int) -> bool {
        &&& self.processes().dom() == before.processes().dom()
        &&& self.chance() == before.chance()
        &&& before.events().is_prefix_of(self.events())
        &&& self.events().len() == before.events().len() + count
        &&& forall|i: int|
            before.events().len() <= i < self.events().len() ==> (#[trigger] self.events()[i])
                is ScoreUpdate
        &&& forall|k: int|
            0 <= k < order.len() ==> {
                let q = #[trigger] order[k];
                &&& self.processes()[q].emulator.bytecode == before.processes()[q].emulator.bytecode
                &&& self.processes()[q].lifetime == if k < count {
                    a_tick_less(before.processes()[q].lifetime)
                } else {
                    before.processes()[q].lifetime
                }
            }
    }

    /// The turns of idle processes: after the first `count` turns of a
    /// tick of all processes, each process that has had its turn has a
    /// tick less to live, and no other has changed in that.
    pub proof fn lemma_turns_of_idlers(
        before: &Kernel,
        order: Seq<u16>,
        turned: Seq<Kernel>,
        count: int,
    )
        requires
            before.wf(),
            before.all_idle(),
            before.strikes_memory_only(),
            Kernel::is_running_order(before.processes(), order),
            turned.len() == order.len() + 1,
            turned[0] == *before,
            forall|i: int| 0 <= i < order.len() ==> #[trigger] Kernel::turn_taken(turned, order, i),
            0 <= count <= order.len(),
        ensures
            turned[count].idled_from(before, order, count),
        decreases count,
    {
        if count > 0 {
            let i = count - 1;
            Kernel::lemma_turns_of_idlers(before, order, turned, i);
            let pid = order[i];
            let was = turned[i];
            let now = turned[i + 1];
            assert(Kernel::turn_taken(turned, order, i));
            assert(order.to_set().contains(pid));
            assert(was.processes().contains_key(pid));
            assert(before.processes().contains_key(pid));
            assert(all_nops(before.machine(pid)));
            assert(all_nops(was.machine(pid)));
            now.lemma_idle_tick(&was, pid);
            assert forall|k: int| 0 <= k < order.len() implies {
                let q = #[trigger] order[k];
                &&& now.processes()[q].emulator.bytecode == before.processes()[q].emulator.bytecode
                &&& now.processes()[q].lifetime == if k < count {
                    a_tick_less(before.processes()[q].lifetime)
                } else {
                    before.processes()[q].lifetime
                }
            } by {
                let q = order[k];
                assert(order.to_set().contains(q));
                assert(now.processes().contains_key(q));
                if k != i {
                    assert(q != pid);
                }
            }
        }
    }

    /// The pass of expiry: after the first `count` processes of the roll
    /// have been dealt with, who is left was there at the start of the
    /// pass, with the same machine and as much to live; those of them that
    /// had nothing left to live are gone; and where nobody had nothing,
    /// nothing has happened.
    pub proof fn lemma_graves(last: &Kernel, graves: Seq<u16>, reaped: Seq<Kernel>, count: int)
        requires
            reaped.len() == graves.len() + 1,
            reaped[0] == *last,
            forall|j: int| 0 <= j < graves.len() ==> #[trigger] Kernel::grave_dug(reaped, graves, j),
            0 <= count <= graves.len(),
        ensures
            reaped[count].chance() == last.chance(),
            forall|q: u16| #[trigger]
                reaped[count].processes().contains_key(q) ==> {
                    &&& last.processes().contains_key(q)
                    &&& reaped[count].processes()[q].lifetime == last.processes()[q].lifetime
                    &&& reaped[count].processes()[q].emulator == last.processes()[q].emulator
                },
            forall|k: int|
                0 <= k < count && last.processes().contains_key(#[trigger] graves[k])
                    && last.processes()[graves[k]].lifetime == 0
                    ==> !reaped[count].processes().contains_key(graves[k]),
            (forall|q: u16| #[trigger]
                last.processes().contains_key(q) ==> last.processes()[q].lifetime > 0)
                ==> reaped[count] == *last,
        decreases count,
    {
        if count > 0 {
            let j = count - 1;
            Kernel::lemma_graves(last, graves, reaped, j);
            let was = reaped[j];
            let now = reaped[j + 1];
            let root = graves[j];
            assert(Kernel::grave_dug(reaped, graves, j));
            assert(now.reaped_from(&was, root));
            if was.processes().contains_key(root) && was.processes()[root].lifetime == 0 {
                assert(now.culled_from(&was, root));
                assert forall|q: u16| #[trigger] now.processes().contains_key(q) implies {
                    &&& last.processes().contains_key(q)
                    &&& now.processes()[q].lifetime == last.processes()[q].lifetime
                    &&& now.processes()[q].emulator == last.processes()[q].emulator
                } by {
                    assert(was.processes().contains_key(q));
                    assert(now.processes()[q] == bereft(was.processes(), root)[q]);
                }
            }
            assert forall|k: int|
                0 <= k < count && last.processes().contains_key(#[trigger] graves[k])
                    && last.processes()[graves[k]].lifetime == 0 implies !now.processes().contains_key(
                graves[k],
            ) by {
                if now.processes().contains_key(graves[k]) {
                    assert(was.processes().contains_key(graves[k]));
                }
            }
        }
    }

    /// The end of a tick of all processes, whatever the processes did in
    /// their turns: every process that has nothing left to live after the
    /// last turn is gone after the tick; and who is left after the tick
    /// was there after the last turn, with the same machine and as much to
    /// live, which is a tick or more.
    pub proof fn lemma_expiry(
        &self,
        before: &Kernel,
        order: Seq<u16>,
        turned: Seq<Kernel>,
        graves: Seq<u16>,
        reaped: Seq<Kernel>,
    )
        requires
            self.all_ticked_from(before, order, turned, graves, reaped),
        ensures
            ({
                let last = turned[order.len() as int];
                &&& forall|q: u16| #[trigger]
                    last.processes().contains_key(q) && last.processes()[q].lifetime == 0
                        ==> !self.processes().contains_key(q)
                &&& forall|q: u16| #[trigger]
                    self.processes().contains_key(q) ==> {
                        &&& last.processes().contains_key(q)
                        &&& self.processes()[q].lifetime == last.processes()[q].lifetime
                        &&& self.processes()[q].lifetime > 0
                        &&& self.processes()[q].emulator == last.processes()[q].emulator
                    }
            }),
    {
        let last = turned[order.len() as int];
        Kernel::lemma_graves(&last, graves, reaped, graves.len() as int);
        assert forall|q: u16| #[trigger]
            last.processes().contains_key(q) && last.processes()[q].lifetime
                == 0 implies !self.processes().contains_key(q) by {
            assert(graves.to_set().contains(q));
            let k = choose|k: int| 0 <= k < graves.len() && graves[k] == q;
            assert(graves[k] == q);
        }
    }

    /// One tick of all processes where all are idle. Every process that is
    /// left after it was there before with two ticks or more to live, has
    /// one less now, and is idle still; every process that had one tick to
    /// live or none is gone; and where all had two or more, all are left,
    /// nobody has died, and what has been logged is a score for each.
    pub proof fn lemma_tick_of_idlers(
        &self,
        before: &Kernel,
        order: Seq<u16>,
        turned: Seq<Kernel>,
        graves: Seq<u16>,
        reaped: Seq<Kernel>,
    )
        requires
            before.wf(),
            before.all_idle(),
            before.strikes_memory_only(),
            self.all_ticked_from(before, order, turned, graves, reaped),
        ensures
            self.chance() == before.chance(),
            self.all_idle(),
            forall|q: u16| #[trigger]
                self.processes().contains_key(q) ==> {
                    &&& before.processes().contains_key(q)
                    &&& before.processes()[q].lifetime >= 2
                    &&& self.processes()[q].lifetime == before.processes()[q].lifetime - 1
                },
            forall|q: u16| #[trigger]
                before.processes().contains_key(q) && before.processes()[q].lifetime <= 1
                    ==> !self.processes().contains_key(q),
            (forall|q: u16| #[trigger]
                before.processes().contains_key(q) ==> before.processes()[q].lifetime >= 2)
                ==> self.idled_from(before, order, order.len() as int),
    {
        let turns = order.len() as int;
        let last = turned[turns];
        Kernel::lemma_turns_of_idlers(before, order, turned, turns);
        Kernel::lemma_graves(&last, graves, reaped, graves.len() as int);
        assert forall|q: u16| #[trigger] last.processes().contains_key(q) implies {
            &&& last.processes()[q].emulator.bytecode == before.processes()[q].emulator.bytecode
            &&& last.processes()[q].lifetime == a_tick_less(before.processes()[q].lifetime)
        } by {
            assert(order.to_set().contains(q));
            let k = choose|k: int| 0 <= k < order.len() && order[k] == q;
            assert(order[k] == q);
        }
        assert forall|q: u16| #[trigger] self.processes().contains_key(q) implies {
            &&& before.processes().contains_key(q)
            &&& before.processes()[q].lifetime >= 2
            &&& self.processes()[q].lifetime == before.processes()[q].lifetime - 1
            &&& all_nops(self.machine(q))
        } by {
            assert(last.processes().contains_key(q));
            assert(graves.to_set().contains(q));
            let k = choose|k: int| 0 <= k < graves.len() && graves[k] == q;
            assert(graves[k] == q);
            assert(all_nops(before.machine(q)));
        }
        assert forall|q: u16| #[trigger]
            before.processes().contains_key(q) && before.processes()[q].lifetime
                <= 1 implies !self.processes().contains_key(q) by {
        }
        if forall|q: u16| #[trigger]
            before.processes().contains_key(q) ==> before.processes()[q].lifetime >= 2 {
            assert forall|q: u16| #[trigger] last.processes().contains_key(q) implies last.processes()[q].lifetime
                > 0 by {
                assert(before.processes().contains_key(q));
            }
            assert(*self == last);
        }
    }

    /// Whether the process is among the first `count` of the roll.
    pub open spec fn dug_by(graves: Seq<u16>, pid: u16, count: int) -> bool {
        exists|k: int| 0 <= k < count && #[trigger] graves[k] == pid
    }

    /// The pass of expiry where one process alone has nothing left to
    /// live: until its turn in the pass nothing happens; then it dies with
    /// all its descendants; and after that nothing happens.
    pub proof fn lemma_one_grave(
        last: &Kernel,
        graves: Seq<u16>,
        reaped: Seq<Kernel>,
        pid: u16,
        count: int,
    )
        requires
            reaped.len() == graves.len() + 1,
            reaped[0] == *last,
            forall|j: int| 0 <= j < graves.len() ==> #[trigger] Kernel::grave_dug(reaped, graves, j),
            last.processes().contains_key(pid),
            last.processes()[pid].lifetime == 0,
            forall|q: u16| #[trigger]
                last.processes().contains_key(q) && q != pid ==> last.processes()[q].lifetime > 0,
            0 <= count <= graves.len(),
        ensures
            if Kernel::dug_by(graves, pid, count) {
                reaped[count].culled_from(last, pid)
            } else {
                reaped[count] == *last
            },
        decreases count,
    {
        if count > 0 {
            let j = count - 1;
            Kernel::lemma_one_grave(last, graves, reaped, pid, j);
            let was = reaped[j];
            let now = reaped[j + 1];
            let root = graves[j];
            assert(Kernel::grave_dug(reaped, graves, j));
            assert(now.reaped_from(&was, root));
            if Kernel::dug_by(graves, pid, j) {
                let k = choose|k: int| 0 <= k < j && #[trigger] graves[k] == pid;
                assert(graves[k] == pid);
                assert(Kernel::dug_by(graves, pid, count));
                if was.processes().contains_key(root) {
                    assert(last.processes().contains_key(root));
                    assert(was.processes()[root] == bereft(last.processes(), pid)[root]);
                }
                assert(now == was);
            } else if root == pid {
                assert(graves[j] == pid);
                assert(Kernel::dug_by(graves, pid, count));
            } else {
                assert(now == was);
                if Kernel::dug_by(graves, pid, count) {
                    let k = choose|k: int| 0 <= k < count && #[trigger] graves[k] == pid;
                    assert(k < j);
                    assert(graves[k] == pid);
                }
            }
        }
    }

    /// The tick of all processes in which one idler alone runs out of
    /// life, among idlers that have two ticks or more to live. After the
    /// turns every process has a tick less to live and nothing but scores
    /// has been logged; then the one process dies with all its
    /// descendants, and nothing else happens. The last event logged is its
    /// death.
    pub proof fn lemma_tick_buries_idler(
        &self,
        before: &Kernel,
        pid: u16,
        order: Seq<u16>,
        turned: Seq<Kernel>,
        graves: Seq<u16>,
        reaped: Seq<Kernel>,
    )
        requires
            before.wf(),
            before.all_idle(),
            before.strikes_memory_only(),
            before.processes().contains_key(pid),
            before.processes()[pid].lifetime <= 1,
            forall|q: u16| #[trigger]
                before.processes().contains_key(q) && q != pid ==> before.processes()[q].lifetime
                    >= 2,
            self.all_ticked_from(before, order, turned, graves, reaped),
        ensures
            turned[order.len() as int].idled_from(before, order, order.len() as int),
            self.culled_from(&turned[order.len() as int], pid),
            self.events().len() > 0,
            self.events().last() == (GameEvent::Kill { pid }),
    {
        let turns = order.len() as int;
        let last = turned[turns];
        Kernel::lemma_turns_of_idlers(before, order, turned, turns);
        assert forall|q: u16| #[trigger] last.processes().contains_key(q) implies last.processes()[q].lifetime
            == a_tick_less(before.processes()[q].lifetime) by {
            assert(order.to_set().contains(q));
            let k = choose|k: int| 0 <= k < order.len() && order[k] == q;
            assert(order[k] == q);
        }
        assert(last.processes().contains_key(pid));
        Kernel::lemma_one_grave(&last, graves, reaped, pid, graves.len() as int);
        assert(graves.to_set().contains(pid));
        let k = choose|k: int| 0 <= k < graves.len() && graves[k] == pid;
        assert(graves[k] == pid);
        assert(Kernel::dug_by(graves, pid, graves.len() as int));
        let buried = burial(last.processes(), pid, 32);
        assert(buried.last() == pid);
        assert(deaths(buried).last() == (GameEvent::Kill { pid }));
        assert(self.events() == last.events() + deaths(buried));
    }

    /// Whether the `i`th of a row of ticks of all processes was made.
    pub open spec fn round_made(rounds: Seq<Kernel>, i: int) -> bool {
        &&& rounds[i].wf()
        &&& exists|order: Seq<u16>, turned: Seq<Kernel>, graves: Seq<u16>, reaped: Seq<Kernel>| #[trigger]
            rounds[i + 1].all_ticked_from(&rounds[i], order, turned, graves, reaped)
    }

    /// Expiry among idlers. Where all processes are idle and none has
    /// less to live than `pid`, the process lives as many ticks of all
    /// processes as it has to live and no more: after each tick before
    /// the last it is in the table with one tick less, all others are
    /// there with it, and nothing but scores has been logged; after the
    /// last it is gone. Where all others have more to live, the last
    /// event logged is its death.
    pub proof fn lemma_idlers_expire(rounds: Seq<Kernel>, pid: u16, count: int)
        requires
            rounds.len() >= 1,
            rounds[0].processes().contains_key(pid),
            rounds[0].processes()[pid].lifetime >= 1,
            rounds.len() == rounds[0].processes()[pid].lifetime + 1,
            rounds[0].all_idle(),
            rounds[0].strikes_memory_only(),
            forall|q: u16| #[trigger]
                rounds[0].processes().contains_key(q) ==> rounds[0].processes()[q].lifetime
                    >= rounds[0].processes()[pid].lifetime,
            forall|i: int| 0 <= i < rounds.len() - 1 ==> #[trigger] Kernel::round_made(rounds, i),
            0 <= count < rounds.len(),
        ensures
            rounds[count].all_idle(),
            rounds[count].chance() == rounds[0].chance(),
            count < rounds.len() - 1 ==> {
                &&& rounds[count].processes().dom() == rounds[0].processes().dom()
                &&& forall|q: u16| #[trigger]
                    rounds[count].processes().contains_key(q) ==> rounds[count].processes()[q].lifetime
                        == rounds[0].processes()[q].lifetime - count
                &&& rounds[0].events().is_prefix_of(rounds[count].events())
                &&& forall|i: int|
                    rounds[0].events().len() <= i < rounds[count].events().len() ==> (
                    #[trigger] rounds[count].events()[i]) is ScoreUpdate
            },
            count == rounds.len() - 1 ==> !rounds[count].processes().contains_key(pid),
            count == rounds.len() - 1 && (forall|q: u16| #[trigger]
                rounds[0].processes().contains_key(q) && q != pid ==> rounds[0].processes()[q].lifetime
                    > rounds[0].processes()[pid].lifetime) ==> rounds[count].events().len() > 0
                && rounds[count].events().last() == (GameEvent::Kill { pid }),
        decreases count,
    {
        if count > 0 {
            let i = count - 1;
            Kernel::lemma_idlers_expire(rounds, pid, i);
            let was = rounds[i];
            let now = rounds[i + 1];
            assert(Kernel::round_made(rounds, i));
            let (order, turned, graves, reaped) = choose|
                order: Seq<u16>,
                turned: Seq<Kernel>,
                graves: Seq<u16>,
                reaped: Seq<Kernel>,
            | #[trigger] now.all_ticked_from(&was, order, turned, graves, reaped);
            now.lemma_tick_of_idlers(&was, order, turned, graves, reaped);
            assert(was.processes().contains_key(pid));
            if count < rounds.len() - 1 {
                assert forall|q: u16| #[trigger] was.processes().contains_key(q) implies was.processes()[q].lifetime
                    >= 2 by {
                    assert(rounds[0].processes().contains_key(q));
                }
                assert(now.idled_from(&was, order, order.len() as int));
                assert forall|i: int|
                    rounds[0].events().len() <= i < now.events().len() implies (
                #[trigger] now.events()[i]) is ScoreUpdate by {
                    if i < was.events().len() {
                        assert(now.events()[i] == was.events()[i]);
                    }
                }
            } else if forall|q: u16| #[trigger]
                rounds[0].processes().contains_key(q) && q != pid ==> rounds[0].processes()[q].lifetime
                    > rounds[0].processes()[pid].lifetime {
                assert forall|q: u16| #[trigger]
                    was.processes().contains_key(q) && q != pid implies was.processes()[q].lifetime
                    >= 2 by {
                    assert(rounds[0].processes().contains_key(q));
                }
                now.lemma_tick_buries_idler(&was, pid, order, turned, graves, reaped);
            }
        }
    }
}

} // verus!
