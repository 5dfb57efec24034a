use minecrab::config::{CryptoSpawn, KernelConfiguration, UserConfiguration};
use minecrab::game::crypto::{BedChallenge, Challenge, CryptoCurrency, Wallet};
use minecrab::game::map::GameMap;
use minecrab::game::replay::GameEvent;
use minecrab::kernel::process::remove_pid;
use minecrab::kernel::syscall::{count_cells, span, Syscall, SyscallTable};
use minecrab::kernel::{Kernel, SetupError};
use minecrab::vm::emulator::CpuFlag;
use minecrab::vm::entropy::{Chance, Glitch};
use minecrab::vm::register::RegisterName;

const QUIET: Glitch = Glitch::Memory { addr: 0xff00, byte: 0 };
const TAME: Chance = Chance::Tame { word: 1, glitch: QUIET };

/// MovImm16 PC, 0: a program that spins on the spot.
const SPIN: [u8; 4] = [0x20, 0x00, 0x00, 0x00];

fn config(max_processes: usize, initd_lifetime: u32) -> KernelConfiguration {
    KernelConfiguration { max_processes, initd_lifetime, default_nice: 0, crypto_spawn: vec![] }
}

fn user(uid: u16, spawn_point: (u8, u8), code: &[u8]) -> UserConfiguration {
    let mut bytecode = vec![0u8; 65536];
    bytecode[..code.len()].copy_from_slice(code);
    UserConfiguration { initd_memory: vec![0u8; 65536], initd_bytecode: bytecode, uid, spawn_point }
}

fn kernel_on(map: GameMap, initd_lifetime: u32) -> Kernel {
    Kernel::with_chance(config(8, initd_lifetime), map, TAME)
}

fn kernel(initd_lifetime: u32) -> Kernel {
    kernel_on(GameMap::from_map_data(&vec![0u8; 65536]).unwrap(), initd_lifetime)
}

fn balance(kernel: &Kernel, uid: u16, currency: CryptoCurrency) -> i64 {
    kernel.get_user(uid).wallet.get_currency(currency)
}

fn reg(kernel: &Kernel, pid: u16, register: RegisterName) -> u16 {
    kernel.get_process(pid).emulator.get_reg_internal(register)
}

/// Forks on a wild source, where a search for a cell may come up empty.
fn fork(kernel: &mut Kernel, pid: u16) -> u16 {
    for _ in 0..100 {
        if let Some(child) = kernel.fork_process(pid) {
            return child;
        }
    }
    panic!("no fork in a hundred attempts");
}

/// A program that loads R0 to R5 and AX, makes one system call and spins.
fn one_call(number: u16, args: [u16; 6]) -> Vec<u8> {
    let mut code = Vec::new();
    for (i, value) in args.iter().enumerate() {
        code.extend([0x20, 0x03 + i as u8, *value as u8, (*value >> 8) as u8]);
    }
    code.extend([0x20, 0x0f, number as u8, (number >> 8) as u8]);
    code.push(0x0f);
    let spin = code.len() as u16;
    code.extend([0x20, 0x00, spin as u8, (spin >> 8) as u8]);
    code
}

#[test]
fn a_new_kernel_is_empty() {
    let mut kernel = kernel(10);
    assert!(kernel.is_over());
    assert!(kernel.live_pids().is_empty());
    assert!(kernel.all_uids().is_empty());
    assert!(kernel.take_events().is_empty());
    assert!(!kernel.has_process(1));
    assert!(!kernel.has_user(1));
}

#[test]
fn a_user_is_set_up_with_the_welcome_pack() {
    let mut kernel = kernel(1000);
    let pid = kernel.add_user(user(7, (3, 4), &SPIN)).unwrap();
    assert_eq!(pid, 1);
    assert!(kernel.has_process(pid));
    assert!(kernel.has_user(7));
    let process = kernel.get_process(pid);
    assert_eq!((process.pid, process.ppid, process.uid), (pid, None, 7));
    assert_eq!((process.lifetime, process.nice), (1000, 0));
    assert!(process.children.is_empty());
    assert!(process.is_init());
    let owner = kernel.get_user(7);
    assert_eq!((owner.uid, owner.initd_pid, owner.score, owner.num_processes), (7, Some(pid), 0, 1));
    assert_eq!(balance(&kernel, 7, CryptoCurrency::DogeCoin), 1337);
    assert_eq!(kernel.get_process_location(pid), (3, 4));
    assert_eq!(kernel.get_map_cell((3, 4)).get_process(), Some(pid));
    assert_eq!(kernel.get_process_owner(pid), 7);
    assert_eq!(kernel.get_owner_user(pid).uid, 7);
    let events = kernel.take_events();
    assert_eq!(events.len(), 1);
    assert!(matches!(
        events[0],
        GameEvent::NewProcess { uid: 7, ppid: None, pid: 1, location: (3, 4) }
    ));
}

#[test]
fn users_that_cannot_be_set_up_are_refused() {
    let mut data = vec![0u8; 65536];
    data[256] = 1;
    let mut kernel = kernel_on(GameMap::from_map_data(&data).unwrap(), 10);
    let mut short = user(1, (0, 0), &SPIN);
    short.initd_memory.pop();
    assert_eq!(kernel.add_user(short), Err(SetupError::BadImage));
    let mut long = user(1, (0, 0), &SPIN);
    long.initd_bytecode.push(0);
    assert_eq!(kernel.add_user(long), Err(SetupError::BadImage));
    assert_eq!(kernel.add_user(user(1, (1, 0), &SPIN)), Err(SetupError::SpawnBlocked));
    assert!(kernel.add_user(user(1, (0, 0), &SPIN)).is_ok());
    assert_eq!(kernel.add_user(user(1, (5, 5), &SPIN)), Err(SetupError::DuplicateUser));
    assert_eq!(kernel.add_user(user(2, (0, 0), &SPIN)), Err(SetupError::SpawnBlocked));
    assert_eq!(kernel.live_pids().len(), 1);
    assert_eq!(kernel.take_events().len(), 1);
}

#[test]
fn users_are_set_up_one_after_another() {
    let mut kernel = kernel(10);
    let configs = vec![user(1, (0, 0), &SPIN), user(2, (0, 1), &SPIN), user(3, (0, 2), &SPIN)];
    assert_eq!(kernel.setup_users(configs), Ok(()));
    let mut uids = kernel.all_uids();
    uids.sort();
    assert_eq!(uids, vec![1, 2, 3]);
    assert_eq!(kernel.live_pids().len(), 3);
    for uid in 1..=3u16 {
        let init = kernel.get_user(uid).initd_pid.unwrap();
        assert_eq!(kernel.get_process(init).uid, uid);
        assert_eq!(kernel.get_process_location(init), (0, uid as u8 - 1));
    }
    let mut other = Kernel::with_chance(config(8, 10), GameMap::from_map_data(&vec![0u8; 65536]).unwrap(), TAME);
    let configs = vec![user(1, (0, 0), &SPIN), user(1, (0, 1), &SPIN), user(3, (0, 2), &SPIN)];
    assert_eq!(other.setup_users(configs), Err(SetupError::DuplicateUser));
    assert_eq!(other.all_uids(), vec![1]);
}

#[test]
fn fresh_pids_are_between_1_and_65534() {
    let mut kernel = Kernel::new(config(8, 10), GameMap::from_map_data(&vec![0u8; 65536]).unwrap());
    for uid in 0..40u16 {
        let pid = kernel.add_user(user(uid, (uid as u8, 0), &SPIN)).unwrap();
        assert!((1..=65534).contains(&pid));
    }
    let mut pids = kernel.live_pids();
    pids.sort();
    pids.dedup();
    assert_eq!(pids.len(), 40);
    let free = kernel.allocate_pid().unwrap();
    assert!(!kernel.has_process(free));
}

#[test]
fn an_idle_tick_sleeps_through_its_budget() {
    let mut kernel = kernel(1000);
    let pid = kernel.add_user(user(1, (0, 0), &[0x6e; 4000])).unwrap();
    kernel.take_events();
    kernel.tick();
    assert_eq!(reg(&kernel, pid, RegisterName::TS), 1);
    assert_eq!(reg(&kernel, pid, RegisterName::PC), 1000);
    assert!(kernel.get_process(pid).emulator.get_cpu_flag(CpuFlag::Sleep));
    assert_eq!(kernel.get_process(pid).lifetime, 999);
    assert_eq!(kernel.get_user(1).score, 10);
    assert_eq!(balance(&kernel, 1, CryptoCurrency::DogeCoin), 1337);
    let events = kernel.take_events();
    assert_eq!(events.len(), 1);
    assert!(matches!(events[0], GameEvent::ScoreUpdate { uid: 1, new_score: 10 }));
}

#[test]
fn the_execution_limit_grows_with_niceness() {
    let mut kernel = kernel(1000);
    let pid = kernel.add_user(user(1, (0, 0), &SPIN)).unwrap();
    let expected = [
        (0u16, 1000usize), (1, 1200), (5, 2000), (6, 2150), (10, 2750), (11, 2850), (15, 3250),
        (16, 3300), (20, 3500), (21, 3500),
    ];
    let mut nice = 0;
    for (wanted, limit) in expected {
        while nice < wanted {
            assert_eq!(kernel.renice(pid), Some(1));
            nice += 1;
        }
        assert_eq!(kernel.get_process(pid).nice, wanted);
        assert_eq!(kernel.get_process(pid).get_execution_limit(), limit);
    }
    let events = kernel.take_events();
    assert_eq!(events.len(), 22);
    assert!(matches!(events[21], GameEvent::Renice { pid: 1, new_nice: 21 }));
}

#[test]
fn sleep_debt_takes_at_most_three_quarters() {
    let mut kernel = kernel(1000);
    kernel.add_user(user(1, (0, 0), &SPIN)).unwrap();
    let mut owner = *kernel.get_user(1);
    assert_eq!(owner.compute_sleep_debt(1000), 1000);
    owner.wallet = Wallet::new(0, 100, 0, 0, 0, 0);
    assert_eq!(owner.compute_sleep_debt(1000), 900);
    owner.wallet = Wallet::new(0, 750, 0, 0, 0, 0);
    assert_eq!(owner.compute_sleep_debt(1000), 250);
    owner.wallet = Wallet::new(0, 751, 0, 0, 0, 0);
    assert_eq!(owner.compute_sleep_debt(1000), 250);
    owner.wallet = Wallet::new(0, i64::MAX, 0, 0, 0, 0);
    assert_eq!(owner.compute_sleep_debt(1001), 251);
    assert_eq!(owner.compute_sleep_debt(0), 0);
    assert_eq!(owner.compute_sleep_debt(usize::MAX), usize::MAX - i64::MAX as usize);
}

#[test]
fn a_user_turns_the_wallet_into_score() {
    let mut kernel = kernel(1000);
    kernel.add_user(user(1, (0, 0), &SPIN)).unwrap();
    let mut owner = *kernel.get_user(1);
    owner.score = 5;
    let mut log = Vec::new();
    owner.convert_wallet_to_score(&mut log);
    assert_eq!(owner.score, 58466);
    assert_eq!(owner.wallet.get_currency(CryptoCurrency::DogeCoin), 0);
    assert_eq!(owner.wallet.get_currency(CryptoCurrency::Explosion), 0);
    assert_eq!(log.len(), 2);
    assert!(matches!(log[0], GameEvent::WalletUpdate { uid: 1, .. }));
    assert!(matches!(log[1], GameEvent::ScoreUpdate { uid: 1, new_score: 58466 }));
}

#[test]
fn fork_splits_what_the_parent_has_left_to_live() {
    let mut kernel = kernel(1000);
    let init = kernel.add_user(user(1, (10, 10), &SPIN)).unwrap();
    kernel.take_events();
    let child = kernel.fork_process(init).unwrap();
    assert_ne!(child, init);
    assert!((1..=65534).contains(&child));
    // a first process keeps all of its lifetime
    assert_eq!(kernel.get_process(init).lifetime, 1000);
    assert_eq!(kernel.get_process(child).lifetime, 500);
    assert_eq!(kernel.get_process(init).children, vec![child]);
    assert_eq!(kernel.get_process(child).ppid, Some(init));
    assert_eq!(kernel.get_process(child).uid, 1);
    assert_eq!(kernel.get_process(child).nice, 0);
    assert!(kernel.get_process(child).children.is_empty());
    assert_eq!(reg(&kernel, child, RegisterName::AX), 0xffff);
    assert_eq!(reg(&kernel, init, RegisterName::AX), 0);
    assert_eq!(kernel.get_user(1).num_processes, 2);
    assert_eq!(kernel.get_process_location(child), (11, 11));
    let events = kernel.take_events();
    assert_eq!(events.len(), 1);
    assert!(matches!(events[0], GameEvent::NewProcess { uid: 1, ppid: Some(1), location: (11, 11), .. }));
    // any other process gives half away
    let grandchild = kernel.fork_process(child).unwrap();
    assert_eq!(kernel.get_process(child).lifetime, 250);
    assert_eq!(kernel.get_process(grandchild).lifetime, 250);
    assert_eq!(kernel.get_process(grandchild).ppid, Some(child));
    assert_eq!(kernel.get_user(1).num_processes, 3);
}

#[test]
fn an_odd_lifetime_leaves_the_greater_half_with_the_parent() {
    let mut kernel = kernel(7);
    let init = kernel.add_user(user(1, (10, 10), &SPIN)).unwrap();
    let child = kernel.fork_process(init).unwrap();
    assert_eq!(kernel.get_process(child).lifetime, 3);
    let grandchild = kernel.fork_process(child).unwrap();
    assert_eq!(kernel.get_process(child).lifetime, 2);
    assert_eq!(kernel.get_process(grandchild).lifetime, 1);
    // with less than two ticks to live nobody forks
    assert_eq!(kernel.fork_process(grandchild), None);
    assert_eq!(kernel.get_user(1).num_processes, 3);
}

#[test]
fn fork_fails_when_the_owner_has_no_room() {
    let mut kernel = Kernel::with_chance(config(2, 1000), GameMap::from_map_data(&vec![0u8; 65536]).unwrap(), Chance::Wild);
    let init = kernel.add_user(user(1, (10, 10), &SPIN)).unwrap();
    fork(&mut kernel, init);
    kernel.take_events();
    assert_eq!(kernel.fork_process(init), None);
    assert_eq!(kernel.get_user(1).num_processes, 2);
    assert!(kernel.take_events().is_empty());
}

#[test]
fn fork_fails_when_no_empty_cell_is_found() {
    let mut data = vec![1u8; 65536];
    data[10 * 256 + 10] = 0;
    let mut kernel = Kernel::with_chance(config(8, 1000), GameMap::from_map_data(&data).unwrap(), Chance::Wild);
    let init = kernel.add_user(user(1, (10, 10), &SPIN)).unwrap();
    assert_eq!(kernel.fork_process(init), None);
    assert_eq!(kernel.get_user(1).num_processes, 1);
    assert_eq!(kernel.get_process(init).lifetime, 1000);
}

#[test]
fn killing_a_process_kills_its_descendants_first() {
    let mut kernel = Kernel::with_chance(config(8, 1000), GameMap::from_map_data(&vec![0u8; 65536]).unwrap(), Chance::Wild);
    let init = kernel.add_user(user(1, (10, 10), &SPIN)).unwrap();
    let a = fork(&mut kernel, init);
    let b = fork(&mut kernel, init);
    let a1 = fork(&mut kernel, a);
    let a2 = fork(&mut kernel, a);
    let a11 = fork(&mut kernel, a1);
    assert_eq!(kernel.get_user(1).num_processes, 6);
    assert!(kernel.is_self_or_descendent_process(init, a11));
    assert!(kernel.is_self_or_descendent_process(a, a11));
    assert!(kernel.is_self_or_descendent_process(a, a));
    assert!(!kernel.is_self_or_descendent_process(b, a11));
    assert!(!kernel.is_self_or_descendent_process(a11, a));
    assert!(!kernel.is_self_or_descendent_process(a, 0xffff));
    let place = kernel.get_process_location(a11);
    kernel.take_events();
    kernel.kill_process_recursive(a);
    let killed: Vec<u16> = kernel
        .take_events()
        .iter()
        .map(|event| match event {
            GameEvent::Kill { pid } => *pid,
            other => panic!("unexpected event {other:?}"),
        })
        .collect();
    assert_eq!(killed, vec![a11, a1, a2, a]);
    for pid in [a, a1, a2, a11] {
        assert!(!kernel.has_process(pid));
    }
    assert!(kernel.has_process(init) && kernel.has_process(b));
    assert_eq!(kernel.get_process(init).children, vec![b]);
    assert_eq!(kernel.get_user(1).num_processes, 2);
    assert_eq!(kernel.get_user(1).initd_pid, Some(init));
    assert_eq!(kernel.get_map_cell(place).get_process(), None);
    kernel.kill_process_recursive(init);
    assert!(kernel.is_over());
    assert_eq!(kernel.get_user(1).num_processes, 0);
    assert_eq!(kernel.get_user(1).initd_pid, None);
}

#[test]
fn the_map_and_the_table_name_the_same_processes() {
    let mut kernel = Kernel::with_chance(config(64, 1 << 20), GameMap::from_map_data(&vec![0u8; 65536]).unwrap(), Chance::Wild);
    let init = kernel.add_user(user(1, (100, 100), &SPIN)).unwrap();
    let mut pids = vec![init];
    for round in 0..30usize {
        let parent = pids[round % pids.len()];
        if let Some(child) = kernel.fork_process(parent) {
            pids.push(child);
        }
        if round % 7 == 6 {
            let victim = pids[pids.len() / 2];
            if victim != init && kernel.has_process(victim) {
                kernel.kill_process_recursive(victim);
            }
            pids.retain(|pid| kernel.has_process(*pid));
        }
    }
    let live = kernel.live_pids();
    assert_eq!(live.len(), kernel.get_user(1).num_processes);
    for pid in live {
        let place = kernel.get_process_location(pid);
        assert_eq!(kernel.get_map_cell(place).get_process(), Some(pid));
        let process = kernel.get_process(pid);
        match process.ppid {
            None => assert_eq!(pid, init),
            Some(parent) => {
                assert!(kernel.has_process(parent));
                let listed = kernel.get_process(parent).children.iter().filter(|c| **c == pid).count();
                assert_eq!(listed, 1);
            },
        }
        for child in &process.children {
            assert_eq!(kernel.get_process(*child).ppid, Some(pid));
        }
    }
    for x in 0..=255u8 {
        for y in 0..=255u8 {
            if let Some(pid) = kernel.get_map_cell((x, y)).get_process() {
                assert_eq!(kernel.get_process_location(pid), (x, y));
            }
        }
    }
}

#[test]
fn processes_run_nicest_first_and_by_pid_among_equals() {
    let mut kernel = kernel(1000);
    let configs = vec![user(1, (0, 0), &SPIN), user(2, (0, 1), &SPIN), user(3, (0, 2), &SPIN), user(4, (0, 3), &SPIN)];
    kernel.setup_users(configs).unwrap();
    let mut pids = kernel.live_pids();
    pids.sort();
    assert_eq!(kernel.execution_order(), pids);
    kernel.renice(pids[2]);
    kernel.renice(pids[2]);
    kernel.renice(pids[3]);
    kernel.renice(pids[1]);
    assert_eq!(kernel.execution_order(), vec![pids[2], pids[1], pids[3], pids[0]]);
    assert!(kernel.goes_before(pids[2], pids[1]));
    assert!(kernel.goes_before(pids[1], pids[3]));
    assert!(!kernel.goes_before(pids[3], pids[1]));
    assert!(!kernel.goes_before(pids[0], pids[0]));
    kernel.take_events();
    kernel.tick();
    let scored: Vec<u16> = kernel
        .take_events()
        .iter()
        .filter_map(|event| match event {
            GameEvent::ScoreUpdate { uid, .. } => Some(*uid),
            _ => None,
        })
        .collect();
    let owner = |pid: u16| kernel.get_process(pid).uid;
    assert_eq!(scored, vec![owner(pids[2]), owner(pids[1]), owner(pids[3]), owner(pids[0])]);
}

#[test]
fn a_process_dies_at_the_end_of_the_tick_in_which_its_life_runs_out() {
    let mut kernel = kernel(7);
    let init = kernel.add_user(user(1, (10, 10), &SPIN)).unwrap();
    let child = kernel.fork_process(init).unwrap();
    assert_eq!(kernel.get_process(child).lifetime, 3);
    kernel.take_events();
    kernel.tick();
    assert_eq!(kernel.get_process(child).lifetime, 2);
    kernel.tick();
    assert_eq!(kernel.get_process(child).lifetime, 1);
    assert!(kernel.has_process(child));
    assert_eq!(reg(&kernel, child, RegisterName::TS), 2);
    kernel.take_events();
    kernel.tick();
    assert!(!kernel.has_process(child));
    assert!(kernel.has_process(init));
    assert_eq!(kernel.get_process(init).lifetime, 4);
    assert!(kernel.get_process(init).children.is_empty());
    assert_eq!(kernel.get_user(1).num_processes, 1);
    let events = kernel.take_events();
    assert!(matches!(events.last(), Some(GameEvent::Kill { pid }) if *pid == child));
    assert_eq!(events.iter().filter(|event| matches!(event, GameEvent::Kill { .. })).count(), 1);
}

#[test]
fn the_game_ends_when_nobody_is_left_and_scores_are_settled() {
    let mut kernel = kernel(5);
    kernel.setup_users(vec![user(1, (0, 0), &SPIN), user(2, (5, 5), &[0x6e; 8000])]).unwrap();
    kernel.take_events();
    kernel.run_full_game();
    assert!(kernel.is_over());
    for uid in [1u16, 2] {
        let owner = kernel.get_user(uid);
        assert_eq!(owner.num_processes, 0);
        assert_eq!(owner.initd_pid, None);
        // five ticks at a budget of 1000 cycles, and the welcome pack
        assert_eq!(owner.score, 50 + 58461);
        assert_eq!(owner.wallet.get_currency(CryptoCurrency::DogeCoin), 0);
        assert_eq!(owner.wallet.get_currency(CryptoCurrency::StarSleepShortage), 0);
    }
    let events = kernel.take_events();
    assert_eq!(events.iter().filter(|event| matches!(event, GameEvent::Kill { .. })).count(), 2);
    assert_eq!(events.iter().filter(|event| matches!(event, GameEvent::WalletUpdate { .. })).count(), 2);
    assert_eq!(events.iter().filter(|event| matches!(event, GameEvent::ScoreUpdate { .. })).count(), 12);
    assert!(matches!(events.last(), Some(GameEvent::ScoreUpdate { new_score: 58511, .. })));
}

#[test]
fn a_wild_game_ends_too() {
    let mut kernel = Kernel::new(
        KernelConfiguration {
            max_processes: 8,
            initd_lifetime: 6,
            default_nice: 3,
            crypto_spawn: vec![CryptoSpawn { name: "bed".to_string(), distributions: vec![(2, minecrab::config::CERTAIN / 2)] }],
        },
        GameMap::from_map_data(&vec![0u8; 65536]).unwrap(),
    );
    // fork in a loop: MovImm16 AX, 2; Syscall; MovImm16 PC, 0
    let forker = [0x20, 0x0f, 0x02, 0x00, 0x0f, 0x20, 0x00, 0x00, 0x00];
    kernel.setup_users(vec![user(1, (0, 0), &forker), user(2, (100, 100), &[0u8; 4])]).unwrap();
    kernel.run_full_game();
    assert!(kernel.is_over());
    assert_eq!(kernel.get_user(1).num_processes, 0);
    assert_eq!(kernel.get_user(2).num_processes, 0);
}

#[test]
fn syscall_numbers_and_costs() {
    let table = SyscallTable::new();
    let named = [
        (0x00u8, Syscall::GetPid), (0x01, Syscall::GetUidOf), (0x02, Syscall::Fork), (0x03, Syscall::Kill),
        (0x04, Syscall::GetProcessInfo), (0x05, Syscall::Detach), (0x06, Syscall::Renice), (0x10, Syscall::Move),
        (0x11, Syscall::ReadMap), (0x12, Syscall::ReadMapDetail), (0x13, Syscall::FetchChallenge),
        (0x14, Syscall::SolveChallenge), (0x20, Syscall::Attack1), (0x21, Syscall::Attack2),
        (0x30, Syscall::UpdateCode), (0x31, Syscall::ShareMemory),
    ];
    for number in 0u16..256 {
        let syscall = table.get_syscall(number as u8);
        match named.iter().find(|entry| entry.0 as u16 == number) {
            Some(entry) => {
                assert_eq!(syscall, entry.1);
                assert_eq!(syscall.get_number(), number as u8);
            },
            None => assert_eq!(syscall, Syscall::Reserved),
        }
    }
    assert_eq!(Syscall::Reserved.get_number(), 0xff);
    let cost = |syscall: Syscall, args: (u16, u16, u16, u16, u16, u16)| {
        let wallet = syscall.compute_cost(args);
        [
            wallet.get_currency(CryptoCurrency::DogeCoin),
            wallet.get_currency(CryptoCurrency::StarSleepShortage),
            wallet.get_currency(CryptoCurrency::Ethereum),
            wallet.get_currency(CryptoCurrency::BitCoin),
            wallet.get_currency(CryptoCurrency::CrabCoin),
            wallet.get_currency(CryptoCurrency::Explosion),
        ]
    };
    let none = (0, 0, 0, 0, 0, 0);
    assert_eq!(cost(Syscall::GetPid, none), [0, 0, 0, 0, 0, 0]);
    assert_eq!(cost(Syscall::GetUidOf, none), [0, 0, 0, 0, 0, 0]);
    assert_eq!(cost(Syscall::Fork, none), [0, 0, 4, 0, 0, 0]);
    assert_eq!(cost(Syscall::Kill, none), [0, 0, 2, 0, 0, 0]);
    assert_eq!(cost(Syscall::GetProcessInfo, none), [0, -1, 0, 0, 0, 0]);
    assert_eq!(cost(Syscall::Detach, none), [0, 0, 1, 0, 0, 0]);
    assert_eq!(cost(Syscall::Renice, none), [0, 0, 10, 0, 0, 0]);
    assert_eq!(cost(Syscall::Move, none), [1, -1, 0, 0, 0, 0]);
    assert_eq!(cost(Syscall::FetchChallenge, none), [0, -1, 0, 0, 0, 0]);
    assert_eq!(cost(Syscall::SolveChallenge, none), [1, 0, 0, 0, 0, 0]);
    assert_eq!(cost(Syscall::Attack1, none), [8, 0, 0, 0, 0, 0]);
    assert_eq!(cost(Syscall::Attack2, none), [16, 0, 0, 0, 0, 0]);
    assert_eq!(cost(Syscall::Reserved, none), [0, -10, 0, 0, 0, 0]);
    // one cell, 256 cells, 257 cells, the whole map
    assert_eq!(cost(Syscall::ReadMap, (0, 5, 5, 5, 5, 0)), [1, 0, 0, 0, 0, 0]);
    assert_eq!(cost(Syscall::ReadMap, (0, 0, 0, 15, 15, 0)), [1, 0, 0, 0, 0, 0]);
    assert_eq!(cost(Syscall::ReadMap, (0, 0, 0, 0, 256, 0)), [1, 0, 0, 0, 0, 0]);
    assert_eq!(cost(Syscall::ReadMap, (0, 0, 0, 16, 15, 0)), [2, 0, 0, 0, 0, 0]);
    assert_eq!(cost(Syscall::ReadMap, (0, 1, 1, 0, 0, 0)), [256, 0, 0, 0, 0, 0]);
    assert_eq!(cost(Syscall::ReadMapDetail, (0, 5, 5, 5, 5, 0)), [1, 0, 0, 0, 0, 0]);
    assert_eq!(cost(Syscall::ReadMapDetail, (0, 0, 0, 7, 7, 0)), [1, 0, 0, 0, 0, 0]);
    assert_eq!(cost(Syscall::ReadMapDetail, (0, 0, 0, 8, 7, 0)), [2, 0, 0, 0, 0, 0]);
    assert_eq!(cost(Syscall::ReadMapDetail, (0, 1, 1, 0, 0, 0)), [1024, 0, 0, 0, 0, 0]);
    // n + 1 bytes, 1024 to the coin
    assert_eq!(cost(Syscall::UpdateCode, (0, 0, 0, 0, 0, 0)), [0, 0, 1, 0, 0, 0]);
    assert_eq!(cost(Syscall::UpdateCode, (0, 0, 1023, 0, 0, 0)), [0, 0, 1, 0, 0, 0]);
    assert_eq!(cost(Syscall::UpdateCode, (0, 0, 1024, 0, 0, 0)), [0, 0, 2, 0, 0, 0]);
    assert_eq!(cost(Syscall::UpdateCode, (0, 0, 65535, 0, 0, 0)), [0, 0, 64, 0, 0, 0]);
    assert_eq!(cost(Syscall::ShareMemory, (0, 0, 0, 1023, 0, 0)), [0, 0, 1, 0, 0, 0]);
    assert_eq!(cost(Syscall::ShareMemory, (0, 0, 0, 2048, 0, 0)), [0, 0, 3, 0, 0, 0]);
    assert_eq!(span(250, 3), 10);
    assert_eq!(span(0x0105, 0x0205), 1);
    assert_eq!(count_cells(0, 0, 255, 255), 65536);
    assert_eq!(count_cells(1, 1, 0, 0), 65536);
}

#[test]
fn pids_are_taken_out_of_a_list() {
    assert_eq!(remove_pid(&vec![1, 2, 3, 2], 2), vec![1, 3]);
    assert_eq!(remove_pid(&vec![1, 2, 3], 4), vec![1, 2, 3]);
    assert_eq!(remove_pid(&vec![], 4), Vec::<u16>::new());
}

#[test]
fn a_bed_is_solved_by_a_child_that_steps_onto_it() {
    let mut map = GameMap::from_map_data(&vec![0u8; 65536]).unwrap();
    let mut log = Vec::new();
    assert!(map.place_challenge((12, 11), Challenge::Bed(BedChallenge::new(5)), &mut log));
    let mut kernel = kernel_on(map, 1000);
    // 0: MovImm16 AX, 2; Syscall; CmpImm16 AX, 0xffff; CmoveImm16 PC, 17; 13: MovImm16 PC, 13
    let mut code = vec![0x20, 0x0f, 0x02, 0x00, 0x0f, 0x56, 0x0f, 0xff, 0xff, 0xea, 0x00, 17, 0x00, 0x20, 0x00, 13, 0x00];
    // 17: move to (12, 11), then solve with (0, 1, 2, 3), then spin
    for (register, value) in [(0x03u8, 12u8), (0x04, 11), (0x0f, 0x10)] {
        code.extend([0x20, register, value, 0x00]);
    }
    code.push(0x0f);
    for (register, value) in [(0x03u8, 0u8), (0x04, 1), (0x05, 2), (0x06, 3), (0x0f, 0x14)] {
        code.extend([0x20, register, value, 0x00]);
    }
    code.push(0x0f);
    let spin = code.len() as u8;
    code.extend([0x20, 0x00, spin, 0x00]);
    let init = kernel.add_user(user(1, (10, 10), &code)).unwrap();
    kernel.tick();
    let child = kernel.get_process(init).children[0];
    assert_eq!(reg(&kernel, init, RegisterName::AX), child);
    assert_eq!(kernel.get_process_location(child), (11, 11));
    assert_eq!(balance(&kernel, 1, CryptoCurrency::Ethereum), 124);
    kernel.take_events();
    kernel.tick();
    assert_eq!(kernel.get_process_location(child), (12, 11));
    assert!(kernel.get_map_cell((12, 11)).crypto_data().is_none());
    assert_eq!(kernel.get_map_cell((12, 11)).get_process(), Some(child));
    assert_eq!(reg(&kernel, child, RegisterName::AX), 1);
    assert_eq!(balance(&kernel, 1, CryptoCurrency::DogeCoin), 1335);
    assert_eq!(balance(&kernel, 1, CryptoCurrency::StarSleepShortage), -694);
    let events = kernel.take_events();
    let solved = events.iter().position(|event| matches!(event, GameEvent::ChallengeSolved { location: (12, 11), .. })).unwrap();
    assert!(matches!(events[solved + 1], GameEvent::WalletUpdate { uid: 1, .. }));
    assert!(events.iter().any(|event| matches!(event, GameEvent::Move { location: (12, 11), .. })));
}

#[test]
fn a_parent_forks_and_kills_its_child() {
    let mut kernel = kernel(1000);
    // MovImm16 AX, 2; Syscall; MovReg16 R0, AX; MovImm16 AX, 3; Syscall; spin
    let code = [0x20, 0x0f, 0x02, 0x00, 0x0f, 0x22, 0xf3, 0x20, 0x0f, 0x03, 0x00, 0x0f, 0x20, 0x00, 12, 0x00];
    let init = kernel.add_user(user(1, (10, 10), &code)).unwrap();
    kernel.take_events();
    kernel.tick();
    assert_eq!(kernel.live_pids(), vec![init]);
    assert_eq!(kernel.get_user(1).num_processes, 1);
    assert!(kernel.get_process(init).children.is_empty());
    assert_eq!(balance(&kernel, 1, CryptoCurrency::Ethereum), 122);
    assert_eq!(reg(&kernel, init, RegisterName::AX), 1);
    let child = reg(&kernel, init, RegisterName::R0);
    assert_ne!(child, 0xffff);
    assert_ne!(child, 0);
    let events = kernel.take_events();
    assert!(events.iter().any(|event| matches!(event, GameEvent::NewProcess { pid, ppid: Some(1), .. } if *pid == child)));
    assert!(events.iter().any(|event| matches!(event, GameEvent::Kill { pid } if *pid == child)));
}

#[test]
fn a_call_that_cannot_be_paid_for_changes_nothing_but_ax() {
    let mut kernel = kernel(1000);
    // renice costs 10 ether; thirteen calls are one too many for the welcome pack
    let mut code = Vec::new();
    for _ in 0..13 {
        code.extend([0x20, 0x0f, 0x06, 0x00, 0x0f]);
    }
    let spin = code.len() as u8;
    code.extend([0x20, 0x00, spin, 0x00]);
    let init = kernel.add_user(user(1, (0, 0), &code)).unwrap();
    // a budget of 1000 covers nine calls in the first tick
    kernel.tick();
    assert_eq!(kernel.get_process(init).nice, 9);
    assert_eq!(balance(&kernel, 1, CryptoCurrency::Ethereum), 38);
    kernel.take_events();
    kernel.tick();
    assert_eq!(kernel.get_process(init).nice, 12);
    assert_eq!(balance(&kernel, 1, CryptoCurrency::Ethereum), 8);
    assert_eq!(reg(&kernel, init, RegisterName::AX), 0);
    let events = kernel.take_events();
    assert_eq!(events.iter().filter(|event| matches!(event, GameEvent::Renice { .. })).count(), 3);
    assert_eq!(events.iter().filter(|event| matches!(event, GameEvent::WalletUpdate { .. })).count(), 3);
}

#[test]
fn a_call_that_gives_nothing_is_not_paid_for() {
    let mut kernel = kernel(1000);
    // attack a cell on which nobody stands
    let init = kernel.add_user(user(1, (0, 0), &one_call(0x20, [5, 5, 0, 0, 0, 0]))).unwrap();
    kernel.take_events();
    kernel.tick();
    assert_eq!(balance(&kernel, 1, CryptoCurrency::DogeCoin), 1337);
    assert_eq!(reg(&kernel, init, RegisterName::AX), 0);
    assert_eq!(kernel.take_events().len(), 1);
    assert_eq!(kernel.resolve_syscall(init, Syscall::GetUidOf), None);
    assert_eq!(kernel.resolve_syscall(init, Syscall::Move), None);
    assert_eq!(kernel.resolve_syscall(init, Syscall::Detach), None);
    assert_eq!(kernel.resolve_syscall(init, Syscall::FetchChallenge), None);
    assert_eq!(kernel.get_user(1).wallet.get_currency(CryptoCurrency::StarSleepShortage), -690);
    assert!(kernel.take_events().is_empty());
}

#[test]
fn the_reserved_call_strikes_the_caller_and_gives_nothing() {
    let mut kernel = Kernel::with_chance(
        config(8, 1000),
        GameMap::from_map_data(&vec![0u8; 65536]).unwrap(),
        Chance::Tame { word: 1, glitch: Glitch::Register { register: RegisterName::R5, value: 0x4242 } },
    );
    let init = kernel.add_user(user(1, (0, 0), &one_call(0x99, [0; 6]))).unwrap();
    kernel.tick();
    assert_eq!(reg(&kernel, init, RegisterName::R5), 0x4242);
    assert_eq!(reg(&kernel, init, RegisterName::AX), 0);
    assert_eq!(balance(&kernel, 1, CryptoCurrency::StarSleepShortage), -690);
}

#[test]
fn getpid_and_getuidof() {
    let mut kernel = kernel(1000);
    let one = kernel.add_user(user(7, (0, 0), &one_call(0x00, [0; 6]))).unwrap();
    let two = kernel.add_user(user(9, (1, 0), &one_call(0x01, [one, 0, 0, 0, 0, 0]))).unwrap();
    kernel.tick();
    assert_eq!(reg(&kernel, one, RegisterName::AX), one);
    assert_eq!(reg(&kernel, two, RegisterName::AX), 7);
    assert_eq!(balance(&kernel, 7, CryptoCurrency::DogeCoin), 1337);
}

#[test]
fn getprocinfo_writes_ten_bytes() {
    let mut kernel = kernel(0x0102_0304);
    let init = kernel.add_user(user(1, (20, 30), &SPIN)).unwrap();
    let other = kernel.add_user(user(2, (21, 30), &SPIN)).unwrap();
    let child = kernel.fork_process(init).unwrap();
    assert_eq!(kernel.get_process_info(child, other, 0x100), None);
    assert_eq!(kernel.get_process_info(child, 0x7777, 0x100), None);
    assert_eq!(kernel.get_process_info(init, child, 0xfffe), Some(1));
    let place = kernel.get_process_location(child);
    let record = kernel.get_process(init).emulator.peek_bytes_from_mem(0xfffe, 10);
    assert_eq!(record, vec![place.0, place.1, 0x82, 0x01, 0x81, 0x00, 0, 0, init as u8, (init >> 8) as u8]);
    assert_eq!(kernel.get_process_info(child, init, 0), Some(1));
    let record = kernel.get_process(child).emulator.peek_bytes_from_mem(0, 10);
    assert_eq!(record, vec![20, 30, 0x04, 0x03, 0x02, 0x01, 0, 0, 0, 0]);
}

#[test]
fn a_detached_process_becomes_a_child_of_the_first_process() {
    let mut kernel = kernel(1000);
    let init = kernel.add_user(user(1, (20, 30), &SPIN)).unwrap();
    let a = kernel.fork_process(init).unwrap();
    let b = kernel.fork_process(a).unwrap();
    kernel.take_events();
    assert_eq!(kernel.detach(init), None);
    assert!(kernel.take_events().is_empty());
    assert_eq!(kernel.detach(b), Some(1));
    assert_eq!(kernel.get_process(b).ppid, Some(init));
    assert_eq!(kernel.get_process(init).children, vec![a, b]);
    assert!(kernel.get_process(a).children.is_empty());
    assert!(!kernel.is_self_or_descendent_process(a, b));
    assert_eq!(kernel.detach(a), Some(1));
    assert_eq!(kernel.get_process(init).children, vec![b, a]);
    let events = kernel.take_events();
    assert!(matches!(events[..], [GameEvent::Detach { .. }, GameEvent::Detach { .. }]));
    kernel.kill_process_recursive(a);
    assert!(kernel.has_process(b));
}

#[test]
fn kill_spares_first_processes_and_strangers() {
    let mut kernel = kernel(1000);
    let init = kernel.add_user(user(1, (20, 30), &SPIN)).unwrap();
    let other = kernel.add_user(user(2, (40, 30), &SPIN)).unwrap();
    let a = kernel.fork_process(init).unwrap();
    let b = kernel.fork_process(a).unwrap();
    assert_eq!(kernel.kill(init, init), None);
    assert_eq!(kernel.kill(init, other), None);
    assert_eq!(kernel.kill(b, a), None);
    assert_eq!(kernel.kill(a, 0x7000), None);
    assert_eq!(kernel.live_pids().len(), 4);
    assert_eq!(kernel.kill(b, b), Some(1));
    assert!(!kernel.has_process(b));
    assert_eq!(kernel.kill(init, a), Some(1));
    assert_eq!(kernel.live_pids().len(), 2);
}

#[test]
fn moves_are_single_steps_for_processes_that_are_not_first() {
    let mut data = vec![0u8; 65536];
    data[12 * 256 + 12] = 1;
    let mut kernel = kernel_on(GameMap::from_map_data(&data).unwrap(), 1000);
    let init = kernel.add_user(user(1, (10, 10), &SPIN)).unwrap();
    let child = kernel.fork_process(init).unwrap();
    assert_eq!(kernel.get_process_location(child), (11, 11));
    assert_eq!(kernel.step_to(init, 10, 11), None);
    assert_eq!(kernel.step_to(child, 11, 11), None);
    assert_eq!(kernel.step_to(child, 13, 11), None);
    assert_eq!(kernel.step_to(child, 10, 10), None);
    assert_eq!(kernel.step_to(child, 12, 12), None);
    assert_eq!(kernel.get_process_location(child), (11, 11));
    assert_eq!(kernel.step_to(child, 0x010c, 0x020b), Some(1));
    assert_eq!(kernel.get_process_location(child), (12, 11));
    assert!(kernel.move_process_to(child, (11, 10)));
    assert!(!kernel.move_process_to(child, (11, 10)));
    assert!(kernel.teleport_process_to(child, (100, 100)));
    assert_eq!(kernel.get_process_location(child), (101, 101));
}

#[test]
fn attacks_reach_as_far_as_they_should() {
    let mut kernel = Kernel::with_chance(
        config(8, 1000),
        GameMap::from_map_data(&vec![0u8; 65536]).unwrap(),
        Chance::Tame { word: 1, glitch: Glitch::Register { register: RegisterName::R0, value: 0x5a5a } },
    );
    let init = kernel.add_user(user(1, (10, 10), &SPIN)).unwrap();
    let near = kernel.add_user(user(2, (12, 12), &SPIN)).unwrap();
    let far = kernel.add_user(user(3, (14, 10), &SPIN)).unwrap();
    let out = kernel.add_user(user(4, (15, 10), &SPIN)).unwrap();
    kernel.take_events();
    assert_eq!(kernel.attack1(init, 15, 10), None);
    assert_eq!(kernel.attack1(init, 13, 13), None);
    assert_eq!(kernel.attack1(init, 14, 10), Some(1));
    assert_eq!(kernel.get_process(far).lifetime, 999);
    assert_eq!(kernel.get_process(out).lifetime, 1000);
    assert_eq!(kernel.attack2(init, 14, 10), None);
    assert_eq!(kernel.attack2(init, 12, 12), Some(1));
    assert_eq!(reg(&kernel, near, RegisterName::R0), 0x5a5a);
    assert_eq!(kernel.get_process(near).lifetime, 1000);
    // one may attack one's own cell
    assert_eq!(kernel.attack2(init, 10, 10), Some(1));
    assert_eq!(reg(&kernel, init, RegisterName::R0), 0x5a5a);
    assert_eq!(kernel.attack1(init, 10, 10), Some(1));
    assert_eq!(kernel.get_process(init).lifetime, 999);
    let events = kernel.take_events();
    assert_eq!(events.len(), 4);
    assert!(matches!(events[0], GameEvent::Attack { attacker_pid, defender_pid } if attacker_pid == init && defender_pid == far));
}

#[test]
fn an_attack_does_not_take_a_lifetime_below_zero() {
    let mut kernel = kernel(1);
    let init = kernel.add_user(user(1, (10, 10), &SPIN)).unwrap();
    assert_eq!(kernel.attack1(init, 10, 10), Some(1));
    assert_eq!(kernel.attack1(init, 10, 10), Some(1));
    assert_eq!(kernel.get_process(init).lifetime, 0);
}

#[test]
fn the_map_is_read_into_memory() {
    let mut data = vec![0u8; 65536];
    data[10 * 256 + 11] = 1;
    let mut kernel = kernel_on(GameMap::from_map_data(&data).unwrap(), 1000);
    let init = kernel.add_user(user(1, (10, 10), &SPIN)).unwrap();
    let child = kernel.fork_process(init).unwrap();
    assert_eq!(kernel.read_map(init, 0x200, 10, 10, 11, 12), Some(6));
    assert_eq!(kernel.get_process(init).emulator.peek_bytes_from_mem(0x200, 7), vec![0, 1, 0, 0, 0, 0, 0]);
    assert_eq!(kernel.read_map(init, 0, 0, 0, 255, 255), Some(0));
    assert_eq!(kernel.get_process(init).emulator.load_u8(10 * 256 + 11), 1);
    // the child sees; a first process does not
    assert_eq!(kernel.read_map_detail(child, 0x300, 10, 10, 10, 11), Some(6));
    assert_eq!(
        kernel.get_process(child).emulator.peek_bytes_from_mem(0x300, 6),
        vec![2, init as u8, (init >> 8) as u8, 1, 0, 0]
    );
    assert_eq!(kernel.read_map_detail(init, 0x300, 10, 10, 10, 11), Some(6));
    assert_eq!(kernel.get_process(init).emulator.peek_bytes_from_mem(0x300, 6), vec![1; 6]);
    // 86 rows of 254 cells fit, 86 rows of 255 do not
    assert_eq!(kernel.read_map_detail(child, 0, 0, 0, 85, 253), Some(65532));
    assert_eq!(kernel.read_map_detail(child, 0, 0, 0, 85, 254), None);
    assert_eq!(kernel.read_statuses(10, 11, 0, 0), vec![1]);
    assert_eq!(kernel.read_details(Some((10, 10)), 10, 11, 0, 0), vec![1, 0, 0]);
}

#[test]
fn a_challenge_is_fetched_if_it_fits() {
    let mut map = GameMap::from_map_data(&vec![0u8; 65536]).unwrap();
    let mut log = Vec::new();
    map.place_challenge((12, 11), Challenge::Bed(BedChallenge::new(5)), &mut log);
    let mut kernel = kernel_on(map, 1000);
    let init = kernel.add_user(user(1, (10, 10), &SPIN)).unwrap();
    let child = kernel.fork_process(init).unwrap();
    assert_eq!(kernel.step_to(child, 12, 11), Some(1));
    assert_eq!(kernel.fetch_challenge(init, 0, 100), None);
    assert_eq!(kernel.fetch_challenge_data(init), None);
    assert_eq!(kernel.fetch_challenge(child, 0x10, 5), None);
    assert_eq!(kernel.get_process(child).emulator.peek_bytes_from_mem(0x10, 6), vec![0; 6]);
    assert_eq!(kernel.fetch_challenge(child, 0x10, 6), Some(6));
    assert_eq!(kernel.get_process(child).emulator.peek_bytes_from_mem(0x10, 6), vec![0xed, 0x0b, 5, 0, 0, 0]);
    assert_eq!(kernel.fetch_challenge_data(child), Some(vec![0xed, 0x0b, 5, 0, 0, 0]));
}

#[test]
fn a_wrong_nonce_kills_the_solver_and_its_descendants() {
    let mut map = GameMap::from_map_data(&vec![0u8; 65536]).unwrap();
    let mut log = Vec::new();
    map.place_challenge((12, 11), Challenge::Bed(BedChallenge::new(5)), &mut log);
    let mut kernel = kernel_on(map, 1000);
    let init = kernel.add_user(user(1, (10, 10), &SPIN)).unwrap();
    let child = kernel.fork_process(init).unwrap();
    assert_eq!(kernel.step_to(child, 12, 11), Some(1));
    let grandchild = kernel.fork_process(child).unwrap();
    kernel.take_events();
    assert_eq!(kernel.solve_challenge(child, (0, 1, 2, 4)), 0);
    assert!(!kernel.has_process(child));
    assert!(!kernel.has_process(grandchild));
    assert!(kernel.get_map_cell((12, 11)).crypto_data().is_some());
    assert_eq!(balance(&kernel, 1, CryptoCurrency::StarSleepShortage), -690);
    assert_eq!(kernel.take_events().len(), 2);
    // no challenge under the solver is a failure too
    assert_eq!(kernel.solve_challenge(init, (0, 1, 2, 3)), 0);
    assert!(kernel.is_over());
}

#[test]
fn a_solver_that_fails_through_the_call_still_pays() {
    let mut kernel = kernel(1000);
    kernel.add_user(user(1, (10, 10), &one_call(0x14, [0, 1, 2, 3, 0, 0]))).unwrap();
    kernel.take_events();
    kernel.tick();
    assert!(kernel.is_over());
    assert_eq!(balance(&kernel, 1, CryptoCurrency::DogeCoin), 1336);
    let events = kernel.take_events();
    assert!(matches!(events[..], [GameEvent::ScoreUpdate { .. }, GameEvent::Kill { .. }, GameEvent::WalletUpdate { .. }]));
}

#[test]
fn code_and_memory_are_copied_between_planes_and_processes() {
    let mut kernel = kernel(1000);
    let mut config = user(1, (10, 10), &SPIN);
    config.initd_memory[0xfffe..].copy_from_slice(&[0xaa, 0xbb]);
    config.initd_memory[0] = 0xcc;
    let init = kernel.add_user(config).unwrap();
    let child = kernel.fork_process(init).unwrap();
    let stranger = kernel.add_user(user(2, (50, 50), &SPIN)).unwrap();
    assert_eq!(kernel.update_code(init, 0xfffe, 0x100, 2), Some(1));
    let mut emulator = kernel.get_process(init).emulator.duplicate();
    emulator.set_reg(RegisterName::PC, 0x100);
    assert_eq!(emulator.peek_bytes_from_pc(4), vec![0xaa, 0xbb, 0xcc, 0]);
    assert_eq!(kernel.share_memory(init, init, 0, 0, 0), None);
    assert_eq!(kernel.share_memory(child, init, 0, 0, 0), None);
    assert_eq!(kernel.share_memory(init, stranger, 0, 0, 0), None);
    assert_eq!(kernel.share_memory(init, 0x7070, 0, 0, 0), None);
    assert_eq!(kernel.share_memory(init, child, 0x200, 0xfffe, 1), Some(1));
    assert_eq!(kernel.get_process(child).emulator.peek_bytes_from_mem(0x200, 3), vec![0xaa, 0xbb, 0]);
    assert_eq!(kernel.get_process(stranger).emulator.load_u8(0), 0);
}

#[test]
fn results_and_bytes_are_written_to_a_process() {
    let mut kernel = kernel(1000);
    let init = kernel.add_user(user(1, (10, 10), &SPIN)).unwrap();
    kernel.set_syscall_result(init, 0x1234);
    assert_eq!(reg(&kernel, init, RegisterName::AX), 0x1234);
    kernel.write_process_memory(init, 0xffff, &[1, 2]);
    assert_eq!(kernel.get_process(init).emulator.peek_bytes_from_mem(0xffff, 2), vec![1, 2]);
    kernel.strike(init, Glitch::Bytecode { addr: 0, byte: 0x6e });
    assert_eq!(kernel.get_process(init).emulator.peek_from_pc::<u8>(), 0x6e);
    let cycles = kernel.begin_process_tick(init);
    assert_eq!(cycles, 1000);
    assert_eq!(kernel.get_process(init).lifetime, 999);
    assert_eq!(reg(&kernel, init, RegisterName::TS), 1);
    kernel.log(GameEvent::Detach { pid: 0 });
    assert!(matches!(kernel.take_events().last(), Some(GameEvent::Detach { pid: 0 })));
    assert!(matches!(kernel.draw_glitch(), Glitch::Memory { addr: 0xff00, byte: 0 }));
}

#[test]
fn scores_are_settled_user_by_user() {
    let mut kernel = kernel(1000);
    kernel.setup_users(vec![user(1, (0, 0), &SPIN), user(2, (1, 1), &SPIN)]).unwrap();
    kernel.take_events();
    kernel.settle_scores();
    for uid in [1u16, 2] {
        assert_eq!(kernel.get_user(uid).score, 58461);
        assert_eq!(kernel.get_user(uid).wallet.convert_to_score(), 0);
        assert_eq!(kernel.get_user(uid).num_processes, 1);
    }
    assert_eq!(kernel.take_events().len(), 4);
    kernel.tick_processes();
    assert_eq!(kernel.get_user(1).score, 58471);
}

#[test]
fn a_refused_move_leaves_the_wallet_alone() {
    let mut kernel = Kernel::new(config(8, 1000), GameMap::from_map_data(&vec![0u8; 65536]).unwrap());
    let mut code = vec![0xffu8; 64];
    code[..4].copy_from_slice(&[0x21, 0x0f, 0x10, 0x0f]);
    let init = kernel.add_user(user(1, (0, 0), &code)).unwrap();
    kernel.set_wallet(1, Wallet::new(5, 2000, 0, 0, 0, 0));
    kernel.take_events();
    kernel.tick_processes();
    assert_eq!(balance(&kernel, 1, CryptoCurrency::DogeCoin), 5);
    assert_eq!(balance(&kernel, 1, CryptoCurrency::StarSleepShortage), 2000);
    assert_eq!(balance(&kernel, 1, CryptoCurrency::Ethereum), 0);
    assert_eq!(reg(&kernel, init, RegisterName::AX), 0);
    assert_eq!(reg(&kernel, init, RegisterName::PC), 4);
    assert_eq!(reg(&kernel, init, RegisterName::TS), 1);
    assert_eq!(kernel.get_user(1).score, 2);
    assert_eq!(kernel.get_process(init).lifetime, 999);
    assert_eq!(kernel.get_process_location(init), (0, 0));
    let events = kernel.take_events();
    assert!(matches!(events[..], [GameEvent::ScoreUpdate { uid: 1, new_score: 2 }]));
}

#[test]
fn a_renice_that_cannot_be_paid_for_changes_nothing() {
    let mut kernel = Kernel::new(config(8, 1000), GameMap::from_map_data(&vec![0u8; 65536]).unwrap());
    let mut code = vec![0xffu8; 64];
    code[..4].copy_from_slice(&[0x21, 0x0f, 0x06, 0x0f]);
    let init = kernel.add_user(user(1, (0, 0), &code)).unwrap();
    kernel.set_wallet(1, Wallet::new(0, 2000, 9, 0, 0, 0));
    kernel.take_events();
    kernel.tick_processes();
    assert_eq!(kernel.get_process(init).nice, 0);
    assert_eq!(balance(&kernel, 1, CryptoCurrency::Ethereum), 9);
    assert_eq!(balance(&kernel, 1, CryptoCurrency::StarSleepShortage), 2000);
    assert_eq!(reg(&kernel, init, RegisterName::AX), 0);
    assert_eq!(reg(&kernel, init, RegisterName::PC), 4);
    let events = kernel.take_events();
    assert!(matches!(events[..], [GameEvent::ScoreUpdate { .. }]));
    // one coin more and it is paid for, once, and answered with 1
    kernel.set_wallet(1, Wallet::new(0, 2000, 10, 0, 0, 0));
    kernel.set_register(init, RegisterName::PC, 0);
    kernel.tick_processes();
    assert_eq!(kernel.get_process(init).nice, 1);
    assert_eq!(balance(&kernel, 1, CryptoCurrency::Ethereum), 0);
    assert_eq!(reg(&kernel, init, RegisterName::AX), 1);
    let events = kernel.take_events();
    assert!(matches!(
        events[..],
        [GameEvent::ScoreUpdate { .. }, GameEvent::Renice { new_nice: 1, .. }, GameEvent::WalletUpdate { uid: 1, .. }]
    ));
}

#[test]
fn a_fork_by_system_call_is_paid_for_and_answered_in_ax() {
    let mut kernel = kernel(1000);
    let mut code = vec![0xffu8; 64];
    code[..4].copy_from_slice(&[0x21, 0x0f, 0x02, 0x0f]);
    let init = kernel.add_user(user(1, (10, 10), &code)).unwrap();
    kernel.take_events();
    kernel.tick_processes();
    let child = reg(&kernel, init, RegisterName::AX);
    assert!((1..=65534).contains(&child));
    assert!(kernel.has_process(child));
    assert_eq!(reg(&kernel, child, RegisterName::AX), 0xffff);
    // the child is a copy made after the parent's tick began, and has not run
    assert_eq!(reg(&kernel, child, RegisterName::TS), 1);
    assert_eq!(reg(&kernel, child, RegisterName::PC), 4);
    assert_eq!(kernel.get_process(child).lifetime, 499);
    assert_eq!(kernel.get_process(init).lifetime, 999);
    assert_eq!(kernel.get_user(1).num_processes, 2);
    assert_eq!(balance(&kernel, 1, CryptoCurrency::Ethereum), 124);
    assert_eq!(balance(&kernel, 1, CryptoCurrency::DogeCoin), 1337);
    let events = kernel.take_events();
    assert_eq!(events.iter().filter(|event| matches!(event, GameEvent::WalletUpdate { .. })).count(), 1);
    assert_eq!(events.iter().filter(|event| matches!(event, GameEvent::ScoreUpdate { .. })).count(), 1);
}

#[test]
fn whoever_has_nothing_left_after_the_turns_dies_even_if_new() {
    let mut kernel = kernel(3);
    // fork, then attack the child, which stands at (11, 11) with one tick to live
    let code = [
        0x21, 0x0f, 0x02, 0x0f, 0x20, 0x03, 11, 0, 0x20, 0x04, 11, 0, 0x21, 0x0f, 0x20, 0x0f, 0x20,
        0x00, 16, 0x00,
    ];
    let init = kernel.add_user(user(1, (10, 10), &code)).unwrap();
    kernel.take_events();
    kernel.tick_processes();
    assert_eq!(kernel.live_pids(), vec![init]);
    assert_eq!(kernel.get_process(init).lifetime, 2);
    assert_eq!(kernel.get_user(1).num_processes, 1);
    assert_eq!(balance(&kernel, 1, CryptoCurrency::DogeCoin), 1329);
    let events = kernel.take_events();
    assert!(matches!(events.last(), Some(GameEvent::Kill { .. })));
    assert_eq!(events.iter().filter(|event| matches!(event, GameEvent::Attack { .. })).count(), 1);
}

#[test]
fn wallets_scores_and_processes_can_be_set_from_outside() {
    let mut kernel = kernel(1000);
    let init = kernel.add_user(user(1, (10, 10), &SPIN)).unwrap();
    kernel.take_events();
    kernel.set_wallet(1, Wallet::new(1, 2, 3, 4, 5, 6));
    assert_eq!(balance(&kernel, 1, CryptoCurrency::BitCoin), 4);
    assert_eq!(kernel.get_user(1).num_processes, 1);
    kernel.set_score(1, -7);
    assert_eq!(kernel.get_user(1).score, -7);
    kernel.set_nice(init, 21);
    assert_eq!(kernel.get_process(init).nice, 21);
    kernel.cut_lifetime(init, 2000);
    assert_eq!(kernel.get_process(init).lifetime, 1000);
    kernel.cut_lifetime(init, 10);
    assert_eq!(kernel.get_process(init).lifetime, 10);
    kernel.set_register(init, RegisterName::R3, 0x1234);
    assert_eq!(reg(&kernel, init, RegisterName::R3), 0x1234);
    kernel.set_register(init, RegisterName::ZR, 0x1234);
    assert_eq!(reg(&kernel, init, RegisterName::ZR), 0);
    assert!(kernel.take_events().is_empty());
}

#[test]
fn a_user_is_refused_when_every_pid_is_taken_only() {
    let mut kernel = kernel(10);
    for uid in 0..20u16 {
        assert!(kernel.add_user(user(uid, (uid as u8, 1), &SPIN)).is_ok());
    }
    assert_eq!(kernel.live_pids().len(), 20);
}

#[test]
fn idle_processes_lose_a_tick_each_and_go_when_their_time_is_up() {
    let mut kernel = kernel(5);
    let nops = vec![0x6eu8; 65536];
    let first = kernel.add_user(user(1, (0, 0), &nops)).unwrap();
    let second = kernel.add_user(user(2, (9, 9), &nops)).unwrap();
    kernel.cut_lifetime(second, 3);
    kernel.tick_processes();
    assert_eq!(kernel.get_process(first).lifetime, 4);
    assert_eq!(kernel.get_process(second).lifetime, 2);
    kernel.tick_processes();
    assert_eq!(kernel.get_process(first).lifetime, 3);
    assert_eq!(kernel.get_process(second).lifetime, 1);
    assert_eq!(reg(&kernel, second, RegisterName::PC), 2000);
    let events = kernel.take_events();
    assert!(events.iter().all(|event| !matches!(event, GameEvent::Kill { .. })));
    kernel.tick_processes();
    assert!(!kernel.has_process(second));
    assert_eq!(kernel.get_process(first).lifetime, 2);
    assert_eq!(kernel.live_pids(), vec![first]);
    let events = kernel.take_events();
    assert!(matches!(events.last(), Some(GameEvent::Kill { pid }) if *pid == second));
    assert_eq!(events.iter().filter(|event| matches!(event, GameEvent::Kill { .. })).count(), 1);
}

/// MovImm8 AX, 2; syscall; Memcpy, which a tired owner's budget no longer covers.
const FORK_AND_STALL: [u8; 5] = [0x21, 0x0f, 0x02, 0x0f, 0x71];

#[test]
fn a_fork_that_cannot_be_paid_for_leaves_zero_in_ax() {
    let mut kernel = kernel(1000);
    let init = kernel.add_user(user(1, (10, 10), &FORK_AND_STALL)).unwrap();
    kernel.set_wallet(1, Wallet::new(1337, 600, 3, 0, 0, 1));
    kernel.take_events();
    kernel.tick_processes();
    assert_eq!(reg(&kernel, init, RegisterName::AX), 0);
    assert_eq!(reg(&kernel, init, RegisterName::PC), 4);
    assert_eq!(reg(&kernel, init, RegisterName::TS), 1);
    assert_eq!(kernel.live_pids(), vec![init]);
    assert_eq!(kernel.get_user(1).num_processes, 1);
    assert_eq!(balance(&kernel, 1, CryptoCurrency::Ethereum), 3);
    let events = kernel.take_events();
    assert_eq!(events.len(), 1);
    assert!(matches!(events[0], GameEvent::ScoreUpdate { uid: 1, new_score: 4 }));
}

#[test]
fn a_process_that_forks_at_once_stops_behind_the_call() {
    let mut kernel = kernel(1000);
    let init = kernel.add_user(user(1, (10, 10), &FORK_AND_STALL)).unwrap();
    kernel.set_wallet(1, Wallet::new(1337, 600, 128, 0, 0, 1));
    kernel.take_events();
    kernel.tick_processes();
    let child = reg(&kernel, init, RegisterName::AX);
    assert!((1..=65534).contains(&child));
    assert_eq!(reg(&kernel, init, RegisterName::PC), 4);
    assert_eq!(reg(&kernel, init, RegisterName::TS), 1);
    assert!(kernel.has_process(child));
    assert_eq!(reg(&kernel, child, RegisterName::AX), 0xffff);
    assert_eq!(reg(&kernel, child, RegisterName::PC), 4);
    assert_eq!(kernel.get_process(child).ppid, Some(init));
    assert_eq!(kernel.get_process(child).lifetime, 499);
    assert_eq!(kernel.get_user(1).num_processes, 2);
    assert_eq!(balance(&kernel, 1, CryptoCurrency::Ethereum), 124);
    assert_eq!(balance(&kernel, 1, CryptoCurrency::StarSleepShortage), 600);
    let events = kernel.take_events();
    assert_eq!(events.len(), 3);
    assert!(matches!(events[0], GameEvent::ScoreUpdate { uid: 1, new_score: 4 }));
    assert!(matches!(events[1], GameEvent::NewProcess { uid: 1, ppid: Some(parent), pid, .. }
        if parent == init && pid == child));
    assert!(matches!(events[2], GameEvent::WalletUpdate { uid: 1, .. }));
}
