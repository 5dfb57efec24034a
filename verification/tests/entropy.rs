use minecrab::config::{CryptoSpawn, GameConfiguration, RawUserConfiguration, UserConfiguration};
use minecrab::vm::emulator::{sign_extend, FromBytes, ToBytes};
use minecrab::vm::entropy::{Chance, Entropy, Glitch, GlitchKind};
use minecrab::vm::register::RegisterName;

#[test]
fn a_roll_selects_the_kind_of_strike() {
    for roll in 1u8..=100 {
        let expected = match roll {
            1..=40 => GlitchKind::Memory,
            41..=60 => GlitchKind::Register,
            61..=85 => GlitchKind::Swap,
            _ => GlitchKind::Bytecode,
        };
        assert_eq!(GlitchKind::from_roll(roll), expected);
        let drawn = Glitch::draw_for_roll(roll);
        let kind = match drawn {
            Glitch::Memory { .. } => GlitchKind::Memory,
            Glitch::Register { .. } => GlitchKind::Register,
            Glitch::Swap { .. } => GlitchKind::Swap,
            Glitch::Bytecode { .. } => GlitchKind::Bytecode,
        };
        assert_eq!(kind, expected);
    }
}

#[test]
fn wild_draws_come_in_every_kind() {
    let mut seen = [false; 4];
    for _ in 0..2000 {
        match Glitch::draw() {
            Glitch::Memory { .. } => seen[0] = true,
            Glitch::Register { .. } => seen[1] = true,
            Glitch::Swap { .. } => seen[2] = true,
            Glitch::Bytecode { .. } => seen[3] = true,
        }
    }
    assert_eq!(seen, [true; 4]);
    let mut words = std::collections::HashSet::new();
    for _ in 0..64 {
        words.insert(Chance::Wild.word());
        words.insert(Entropy::draw().fresh[0]);
    }
    assert!(words.len() > 1);
}

#[test]
fn wild_draws_between_bounds_stay_between_them() {
    let mut small = std::collections::HashSet::new();
    let mut large = std::collections::HashSet::new();
    for _ in 0..1000 {
        let value = Chance::Wild.between(-2, 2);
        assert!((-2..=2).contains(&value));
        small.insert(value);
        let value = Chance::Wild.between(1, 65534);
        assert!((1..=65534).contains(&value));
        large.insert(value);
    }
    assert_eq!(small.len(), 5);
    assert!(large.len() > 900);
    assert_eq!(Chance::Wild.between(7, 7), 7);
}

#[test]
fn a_tame_source_always_answers_the_same() {
    let glitch = Glitch::Register { register: RegisterName::R1, value: 3 };
    let tame = Chance::Tame { word: 0x0305, glitch };
    assert_eq!(tame.word(), 0x0305);
    assert_eq!(tame.byte(), 0x05);
    assert_eq!(tame.between(0, 10_000), 0x0305);
    assert_eq!(tame.between(-2, 2), 2);
    assert_eq!(tame.between(1000, 2000), 1000);
    assert_eq!(tame.glitch(), glitch);
    let entropy = tame.entropy();
    assert_eq!(entropy.fresh, [0x0305; 5]);
    assert_eq!(entropy.rude_awakening, glitch);
    assert_eq!(entropy.fault, glitch);
    assert_eq!(Entropy::uniform(9, glitch).fresh, [9; 5]);
}

#[test]
fn values_are_read_and_written_low_byte_first() {
    assert_eq!(<u8 as FromBytes>::from_bytes(&[0x80]), 0x80);
    assert_eq!(<i8 as FromBytes>::from_bytes(&[0x80]), -128);
    assert_eq!(<i8 as FromBytes>::from_bytes(&[0x7f]), 127);
    assert_eq!(<u16 as FromBytes>::from_bytes(&[0x34, 0x12]), 0x1234);
    assert_eq!(<i16 as FromBytes>::from_bytes(&[0xff, 0xff]), -1);
    assert_eq!(<i16 as FromBytes>::from_bytes(&[0x00, 0x80]), i16::MIN);
    assert_eq!(<i16 as FromBytes>::from_bytes(&[0xff, 0x7f]), i16::MAX);
    assert_eq!((<u8 as FromBytes>::size(), <i16 as FromBytes>::size()), (1, 2));
    assert_eq!(0x12u8.to_bytes(), vec![0x12]);
    assert_eq!(0x1234u16.to_bytes(), vec![0x34, 0x12]);
    assert_eq!(sign_extend(0x7f), 0x007f);
    assert_eq!(sign_extend(0x80), 0xff80);
}

fn raw() -> RawUserConfiguration {
    RawUserConfiguration {
        initd_bytecode: "code.bin".to_string(),
        initd_memory: "memory.bin".to_string(),
        uid: 5,
        spawn_point: (1, 2),
    }
}

#[test]
fn images_must_have_the_size_of_the_planes() {
    let user: UserConfiguration = UserConfiguration::from_images(&raw(), vec![1; 65536], vec![2; 65536]).unwrap();
    assert_eq!((user.uid, user.spawn_point), (5, (1, 2)));
    assert_eq!(user.initd_memory, vec![1; 65536]);
    assert_eq!(user.initd_bytecode, vec![2; 65536]);
    let error = UserConfiguration::from_images(&raw(), vec![1; 65535], vec![2; 65536]).unwrap_err();
    assert_eq!(error.message, "Incorrect file size 65535 for file \"memory.bin\"");
    let error = UserConfiguration::from_images(&raw(), vec![1; 65536], vec![]).unwrap_err();
    assert_eq!(error.message, "Incorrect file size 0 for file \"code.bin\"");
}

#[test]
fn the_kernel_takes_its_part_of_the_configuration() {
    let game = GameConfiguration {
        user_configs: vec![raw()],
        default_nice: 3,
        initd_lifetime: 77,
        max_processes: 9,
        mapdata_path: "map.bin".to_string(),
        crypto_spawn: vec![
            CryptoSpawn { name: "bed".to_string(), distributions: vec![(1, 2), (3, 4)] },
            CryptoSpawn { name: "dog".to_string(), distributions: vec![] },
        ],
    };
    let kernel = game.get_kernel_config();
    assert_eq!((kernel.max_processes, kernel.initd_lifetime, kernel.default_nice), (9, 77, 3));
    assert_eq!(kernel.crypto_spawn.len(), 2);
    assert_eq!(kernel.crypto_spawn[0].name, "bed");
    assert_eq!(kernel.crypto_spawn[0].distributions, vec![(1, 2), (3, 4)]);
    assert_eq!(kernel.crypto_spawn[1].name, "dog");
    assert!(kernel.crypto_spawn[1].distributions.is_empty());
    let copy = game.crypto_spawn[0].duplicate();
    assert_eq!(copy.name, "bed");
    assert_eq!(copy.distributions, vec![(1, 2), (3, 4)]);
}
