use minecrab::config::CryptoSpawn;
use minecrab::game::crypto::{BedChallenge, Challenge, CryptoCurrency, DogChallenge};
use minecrab::game::map::{chebyshev_distance, shift, CellType, GameMap, MapCell};
use minecrab::game::replay::GameEvent;
use minecrab::vm::entropy::{Chance, Glitch};

const TAME: Chance = Chance::Tame { word: 1, glitch: Glitch::Memory { addr: 0, byte: 0 } };

fn open_map() -> GameMap {
    GameMap::from_map_data(&vec![0u8; 65536]).unwrap()
}

#[test]
fn chebyshev_distance_wraps_around_the_torus() {
    assert_eq!(chebyshev_distance((0, 0), (255, 0)), 1);
    assert_eq!(chebyshev_distance((0, 0), (128, 128)), 128);
    assert_eq!(chebyshev_distance((0, 0), (0, 0)), 0);
    assert_eq!(chebyshev_distance((0, 0), (129, 0)), 127);
    assert_eq!(chebyshev_distance((10, 20), (13, 18)), 3);
    assert_eq!(chebyshev_distance((255, 255), (0, 0)), 1);
    assert_eq!(chebyshev_distance((3, 250), (250, 3)), 9);
    assert_eq!(chebyshev_distance((5, 5), (6, 200)), 61);
}

#[test]
fn chebyshev_distance_is_the_same_both_ways() {
    let cells = [(0u8, 0u8), (1, 255), (128, 127), (200, 3), (255, 255)];
    for a in cells {
        for b in cells {
            assert_eq!(chebyshev_distance(a, b), chebyshev_distance(b, a));
            assert!(chebyshev_distance(a, b) <= 128);
        }
    }
}

#[test]
fn shifting_wraps_at_the_edges() {
    assert_eq!(shift((0, 0), -1, -2), (255, 254));
    assert_eq!(shift((255, 254), 1, 2), (0, 0));
    assert_eq!(shift((10, 10), 0, 0), (10, 10));
    assert_eq!(shift((100, 100), -128, 127), (228, 227));
}

#[test]
fn map_data_must_be_65536_bytes_of_zero_or_one() {
    assert!(GameMap::from_map_data(&vec![0u8; 65535]).is_err());
    assert!(GameMap::from_map_data(&vec![0u8; 65537]).is_err());
    assert!(GameMap::from_map_data(&[]).is_err());
    let mut data = vec![0u8; 65536];
    data[65535] = 2;
    assert!(GameMap::from_map_data(&data).is_err());
    data[65535] = 1;
    assert!(GameMap::from_map_data(&data).is_ok());
}

#[test]
fn cells_are_read_row_by_row() {
    let mut data = vec![0u8; 65536];
    data[3 * 256 + 7] = 1;
    let map = GameMap::from_map_data(&data).unwrap();
    assert_eq!(map.get_cell((3, 7)).status(), 1);
    assert!(map.get_cell((3, 7)).is_wall());
    assert!(!map.get_cell((3, 7)).is_empty());
    assert_eq!(map.get_cell((7, 3)).status(), 0);
    assert!(map.get_cell((7, 3)).is_empty());
    assert_eq!(map.get_process_at((7, 3)), None);
    assert!(!map.has_process(1));
}

#[test]
fn a_new_cell_holds_nothing() {
    let land = MapCell::new(CellType::Land);
    assert!(land.is_empty());
    assert_eq!(land.get_process(), None);
    assert_eq!(land.status(), 0);
    assert_eq!(land.status_detail(), [0, 0, 0]);
    assert!(land.crypto_data().is_none());
    let wall = MapCell::new(CellType::Wall);
    assert!(!wall.is_empty());
    assert_eq!(wall.status(), 1);
    assert_eq!(wall.status_detail(), [1, 0, 0]);
}

#[test]
fn processes_stand_on_the_cell_the_index_names() {
    let mut map = open_map();
    map.add_process_to_map(0x1234, (5, 6));
    assert!(map.has_process(0x1234));
    assert_eq!(map.get_process_location(0x1234), (5, 6));
    assert_eq!(map.get_process_at((5, 6)), Some(0x1234));
    assert_eq!(map.get_cell((5, 6)).status_detail(), [2, 0x34, 0x12]);
    assert!(!map.get_cell((5, 6)).is_empty());
    map.remove_process_from_map(0x1234);
    assert!(!map.has_process(0x1234));
    assert_eq!(map.get_process_at((5, 6)), None);
    assert!(map.get_cell((5, 6)).is_empty());
}

#[test]
fn a_move_takes_the_process_to_a_free_cell_of_land() {
    let mut data = vec![0u8; 65536];
    data[9 * 256 + 9] = 1;
    let mut map = GameMap::from_map_data(&data).unwrap();
    let mut log = Vec::new();
    map.add_process_to_map(1, (5, 5));
    map.add_process_to_map(2, (5, 6));
    assert!(!map.move_process_to(1, (5, 6), &mut log));
    assert!(!map.move_process_to(1, (9, 9), &mut log));
    assert!(log.is_empty());
    assert_eq!(map.get_process_location(1), (5, 5));
    assert!(map.move_process_to(1, (6, 6), &mut log));
    assert_eq!(map.get_process_location(1), (6, 6));
    assert_eq!(map.get_process_at((5, 5)), None);
    assert_eq!(map.get_process_at((6, 6)), Some(1));
    assert_eq!(map.get_process_at((5, 6)), Some(2));
    assert_eq!(log.len(), 1);
    assert!(matches!(log[0], GameEvent::Move { pid: 1, location: (6, 6) }));
}

#[test]
fn a_challenge_lies_on_an_empty_cell_until_it_is_solved() {
    let mut map = open_map();
    let mut log = Vec::new();
    let bed = Challenge::Bed(BedChallenge::new(5));
    assert!(map.place_challenge((2, 3), bed, &mut log));
    assert_eq!(log.len(), 1);
    assert!(matches!(
        log[0],
        GameEvent::NewChallenge { challenge_type: "bed", difficulty: 5, location: (2, 3) }
    ));
    assert!(!map.place_challenge((2, 3), bed, &mut log));
    assert_eq!(log.len(), 1);
    let cell = map.get_cell((2, 3));
    assert!(!cell.is_empty());
    assert_eq!(cell.status(), 0);
    assert_eq!(cell.status_detail(), [3, 0xed, 0x0b]);
    assert_eq!(cell.crypto_data(), Some(vec![0xed, 0x0b, 5, 0, 0, 0]));
    assert!(map.solve_crypto_at((2, 3), (1, 1, 1, 1)).is_none());
    assert!(map.get_cell((2, 3)).crypto_data().is_some());
    let reward = map.solve_crypto_at((2, 3), (0, 1, 2, 3)).unwrap();
    assert_eq!(reward.get_currency(CryptoCurrency::StarSleepShortage), -5);
    assert!(map.get_cell((2, 3)).is_empty());
    assert!(map.solve_crypto_at((2, 3), (0, 1, 2, 3)).is_none());
}

#[test]
fn a_challenge_cannot_lie_on_a_wall_or_under_a_process() {
    let mut data = vec![0u8; 65536];
    data[0] = 1;
    let mut map = GameMap::from_map_data(&data).unwrap();
    let mut log = Vec::new();
    map.add_process_to_map(7, (1, 1));
    let bed = Challenge::Bed(BedChallenge::new(1));
    assert!(!map.place_challenge((0, 0), bed, &mut log));
    assert!(!map.place_challenge((1, 1), bed, &mut log));
    assert!(log.is_empty());
}

#[test]
fn a_process_may_stand_on_a_challenge() {
    let mut map = open_map();
    let mut log = Vec::new();
    let dog = Challenge::Dog(DogChallenge::new(3, (1, 2, 3, 4)));
    assert!(map.place_challenge((4, 4), dog, &mut log));
    map.add_process_to_map(9, (4, 5));
    assert!(map.move_process_to(9, (4, 4), &mut log));
    let cell = map.get_cell((4, 4));
    assert_eq!(cell.get_process(), Some(9));
    assert_eq!(cell.status_detail(), [2, 9, 0]);
    assert_eq!(
        cell.crypto_data(),
        Some(vec![0x20, 0x04, 3, 0, 8, 0, 1, 0, 2, 0, 3, 0, 4, 0])
    );
}

#[test]
fn a_cell_solves_its_own_challenge() {
    let mut cell = MapCell::new(CellType::Land);
    assert!(cell.solve_crypto((0, 1, 2, 3)).is_none());
    let mut map = open_map();
    let mut log = Vec::new();
    map.place_challenge((0, 0), Challenge::Bed(BedChallenge::new(2)), &mut log);
    let cell = map.get_cell_mut((0, 0));
    assert!(cell.solve_crypto((9, 9, 9, 9)).is_none());
    let reward = cell.solve_crypto((0, 1, 2, 3)).unwrap();
    assert_eq!(reward.get_currency(CryptoCurrency::StarSleepShortage), -2);
    assert!(cell.is_empty());
}

#[test]
fn the_search_for_an_empty_cell_stays_in_range() {
    let map = open_map();
    for _ in 0..50 {
        let found = map.find_empty_location_nearby((0, 0), 5, 2, &Chance::Wild).unwrap();
        assert!(chebyshev_distance((0, 0), found) <= 2);
    }
    assert_eq!(map.find_empty_location_nearby((10, 10), 5, 2, &TAME), Some((11, 11)));
    assert_eq!(map.find_empty_location_nearby((10, 10), 5, 0, &TAME), Some((10, 10)));
    assert_eq!(map.find_empty_location_nearby((10, 10), 0, 2, &TAME), None);
}

#[test]
fn the_search_gives_up_after_its_attempts() {
    let map = GameMap::from_map_data(&vec![1u8; 65536]).unwrap();
    assert_eq!(map.find_empty_location_nearby((0, 0), 5, 2, &Chance::Wild), None);
    let mut map = open_map();
    map.add_process_to_map(1, (11, 11));
    assert_eq!(map.find_empty_location_nearby((10, 10), 5, 2, &TAME), None);
}

#[test]
fn statuses_are_read_row_after_row() {
    let mut data = vec![0u8; 65536];
    data[255 * 256 + 255] = 1;
    data[0] = 1;
    data[1] = 1;
    let map = GameMap::from_map_data(&data).unwrap();
    // rows 255 and 0, columns 255, 0 and 1
    assert_eq!(map.read_statuses(255, 255, 1, 2), vec![1, 0, 0, 0, 1, 1]);
    assert_eq!(map.read_statuses(0, 0, 0, 0), vec![1]);
    assert_eq!(map.read_statuses(0, 0, 255, 255).len(), 65536);
}

#[test]
fn details_are_read_only_within_four_steps() {
    let mut data = vec![0u8; 65536];
    data[10 * 256 + 14] = 1;
    data[10 * 256 + 15] = 1;
    let mut map = GameMap::from_map_data(&data).unwrap();
    let mut log = Vec::new();
    map.add_process_to_map(0x0102, (10, 10));
    map.place_challenge((10, 12), Challenge::Bed(BedChallenge::new(1)), &mut log);
    // one row, columns 10 to 15, seen from (10, 10); the last is out of sight
    let seen = map.read_details(Some((10, 10)), 10, 10, 0, 5, &TAME);
    assert_eq!(seen, vec![2, 2, 1, 0, 0, 0, 3, 0xed, 0x0b, 0, 0, 0, 1, 0, 0, 1, 1, 1]);
    // from nowhere nothing is seen
    let unseen = map.read_details(None, 10, 10, 0, 5, &TAME);
    assert_eq!(unseen, vec![1; 18]);
    assert_eq!(map.read_details(None, 0, 0, 1, 2, &Chance::Wild).len(), 18);
}

#[test]
fn the_map_tick_spawns_challenges_as_configured() {
    let mut map = open_map();
    let mut log = Vec::new();
    let config = vec![
        CryptoSpawn { name: "bed".to_string(), distributions: vec![(5, 2), (6, 1)] },
        CryptoSpawn { name: "nothing".to_string(), distributions: vec![(5, 2)] },
    ];
    // a tame source flips 1 for every coin and draws the cell (1, 1)
    map.tick(&config, &TAME, &mut log);
    assert_eq!(log.len(), 1);
    assert!(matches!(
        log[0],
        GameEvent::NewChallenge { challenge_type: "bed", difficulty: 5, location: (1, 1) }
    ));
    assert_eq!(map.get_cell((1, 1)).status_detail(), [3, 0xed, 0x0b]);
    // the cell is taken now: nothing more is placed
    map.tick(&config, &TAME, &mut log);
    assert_eq!(log.len(), 1);
}

#[test]
fn certain_odds_always_spawn_and_no_odds_never() {
    let mut map = open_map();
    let mut log = Vec::new();
    let never = vec![CryptoSpawn { name: "dog".to_string(), distributions: vec![(1, 0); 50] }];
    map.tick(&never, &Chance::Wild, &mut log);
    assert!(log.is_empty());
    let always = vec![CryptoSpawn {
        name: "dog".to_string(),
        distributions: vec![(1, minecrab::config::CERTAIN)],
    }];
    map.tick(&always, &Chance::Wild, &mut log);
    assert_eq!(log.len(), 1);
}
