//! The map: a torus of 256 by 256 cells, with the challenges that lie on it
//! and the processes that stand on it.

use crate::config::CryptoSpawn;
use crate::game::crypto::{
    generate_crypto_challenge, is_challenge_name, push_bytes, push_le_u16, Challenge,
    CryptoChallenge, Nonce, Wallet,
};
use crate::game::replay::GameEvent;
use crate::vm::entropy::Chance;
use vstd::prelude::*;

verus! {

pub const MAP_WIDTH: usize = 256;

pub const MAP_HEIGHT: usize = 256;

#[derive(Clone, Copy, Debug, PartialEq, Eq, Structural)]
pub enum CellType {
    Land,
    Wall,
}

/// A cell of the map, by its two coordinates.
pub type Location = (u8, u8);

/// The distance between two coordinates on a circle of 256: the shorter way
/// round.
pub open spec fn axis_distance(a: u8, b: u8) -> int {
    if (a - b) % 256 <= (b - a) % 256 {
        (a - b) % 256
    } else {
        (b - a) % 256
    }
}

/// The Chebyshev distance between two cells of the torus: the greater of the
/// distances along the two axes.
pub open spec fn chebyshev(a: Location, b: Location) -> int {
    if axis_distance(a.0, b.0) >= axis_distance(a.1, b.1) {
        axis_distance(a.0, b.0)
    } else {
        axis_distance(a.1, b.1)
    }
}

/// Along one axis the distance is at most 128, it is the same both ways, and
/// it is zero between a coordinate and itself only.
pub proof fn lemma_axis_distance(a: u8, b: u8)
    ensures
        0 <= axis_distance(a, b) <= 128,
        axis_distance(a, b) == axis_distance(b, a),
        axis_distance(a, b) == 0 <==> a == b,
{
    if a == b {
        assert((a - b) % 256 == 0);
    } else if a > b {
        assert((a - b) % 256 == a - b);
        assert((b - a) % 256 == 256 - (a - b));
    } else {
        assert((b - a) % 256 == b - a);
        assert((a - b) % 256 == 256 - (b - a));
    }
}

/// The distance is at most 128, it is the same both ways, and it is zero
/// between a cell and itself only.
pub proof fn lemma_chebyshev(a: Location, b: Location)
    ensures
        0 <= chebyshev(a, b) <= 128,
        chebyshev(a, b) == chebyshev(b, a),
        chebyshev(a, b) == 0 <==> a == b,
{
    lemma_axis_distance(a.0, b.0);
    lemma_axis_distance(a.1, b.1);
}

fn distance_on_axis(a: u8, b: u8) -> (d: u8)
    ensures
        d == axis_distance(a, b),
{
    let forth = a.wrapping_sub(b);
    let back = b.wrapping_sub(a);
    if forth <= back {
        forth
    } else {
        back
    }
}

pub fn chebyshev_distance(a: Location, b: Location) -> (d: u8)
    ensures
        d == chebyshev(a, b),
{
    let dx = distance_on_axis(a.0, b.0);
    let dy = distance_on_axis(a.1, b.1);
    if dx >= dy {
        dx
    } else {
        dy
    }
}

/// The cell that lies `dx` and `dy` away from a cell, wrapping at the edges.
pub open spec fn shifted(location: Location, dx: i8, dy: i8) -> Location {
    (((location.0 + dx) % 256) as u8, ((location.1 + dy) % 256) as u8)
}

pub fn shift(location: Location, dx: i8, dy: i8) -> (res: Location)
    ensures
        res == shifted(location, dx, dy),
{
    (
        ((location.0 as i32 + dx as i32 + 256) % 256) as u8,
        ((location.1 as i32 + dy as i32 + 256) % 256) as u8,
    )
}

#[derive(Clone, Copy, Debug)]
pub struct GameMapError {}

/// One cell of the map.
#[derive(Clone, Copy, Debug)]
pub struct MapCell {
    cell_type: CellType,
    crypto: Option<Challenge>,
    process: Option<u16>,
}

impl MapCell {
    pub closed spec fn kind(self) -> CellType {
        self.cell_type
    }

    /// The challenge that lies on the cell.
    pub closed spec fn challenge(self) -> Option<Challenge> {
        self.crypto
    }

    /// The process that stands on the cell.
    pub closed spec fn occupant(self) -> Option<u16> {
        self.process
    }

    /// A wall holds neither a challenge nor a process.
    pub open spec fn wf(self) -> bool {
        self.kind() == CellType::Wall ==> self.challenge() is None && self.occupant() is None
    }

    /// Land with nothing on it.
    pub open spec fn empty(self) -> bool {
        self.kind() == CellType::Land && self.challenge() is None && self.occupant() is None
    }

    /// The cell with another occupant, or none.
    pub closed spec fn with_occupant(self, occupant: Option<u16>) -> MapCell {
        MapCell { process: occupant, ..self }
    }

    /// The cell with another challenge, or none.
    pub closed spec fn with_challenge(self, challenge: Option<Challenge>) -> MapCell {
        MapCell { crypto: challenge, ..self }
    }

    /// Changing the occupant of a cell changes nothing else about it.
    pub broadcast proof fn lemma_with_occupant(self, occupant: Option<u16>)
        ensures
            (#[trigger] self.with_occupant(occupant)).occupant() == occupant,
            self.with_occupant(occupant).kind() == self.kind(),
            self.with_occupant(occupant).challenge() == self.challenge(),
    {
    }

    /// Changing the challenge of a cell changes nothing else about it.
    pub broadcast proof fn lemma_with_challenge(self, challenge: Option<Challenge>)
        ensures
            (#[trigger] self.with_challenge(challenge)).challenge() == challenge,
            self.with_challenge(challenge).kind() == self.kind(),
            self.with_challenge(challenge).occupant() == self.occupant(),
    {
    }

    pub fn new(cell_type: CellType) -> (cell: MapCell)
        ensures
            cell.kind() == cell_type,
            cell.challenge() is None,
            cell.occupant() is None,
    {
        MapCell { cell_type, crypto: None, process: None }
    }

    pub fn is_empty(&self) -> (empty: bool)
        ensures
            empty == self.empty(),
    {
        self.cell_type == CellType::Land && self.crypto.is_none() && self.process.is_none()
    }

    pub fn get_process(&self) -> (pid: Option<u16>)
        ensures
            pid == self.occupant(),
    {
        self.process
    }

    /// Whether the cell is a wall.
    pub fn is_wall(&self) -> (wall: bool)
        ensures
            wall == (self.kind() == CellType::Wall),
    {
        self.cell_type == CellType::Wall
    }

    /// What the status of the cell is: 0 for land, 1 for a wall.
    pub open spec fn status_byte(self) -> u8 {
        match self.kind() {
            CellType::Land => 0,
            CellType::Wall => 1,
        }
    }

    pub fn status(&self) -> (status: u8)
        ensures
            status == self.status_byte(),
    {
        match self.cell_type {
            CellType::Land => 0,
            CellType::Wall => 1,
        }
    }

    /// What the cell shows from close by, in three bytes: a process with its
    /// pid, else a challenge with its id, else the status.
    pub open spec fn detail(self) -> Seq<u8> {
        if let Some(pid) = self.occupant() {
            seq![2u8, (pid % 256) as u8, (pid / 256) as u8]
        } else if let Some(challenge) = self.challenge() {
            seq![3u8, (challenge.numeric_id() % 256) as u8, (challenge.numeric_id() / 256) as u8]
        } else {
            seq![self.status_byte(), 0u8, 0u8]
        }
    }

    pub fn status_detail(&self) -> (detail: [u8; 3])
        ensures
            detail@ == self.detail(),
    {
        let detail = if let Some(pid) = self.process {
            [2, (pid % 256) as u8, (pid / 256) as u8]
        } else if let Some(crypto) = self.crypto {
            let id = crypto.get_numeric_id();
            [3, (id % 256) as u8, (id / 256) as u8]
        } else {
            [self.status(), 0, 0]
        };
        assert(detail@ =~= self.detail());
        detail
    }

    /// What a challenger is given to work on: the id of the challenge, its
    /// difficulty, the length of its data, each in two bytes, and the data.
    pub open spec fn challenge_record(challenge: Challenge) -> Seq<u8> {
        crate::game::crypto::le_bytes_u16(challenge.numeric_id())
            + crate::game::crypto::le_bytes_u16(challenge.difficulty())
            + crate::game::crypto::le_bytes_u16(challenge.challenge_data().len() as u16)
            + challenge.challenge_data()
    }

    pub fn crypto_data(&self) -> (data: Option<Vec<u8>>)
        ensures
            match self.challenge() {
                Some(challenge) => data is Some && data.unwrap()@ == MapCell::challenge_record(
                    challenge,
                ),
                None => data is None,
            },
    {
        match self.crypto {
            None => None,
            Some(crypto) => {
                let mut data: Vec<u8> = Vec::new();
                let challenge = crypto.get_challenge_data();
                push_le_u16(&mut data, crypto.get_numeric_id());
                push_le_u16(&mut data, crypto.get_difficulty());
                push_le_u16(&mut data, (challenge.len() % 65536) as u16);
                push_bytes(&mut data, challenge.as_slice());
                proof {
                    crypto.lemma_data_is_short();
                }
                Some(data)
            },
        }
    }

    /// Tries a nonce on the challenge of the cell. A nonce that the challenge
    /// accepts takes the challenge off the cell and gives its reward.
    pub fn solve_crypto(&mut self, nonce: Nonce) -> (reward: Option<Wallet>)
        ensures
            match old(self).challenge() {
                Some(challenge) if challenge.accepts(nonce) => {
                    &&& reward is Some
                    &&& reward.unwrap()@ == challenge.reward()
                    &&& *final(self) == old(self).with_challenge(None)
                },
                _ => reward is None && *final(self) == *old(self),
            },
    {
        match self.crypto {
            None => None,
            Some(crypto) => {
                if crypto.verify(nonce) {
                    self.crypto = None;
                    Some(crypto.get_reward())
                } else {
                    None
                }
            },
        }
    }
}

/// What chance decided for one pair of a difficulty and odds: the coin that
/// was flipped, and, where a challenge was generated, the challenge and the
/// cell that was drawn for it.
pub struct Sowing {
    pub coin: i64,
    pub attempt: Option<(Challenge, Location)>,
}

/// The highest face of the coin that decides whether a challenge is tried:
/// the coin has 2^53 faces, from 0 up.
pub const COIN_MAX: i64 = 0x1f_ffff_ffff_ffff;

/// The map, and where on it each process stands.
pub struct GameMap {
    map: Vec<MapCell>,
    process_location_map: std::collections::HashMap<u16, Location>,
}

impl GameMap {
    /// The cells of the map, row after row: the cell at `(x, y)` is the one
    /// at position `x * 256 + y`.
    pub closed spec fn cells(&self) -> Seq<MapCell> {
        self.map@
    }

    /// Where each process stands, by pid.
    pub closed spec fn locations(&self) -> Map<u16, Location> {
        self.process_location_map@
    }

    /// The position of a cell among the cells.
    pub open spec fn index_of(location: Location) -> int {
        location.0 * 256 + location.1
    }

    pub open spec fn cell(&self, location: Location) -> MapCell {
        self.cells()[GameMap::index_of(location)]
    }

    /// The map has all its cells and each of them is well formed. Every
    /// process that the index knows stands on the cell that the index names,
    /// and every process that stands on a cell is known to the index at that
    /// cell.
    pub open spec fn wf(&self) -> bool {
        &&& self.cells().len() == 65536
        &&& forall|location: Location| (#[trigger] self.cell(location)).wf()
        &&& forall|pid: u16| #[trigger]
            self.locations().contains_key(pid) ==> self.cell(self.locations()[pid]).occupant()
                == Some(pid)
        &&& forall|location: Location|
            (#[trigger] self.cell(location)).occupant() is Some ==> {
                &&& self.locations().contains_key(self.cell(location).occupant().unwrap())
                &&& self.locations()[self.cell(location).occupant().unwrap()] == location
            }
    }

    /// Whether a byte of map data is one that a cell can be made of, and the
    /// kind of cell that it makes.
    pub open spec fn cell_type_of(byte: u8) -> Option<CellType> {
        if byte == 0 {
            Some(CellType::Land)
        } else if byte == 1 {
            Some(CellType::Wall)
        } else {
            None
        }
    }

    /// Whether map data describes a map: 65536 bytes, each 0 or 1.
    pub open spec fn valid_map_data(map_data: Seq<u8>) -> bool {
        &&& map_data.len() == 65536
        &&& forall|i: int| 0 <= i < map_data.len() ==> map_data[i] <= 1
    }

    /// The map that map data describes: no challenges, no processes.
    pub fn from_map_data(map_data: &[u8]) -> (res: Result<GameMap, GameMapError>)
        ensures
            res is Ok <==> GameMap::valid_map_data(map_data@),
            res matches Ok(map) ==> {
                &&& map.wf()
                &&& map.locations() == Map::<u16, Location>::empty()
                &&& forall|location: Location|
                    {
                        let cell = #[trigger] map.cell(location);
                        &&& Some(cell.kind()) == GameMap::cell_type_of(
                            map_data@[GameMap::index_of(location)],
                        )
                        &&& cell.challenge() is None
                        &&& cell.occupant() is None
                    }
            },
    {
        if map_data.len() != MAP_WIDTH * MAP_HEIGHT {
            return Err(GameMapError {  });
        }
        let mut cells: Vec<MapCell> = Vec::new();
        let mut i: usize = 0;
        while i < 65536
            invariant
                i <= 65536,
                map_data@.len() == 65536,
                cells@.len() == i,
                forall|j: int|
                    0 <= j < i ==> {
                        &&& map_data@[j] <= 1
                        &&& Some((#[trigger] cells@[j]).kind()) == GameMap::cell_type_of(
                            map_data@[j],
                        )
                        &&& cells@[j].challenge() is None
                        &&& cells@[j].occupant() is None
                    },
            decreases 65536 - i,
        {
            let byte = map_data[i];
            if byte == 0 {
                cells.push(MapCell::new(CellType::Land));
            } else if byte == 1 {
                cells.push(MapCell::new(CellType::Wall));
            } else {
                return Err(GameMapError {  });
            }
            i += 1;
        }
        assert forall|j: int| 0 <= j < map_data@.len() implies map_data@[j] <= 1 by {
            assert(cells@[j].occupant() is None);
        }
        let map = GameMap { map: cells, process_location_map: std::collections::HashMap::new() };
        assert forall|location: Location| (#[trigger] map.cell(location)).occupant() is None by {
            let j = GameMap::index_of(location);
            assert(map.cells()[j].occupant() is None);
        }
        Ok(map)
    }

    fn slot(location: Location) -> (i: usize)
        ensures
            i == GameMap::index_of(location),
            i < 65536,
    {
        location.0 as usize * 256 + location.1 as usize
    }

    pub fn get_cell(&self, location: Location) -> (cell: &MapCell)
        requires
            self.wf(),
        ensures
            *cell == self.cell(location),
    {
        &self.map[GameMap::slot(location)]
    }

    /// The cell itself, to be changed in place. Whoever changes who stands
    /// on it answers for the index.
    pub fn get_cell_mut(&mut self, location: Location) -> (cell: &mut MapCell)
        requires
            old(self).wf(),
        ensures
            *cell == old(self).cell(location),
            final(self).cells() == old(self).cells().update(
                GameMap::index_of(location),
                *final(cell),
            ),
            final(self).locations() == old(self).locations(),
    {
        &mut self.map[GameMap::slot(location)]
    }

    pub fn get_process_at(&self, location: Location) -> (pid: Option<u16>)
        requires
            self.wf(),
        ensures
            pid == self.cell(location).occupant(),
    {
        self.get_cell(location).get_process()
    }

    /// Whether a process stands on the map.
    pub fn has_process(&self, pid: u16) -> (known: bool)
        ensures
            known == self.locations().contains_key(pid),
    {
        broadcast use vstd::std_specs::hash::group_hash_axioms;

        self.process_location_map.contains_key(&pid)
    }

    pub fn get_process_location(&self, pid: u16) -> (location: Location)
        requires
            self.locations().contains_key(pid),
        ensures
            location == self.locations()[pid],
    {
        broadcast use vstd::std_specs::hash::group_hash_axioms;

        *self.process_location_map.get(&pid).unwrap()
    }

    /// The map with the cell at `location` replaced.
    pub open spec fn with_cell(cells: Seq<MapCell>, location: Location, cell: MapCell) -> Seq<
        MapCell,
    > {
        cells.update(GameMap::index_of(location), cell)
    }

    /// Replacing one cell leaves every other cell as it was.
    pub proof fn lemma_with_cell(cells: Seq<MapCell>, location: Location, cell: MapCell)
        requires
            cells.len() == 65536,
        ensures
            GameMap::with_cell(cells, location, cell).len() == 65536,
            forall|other: Location|
                #![trigger GameMap::with_cell(cells, location, cell)[GameMap::index_of(other)]]
                GameMap::with_cell(cells, location, cell)[GameMap::index_of(other)] == if other
                    == location {
                    cell
                } else {
                    cells[GameMap::index_of(other)]
                },
    {
    }

    /// Puts a process on a cell of land on which no process stands.
    pub fn add_process_to_map(&mut self, pid: u16, location: Location)
        requires
            old(self).wf(),
            !old(self).locations().contains_key(pid),
            old(self).cell(location).kind() == CellType::Land,
            old(self).cell(location).occupant() is None,
        ensures
            final(self).wf(),
            final(self).locations() == old(self).locations().insert(pid, location),
            final(self).cells() == GameMap::with_cell(
                old(self).cells(),
                location,
                old(self).cell(location).with_occupant(Some(pid)),
            ),
    {
        broadcast use vstd::std_specs::hash::group_hash_axioms;
        broadcast use {MapCell::lemma_with_occupant, MapCell::lemma_with_challenge};

        proof {
            GameMap::lemma_with_cell(
                self.cells(),
                location,
                self.cell(location).with_occupant(Some(pid)),
            );
        }
        self.map[GameMap::slot(location)].process = Some(pid);
        self.process_location_map.insert(pid, location);
        assert(self.cells() =~= GameMap::with_cell(
            old(self).cells(),
            location,
            old(self).cell(location).with_occupant(Some(pid)),
        ));
        assert forall|q: u16| #[trigger] self.locations().contains_key(q) implies self.cell(
            self.locations()[q],
        ).occupant() == Some(q) by {
            if q != pid {
                assert(old(self).locations().contains_key(q));
            }
        }
        assert forall|other: Location| (#[trigger] self.cell(other)).occupant() is Some implies {
            &&& self.locations().contains_key(self.cell(other).occupant().unwrap())
            &&& self.locations()[self.cell(other).occupant().unwrap()] == other
        } by {
            if other != location {
                assert(old(self).cell(other).occupant() is Some);
            }
        }
        assert forall|other: Location| (#[trigger] self.cell(other)).wf() by {
            assert(old(self).cell(other).wf());
        }
    }

    /// Takes a process off the map.
    pub fn remove_process_from_map(&mut self, pid: u16)
        requires
            old(self).wf(),
            old(self).locations().contains_key(pid),
        ensures
            final(self).wf(),
            final(self).locations() == old(self).locations().remove(pid),
            final(self).cells() == GameMap::with_cell(
                old(self).cells(),
                old(self).locations()[pid],
                old(self).cell(old(self).locations()[pid]).with_occupant(None),
            ),
    {
        broadcast use vstd::std_specs::hash::group_hash_axioms;
        broadcast use {MapCell::lemma_with_occupant, MapCell::lemma_with_challenge};

        let location = self.get_process_location(pid);
        proof {
            GameMap::lemma_with_cell(self.cells(), location, self.cell(location).with_occupant(None));
        }
        self.map[GameMap::slot(location)].process = None;
        self.process_location_map.remove(&pid);
        assert(self.cells() =~= GameMap::with_cell(
            old(self).cells(),
            location,
            old(self).cell(location).with_occupant(None),
        ));
        assert forall|q: u16| #[trigger] self.locations().contains_key(q) implies self.cell(
            self.locations()[q],
        ).occupant() == Some(q) by {
            assert(old(self).locations().contains_key(q));
        }
        assert forall|other: Location| (#[trigger] self.cell(other)).occupant() is Some implies {
            &&& self.locations().contains_key(self.cell(other).occupant().unwrap())
            &&& self.locations()[self.cell(other).occupant().unwrap()] == other
        } by {
            assert(old(self).cell(other).occupant() is Some);
        }
        assert forall|other: Location| (#[trigger] self.cell(other)).wf() by {
            assert(old(self).cell(other).wf());
        }
    }

    /// Whether a process can step onto a cell: land on which no process
    /// stands.
    pub open spec fn can_host(&self, location: Location) -> bool {
        self.cell(location).kind() == CellType::Land && self.cell(location).occupant() is None
    }

    /// Moves a process to another cell, if that cell can take it, and logs
    /// the move.
    pub fn move_process_to(&mut self, pid: u16, location: Location, log: &mut Vec<GameEvent>) -> (moved:
        bool)
        requires
            old(self).wf(),
            old(self).locations().contains_key(pid),
        ensures
            final(self).wf(),
            moved == old(self).can_host(location),
            moved ==> {
                &&& final(self).locations() == old(self).locations().insert(pid, location)
                &&& final(self).cells() == GameMap::with_cell(
                    GameMap::with_cell(
                        old(self).cells(),
                        old(self).locations()[pid],
                        old(self).cell(old(self).locations()[pid]).with_occupant(None),
                    ),
                    location,
                    old(self).cell(location).with_occupant(Some(pid)),
                )
                &&& final(log)@ == old(log)@.push(GameEvent::Move { pid, location })
            },
            !moved ==> {
                &&& final(self).locations() == old(self).locations()
                &&& final(self).cells() == old(self).cells()
                &&& final(log)@ == old(log)@
            },
    {
        broadcast use {MapCell::lemma_with_occupant, MapCell::lemma_with_challenge};

        let target = self.get_cell(location);
        if target.is_wall() || target.get_process().is_some() {
            return false;
        }
        self.remove_process_from_map(pid);
        proof {
            GameMap::lemma_with_cell(
                old(self).cells(),
                old(self).locations()[pid],
                old(self).cell(old(self).locations()[pid]).with_occupant(None),
            );
        }
        self.add_process_to_map(pid, location);
        assert(self.locations() =~= old(self).locations().insert(pid, location));
        log.push(GameEvent::Move { pid, location });
        true
    }

    /// Whether an offset stays within `range` on both axes.
    pub open spec fn within(range: i8, offset: (i8, i8)) -> bool {
        -range <= offset.0 <= range && -range <= offset.1 <= range
    }

    /// Whether `to` lies within `range` of `from` on both axes.
    pub open spec fn near(from: Location, to: Location, range: i8) -> bool {
        exists|dx: i8, dy: i8|
            GameMap::within(range, (dx, dy)) && to == #[trigger] shifted(from, dx, dy)
    }

    /// What a search finds lies within its range and is empty.
    pub proof fn lemma_searched(
        &self,
        location: Location,
        attempts: usize,
        range: i8,
        chance: Chance,
        offsets: Seq<(i8, i8)>,
        hit: Location,
    )
        requires
            self.searched(location, attempts, range, chance, offsets, Some(hit)),
        ensures
            GameMap::near(location, hit, range),
            self.cell(hit).empty(),
    {
        let last = offsets[offsets.len() - 1];
        assert(GameMap::within(range, last));
        assert(hit == shifted(location, last.0, last.1));
    }

    /// Whether a search around `location` that tried the given offsets one
    /// after another came to `result`: every offset is within range and can
    /// be what `chance` hands out; every offset but a last one that hit led
    /// to a cell that is not empty; a hit is an empty cell, and without a hit
    /// every attempt was made.
    pub open spec fn searched(
        &self,
        location: Location,
        attempts: usize,
        range: i8,
        chance: Chance,
        offsets: Seq<(i8, i8)>,
        result: Option<Location>,
    ) -> bool {
        &&& offsets.len() <= attempts
        &&& forall|i: int|
            0 <= i < offsets.len() ==> {
                &&& GameMap::within(range, #[trigger] offsets[i])
                &&& chance.allows_between(-range as i64, range as i64, offsets[i].0 as i64)
                &&& chance.allows_between(-range as i64, range as i64, offsets[i].1 as i64)
            }
        &&& match result {
            Some(hit) => {
                &&& offsets.len() > 0
                &&& hit == shifted(location, offsets.last().0, offsets.last().1)
                &&& self.cell(hit).empty()
                &&& forall|i: int|
                    0 <= i < offsets.len() - 1 ==> !self.cell(
                        shifted(location, (#[trigger] offsets[i]).0, offsets[i].1),
                    ).empty()
            },
            None => {
                &&& offsets.len() == attempts
                &&& forall|i: int|
                    0 <= i < offsets.len() ==> !self.cell(
                        shifted(location, (#[trigger] offsets[i]).0, offsets[i].1),
                    ).empty()
            },
        }
    }

    /// Looks for an empty cell near `location`: up to `attempts` times, a
    /// cell is drawn within `range` on both axes, and the first empty one is
    /// the result.
    pub fn find_empty_location_nearby(
        &self,
        location: Location,
        attempts: usize,
        range: i8,
        chance: &Chance,
    ) -> (result: Option<Location>)
        requires
            self.wf(),
            0 <= range,
        ensures
            exists|offsets: Seq<(i8, i8)>| #[trigger]
                self.searched(location, attempts, range, *chance, offsets, result),
    {
        let ghost mut offsets: Seq<(i8, i8)> = Seq::empty();
        let mut tried: usize = 0;
        while tried < attempts
            invariant
                self.wf(),
                0 <= range,
                tried <= attempts,
                offsets.len() == tried,
                forall|i: int|
                    0 <= i < offsets.len() ==> {
                        &&& GameMap::within(range, #[trigger] offsets[i])
                        &&& chance.allows_between(-range as i64, range as i64, offsets[i].0 as i64)
                        &&& chance.allows_between(-range as i64, range as i64, offsets[i].1 as i64)
                        &&& !self.cell(shifted(location, offsets[i].0, offsets[i].1)).empty()
                    },
            decreases attempts - tried,
        {
            let x_diff = chance.between(-(range as i64), range as i64) as i8;
            let y_diff = chance.between(-(range as i64), range as i64) as i8;
            let new_location = shift(location, x_diff, y_diff);
            let ghost longer = offsets.push((x_diff, y_diff));
            if self.get_cell(new_location).is_empty() {
                assert(self.searched(
                    location,
                    attempts,
                    range,
                    *chance,
                    longer,
                    Some(new_location),
                ));
                return Some(new_location);
            }
            proof {
                offsets = longer;
            }
            tried += 1;
        }
        assert(self.searched(location, attempts, range, *chance, offsets, None));
        None
    }

    /// Lays a challenge on a cell if the cell is empty, and logs it.
    pub fn place_challenge(
        &mut self,
        location: Location,
        challenge: Challenge,
        log: &mut Vec<GameEvent>,
    ) -> (placed: bool)
        requires
            old(self).wf(),
        ensures
            final(self).wf(),
            final(self).locations() == old(self).locations(),
            placed == old(self).cell(location).empty(),
            placed ==> {
                &&& final(self).cells() == GameMap::with_cell(
                    old(self).cells(),
                    location,
                    old(self).cell(location).with_challenge(Some(challenge)),
                )
                &&& final(log)@ == old(log)@.push(
                    GameEvent::NewChallenge {
                        challenge_type: challenge.label(),
                        difficulty: challenge.difficulty(),
                        location,
                    },
                )
            },
            !placed ==> final(self).cells() == old(self).cells() && final(log)@ == old(log)@,
    {
        broadcast use {MapCell::lemma_with_occupant, MapCell::lemma_with_challenge};

        if !self.get_cell(location).is_empty() {
            return false;
        }
        log.push(
            GameEvent::NewChallenge {
                challenge_type: challenge.get_name(),
                difficulty: challenge.get_difficulty(),
                location,
            },
        );
        proof {
            GameMap::lemma_with_cell(
                self.cells(),
                location,
                self.cell(location).with_challenge(Some(challenge)),
            );
        }
        self.map[GameMap::slot(location)].crypto = Some(challenge);
        assert(self.cells() =~= GameMap::with_cell(
            old(self).cells(),
            location,
            old(self).cell(location).with_challenge(Some(challenge)),
        ));
        assert forall|q: u16| #[trigger] self.locations().contains_key(q) implies self.cell(
            self.locations()[q],
        ).occupant() == Some(q) by {
            assert(old(self).cell(old(self).locations()[q]).occupant() == Some(q));
        }
        assert forall|other: Location| (#[trigger] self.cell(other)).occupant() is Some implies {
            &&& self.locations().contains_key(self.cell(other).occupant().unwrap())
            &&& self.locations()[self.cell(other).occupant().unwrap()] == other
        } by {
            assert(old(self).cell(other).occupant() is Some);
        }
        assert forall|other: Location| (#[trigger] self.cell(other)).wf() by {
            assert(old(self).cell(other).wf());
        }
        true
    }

    /// Whether a map can have come from another by challenges appearing on
    /// empty cells and nothing else.
    pub open spec fn grown_from(&self, before: &GameMap) -> bool {
        &&& self.locations() == before.locations()
        &&& forall|location: Location|
            {
                let cell = #[trigger] self.cell(location);
                ||| cell == before.cell(location)
                ||| before.cell(location).empty() && cell.challenge() is Some && cell
                    == before.cell(location).with_challenge(cell.challenge())
            }
    }

    /// The cells and the log after one attempt to lay a challenge: where
    /// there is a challenge and its cell is empty, the challenge lies on the
    /// cell and that is logged; else nothing has changed.
    pub open spec fn tried(
        state: (Seq<MapCell>, Seq<GameEvent>),
        attempt: Option<(Challenge, Location)>,
    ) -> (Seq<MapCell>, Seq<GameEvent>) {
        match attempt {
            Some((challenge, location)) if state.0[GameMap::index_of(location)].empty() => (
                GameMap::with_cell(
                    state.0,
                    location,
                    state.0[GameMap::index_of(location)].with_challenge(Some(challenge)),
                ),
                state.1.push(
                    GameEvent::NewChallenge {
                        challenge_type: challenge.label(),
                        difficulty: challenge.difficulty(),
                        location,
                    },
                ),
            ),
            _ => state,
        }
    }

    /// The cells and the log after the attempts of some sowings, one after
    /// another.
    pub open spec fn sown(state: (Seq<MapCell>, Seq<GameEvent>), sowings: Seq<Sowing>) -> (
        Seq<MapCell>,
        Seq<GameEvent>,
    )
        decreases sowings.len(),
    {
        if sowings.len() == 0 {
            state
        } else {
            GameMap::tried(GameMap::sown(state, sowings.drop_last()), sowings.last().attempt)
        }
    }

    /// The cells and the log after rounds of sowings, one round after
    /// another.
    pub open spec fn sown_rounds(
        state: (Seq<MapCell>, Seq<GameEvent>),
        rounds: Seq<Seq<Sowing>>,
    ) -> (Seq<MapCell>, Seq<GameEvent>)
        decreases rounds.len(),
    {
        if rounds.len() == 0 {
            state
        } else {
            GameMap::sown(GameMap::sown_rounds(state, rounds.drop_last()), rounds.last())
        }
    }

    /// Whether a sowing can be what chance decided for a pair of a
    /// difficulty and odds under a name: the coin is one that the source
    /// hands out; a challenge is tried exactly if the coin is below the odds
    /// and the name is that of a kind; and the challenge tried is of that
    /// kind and of the difficulty asked, on a cell that the source hands out.
    pub open spec fn sowing_allowed(
        name: Seq<char>,
        pair: (i64, u64),
        chance: Chance,
        sowing: Sowing,
    ) -> bool {
        &&& chance.allows_between(0, COIN_MAX, sowing.coin)
        &&& sowing.attempt is Some <==> sowing.coin < pair.1 && is_challenge_name(name)
        &&& sowing.attempt matches Some((challenge, location)) ==> {
            &&& challenge.name() == name
            &&& challenge.asked_level(pair.0)
            &&& chance.allows_byte(location.0)
            &&& chance.allows_byte(location.1)
        }
    }

    /// Whether sowings can be what chance decided for the pairs of one kind
    /// of challenge, pair by pair.
    pub open spec fn sowings_allowed(
        name: Seq<char>,
        distributions: Seq<(i64, u64)>,
        chance: Chance,
        sowings: Seq<Sowing>,
    ) -> bool {
        &&& sowings.len() == distributions.len()
        &&& forall|i: int|
            0 <= i < sowings.len() ==> GameMap::sowing_allowed(
                name,
                distributions[i],
                chance,
                #[trigger] sowings[i],
            )
    }

    /// Whether rounds of sowings can be what chance decided for a
    /// configuration, kind by kind.
    pub open spec fn rounds_allowed(
        config: Seq<CryptoSpawn>,
        chance: Chance,
        rounds: Seq<Seq<Sowing>>,
    ) -> bool {
        &&& rounds.len() == config.len()
        &&& forall|k: int|
            0 <= k < rounds.len() ==> GameMap::sowings_allowed(
                config[k].name@,
                config[k].distributions@,
                chance,
                #[trigger] rounds[k],
            )
    }

    /// Tries to lay a challenge on a cell drawn at random; where that cell
    /// is not empty, nothing happens.
    pub fn try_add_crypto_at_random(
        &mut self,
        challenge: Challenge,
        chance: &Chance,
        log: &mut Vec<GameEvent>,
    )
        requires
            old(self).wf(),
        ensures
            final(self).wf(),
            final(self).locations() == old(self).locations(),
            exists|location: Location|
                {
                    &&& chance.allows_byte(location.0)
                    &&& chance.allows_byte(location.1)
                    &&& (final(self).cells(), final(log)@) == #[trigger] GameMap::tried(
                        (old(self).cells(), old(log)@),
                        Some((challenge, location)),
                    )
                },
            exists|location: Location|
                {
                    &&& #[trigger] old(self).cell(location).empty() ==> {
                        &&& final(self).cells() == GameMap::with_cell(
                            old(self).cells(),
                            location,
                            old(self).cell(location).with_challenge(Some(challenge)),
                        )
                        &&& final(log)@ == old(log)@.push(
                            GameEvent::NewChallenge {
                                challenge_type: challenge.label(),
                                difficulty: challenge.difficulty(),
                                location,
                            },
                        )
                    }
                    &&& !old(self).cell(location).empty() ==> final(self).cells() == old(
                        self,
                    ).cells() && final(log)@ == old(log)@
                },
            final(self).grown_from(old(self)),
            old(log)@.is_prefix_of(final(log)@),
    {
        let location = (chance.byte(), chance.byte());
        let placed = self.place_challenge(location, challenge, log);
        proof {
            if placed {
                GameMap::lemma_with_cell(
                    old(self).cells(),
                    location,
                    old(self).cell(location).with_challenge(Some(challenge)),
                );
                MapCell::lemma_with_challenge(old(self).cell(location), Some(challenge));
            }
            assert(old(self).cell(location).empty() == placed);
            assert((self.cells(), log@) == GameMap::tried(
                (old(self).cells(), old(log)@),
                Some((challenge, location)),
            ));
        }
    }

    /// Growth is transitive, and a map has grown from itself.
    pub proof fn lemma_grown(&self, middle: &GameMap, before: &GameMap)
        requires
            self.grown_from(middle),
            middle.grown_from(before),
        ensures
            self.grown_from(before),
            before.grown_from(before),
    {
        broadcast use {MapCell::lemma_with_occupant, MapCell::lemma_with_challenge};

        assert forall|location: Location|
            {
                let cell = #[trigger] self.cell(location);
                ||| cell == before.cell(location)
                ||| before.cell(location).empty() && cell.challenge() is Some && cell
                    == before.cell(location).with_challenge(cell.challenge())
            } by {
            let late = self.cell(location);
            let mid = middle.cell(location);
            if late != mid && mid != before.cell(location) {
                assert(mid.challenge() is Some);
                assert(!mid.empty());
            }
        }
    }

    /// For one kind of challenge: for each pair of a difficulty and odds, a
    /// coin with those odds decides whether a challenge of that difficulty
    /// is generated and tried on a cell drawn at random.
    pub fn add_cryptos(
        &mut self,
        name: &str,
        distributions: &[(i64, u64)],
        chance: &Chance,
        log: &mut Vec<GameEvent>,
    )
        requires
            old(self).wf(),
        ensures
            final(self).wf(),
            final(self).grown_from(old(self)),
            old(log)@.is_prefix_of(final(log)@),
            exists|sowings: Seq<Sowing>|
                {
                    &&& #[trigger] GameMap::sowings_allowed(
                        name@,
                        distributions@,
                        *chance,
                        sowings,
                    )
                    &&& (final(self).cells(), final(log)@) == GameMap::sown(
                        (old(self).cells(), old(log)@),
                        sowings,
                    )
                },
    {
        proof {
            old(self).lemma_grown(old(self), old(self));
        }
        let ghost start = (self.cells(), log@);
        let ghost mut sowings: Seq<Sowing> = Seq::empty();
        let mut i: usize = 0;
        while i < distributions.len()
            invariant
                i <= distributions@.len(),
                self.wf(),
                self.grown_from(old(self)),
                old(log)@.is_prefix_of(log@),
                start == (old(self).cells(), old(log)@),
                sowings.len() == i,
                forall|j: int|
                    0 <= j < i ==> GameMap::sowing_allowed(
                        name@,
                        distributions@[j],
                        *chance,
                        #[trigger] sowings[j],
                    ),
                (self.cells(), log@) == GameMap::sown(start, sowings),
            decreases distributions@.len() - i,
        {
            let (difficulty, odds) = distributions[i];
            let drawn = chance.between(0, COIN_MAX);
            let coin = drawn as u64;
            let ghost before = (self.cells(), log@);
            let ghost mut attempt: Option<(Challenge, Location)> = None;
            if coin < odds {
                if let Some(challenge) = generate_crypto_challenge(name, difficulty) {
                    let ghost middle = *self;
                    self.try_add_crypto_at_random(challenge, chance, log);
                    proof {
                        self.lemma_grown(&middle, old(self));
                        let location = choose|location: Location|
                            {
                                &&& chance.allows_byte(location.0)
                                &&& chance.allows_byte(location.1)
                                &&& (self.cells(), log@) == #[trigger] GameMap::tried(
                                    before,
                                    Some((challenge, location)),
                                )
                            };
                        attempt = Some((challenge, location));
                    }
                }
            }
            proof {
                let sowing = Sowing { coin: drawn, attempt };
                let longer = sowings.push(sowing);
                assert(longer.drop_last() =~= sowings);
                assert(longer.last() == sowing);
                assert((self.cells(), log@) == GameMap::tried(before, attempt));
                sowings = longer;
            }
            i += 1;
        }
        proof {
            assert(GameMap::sowings_allowed(name@, distributions@, *chance, sowings));
        }
    }

    /// The map's part of a tick: new challenges may appear, each kind as its
    /// configuration says.
    pub fn tick(&mut self, config: &Vec<CryptoSpawn>, chance: &Chance, log: &mut Vec<GameEvent>)
        requires
            old(self).wf(),
        ensures
            final(self).wf(),
            final(self).grown_from(old(self)),
            old(log)@.is_prefix_of(final(log)@),
            exists|rounds: Seq<Seq<Sowing>>|
                {
                    &&& #[trigger] GameMap::rounds_allowed(config@, *chance, rounds)
                    &&& (final(self).cells(), final(log)@) == GameMap::sown_rounds(
                        (old(self).cells(), old(log)@),
                        rounds,
                    )
                },
    {
        proof {
            old(self).lemma_grown(old(self), old(self));
        }
        let ghost start = (self.cells(), log@);
        let ghost mut rounds: Seq<Seq<Sowing>> = Seq::empty();
        let mut i: usize = 0;
        while i < config.len()
            invariant
                i <= config@.len(),
                self.wf(),
                self.grown_from(old(self)),
                old(log)@.is_prefix_of(log@),
                start == (old(self).cells(), old(log)@),
                rounds.len() == i,
                forall|k: int|
                    0 <= k < i ==> GameMap::sowings_allowed(
                        config@[k].name@,
                        config@[k].distributions@,
                        *chance,
                        #[trigger] rounds[k],
                    ),
                (self.cells(), log@) == GameMap::sown_rounds(start, rounds),
            decreases config@.len() - i,
        {
            let ghost middle = *self;
            let ghost before = (self.cells(), log@);
            self.add_cryptos(config[i].name.as_str(), config[i].distributions.as_slice(), chance, log);
            proof {
                self.lemma_grown(&middle, old(self));
                let sowings = choose|sowings: Seq<Sowing>|
                    {
                        &&& #[trigger] GameMap::sowings_allowed(
                            config@[i as int].name@,
                            config@[i as int].distributions@,
                            *chance,
                            sowings,
                        )
                        &&& (self.cells(), log@) == GameMap::sown(before, sowings)
                    };
                let longer = rounds.push(sowings);
                assert(longer.drop_last() =~= rounds);
                assert(longer.last() == sowings);
                rounds = longer;
            }
            i += 1;
        }
        proof {
            assert(GameMap::rounds_allowed(config@, *chance, rounds));
        }
    }

    /// Tries a nonce on the challenge that lies on a cell. A nonce that the
    /// challenge accepts takes the challenge off the map and gives its
    /// reward; any other changes nothing.
    pub fn solve_crypto_at(&mut self, location: Location, nonce: Nonce) -> (reward: Option<Wallet>)
        requires
            old(self).wf(),
        ensures
            final(self).wf(),
            final(self).locations() == old(self).locations(),
            match old(self).cell(location).challenge() {
                Some(challenge) if challenge.accepts(nonce) => {
                    &&& reward is Some
                    &&& reward.unwrap()@ == challenge.reward()
                    &&& final(self).cells() == GameMap::with_cell(
                        old(self).cells(),
                        location,
                        old(self).cell(location).with_challenge(None),
                    )
                },
                _ => reward is None && final(self).cells() == old(self).cells(),
            },
    {
        broadcast use {MapCell::lemma_with_occupant, MapCell::lemma_with_challenge};

        proof {
            GameMap::lemma_with_cell(
                self.cells(),
                location,
                self.cell(location).with_challenge(None),
            );
        }
        let reward = self.map[GameMap::slot(location)].solve_crypto(nonce);
        proof {
            if reward is Some {
                assert(self.cells() =~= GameMap::with_cell(
                    old(self).cells(),
                    location,
                    old(self).cell(location).with_challenge(None),
                ));
            } else {
                assert(self.cells() =~= old(self).cells());
            }
            assert forall|other: Location|
                {
                    &&& (#[trigger] self.cell(other)).occupant() == old(self).cell(other).occupant()
                    &&& self.cell(other).kind() == old(self).cell(other).kind()
                    &&& self.cell(other).challenge() is Some ==> old(self).cell(
                        other,
                    ).challenge() is Some
                } by {
                if reward is Some && other == location {
                    assert(self.cell(other) == old(self).cell(location).with_challenge(None));
                } else {
                    assert(self.cell(other) == old(self).cell(other));
                }
            }
            assert forall|q: u16| #[trigger] self.locations().contains_key(q) implies self.cell(
                self.locations()[q],
            ).occupant() == Some(q) by {
                assert(old(self).cell(old(self).locations()[q]).occupant() == Some(q));
            }
            assert forall|other: Location| (#[trigger] self.cell(other)).occupant() is Some implies {
                &&& self.locations().contains_key(self.cell(other).occupant().unwrap())
                &&& self.locations()[self.cell(other).occupant().unwrap()] == other
            } by {
                assert(old(self).cell(other).occupant() is Some);
            }
            assert forall|other: Location| (#[trigger] self.cell(other)).wf() by {
                assert(old(self).cell(other).wf());
            }
        }
        reward
    }

    /// The cell that lies `i` rows and `j` columns on from a corner.
    pub open spec fn cell_from(x1: u8, y1: u8, i: int, j: int) -> Location {
        (((x1 + i) % 256) as u8, ((y1 + j) % 256) as u8)
    }

    /// The statuses of `columns` cells of one row, from `(x, y1)` on.
    pub open spec fn status_run(&self, x: u8, y1: u8, columns: nat) -> Seq<u8> {
        Seq::new(columns, |j: int| self.cell(GameMap::cell_from(x, y1, 0, j)).status_byte())
    }

    /// The statuses of a rectangle of cells, row after row, from the corner
    /// `(x1, y1)` on.
    pub open spec fn status_block(&self, x1: u8, y1: u8, rows: nat, columns: nat) -> Seq<u8>
        decreases rows,
    {
        if rows == 0 {
            Seq::empty()
        } else {
            self.status_block(x1, y1, (rows - 1) as nat, columns) + self.status_run(
                GameMap::cell_from(x1, y1, rows - 1, 0).0,
                y1,
                columns,
            )
        }
    }

    /// A block of statuses has one byte for each cell.
    pub proof fn lemma_status_block_len(&self, x1: u8, y1: u8, rows: nat, columns: nat)
        ensures
            self.status_block(x1, y1, rows, columns).len() == rows * columns,
        decreases rows,
    {
        if rows > 0 {
            self.lemma_status_block_len(x1, y1, (rows - 1) as nat, columns);
            assert((rows - 1) * columns + columns == rows * columns) by (nonlinear_arith);
        } else {
            assert(0 * columns == 0) by (nonlinear_arith);
        }
    }

    /// Reads the statuses of the rectangle that spans `dx + 1` rows and
    /// `dy + 1` columns from the corner `(x1, y1)` on.
    pub fn read_statuses(&self, x1: u8, y1: u8, dx: u8, dy: u8) -> (data: Vec<u8>)
        requires
            self.wf(),
        ensures
            data@ == self.status_block(x1, y1, (dx + 1) as nat, (dy + 1) as nat),
            data@.len() == (dx + 1) * (dy + 1),
    {
        let mut data: Vec<u8> = Vec::new();
        let mut i: u16 = 0;
        while i <= dx as u16
            invariant
                self.wf(),
                i <= dx + 1,
                data@ == self.status_block(x1, y1, i as nat, (dy + 1) as nat),
            decreases dx + 1 - i,
        {
            let x = ((x1 as u16 + i) % 256) as u8;
            let ghost row_start = data@;
            let mut j: u16 = 0;
            while j <= dy as u16
                invariant
                    self.wf(),
                    j <= dy + 1,
                    x == GameMap::cell_from(x1, y1, i as int, 0).0,
                    data@ == row_start + self.status_run(x, y1, j as nat),
                decreases dy + 1 - j,
            {
                let y = ((y1 as u16 + j) % 256) as u8;
                data.push(self.get_cell((x, y)).status());
                assert(data@ =~= row_start + self.status_run(x, y1, (j + 1) as nat));
                j += 1;
            }
            i += 1;
        }
        proof {
            self.lemma_status_block_len(x1, y1, (dx + 1) as nat, (dy + 1) as nat);
        }
        data
    }

    /// Whether somebody who looks out from `viewer` sees the cell at `at`:
    /// it is within four steps. Nobody sees anything from nowhere.
    pub open spec fn sees(viewer: Option<Location>, at: Location) -> bool {
        viewer matches Some(from) && chebyshev(from, at) <= 4
    }

    /// The details of `columns` cells of one row, from `(x, y1)` on, added
    /// to what has been gathered. A cell that the viewer sees gives its
    /// three bytes of detail. For one that the viewer does not see, `noise`
    /// gives the three bytes that stand at the same place in it.
    pub open spec fn detail_run(
        &self,
        gathered: Seq<u8>,
        viewer: Option<Location>,
        x: u8,
        y1: u8,
        columns: nat,
        noise: Seq<u8>,
    ) -> Seq<u8>
        decreases columns,
    {
        if columns == 0 {
            gathered
        } else {
            let before = self.detail_run(gathered, viewer, x, y1, (columns - 1) as nat, noise);
            let at = GameMap::cell_from(x, y1, 0, columns - 1);
            before + if GameMap::sees(viewer, at) {
                self.cell(at).detail()
            } else {
                noise.subrange(before.len() as int, before.len() as int + 3)
            }
        }
    }

    /// The details of a rectangle of cells, row after row, from the corner
    /// `(x1, y1)` on.
    pub open spec fn detail_block(
        &self,
        viewer: Option<Location>,
        x1: u8,
        y1: u8,
        rows: nat,
        columns: nat,
        noise: Seq<u8>,
    ) -> Seq<u8>
        decreases rows,
    {
        if rows == 0 {
            Seq::empty()
        } else {
            self.detail_run(
                self.detail_block(viewer, x1, y1, (rows - 1) as nat, columns, noise),
                viewer,
                GameMap::cell_from(x1, y1, rows - 1, 0).0,
                y1,
                columns,
                noise,
            )
        }
    }

    /// A run of details adds three bytes for each cell, and depends on the
    /// noise only as far as the run reaches.
    pub proof fn lemma_detail_run(
        &self,
        gathered: Seq<u8>,
        viewer: Option<Location>,
        x: u8,
        y1: u8,
        columns: nat,
        noise: Seq<u8>,
        other: Seq<u8>,
    )
        requires
            noise.len() >= gathered.len() + 3 * columns,
            other.len() >= gathered.len() + 3 * columns,
            noise.subrange(0, (gathered.len() + 3 * columns) as int) == other.subrange(
                0,
                (gathered.len() + 3 * columns) as int,
            ),
        ensures
            self.detail_run(gathered, viewer, x, y1, columns, noise).len() == gathered.len() + 3
                * columns,
            self.detail_run(gathered, viewer, x, y1, columns, noise) == self.detail_run(
                gathered,
                viewer,
                x,
                y1,
                columns,
                other,
            ),
        decreases columns,
    {
        if columns > 0 {
            let less = (columns - 1) as nat;
            let reach = (gathered.len() + 3 * columns) as int;
            let short = (gathered.len() + 3 * less) as int;
            assert(noise.subrange(0, short) =~= noise.subrange(0, reach).subrange(0, short));
            assert(other.subrange(0, short) =~= other.subrange(0, reach).subrange(0, short));
            self.lemma_detail_run(gathered, viewer, x, y1, less, noise, other);
            let before = self.detail_run(gathered, viewer, x, y1, less, noise);
            let from = before.len() as int;
            assert(noise.subrange(from, from + 3) =~= noise.subrange(0, reach).subrange(from, from + 3));
            assert(other.subrange(from, from + 3) =~= other.subrange(0, reach).subrange(from, from + 3));
        }
    }

    /// A block of details has three bytes for each cell, and depends on the
    /// noise only as far as the block reaches.
    pub proof fn lemma_detail_block(
        &self,
        viewer: Option<Location>,
        x1: u8,
        y1: u8,
        rows: nat,
        columns: nat,
        noise: Seq<u8>,
        other: Seq<u8>,
    )
        requires
            noise.len() >= 3 * (rows * columns),
            other.len() >= 3 * (rows * columns),
            noise.subrange(0, (3 * (rows * columns)) as int) == other.subrange(
                0,
                (3 * (rows * columns)) as int,
            ),
        ensures
            self.detail_block(viewer, x1, y1, rows, columns, noise).len() == 3 * (rows * columns),
            self.detail_block(viewer, x1, y1, rows, columns, noise) == self.detail_block(
                viewer,
                x1,
                y1,
                rows,
                columns,
                other,
            ),
        decreases rows,
    {
        if rows > 0 {
            let less = (rows - 1) as nat;
            assert(less * columns + columns == rows * columns) by (nonlinear_arith)
                requires
                    less == rows - 1,
            ;
            assert(0 <= less * columns) by (nonlinear_arith);
            let reach = (3 * (rows * columns)) as int;
            let short = (3 * (less * columns)) as int;
            assert(noise.subrange(0, short) =~= noise.subrange(0, reach).subrange(0, short));
            assert(other.subrange(0, short) =~= other.subrange(0, reach).subrange(0, short));
            self.lemma_detail_block(viewer, x1, y1, less, columns, noise, other);
            let gathered = self.detail_block(viewer, x1, y1, less, columns, noise);
            self.lemma_detail_run(
                gathered,
                viewer,
                GameMap::cell_from(x1, y1, rows - 1, 0).0,
                y1,
                columns,
                noise,
                other,
            );
        } else {
            assert(0 * columns == 0) by (nonlinear_arith);
        }
    }

    /// Details that are right so far stay right when three more bytes are
    /// gathered for the next cell: the detail of the cell where the viewer
    /// sees it, and any three bytes where not.
    pub proof fn lemma_detail_step(
        &self,
        gathered: Seq<u8>,
        viewer: Option<Location>,
        x: u8,
        y1: u8,
        columns: nat,
        before: Seq<u8>,
        after: Seq<u8>,
    )
        requires
            before.len() == gathered.len() + 3 * columns,
            before == self.detail_run(gathered, viewer, x, y1, columns, before),
            after.len() == before.len() + 3,
            after.subrange(0, before.len() as int) == before,
            GameMap::sees(viewer, GameMap::cell_from(x, y1, 0, columns as int)) ==> after.subrange(
                before.len() as int,
                before.len() as int + 3,
            ) == self.cell(GameMap::cell_from(x, y1, 0, columns as int)).detail(),
        ensures
            after == self.detail_run(gathered, viewer, x, y1, columns + 1, after),
    {
        assert(before.subrange(0, before.len() as int) =~= before);
        self.lemma_detail_run(gathered, viewer, x, y1, columns, before, after);
        let from = before.len() as int;
        assert(after =~= before + after.subrange(from, from + 3));
    }

    /// Gathers three bytes for one cell: its detail where the viewer sees
    /// it, and three bytes drawn at random where not.
    fn gather_detail(
        &self,
        data: &mut Vec<u8>,
        viewer: Option<Location>,
        at: Location,
        chance: &Chance,
    )
        requires
            self.wf(),
        ensures
            final(data)@.len() == old(data)@.len() + 3,
            final(data)@.subrange(0, old(data)@.len() as int) == old(data)@,
            GameMap::sees(viewer, at) ==> final(data)@.subrange(
                old(data)@.len() as int,
                old(data)@.len() as int + 3,
            ) == self.cell(at).detail(),
    {
        let visible = match viewer {
            Some(from) => chebyshev_distance(from, at) <= 4,
            None => false,
        };
        if visible {
            let detail = self.get_cell(at).status_detail();
            push_bytes(data, detail.as_slice());
        } else {
            data.push(chance.byte());
            data.push(chance.byte());
            data.push(chance.byte());
        }
        proof {
            let from = old(data)@.len() as int;
            assert(data@.subrange(0, from) =~= old(data)@);
            if visible {
                assert(data@.subrange(from, from + 3) =~= self.cell(at).detail());
            }
        }
    }

    /// Reads the details of the rectangle that spans `dx + 1` rows and
    /// `dy + 1` columns from the corner `(x1, y1)` on, as `viewer` sees
    /// them: three bytes for each cell, which are the detail of the cell
    /// where the viewer sees it and three bytes drawn at random where not.
    pub fn read_details(
        &self,
        viewer: Option<Location>,
        x1: u8,
        y1: u8,
        dx: u8,
        dy: u8,
        chance: &Chance,
    ) -> (data: Vec<u8>)
        requires
            self.wf(),
        ensures
            data@ == self.detail_block(viewer, x1, y1, (dx + 1) as nat, (dy + 1) as nat, data@),
            data@.len() == 3 * ((dx + 1) * (dy + 1)),
    {
        let mut data: Vec<u8> = Vec::new();
        let ghost columns = (dy + 1) as nat;
        let mut i: u16 = 0;
        proof {
            assert(0 * columns == 0) by (nonlinear_arith);
        }
        while i <= dx as u16
            invariant
                self.wf(),
                i <= dx + 1,
                columns == dy + 1,
                data@.len() == 3 * (i * columns),
                data@ == self.detail_block(viewer, x1, y1, i as nat, columns, data@),
            decreases dx + 1 - i,
        {
            let x = ((x1 as u16 + i) % 256) as u8;
            let ghost row_start = data@;
            let mut j: u16 = 0;
            assert(data@.subrange(0, row_start.len() as int) =~= row_start);
            while j <= dy as u16
                invariant
                    self.wf(),
                    j <= dy + 1,
                    data@.len() == row_start.len() + 3 * j,
                    data@.subrange(0, row_start.len() as int) == row_start,
                    data@ == self.detail_run(row_start, viewer, x, y1, j as nat, data@),
                decreases dy + 1 - j,
            {
                let y = ((y1 as u16 + j) % 256) as u8;
                let ghost before = data@;
                self.gather_detail(&mut data, viewer, (x, y), chance);
                proof {
                    assert(data@.subrange(0, row_start.len() as int) =~= before.subrange(
                        0,
                        row_start.len() as int,
                    ));
                    self.lemma_detail_step(row_start, viewer, x, y1, j as nat, before, data@);
                }
                j += 1;
            }
            proof {
                assert(i * columns + columns == (i + 1) * columns) by (nonlinear_arith);
                assert(0 <= i * columns) by (nonlinear_arith)
                    requires
                        0 <= i,
                        0 <= columns,
                ;
                assert(row_start.subrange(0, row_start.len() as int) =~= row_start);
                self.lemma_detail_block(viewer, x1, y1, i as nat, columns, row_start, data@);
            }
            i += 1;
        }
        data
    }
}

} // verus!
