//! The events of a game, as values. Whoever runs the engine decides where
//! they go.

use crate::game::crypto::Wallet;
use crate::game::map::Location;
use vstd::prelude::*;

verus! {

/// Something that happened in the game and that an onlooker can see.
#[derive(Debug)]
pub enum GameEvent {
    InitMap { map_data: Vec<u8>, map_height: usize, map_width: usize },
    Move { pid: u16, location: Location },
    Attack { attacker_pid: u16, defender_pid: u16 },
    NewProcess { uid: u16, ppid: Option<u16>, pid: u16, location: Location },
    Renice { pid: u16, new_nice: u16 },
    Kill { pid: u16 },
    Detach { pid: u16 },
    NewChallenge { challenge_type: &'static str, difficulty: u16, location: Location },
    ChallengeSolved { pid: u16, location: Location },
    ScoreUpdate { uid: u16, new_score: i64 },
    WalletUpdate { uid: u16, new_wallet: Wallet },
}

/// Appends an event to a log.
pub fn log_event(log: &mut Vec<GameEvent>, event: GameEvent)
    ensures
        final(log)@ == old(log)@.push(event),
{
    log.push(event);
}

} // verus!
