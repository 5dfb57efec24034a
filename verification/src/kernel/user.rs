//! A user: the owner of processes, with a wallet and a score.

use crate::game::crypto::{CryptoCurrency, Wallet};
use crate::game::replay::GameEvent;
use vstd::prelude::*;

verus! {

#[derive(Clone, Copy, Debug)]
pub struct User {
    pub uid: u16,
    pub initd_pid: Option<u16>,
    pub score: i64,
    pub num_processes: usize,
    pub wallet: Wallet,
}

/// `value` where it lies between the bounds, else the nearer bound.
pub open spec fn clamped(value: int, low: int, high: int) -> int {
    if value < low {
        low
    } else if value > high {
        high
    } else {
        value
    }
}

/// The cycles that are left of `cycles` once sleep debt has taken its
/// share, which is at most three quarters.
pub open spec fn cycles_after_sleep_debt(cycles: int, sleep: int) -> int {
    cycles - clamped(sleep, 0, cycles * 3 / 4)
}

impl User {
    pub fn compute_sleep_debt(&self, cycles: usize) -> (left: usize)
        ensures
            left == cycles_after_sleep_debt(cycles as int, self.wallet@[1] as int),
            cycles - cycles * 3 / 4 <= left <= cycles,
    {
        let sleep_debt = self.wallet.get_currency(CryptoCurrency::StarSleepShortage);
        let most: u128 = cycles as u128 * 3 / 4;
        let debt: u128 = if sleep_debt < 0 {
            0
        } else if sleep_debt as u128 > most {
            most
        } else {
            sleep_debt as u128
        };
        (cycles as u128 - debt) as usize
    }

    /// Turns the wallet into score: the score grows by what the wallet is
    /// worth, wrapping at 64 bits, and the wallet is left empty. Both are
    /// logged, the wallet first.
    pub fn convert_wallet_to_score(&mut self, log: &mut Vec<GameEvent>)
        ensures
            final(self).uid == old(self).uid,
            final(self).initd_pid == old(self).initd_pid,
            final(self).num_processes == old(self).num_processes,
            final(self).wallet@ == Wallet::holding(0, 0, 0, 0, 0, 0),
            final(self).score == old(self).score.wrapping_add(old(self).wallet.score() as i64),
            final(log)@ == old(log)@.push(
                GameEvent::WalletUpdate { uid: final(self).uid, new_wallet: final(self).wallet },
            ).push(GameEvent::ScoreUpdate { uid: final(self).uid, new_score: final(self).score }),
    {
        let score = self.wallet.convert_to_score();
        self.wallet = Wallet::default();
        self.score = self.score.wrapping_add(score);
        log.push(GameEvent::WalletUpdate { uid: self.uid, new_wallet: self.wallet });
        log.push(GameEvent::ScoreUpdate { uid: self.uid, new_score: self.score });
    }
}

} // verus!
