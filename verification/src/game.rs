use vstd::prelude::*;
use crate::player::{Player, PlayerData};

verus! {

/// A pair of words announcing a future randomness commitment.
#[derive(Clone, Copy, Debug, PartialEq, Eq)]
pub struct CommitmentInfo(pub [u64; 2]);

impl CommitmentInfo {
    pub fn new(c0: u64, c1: u64) -> (r: Self)
        ensures
            r.0[0] == c0 && r.0[1] == c1,
    {
        CommitmentInfo([c0, c1])
    }
}

/// Which outcome policy settles in-flight games. Exactly one is active at a
/// time; the dispatcher and the game lifecycle are shared by both.
#[derive(Clone, Copy, Debug, PartialEq, Eq, Structural)]
pub enum OutcomePolicy {
    /// One-tick-delayed feedback: each settlement resolves the effect packed
    /// into the account's `previous` field and records a new pending effect.
    FightAttrition,
    /// Player roll against house roll, both drawn from the game's final
    /// randomness; a win credits double the stake.
    DiceVsHouse,
}

/// One in-flight wager: created at placement, settled at most once by the
/// next tick, then discarded.
#[derive(Clone, Copy, Debug, PartialEq, Eq)]
pub struct Game {
    pub player: [u64; 2],
    pub bet: u64,
    pub rand: u64,
    pub result: Option<[u32; 2]>,
}

/// The account record after one attrition settlement with packed info `info`.
/// The `previous` tag decides this tick's effect: a fight tag applies chip
/// damage to `power` (floored at zero) when the account was idle and halves
/// `balance` when it was wagering; any other tag credits a reward byte to
/// `balance` when idle and to `power` when wagering. The new `previous` is
/// `info` masked to 33 bits and `placed` is cleared. `None` marks a 64-bit
/// overflow of a credit, which no settlement is allowed to wrap through.
pub open spec fn attrition_update(d: PlayerData, info: u64) -> Option<PlayerData> {
    if d.previous >> 32 == 1 {
        if d.placed == 0 {
            let damage = d.previous & 0xff;
            Some(
                PlayerData {
                    balance: d.balance,
                    power: if d.power > damage {
                        (d.power - damage) as u64
                    } else {
                        0
                    },
                    placed: 0,
                    previous: info & 0x1ffffffff,
                },
            )
        } else {
            Some(
                PlayerData {
                    balance: d.balance / 2,
                    power: d.power,
                    placed: 0,
                    previous: info & 0x1ffffffff,
                },
            )
        }
    } else {
        if d.placed == 0 {
            let reward = (d.previous >> 8) & 0xff;
            if d.balance + reward <= u64::MAX {
                Some(
                    PlayerData {
                        balance: (d.balance + reward) as u64,
                        power: d.power,
                        placed: 0,
                        previous: info & 0x1ffffffff,
                    },
                )
            } else {
                None
            }
        } else {
            let reward = d.previous & 0xff;
            if d.power + reward <= u64::MAX {
                Some(
                    PlayerData {
                        balance: d.balance,
                        power: (d.power + reward) as u64,
                        placed: 0,
                        previous: info & 0x1ffffffff,
                    },
                )
            } else {
                None
            }
        }
    }
}

/// The player's roll under the dice policy.
pub open spec fn player_roll(info: u64) -> u64 {
    info % 6
}

/// The house's roll under the dice policy.
pub open spec fn house_roll(info: u64) -> u64 {
    (info >> 8) % 6
}

/// The account record after one dice settlement with final randomness `info`:
/// a win (player roll at least the house roll) credits double the stake; in
/// every outcome `previous` is overwritten with the raw `info` and `placed`
/// is cleared. `None` marks a 64-bit overflow of the credit.
pub open spec fn dice_update(d: PlayerData, bet: u64, info: u64) -> Option<PlayerData> {
    if player_roll(info) >= house_roll(info) {
        if d.balance + 2 * bet <= u64::MAX {
            Some(
                PlayerData {
                    balance: (d.balance + 2 * bet) as u64,
                    power: d.power,
                    placed: 0,
                    previous: info,
                },
            )
        } else {
            None
        }
    } else {
        Some(PlayerData { balance: d.balance, power: d.power, placed: 0, previous: info })
    }
}

/// The account record after one settlement under the active policy.
pub open spec fn settle_update(policy: OutcomePolicy, d: PlayerData, bet: u64, info: u64) -> Option<
    PlayerData,
> {
    match policy {
        OutcomePolicy::FightAttrition => attrition_update(d, info),
        OutcomePolicy::DiceVsHouse => dice_update(d, bet, info),
    }
}

impl Game {
    /// Opens a wager for the placing account, carrying the per-placement
    /// entropy that will be combined with the tick's revealed randomness.
    pub fn new(player: &Player, bet: u64, rand: u64) -> (r: Self)
        ensures
            r == (Game { player: player.player_id.0, bet, rand, result: None }),
    {
        Game { player: player.player_id.0, rand, bet, result: None }
    }

    /// Settles this game against its account with final randomness `info`.
    /// On success the account record becomes `settle_update(..)` and, under
    /// the dice policy, the two rolls are recorded; on overflow nothing is
    /// touched and the caller must abort the whole transaction.
    pub fn settle(&mut self, player: &mut Player, info: u64, policy: OutcomePolicy) -> (ok: bool)
        ensures
            ok == settle_update(policy, old(player).data, old(self).bet, info) is Some,
            final(player).player_id == old(player).player_id,
            match settle_update(policy, old(player).data, old(self).bet, info) {
                Some(d) => final(player).data == d,
                None => *final(player) == *old(player),
            },
            final(self).player == old(self).player,
            final(self).bet == old(self).bet,
            final(self).rand == old(self).rand,
            !ok ==> *final(self) == *old(self),
            policy == OutcomePolicy::FightAttrition ==> final(self).result == old(self).result,
            policy == OutcomePolicy::DiceVsHouse && ok ==> final(self).result == Some(
                [player_roll(info) as u32, house_roll(info) as u32],
            ),
    {
        match policy {
            OutcomePolicy::FightAttrition => {
                if player.data.previous >> 32 == 1 {
                    if player.data.placed == 0 {
                        let damage = player.data.previous & 0xff;
                        if player.data.power > damage {
                            player.data.power = player.data.power - damage;
                        } else {
                            player.data.power = 0;
                        }
                    } else {
                        player.data.balance = player.data.balance / 2;
                    }
                } else {
                    if player.data.placed == 0 {
                        let reward = (player.data.previous >> 8) & 0xff;
                        match player.data.balance.checked_add(reward) {
                            Some(b) => {
                                player.data.balance = b;
                            },
                            None => {
                                return false;
                            },
                        }
                    } else {
                        let reward = player.data.previous & 0xff;
                        match player.data.power.checked_add(reward) {
                            Some(p) => {
                                player.data.power = p;
                            },
                            None => {
                                return false;
                            },
                        }
                    }
                }
                player.data.previous = info & 0x1ffffffff;
                player.data.placed = 0;
                true
            },
            OutcomePolicy::DiceVsHouse => {
                let p_roll = (info % 6) as u32;
                let h_roll = ((info >> 8) % 6) as u32;
                if p_roll >= h_roll {
                    let doubled = match self.bet.checked_mul(2) {
                        Some(doubled) => doubled,
                        None => {
                            return false;
                        },
                    };
                    match player.data.balance.checked_add(doubled) {
                        Some(b) => {
                            player.data.balance = b;
                        },
                        None => {
                            return false;
                        },
                    }
                }
                self.result = Some([p_roll, h_roll]);
                player.data.previous = info;
                player.data.placed = 0;
                true
            },
        }
    }
}

} // verus!
