use vstd::prelude::*;
use crate::game::{Game, OutcomePolicy, settle_update};
use crate::player::{Player, PlayerData, PlayerInfo, first_match, pid_eq, find_player,
    lemma_first_match};

verus! {

// Command tags, in the low 32 bits of the first transaction word.
pub const TIMETICK: u32 = 0;
pub const WITHDRAW: u32 = 1;
pub const REGISTER: u32 = 2;
pub const RESURRECT: u32 = 3;
pub const PLACE: u32 = 4;

// Status codes surfaced to the caller; zero means success.
pub const NO_ERROR: u32 = 0;
pub const ERROR_PLAYER_NOT_FOUND: u32 = 1;
pub const PLAYER_IN_GAME: u32 = 2;
pub const INVALID_PLACE: u32 = 3;
pub const ERROR_PLAYER_ALREADY_ACTIVITED: u32 = 4;
pub const PLAYER_IS_DEAD: u32 = 5;

/// A broken invariant or a violated constraint. A transaction that ends here
/// must be discarded whole, together with the batch that carried it; the
/// engine leaves the state exactly as it was.
#[derive(Clone, Copy, Debug, PartialEq, Eq, Structural)]
pub enum Fatal {
    /// The revealed randomness does not match the pending commitment.
    CommitmentMismatch,
    /// A withdrawal asked for more than the account holds.
    BalanceConstraint,
    /// A settling game references an identity no account resolves.
    GamePlayerMissing,
    /// A credit would wrap a 64-bit counter.
    Overflow,
}

/// A decoded transaction: a command tag and three opaque payload words.
#[derive(Clone, Copy, Debug)]
pub struct Transaction {
    pub command: u32,
    pub data: [u64; 3],
}

/// Check seed derived from a revealed random word: the last eight bytes of
/// the SHA-256 digest of its little-endian encoding, read as a big-endian
/// integer. The digest itself is left unstated; it depends on the revealed
/// word alone.
pub uninterp spec fn sha256_checkseed(rand: u64) -> u64;

/// Relies on sha2::Sha256 (through digest::Digest::digest): the digest is a
/// pure function of the input bytes alone, so the derived seed is a pure
/// function of the revealed word.
#[verifier::external_body]
fn tick_checkseed(rand: u64) -> (r: u64)
    ensures
        r == sha256_checkseed(rand),
{
    let v = <sha2::Sha256 as sha2::Digest>::digest(rand.to_le_bytes());
    u64::from_be_bytes(v[24..32].try_into().unwrap())
}

/// Packs an activity tag and a payload value into one `previous` word.
pub open spec fn spec_encode_activity(act: u64, value: u64) -> u64 {
    ((act << 32) + value) as u64
}

/// Packs an activity tag and a payload value into one `previous` word.
pub fn encode_activity(act: usize, value: u32) -> (r: u64)
    requires
        act <= 0xffffffff,
    ensures
        r == spec_encode_activity(act as u64, value as u64),
{
    proof {
        assert((act as u64) << 32 <= 0xffffffff00000000u64 && ((act as u64) << 32) & 0xffffffffu64
            == 0) by (bit_vector)
            requires
                act as u64 <= 0xffffffffu64,
        ;
    }
    ((act as u64) << 32) + (value as u64)
}

/// Index of the first in-flight game owned by the given identity, if any.
pub open spec fn game_for(games: Seq<Game>, pid: [u64; 2]) -> Option<int>
    decreases games.len(),
{
    if games.len() == 0 {
        None
    } else if pid_eq(games[0].player, pid) {
        Some(0int)
    } else {
        match game_for(games.skip(1), pid) {
            None => None,
            Some(i) => Some(i + 1),
        }
    }
}

/// `game_for` returns the least owning index, and `None` exactly when no
/// in-flight game is owned by the identity.
pub proof fn lemma_game_for(games: Seq<Game>, pid: [u64; 2])
    ensures
        match game_for(games, pid) {
            None => forall|k: int|
                0 <= k < games.len() ==> !pid_eq(#[trigger] games[k].player, pid),
            Some(i) => 0 <= i < games.len() && pid_eq(games[i].player, pid) && forall|k: int|
                0 <= k < i ==> !pid_eq(#[trigger] games[k].player, pid),
        },
    decreases games.len(),
{
    if games.len() != 0 && !pid_eq(games[0].player, pid) {
        let rest = games.skip(1);
        lemma_game_for(rest, pid);
        assert forall|k: int| 0 <= k < rest.len() implies rest[k] == games[k + 1] by {}
        match game_for(rest, pid) {
            None => {
                assert forall|k: int|
                    0 <= k < games.len() implies !pid_eq(#[trigger] games[k].player, pid) by {
                    if k >= 1 {
                        assert(games[k] == rest[k - 1]);
                    }
                }
            },
            Some(i) => {
                assert(games[i + 1] == rest[i]);
                assert forall|k: int|
                    0 <= k < i + 1 implies !pid_eq(#[trigger] games[k].player, pid) by {
                    if k >= 1 {
                        assert(games[k] == rest[k - 1]);
                    }
                }
            },
        }
    }
}

/// The mathematical image of the whole engine state.
#[verifier::ext_equal]
pub ghost struct StateView {
    pub policy: OutcomePolicy,
    pub rand_commitment: u64,
    pub counter: u64,
    pub games: Seq<Game>,
    pub players: Seq<Player>,
    pub settlements: Seq<[u64; 3]>,
}

impl StateView {
    /// Well-formedness, held by every reachable state: account identities are
    /// unique; at most one in-flight game per identity; every in-flight game
    /// names a registered account and carries a nonzero stake; and an account
    /// is marked `placed` exactly while an in-flight game is owned by it.
    pub open spec fn wf(self) -> bool {
        &&& forall|i: int, j: int|
            0 <= i < j < self.players.len() ==> !pid_eq(
                #[trigger] self.players[i].player_id.0,
                #[trigger] self.players[j].player_id.0,
            )
        &&& forall|i: int, j: int|
            0 <= i < j < self.games.len() ==> !pid_eq(
                #[trigger] self.games[i].player,
                #[trigger] self.games[j].player,
            )
        &&& forall|j: int|
            0 <= j < self.games.len() ==> (#[trigger] self.games[j]).bet != 0 && first_match(
                self.players,
                self.games[j].player,
            ) is Some
        &&& forall|i: int|
            0 <= i < self.players.len() ==> ((#[trigger] self.players[i]).data.placed != 0
                <==> game_for(self.games, self.players[i].player_id.0) is Some)
    }
}

/// The authoritative engine state: the active policy, the randomness
/// commitment, the tick counter, the in-flight games in placement order, the
/// player ledger in registration order, and the pending withdrawal queue in
/// submission order.
#[derive(Clone, Debug, PartialEq, Eq)]
pub struct State {
    pub policy: OutcomePolicy,
    pub rand_commitment: u64,
    pub counter: u64,
    pub games: Vec<Game>,
    pub players: Vec<Player>,
    pub settlements: Vec<[u64; 3]>,
}

impl View for State {
    type V = StateView;

    open spec fn view(&self) -> StateView {
        StateView {
            policy: self.policy,
            rand_commitment: self.rand_commitment,
            counter: self.counter,
            games: self.games@,
            players: self.players@,
            settlements: self.settlements@,
        }
    }
}

/// The state after a REGISTER for the identity in the first two payload
/// words: an existing account is reported and left untouched; otherwise a
/// fresh account is appended with the fixed starting power and a seeded
/// `previous` word.
pub open spec fn register_apply(s: StateView, data: [u64; 3]) -> (StateView, Result<u32, Fatal>) {
    let pid = [data[0], data[1]];
    if first_match(s.players, pid) is Some {
        (s, Ok(ERROR_PLAYER_ALREADY_ACTIVITED))
    } else {
        let p = Player {
            player_id: PlayerInfo([data[0], data[1]]),
            data: PlayerData {
                balance: 0,
                power: 1000,
                placed: 0,
                previous: spec_encode_activity(1, 20),
            },
        };
        (
            StateView {
                policy: s.policy,
                rand_commitment: s.rand_commitment,
                counter: s.counter,
                games: s.games,
                players: s.players.push(p),
                settlements: s.settlements,
            },
            Ok(NO_ERROR),
        )
    }
}

/// The state after a RESURRECT for the identity in the first two payload
/// words: a missing account is reported; otherwise the balance is halved,
/// the power is restored by the fixed starting amount (a wrap of that credit
/// is fatal) and `previous` is reseeded.
pub open spec fn resurrect_apply(s: StateView, data: [u64; 3]) -> (StateView, Result<u32, Fatal>) {
    let pid = [data[0], data[1]];
    match first_match(s.players, pid) {
        None => (s, Ok(ERROR_PLAYER_NOT_FOUND)),
        Some(i) => {
            let p = s.players[i];
            if p.data.power + 1000 <= u64::MAX {
                let p2 = Player {
                    player_id: p.player_id,
                    data: PlayerData {
                        balance: p.data.balance / 2,
                        power: (p.data.power + 1000) as u64,
                        placed: p.data.placed,
                        previous: spec_encode_activity(1, 20),
                    },
                };
                (
                    StateView {
                        policy: s.policy,
                        rand_commitment: s.rand_commitment,
                        counter: s.counter,
                        games: s.games,
                        players: s.players.update(i, p2),
                        settlements: s.settlements,
                    },
                    Ok(NO_ERROR),
                )
            } else {
                (s, Err(Fatal::Overflow))
            }
        },
    }
}

/// The state after a WITHDRAW by the account keyed by `pkey`: a missing
/// account is reported; asking for more than the balance is fatal; otherwise
/// the three payload words join the settlement queue and the low 32 bits of
/// the first one are debited from the balance.
pub open spec fn withdraw_apply(s: StateView, data: [u64; 3], pkey: [u64; 4]) -> (
    StateView,
    Result<u32, Fatal>,
) {
    let pid = [pkey[1], pkey[2]];
    match first_match(s.players, pid) {
        None => (s, Ok(ERROR_PLAYER_NOT_FOUND)),
        Some(i) => {
            let p = s.players[i];
            let amount = data[0] & 0xffffffff;
            if p.data.balance >= amount {
                let p2 = Player {
                    player_id: p.player_id,
                    data: PlayerData {
                        balance: (p.data.balance - amount) as u64,
                        power: p.data.power,
                        placed: p.data.placed,
                        previous: p.data.previous,
                    },
                };
                (
                    StateView {
                        policy: s.policy,
                        rand_commitment: s.rand_commitment,
                        counter: s.counter,
                        games: s.games,
                        players: s.players.update(i, p2),
                        settlements: s.settlements.push(data),
                    },
                    Ok(NO_ERROR),
                )
            } else {
                (s, Err(Fatal::BalanceConstraint))
            }
        },
    }
}

/// The state after a PLACE of stake `place` by the account keyed by `pkey`,
/// with per-placement entropy `rand`: the account must exist, be idle and
/// stake a nonzero amount; the attrition policy further demands nonzero
/// power, the dice policy a balance covering the stake, which it debits. On
/// success a game joins the in-flight list and the account is marked placed.
pub open spec fn place_apply(s: StateView, place: u64, pkey: [u64; 4], rand: u64) -> (
    StateView,
    Result<u32, Fatal>,
) {
    let pid = [pkey[1], pkey[2]];
    match first_match(s.players, pid) {
        None => (s, Ok(ERROR_PLAYER_NOT_FOUND)),
        Some(i) => {
            let p = s.players[i];
            if p.data.placed != 0 {
                (s, Ok(PLAYER_IN_GAME))
            } else if place == 0 {
                (s, Ok(INVALID_PLACE))
            } else if s.policy == OutcomePolicy::FightAttrition && p.data.power == 0 {
                (s, Ok(PLAYER_IS_DEAD))
            } else if s.policy == OutcomePolicy::DiceVsHouse && p.data.balance < place {
                (s, Ok(INVALID_PLACE))
            } else {
                let balance2 = if s.policy == OutcomePolicy::DiceVsHouse {
                    (p.data.balance - place) as u64
                } else {
                    p.data.balance
                };
                let p2 = Player {
                    player_id: p.player_id,
                    data: PlayerData {
                        balance: balance2,
                        power: p.data.power,
                        placed: place,
                        previous: p.data.previous,
                    },
                };
                let g = Game { player: pid, bet: place, rand, result: None };
                (
                    StateView {
                        policy: s.policy,
                        rand_commitment: s.rand_commitment,
                        counter: s.counter,
                        games: s.games.push(g),
                        players: s.players.update(i, p2),
                        settlements: s.settlements,
                    },
                    Ok(NO_ERROR),
                )
            }
        },
    }
}

/// The ledger after settling every game in list order with the tick's
/// revealed randomness: each game's account record becomes `settle_update`
/// of the old one under the game's final randomness. A game whose identity
/// no account resolves, or a credit that would wrap, is fatal.
pub open spec fn settle_players(
    players: Seq<Player>,
    games: Seq<Game>,
    rand: u64,
    policy: OutcomePolicy,
) -> Result<Seq<Player>, Fatal>
    decreases games.len(),
{
    if games.len() == 0 {
        Ok(players)
    } else {
        let g = games[0];
        match first_match(players, g.player) {
            None => Err(Fatal::GamePlayerMissing),
            Some(i) => match settle_update(policy, players[i].data, g.bet, g.rand ^ rand) {
                None => Err(Fatal::Overflow),
                Some(d) => settle_players(
                    players.update(i, Player { player_id: players[i].player_id, data: d }),
                    games.skip(1),
                    rand,
                    policy,
                ),
            },
        }
    }
}

/// The state after a TICK revealing `data[0]` and committing to `data[1]`:
/// with a commitment pending, a revealed word whose check seed differs from
/// it is fatal and nothing moves; otherwise the counter advances, the
/// commitment rotates, every in-flight game settles and the list empties.
pub open spec fn tick_apply(s: StateView, data: [u64; 3]) -> (StateView, Result<u32, Fatal>) {
    let rand = data[0];
    if s.rand_commitment != 0 && sha256_checkseed(rand) != s.rand_commitment {
        (s, Err(Fatal::CommitmentMismatch))
    } else if s.counter == u64::MAX {
        (s, Err(Fatal::Overflow))
    } else {
        match settle_players(s.players, s.games, rand, s.policy) {
            Err(f) => (s, Err(f)),
            Ok(ps) => (
                StateView {
                    policy: s.policy,
                    rand_commitment: data[1],
                    counter: (s.counter + 1) as u64,
                    games: Seq::empty(),
                    players: ps,
                    settlements: s.settlements,
                },
                Ok(NO_ERROR),
            ),
        }
    }
}

/// The state transition of one decoded transaction: dispatch on the command
/// tag to exactly one of the handlers above.
pub open spec fn tx_apply(
    s: StateView,
    command: u32,
    data: [u64; 3],
    pkey: [u64; 4],
    sigr: [u64; 4],
) -> (StateView, Result<u32, Fatal>) {
    if command == TIMETICK {
        tick_apply(s, data)
    } else if command == WITHDRAW {
        withdraw_apply(s, data, pkey)
    } else if command == REGISTER {
        register_apply(s, data)
    } else if command == RESURRECT {
        resurrect_apply(s, data)
    } else {
        place_apply(s, data[0], pkey, sigr[0] ^ sigr[1] ^ sigr[2] ^ sigr[3])
    }
}

impl Transaction {
    /// The textual name of a status code.
    pub fn decode_error(e: u32) -> (r: &'static str)
        ensures
            e == ERROR_PLAYER_NOT_FOUND ==> r@ == "PlayerNotFound"@,
            e == PLAYER_IN_GAME ==> r@ == "PlayerIsInAnotherGame"@,
            e == INVALID_PLACE ==> r@ == "InvalidBetNumber"@,
            e == ERROR_PLAYER_ALREADY_ACTIVITED ==> r@ == "PlayerAlreadyExists"@,
            e == PLAYER_IS_DEAD ==> r@ == "PlayerIsDead"@,
            e == NO_ERROR || e > PLAYER_IS_DEAD ==> r@ == "Unknown"@,
    {
        match e {
            ERROR_PLAYER_NOT_FOUND => "PlayerNotFound",
            PLAYER_IN_GAME => "PlayerIsInAnotherGame",
            INVALID_PLACE => "InvalidBetNumber",
            ERROR_PLAYER_ALREADY_ACTIVITED => "PlayerAlreadyExists",
            PLAYER_IS_DEAD => "PlayerIsDead",
            _ => "Unknown",
        }
    }

    /// Splits a four-word wire tuple into the command tag (low 32 bits of the
    /// first word) and the three payload words.
    pub fn decode(params: [u64; 4]) -> (r: Self)
        ensures
            r.command == (params[0] & 0xffffffff) as u32,
            r.data[0] == params[1] && r.data[1] == params[2] && r.data[2] == params[3],
    {
        let command = (params[0] & 0xffffffff) as u32;
        Transaction { command, data: [params[1], params[2], params[3]] }
    }

    /// Creates the acting identity's account, or reports that it exists.
    pub fn register(&self, state: &mut State) -> (r: u32)
        ensures
            final(state)@ == register_apply(old(state)@, self.data).0,
            register_apply(old(state)@, self.data).1 == Ok::<u32, Fatal>(r),
    {
        let ghost s0 = *state;
        let pid = [self.data[0], self.data[1]];
        match find_player(&state.players, &pid) {
            Some(_) => ERROR_PLAYER_ALREADY_ACTIVITED,
            None => {
                let player = Player {
                    player_id: PlayerInfo::from_raw(self.data[0], self.data[1]),
                    data: PlayerData {
                        balance: 0,
                        power: 1000,
                        placed: 0,
                        previous: encode_activity(1, 20),
                    },
                };
                state.players.push(player);
                proof {
                    assert(state@ =~= register_apply(s0@, self.data).0);
                }
                NO_ERROR
            },
        }
    }

    /// Halves the acting account's balance and restores its power; reports a
    /// missing account; a wrap of the power credit is fatal.
    pub fn resurrect(&self, state: &mut State) -> (r: Result<u32, Fatal>)
        ensures
            final(state)@ == resurrect_apply(old(state)@, self.data).0,
            resurrect_apply(old(state)@, self.data).1 == r,
    {
        let ghost s0 = *state;
        let pid = [self.data[0], self.data[1]];
        match find_player(&state.players, &pid) {
            None => Ok(ERROR_PLAYER_NOT_FOUND),
            Some(i) => {
                proof {
                    lemma_first_match(state.players@, pid);
                }
                let p = state.players[i];
                match p.data.power.checked_add(1000) {
                    None => Err(Fatal::Overflow),
                    Some(power2) => {
                        state.players[i] = Player {
                            player_id: p.player_id,
                            data: PlayerData {
                                balance: p.data.balance / 2,
                                power: power2,
                                placed: p.data.placed,
                                previous: encode_activity(1, 20),
                            },
                        };
                        proof {
                            assert(state@ =~= resurrect_apply(s0@, self.data).0);
                        }
                        Ok(NO_ERROR)
                    },
                }
            },
        }
    }

    /// Queues a withdrawal of the low 32 bits of the first payload word and
    /// debits it from the account keyed by `pkey`; reports a missing account;
    /// asking for more than the balance is fatal and moves nothing.
    pub fn withdraw(&self, state: &mut State, pkey: &[u64; 4]) -> (r: Result<u32, Fatal>)
        ensures
            final(state)@ == withdraw_apply(old(state)@, self.data, *pkey).0,
            withdraw_apply(old(state)@, self.data, *pkey).1 == r,
    {
        let ghost s0 = *state;
        let pid = [pkey[1], pkey[2]];
        match find_player(&state.players, &pid) {
            None => Ok(ERROR_PLAYER_NOT_FOUND),
            Some(i) => {
                proof {
                    lemma_first_match(state.players@, pid);
                }
                let p = state.players[i];
                let amount = self.data[0] & 0xffffffff;
                if p.data.balance >= amount {
                    state.settlements.push(self.data);
                    state.players[i] = Player {
                        player_id: p.player_id,
                        data: PlayerData {
                            balance: p.data.balance - amount,
                            power: p.data.power,
                            placed: p.data.placed,
                            previous: p.data.previous,
                        },
                    };
                    proof {
                        assert(state@ =~= withdraw_apply(s0@, self.data, *pkey).0);
                    }
                    Ok(NO_ERROR)
                } else {
                    Err(Fatal::BalanceConstraint)
                }
            },
        }
    }

    /// Opens a wager of stake `place` for the account keyed by `pkey`, with
    /// per-placement entropy `rand`: the account must exist, be idle and
    /// stake a nonzero amount the active policy lets it support.
    pub fn place(&self, state: &mut State, place: u64, pkey: &[u64; 4], rand: u64) -> (r: u32)
        ensures
            final(state)@ == place_apply(old(state)@, place, *pkey, rand).0,
            place_apply(old(state)@, place, *pkey, rand).1 == Ok::<u32, Fatal>(r),
    {
        let ghost s0 = *state;
        let pid = [pkey[1], pkey[2]];
        match find_player(&state.players, &pid) {
            None => ERROR_PLAYER_NOT_FOUND,
            Some(i) => {
                proof {
                    lemma_first_match(state.players@, pid);
                }
                let p = state.players[i];
                if p.data.placed != 0 {
                    return PLAYER_IN_GAME;
                }
                if place == 0 {
                    return INVALID_PLACE;
                }
                let balance2 = match state.policy {
                    OutcomePolicy::FightAttrition => {
                        if p.data.power == 0 {
                            return PLAYER_IS_DEAD;
                        }
                        p.data.balance
                    },
                    OutcomePolicy::DiceVsHouse => {
                        if p.data.balance < place {
                            return INVALID_PLACE;
                        }
                        p.data.balance - place
                    },
                };
                let game = Game { player: pid, bet: place, rand, result: None };
                state.games.push(game);
                state.players[i] = Player {
                    player_id: p.player_id,
                    data: PlayerData {
                        balance: balance2,
                        power: p.data.power,
                        placed: place,
                        previous: p.data.previous,
                    },
                };
                proof {
                    assert(state@ =~= place_apply(s0@, place, *pkey, rand).0);
                }
                NO_ERROR
            },
        }
    }

    /// Applies one decoded transaction to the state, dispatching on the
    /// command tag. The caller must never present an unrecognized tag. A
    /// recoverable precondition failure comes back as a nonzero status with
    /// the state untouched; a fatal outcome comes back as an error with the
    /// state untouched, and the caller must discard the whole batch.
    pub fn process(&self, state: &mut State, pid: &[u64; 4], sigr: &[u64; 4]) -> (r: Result<
        u32,
        Fatal,
    >)
        requires
            valid_command(self.command),
        ensures
            final(state)@ == tx_apply(old(state)@, self.command, self.data, *pid, *sigr).0,
            tx_apply(old(state)@, self.command, self.data, *pid, *sigr).1 == r,
    {
        let ghost s0 = *state;
        if self.command == TIMETICK {
            let rand = self.data[0];
            let checkseed = tick_checkseed(rand);
            if state.rand_commitment != 0 && state.rand_commitment != checkseed {
                return Err(Fatal::CommitmentMismatch);
            }
            let counter2 = match state.counter.checked_add(1) {
                Some(c) => c,
                None => {
                    return Err(Fatal::Overflow);
                },
            };
            match state.settle(rand) {
                Err(f) => Err(f),
                Ok(()) => {
                    state.counter = counter2;
                    state.rand_commitment = self.data[1];
                    proof {
                        assert(state@ =~= tick_apply(s0@, self.data).0);
                    }
                    Ok(NO_ERROR)
                },
            }
        } else if self.command == WITHDRAW {
            self.withdraw(state, pid)
        } else if self.command == REGISTER {
            Ok(self.register(state))
        } else if self.command == RESURRECT {
            self.resurrect(state)
        } else {
            let rand = sigr[0] ^ sigr[1] ^ sigr[2] ^ sigr[3];
            Ok(self.place(state, self.data[0], pid, rand))
        }
    }
}

/// The five command tags the dispatcher accepts.
pub open spec fn valid_command(c: u32) -> bool {
    c == TIMETICK || c == WITHDRAW || c == REGISTER || c == RESURRECT || c == PLACE
}

impl State {
    /// A fresh engine state under the given policy: no commitment pending,
    /// counter at zero, no accounts, games or queued withdrawals.
    pub fn new(policy: OutcomePolicy) -> (r: State)
        ensures
            r@ == (StateView {
                policy,
                rand_commitment: 0,
                counter: 0,
                games: Seq::empty(),
                players: Seq::empty(),
                settlements: Seq::empty(),
            }),
            r@.wf(),
    {
        let r = State {
            policy,
            rand_commitment: 0,
            counter: 0,
            games: Vec::new(),
            players: Vec::new(),
            settlements: Vec::new(),
        };
        proof {
            assert(r@ =~= (StateView {
                policy,
                rand_commitment: 0,
                counter: 0,
                games: Seq::empty(),
                players: Seq::empty(),
                settlements: Seq::empty(),
            }));
        }
        r
    }

    /// Hydrates the global words from a stored record: an empty record keeps
    /// the defaults; otherwise the record holds the commitment word and then
    /// the counter word.
    pub fn initialize(&mut self, data: &Vec<u64>)
        requires
            data@.len() == 0 || data@.len() >= 2,
        ensures
            data@.len() == 0 ==> *final(self) == *old(self),
            data@.len() >= 2 ==> final(self)@ == (StateView {
                rand_commitment: data@[0],
                counter: data@[1],
                ..old(self)@
            }),
    {
        if !data.is_empty() {
            self.rand_commitment = data[0];
            self.counter = data[1];
        }
    }

    /// The stored record of the global words: the commitment, then the
    /// counter. Persisting it under the reserved global key and flushing the
    /// settlement queue belong to the same logical step.
    pub fn store(&self) -> (v: Vec<u64>)
        ensures
            v@ == seq![self.rand_commitment, self.counter],
    {
        let mut v: Vec<u64> = Vec::with_capacity(2);
        v.push(self.rand_commitment);
        v.push(self.counter);
        proof {
            assert(v@ =~= seq![self.rand_commitment, self.counter]);
        }
        v
    }

    /// True on the ticks at which the host takes a snapshot.
    pub fn preempt(&self) -> (r: bool)
        ensures
            r == (self.counter % 100 == 0),
    {
        self.counter % 100 == 0
    }

    /// The most recently accepted randomness commitment; zero means none.
    pub fn rand_seed(&self) -> (r: u64)
        ensures
            r == self.rand_commitment,
    {
        self.rand_commitment
    }

    /// Appends a freshly placed game to the in-flight list.
    pub fn new_game(&mut self, game: Game)
        ensures
            final(self)@ == (StateView { games: old(self)@.games.push(game), ..old(self)@ }),
    {
        self.games.push(game);
        proof {
            assert(self@ =~= (StateView { games: old(self)@.games.push(game), ..old(self)@ }));
        }
    }

    /// Drains the settlement queue, handing every queued withdrawal out in
    /// submission order; the queue is empty afterwards. The caller serializes
    /// the batch for the external finalization layer and persists the rest
    /// of the state in the same logical step.
    pub fn flush_settlement(&mut self) -> (batch: Vec<[u64; 3]>)
        ensures
            batch@ == old(self)@.settlements,
            final(self)@ == (StateView { settlements: Seq::empty(), ..old(self)@ }),
    {
        let mut batch: Vec<[u64; 3]> = Vec::new();
        std::mem::swap(&mut batch, &mut self.settlements);
        proof {
            assert(self@ =~= (StateView { settlements: Seq::empty(), ..old(self)@ }));
        }
        batch
    }

    /// Settles every in-flight game in list order against the tick's
    /// revealed randomness and empties the list. On a fatal outcome — a game
    /// whose identity no account resolves, or a credit that would wrap —
    /// nothing at all is touched.
    #[verifier::loop_isolation(false)]
    pub fn settle(&mut self, rand: u64) -> (r: Result<(), Fatal>)
        ensures
            match settle_players(old(self)@.players, old(self)@.games, rand, old(self)@.policy) {
                Ok(ps) => r is Ok && final(self)@ == (StateView {
                    games: Seq::empty(),
                    players: ps,
                    ..old(self)@
                }),
                Err(f) => r == Err::<(), Fatal>(f) && *final(self) == *old(self),
            },
    {
        let ghost s0 = *self;
        let policy = self.policy;
        let mut new_players: Vec<Player> = Vec::new();
        let n = self.players.len();
        for i in 0..n
            invariant
                n == self.players@.len(),
                *self == s0,
                new_players@ == self.players@.subrange(0, i as int),
        {
            new_players.push(self.players[i]);
            proof {
                assert(new_players@ =~= self.players@.subrange(0, i as int + 1));
            }
        }
        proof {
            assert(new_players@ =~= s0.players@);
        }
        let ghost gs = s0.games@;
        let m = self.games.len();
        proof {
            assert(gs.skip(0) =~= gs);
        }
        for j in 0..m
            invariant
                m == gs.len(),
                *self == s0,
                policy == s0.policy,
                settle_players(new_players@, gs.skip(j as int), rand, policy) == settle_players(
                    s0@.players,
                    gs,
                    rand,
                    s0@.policy,
                ),
        {
            let ghost np0 = new_players@;
            let ghost tail = gs.skip(j as int);
            proof {
                assert(tail.len() == m - j);
                assert(tail[0] == gs[j as int]);
            }
            let g = self.games[j];
            let info = g.rand ^ rand;
            match find_player(&new_players, &g.player) {
                None => {
                    proof {
                        assert(settle_players(np0, tail, rand, policy) == Err::<Seq<Player>, Fatal>(
                            Fatal::GamePlayerMissing,
                        ));
                    }
                    return Err(Fatal::GamePlayerMissing);
                },
                Some(i) => {
                    proof {
                        lemma_first_match(new_players@, g.player);
                    }
                    let mut p = new_players[i];
                    let mut gcopy = g;
                    let ok = gcopy.settle(&mut p, info, policy);
                    if !ok {
                        proof {
                            assert(settle_players(np0, tail, rand, policy) == Err::<
                                Seq<Player>,
                                Fatal,
                            >(Fatal::Overflow));
                        }
                        return Err(Fatal::Overflow);
                    }
                    new_players[i] = p;
                    proof {
                        let d = settle_update(policy, np0[i as int].data, g.bet, info).unwrap();
                        assert(p == (Player { player_id: np0[i as int].player_id, data: d }));
                        assert(new_players@ =~= np0.update(
                            i as int,
                            Player { player_id: np0[i as int].player_id, data: d },
                        ));
                        assert(tail.skip(1) =~= gs.skip(j as int + 1));
                    }
                },
            }
        }
        proof {
            assert(gs.skip(m as int) =~= Seq::<Game>::empty());
            assert(settle_players(new_players@, gs.skip(m as int), rand, policy) == Ok::<
                Seq<Player>,
                Fatal,
            >(new_players@));
        }
        self.players = new_players;
        self.games = Vec::new();
        proof {
            assert(self@ =~= (StateView {
                games: Seq::empty(),
                players: settle_players(s0@.players, gs, rand, s0@.policy).unwrap(),
                ..s0@
            }));
        }
        Ok(())
    }
}

} // verus!
