//! The engine's global laws: preservation of well-formedness, determinism of
//! replay, and the saturating resource arithmetic, proved over the transition
//! functions that the executable handlers are pinned to.

use vstd::prelude::*;
use crate::game::{Game, OutcomePolicy, attrition_update, settle_update};
use crate::player::{Player, PlayerData, first_match, pid_eq, lemma_first_match};
use crate::state::{
    StateView, Fatal, game_for, lemma_game_for, settle_players, tick_apply, tx_apply,
    register_apply, resurrect_apply, withdraw_apply, place_apply, sha256_checkseed, TIMETICK,
    WITHDRAW, REGISTER, RESURRECT, ERROR_PLAYER_ALREADY_ACTIVITED, NO_ERROR,
};

verus! {

/// Updating an account without changing its identity leaves every identity
/// search unchanged.
proof fn lemma_first_match_update_same_pid(players: Seq<Player>, i: int, p2: Player, pid: [u64; 2])
    requires
        0 <= i < players.len(),
        p2.player_id == players[i].player_id,
    ensures
        first_match(players.update(i, p2), pid) == first_match(players, pid),
    decreases players.len(),
{
    let u = players.update(i, p2);
    if i == 0 {
        assert(u.skip(1) =~= players.skip(1));
    } else {
        if !pid_eq(players[0].player_id.0, pid) {
            assert(u.skip(1) =~= players.skip(1).update(i - 1, p2));
            lemma_first_match_update_same_pid(players.skip(1), i - 1, p2, pid);
        }
    }
}

/// Appending an account cannot hide an identity that is already present.
proof fn lemma_first_match_push_some(players: Seq<Player>, p: Player, pid: [u64; 2])
    requires
        first_match(players, pid) is Some,
    ensures
        first_match(players.push(p), pid) is Some,
{
    lemma_first_match(players, pid);
    let i = first_match(players, pid).unwrap();
    lemma_first_match(players.push(p), pid);
    if first_match(players.push(p), pid) is None {
        assert(players.push(p)[i] == players[i]);
    }
}

/// A successful settlement step always clears the `placed` marker.
proof fn lemma_settle_update_clears_placed(
    policy: OutcomePolicy,
    d: PlayerData,
    bet: u64,
    info: u64,
)
    ensures
        settle_update(policy, d, bet, info) matches Some(d2) ==> d2.placed == 0,
{
}

/// Settling preserves the ledger's length and identities; every account that
/// owned an in-flight game comes out with its `placed` marker cleared, and
/// every account that owned none comes out untouched.
proof fn lemma_settle_players_props(
    players: Seq<Player>,
    games: Seq<Game>,
    rand: u64,
    policy: OutcomePolicy,
)
    requires
        forall|i: int, j: int|
            0 <= i < j < players.len() ==> !pid_eq(
                #[trigger] players[i].player_id.0,
                #[trigger] players[j].player_id.0,
            ),
        forall|i: int, j: int|
            0 <= i < j < games.len() ==> !pid_eq(
                #[trigger] games[i].player,
                #[trigger] games[j].player,
            ),
    ensures
        settle_players(players, games, rand, policy) matches Ok(ps) ==> {
            &&& ps.len() == players.len()
            &&& forall|k: int|
                0 <= k < players.len() ==> (#[trigger] ps[k]).player_id == players[k].player_id
            &&& forall|k: int|
                0 <= k < players.len() && game_for(games, players[k].player_id.0) is Some ==> (
                #[trigger] ps[k]).data.placed == 0
            &&& forall|k: int|
                0 <= k < players.len() && game_for(games, players[k].player_id.0) is None ==> (
                #[trigger] ps[k]) == players[k]
        },
    decreases games.len(),
{
    if games.len() == 0 {
    } else {
        let g = games[0];
        let rest = games.skip(1);
        assert(rest.len() == games.len() - 1);
        assert forall|k: int| 0 <= k < rest.len() implies rest[k] == games[k + 1] by {}
        match first_match(players, g.player) {
            None => {},
            Some(i) => {
                lemma_first_match(players, g.player);
                match settle_update(policy, players[i].data, g.bet, g.rand ^ rand) {
                    None => {},
                    Some(d) => {
                        lemma_settle_update_clears_placed(policy, players[i].data, g.bet, g.rand
                            ^ rand);
                        let p2 = Player { player_id: players[i].player_id, data: d };
                        let players2 = players.update(i, p2);
                        assert(players2.len() == players.len());
                        assert forall|k: int|
                            0 <= k < players.len() implies (#[trigger] players2[k]).player_id
                            == players[k].player_id by {}
                        lemma_settle_players_props(players2, rest, rand, policy);
                        match settle_players(players2, rest, rand, policy) {
                            Err(_) => {},
                            Ok(ps) => {
                                assert forall|k: int|
                                    0 <= k < players.len() && game_for(
                                        games,
                                        players[k].player_id.0,
                                    ) is Some implies (#[trigger] ps[k]).data.placed == 0 by {
                                    let pidk = players[k].player_id.0;
                                    if pid_eq(g.player, pidk) {
                                        // only account i carries this identity
                                        assert(pid_eq(players[i].player_id.0, g.player));
                                        if k != i {
                                            assert(!pid_eq(
                                                players[i].player_id.0,
                                                players[k].player_id.0,
                                            ));
                                            assert(false);
                                        }
                                        // no further game owns it
                                        lemma_game_for(rest, pidk);
                                        match game_for(rest, pidk) {
                                            None => {},
                                            Some(j) => {
                                                assert(rest[j] == games[j + 1]);
                                                assert(pid_eq(games[0].player, games[j + 1].player));
                                                assert(false);
                                            },
                                        }
                                        assert(ps[k] == players2[k]);
                                    } else {
                                        assert(game_for(rest, pidk) is Some);
                                    }
                                }
                                assert forall|k: int|
                                    0 <= k < players.len() && game_for(
                                        games,
                                        players[k].player_id.0,
                                    ) is None implies (#[trigger] ps[k]) == players[k] by {
                                    let pidk = players[k].player_id.0;
                                    assert(!pid_eq(g.player, pidk));
                                    assert(game_for(rest, pidk) is None);
                                    assert(k != i);
                                    assert(ps[k] == players2[k]);
                                }
                            },
                        }
                    },
                }
            },
        }
    }
}

/// An in-flight game whose owner is already listed stays found after a new
/// game is appended.
proof fn lemma_game_for_push_some(games: Seq<Game>, g: Game, pid: [u64; 2])
    requires
        game_for(games, pid) is Some,
    ensures
        game_for(games.push(g), pid) is Some,
{
    lemma_game_for(games, pid);
    let i = game_for(games, pid).unwrap();
    lemma_game_for(games.push(g), pid);
    if game_for(games.push(g), pid) is None {
        assert(games.push(g)[i] == games[i]);
    }
}

/// An identity that owns no in-flight game still owns none after a game of
/// another identity is appended.
proof fn lemma_game_for_push_none(games: Seq<Game>, g: Game, pid: [u64; 2])
    requires
        game_for(games, pid) is None,
        !pid_eq(g.player, pid),
    ensures
        game_for(games.push(g), pid) is None,
{
    lemma_game_for(games, pid);
    lemma_game_for(games.push(g), pid);
    match game_for(games.push(g), pid) {
        None => {},
        Some(i) => {
            if i < games.len() {
                assert(games.push(g)[i] == games[i]);
            } else {
                assert(games.push(g)[i] == g);
            }
        },
    }
}

/// Appending a game for an identity makes that identity found.
proof fn lemma_game_for_push_match(games: Seq<Game>, g: Game, pid: [u64; 2])
    requires
        pid_eq(g.player, pid),
    ensures
        game_for(games.push(g), pid) is Some,
{
    lemma_game_for(games.push(g), pid);
    if game_for(games.push(g), pid) is None {
        assert(games.push(g)[games.len() as int] == g);
    }
}

/// Replacing one account by another with the same identity and the same
/// `placed` marker preserves well-formedness.
proof fn lemma_update_same_pid_placed_preserves_wf(s: StateView, i: int, p2: Player, s2: StateView)
    requires
        s.wf(),
        0 <= i < s.players.len(),
        p2.player_id == s.players[i].player_id,
        p2.data.placed == s.players[i].data.placed,
        s2.players == s.players.update(i, p2),
        s2.games == s.games,
    ensures
        s2.wf(),
{
    assert forall|a: int, b: int| 0 <= a < b < s2.players.len() implies !pid_eq(
        #[trigger] s2.players[a].player_id.0,
        #[trigger] s2.players[b].player_id.0,
    ) by {
        assert(s2.players[a].player_id == s.players[a].player_id);
        assert(s2.players[b].player_id == s.players[b].player_id);
    }
    assert forall|j: int| 0 <= j < s2.games.len() implies (#[trigger] s2.games[j]).bet != 0
        && first_match(s2.players, s2.games[j].player) is Some by {
        lemma_first_match_update_same_pid(s.players, i, p2, s.games[j].player);
    }
    assert forall|k: int| 0 <= k < s2.players.len() implies ((#[trigger] s2.players[k]).data.placed
        != 0 <==> game_for(s2.games, s2.players[k].player_id.0) is Some) by {
        assert(s2.players[k].player_id == s.players[k].player_id);
        assert(s2.players[k].data.placed == s.players[k].data.placed);
        assert(s.players[k].data.placed != 0 <==> game_for(
            s.games,
            s.players[k].player_id.0,
        ) is Some);
    }
}

proof fn lemma_register_preserves_wf(s: StateView, data: [u64; 3])
    requires
        s.wf(),
    ensures
        register_apply(s, data).0.wf(),
{
    let pid = [data[0], data[1]];
    if first_match(s.players, pid) is Some {
    } else {
        lemma_first_match(s.players, pid);
        let s2 = register_apply(s, data).0;
        let p = s2.players.last();
        assert(s2.players == s.players.push(p));
        assert(pid_eq(p.player_id.0, pid));
        assert forall|a: int, b: int| 0 <= a < b < s2.players.len() implies !pid_eq(
            #[trigger] s2.players[a].player_id.0,
            #[trigger] s2.players[b].player_id.0,
        ) by {
            if b < s.players.len() {
                assert(s2.players[a] == s.players[a]);
                assert(s2.players[b] == s.players[b]);
            } else {
                assert(s2.players[a] == s.players[a]);
                assert(s2.players[b] == p);
                assert(!pid_eq(s.players[a].player_id.0, pid));
            }
        }
        assert forall|j: int| 0 <= j < s2.games.len() implies (#[trigger] s2.games[j]).bet != 0
            && first_match(s2.players, s2.games[j].player) is Some by {
            lemma_first_match_push_some(s.players, p, s.games[j].player);
        }
        assert forall|k: int| 0 <= k < s2.players.len() implies ((
        #[trigger] s2.players[k]).data.placed != 0 <==> game_for(
            s2.games,
            s2.players[k].player_id.0,
        ) is Some) by {
            if k < s.players.len() {
                assert(s2.players[k] == s.players[k]);
                assert(s.players[k].data.placed != 0 <==> game_for(
                    s.games,
                    s.players[k].player_id.0,
                ) is Some);
            } else {
                assert(s2.players[k] == p);
                lemma_game_for(s.games, pid);
                match game_for(s.games, pid) {
                    None => {},
                    Some(j) => {
                        assert(first_match(s.players, s.games[j].player) is Some);
                        lemma_first_match(s.players, s.games[j].player);
                        let m = first_match(s.players, s.games[j].player).unwrap();
                        assert(pid_eq(s.players[m].player_id.0, pid));
                        assert(false);
                    },
                }
            }
        }
    }
}

proof fn lemma_resurrect_preserves_wf(s: StateView, data: [u64; 3])
    requires
        s.wf(),
    ensures
        resurrect_apply(s, data).0.wf(),
{
    let pid = [data[0], data[1]];
    match first_match(s.players, pid) {
        None => {},
        Some(i) => {
            lemma_first_match(s.players, pid);
            let p = s.players[i];
            if p.data.power + 1000 <= u64::MAX {
                let s2 = resurrect_apply(s, data).0;
                lemma_update_same_pid_placed_preserves_wf(
                    s,
                    i,
                    s2.players[i],
                    s2,
                );
            }
        },
    }
}

proof fn lemma_withdraw_preserves_wf(s: StateView, data: [u64; 3], pkey: [u64; 4])
    requires
        s.wf(),
    ensures
        withdraw_apply(s, data, pkey).0.wf(),
{
    let pid = [pkey[1], pkey[2]];
    match first_match(s.players, pid) {
        None => {},
        Some(i) => {
            lemma_first_match(s.players, pid);
            let p = s.players[i];
            if p.data.balance >= data[0] & 0xffffffff {
                let s2 = withdraw_apply(s, data, pkey).0;
                lemma_update_same_pid_placed_preserves_wf(
                    s,
                    i,
                    s2.players[i],
                    s2,
                );
            }
        },
    }
}

proof fn lemma_place_preserves_wf(s: StateView, place: u64, pkey: [u64; 4], rand: u64)
    requires
        s.wf(),
    ensures
        place_apply(s, place, pkey, rand).0.wf(),
{
    let pid = [pkey[1], pkey[2]];
    match first_match(s.players, pid) {
        None => {},
        Some(i) => {
            lemma_first_match(s.players, pid);
            let p = s.players[i];
            if p.data.placed != 0 || place == 0 || (s.policy == OutcomePolicy::FightAttrition
                && p.data.power == 0) || (s.policy == OutcomePolicy::DiceVsHouse && p.data.balance
                < place) {
            } else {
                let s2 = place_apply(s, place, pkey, rand).0;
                let g = Game { player: pid, bet: place, rand, result: None };
                let p2 = s2.players[i];
                assert(s2.players == s.players.update(i, p2));
                assert(s2.games == s.games.push(g));
                assert(p2.player_id == p.player_id);
                // no in-flight game owns this identity yet
                assert(game_for(s.games, p.player_id.0) is None);
                lemma_game_for(s.games, p.player_id.0);
                assert forall|a: int, b: int| 0 <= a < b < s2.players.len() implies !pid_eq(
                    #[trigger] s2.players[a].player_id.0,
                    #[trigger] s2.players[b].player_id.0,
                ) by {
                    assert(s2.players[a].player_id == s.players[a].player_id);
                    assert(s2.players[b].player_id == s.players[b].player_id);
                }
                assert forall|a: int, b: int| 0 <= a < b < s2.games.len() implies !pid_eq(
                    #[trigger] s2.games[a].player,
                    #[trigger] s2.games[b].player,
                ) by {
                    if b < s.games.len() {
                        assert(s2.games[a] == s.games[a]);
                        assert(s2.games[b] == s.games[b]);
                    } else {
                        assert(s2.games[a] == s.games[a]);
                        assert(s2.games[b] == g);
                        assert(!pid_eq(s.games[a].player, p.player_id.0));
                    }
                }
                assert forall|j: int| 0 <= j < s2.games.len() implies (#[trigger] s2.games[j]).bet
                    != 0 && first_match(s2.players, s2.games[j].player) is Some by {
                    if j < s.games.len() {
                        assert(s2.games[j] == s.games[j]);
                        lemma_first_match_update_same_pid(s.players, i, p2, s.games[j].player);
                    } else {
                        assert(s2.games[j] == g);
                        lemma_first_match_update_same_pid(s.players, i, p2, pid);
                    }
                }
                assert forall|k: int| 0 <= k < s2.players.len() implies ((
                #[trigger] s2.players[k]).data.placed != 0 <==> game_for(
                    s2.games,
                    s2.players[k].player_id.0,
                ) is Some) by {
                    if k == i {
                        lemma_game_for_push_match(s.games, g, s.players[i].player_id.0);
                    } else {
                        assert(s2.players[k] == s.players[k]);
                        assert(s.players[k].data.placed != 0 <==> game_for(
                            s.games,
                            s.players[k].player_id.0,
                        ) is Some);
                        assert(!pid_eq(g.player, s.players[k].player_id.0));
                        match game_for(s.games, s.players[k].player_id.0) {
                            Some(_) => {
                                lemma_game_for_push_some(s.games, g, s.players[k].player_id.0);
                            },
                            None => {
                                lemma_game_for_push_none(s.games, g, s.players[k].player_id.0);
                            },
                        }
                    }
                }
            }
        },
    }
}

proof fn lemma_tick_preserves_wf(s: StateView, data: [u64; 3])
    requires
        s.wf(),
    ensures
        tick_apply(s, data).0.wf(),
{
    if s.rand_commitment != 0 && sha256_checkseed(data[0]) != s.rand_commitment {
    } else if s.counter == u64::MAX {
    } else {
        lemma_settle_players_props(s.players, s.games, data[0], s.policy);
        match settle_players(s.players, s.games, data[0], s.policy) {
            Err(_) => {},
            Ok(ps) => {
                let s2 = tick_apply(s, data).0;
                assert(s2.players == ps);
                assert(s2.games == Seq::<Game>::empty());
                assert forall|a: int, b: int| 0 <= a < b < s2.players.len() implies !pid_eq(
                    #[trigger] s2.players[a].player_id.0,
                    #[trigger] s2.players[b].player_id.0,
                ) by {
                    assert(ps[a].player_id == s.players[a].player_id);
                    assert(ps[b].player_id == s.players[b].player_id);
                }
                assert forall|k: int| 0 <= k < s2.players.len() implies ((
                #[trigger] s2.players[k]).data.placed != 0 <==> game_for(
                    s2.games,
                    s2.players[k].player_id.0,
                ) is Some) by {
                    assert(ps[k].player_id == s.players[k].player_id);
                    match game_for(s.games, s.players[k].player_id.0) {
                        Some(_) => {
                            assert(ps[k].data.placed == 0);
                        },
                        None => {
                            assert(ps[k] == s.players[k]);
                            assert(s.players[k].data.placed == 0);
                        },
                    }
                }
            },
        }
    }
}

/// Every transaction preserves well-formedness. In particular an account is
/// never marked `placed` without exactly one in-flight game owned by it, nor
/// the other way round, at any point between transactions.
pub proof fn lemma_tx_preserves_wf(
    s: StateView,
    command: u32,
    data: [u64; 3],
    pkey: [u64; 4],
    sigr: [u64; 4],
)
    requires
        s.wf(),
    ensures
        tx_apply(s, command, data, pkey, sigr).0.wf(),
{
    if command == TIMETICK {
        lemma_tick_preserves_wf(s, data);
    } else if command == WITHDRAW {
        lemma_withdraw_preserves_wf(s, data, pkey);
    } else if command == REGISTER {
        lemma_register_preserves_wf(s, data);
    } else if command == RESURRECT {
        lemma_resurrect_preserves_wf(s, data);
    } else {
        lemma_place_preserves_wf(s, data[0], pkey, sigr[0] ^ sigr[1] ^ sigr[2] ^ sigr[3]);
    }
}

/// A successful tick settles everything: afterwards the in-flight list is
/// empty and no account keeps a `placed` marker, so no game survives for an
/// idle account and no account stays marked without a game. On any fatal
/// outcome — a mismatched commitment, a missing account, or a settlement
/// credit that would wrap — `tick_apply` leaves the state exactly as it was.
pub proof fn lemma_tick_settles_all_games(s: StateView, data: [u64; 3])
    requires
        s.wf(),
        tick_apply(s, data).1 is Ok,
    ensures
        tick_apply(s, data).0.games.len() == 0,
        forall|k: int|
            0 <= k < tick_apply(s, data).0.players.len() ==> (#[trigger] tick_apply(
                s,
                data,
            ).0.players[k]).data.placed == 0,
{
    lemma_tick_preserves_wf(s, data);
    let s2 = tick_apply(s, data).0;
    assert forall|k: int| 0 <= k < s2.players.len() implies (#[trigger] s2.players[k]).data.placed
        == 0 by {
        assert(game_for(s2.games, s2.players[k].player_id.0) is None);
    }
}

/// One transaction as the dispatcher sees it: the decoded command tag and
/// payload words, the acting processed key, and the signature words.
pub ghost struct TxInput {
    pub command: u32,
    pub data: [u64; 3],
    pub pkey: [u64; 4],
    pub sigr: [u64; 4],
}

/// The state after replaying a sequence of transactions in order. A
/// transaction that ends fatally leaves the state exactly as it was, so the
/// replay is total.
pub open spec fn replay(s: StateView, txs: Seq<TxInput>) -> StateView
    decreases txs.len(),
{
    if txs.len() == 0 {
        s
    } else {
        replay(
            tx_apply(s, txs[0].command, txs[0].data, txs[0].pkey, txs[0].sigr).0,
            txs.skip(1),
        )
    }
}

/// Replaying the same transaction sequence twice from the same initial state
/// yields the identical final state — in particular the identical settlement
/// queue. `Transaction::process` pins the state each call reaches to
/// `tx_apply`, and `State::flush_settlement` hands the queue out unchanged,
/// so any two executions of the same sequence agree bit for bit, in state
/// and in exported batch alike.
pub proof fn lemma_replay_deterministic(s1: StateView, s2: StateView, txs: Seq<TxInput>)
    requires
        s1 == s2,
    ensures
        replay(s1, txs) == replay(s2, txs),
        replay(s1, txs).settlements == replay(s2, txs).settlements,
{
}

/// A replay from any well-formed state stays well-formed at every step.
pub proof fn lemma_replay_preserves_wf(s: StateView, txs: Seq<TxInput>)
    requires
        s.wf(),
    ensures
        replay(s, txs).wf(),
    decreases txs.len(),
{
    if txs.len() != 0 {
        lemma_tx_preserves_wf(s, txs[0].command, txs[0].data, txs[0].pkey, txs[0].sigr);
        lemma_replay_preserves_wf(
            tx_apply(s, txs[0].command, txs[0].data, txs[0].pkey, txs[0].sigr).0,
            txs.skip(1),
        );
    }
}

/// `balance` and `power` are never negative after any transaction sequence:
/// they are unsigned words, and every debit the engine performs either
/// saturates at zero or is guarded by the balance it debits.
pub proof fn lemma_replay_resources_nonnegative(s: StateView, txs: Seq<TxInput>)
    ensures
        forall|k: int|
            0 <= k < replay(s, txs).players.len() ==> (#[trigger] replay(
                s,
                txs,
            ).players[k]).data.balance >= 0 && replay(s, txs).players[k].data.power >= 0,
{
}

/// The attrition damage step saturates: the surviving power is the old power
/// less the damage byte, floored at zero, and never wraps below zero.
pub proof fn lemma_attrition_damage_saturates(d: PlayerData, info: u64)
    requires
        d.previous >> 32 == 1,
        d.placed == 0,
    ensures
        attrition_update(d, info) is Some,
        attrition_update(d, info).unwrap().power == if d.power as int - ((d.previous & 0xff) as int)
            >= 0 {
            d.power as int - ((d.previous & 0xff) as int)
        } else {
            0int
        },
{
}

/// After any REGISTER for an identity, a further REGISTER for the same
/// identity always reports that it already exists and changes nothing at
/// all.
pub proof fn lemma_register_idempotent(s: StateView, data: [u64; 3])
    ensures
        register_apply(register_apply(s, data).0, data).0 == register_apply(s, data).0,
        register_apply(register_apply(s, data).0, data).1 == Ok::<u32, Fatal>(
            ERROR_PLAYER_ALREADY_ACTIVITED,
        ),
{
    let pid = [data[0], data[1]];
    let s1 = register_apply(s, data).0;
    if first_match(s.players, pid) is Some {
    } else {
        let p = s1.players.last();
        assert(s1.players == s.players.push(p));
        lemma_first_match(s1.players, pid);
        if first_match(s1.players, pid) is None {
            assert(s1.players[s.players.len() as int] == p);
            assert(pid_eq(p.player_id.0, pid));
        }
    }
}

/// With a commitment pending, a tick whose revealed word derives a different
/// check seed is fatal: the counter does not advance, no game settles, the
/// commitment does not rotate — nothing changes.
pub proof fn lemma_tick_commitment_mismatch(s: StateView, data: [u64; 3])
    requires
        s.rand_commitment != 0,
        sha256_checkseed(data[0]) != s.rand_commitment,
    ensures
        tick_apply(s, data).0 == s,
        tick_apply(s, data).1 == Err::<u32, Fatal>(Fatal::CommitmentMismatch),
{
}

/// Only success moves the state: a transaction that reports a recoverable
/// failure, or ends fatally, leaves the state exactly as it was — there is
/// no partial application to roll back.
pub proof fn lemma_only_success_changes_state(
    s: StateView,
    command: u32,
    data: [u64; 3],
    pkey: [u64; 4],
    sigr: [u64; 4],
)
    ensures
        tx_apply(s, command, data, pkey, sigr).1 != Ok::<u32, Fatal>(NO_ERROR) ==> tx_apply(
            s,
            command,
            data,
            pkey,
            sigr,
        ).0 == s,
{
}

} // verus!
