use combat_engine::game::{CommitmentInfo, Game, OutcomePolicy};
use combat_engine::player::{Player, PlayerData, PlayerInfo};
use combat_engine::state::{
    encode_activity, Fatal, State, Transaction, ERROR_PLAYER_ALREADY_ACTIVITED,
    ERROR_PLAYER_NOT_FOUND, INVALID_PLACE, NO_ERROR, PLACE, PLAYER_IN_GAME, PLAYER_IS_DEAD,
    REGISTER, RESURRECT, TIMETICK, WITHDRAW,
};
use sha2::{Digest, Sha256};

fn checkseed(rand: u64) -> u64 {
    let v = Sha256::digest(rand.to_le_bytes());
    u64::from_be_bytes(v[24..32].try_into().unwrap())
}

fn account(balance: u64, power: u64, placed: u64, previous: u64) -> Player {
    Player {
        player_id: PlayerInfo([7, 8]),
        data: PlayerData { balance, power, placed, previous },
    }
}

fn state_with(policy: OutcomePolicy, players: Vec<Player>) -> State {
    State {
        policy,
        rand_commitment: 0,
        counter: 0,
        games: vec![],
        players,
        settlements: vec![],
    }
}

const PKEY: [u64; 4] = [0, 7, 8, 0];
const NO_SIG: [u64; 4] = [0, 0, 0, 0];

#[test]
fn decode_splits_tag_and_payload() {
    let tx = Transaction::decode([0x1_0000_0002, 11, 22, 33]);
    assert_eq!(tx.command, 2);
    assert_eq!(tx.data, [11, 22, 33]);
}

#[test]
fn decode_error_names() {
    assert_eq!(Transaction::decode_error(1), "PlayerNotFound");
    assert_eq!(Transaction::decode_error(2), "PlayerIsInAnotherGame");
    assert_eq!(Transaction::decode_error(3), "InvalidBetNumber");
    assert_eq!(Transaction::decode_error(4), "PlayerAlreadyExists");
    assert_eq!(Transaction::decode_error(5), "PlayerIsDead");
    assert_eq!(Transaction::decode_error(77), "Unknown");
}

#[test]
fn encode_activity_packs_tag_and_value() {
    assert_eq!(encode_activity(1, 20), (1u64 << 32) + 20);
    assert_eq!(encode_activity(0, 0), 0);
    assert_eq!(encode_activity(0xffffffff, u32::MAX), u64::MAX);
}

#[test]
fn player_info_and_key() {
    let info = PlayerInfo::new(&[9, 7, 8, 6]);
    assert_eq!(info.0, [7, 8]);
    assert_eq!(PlayerInfo::from_raw(7, 8).0, [7, 8]);
    assert_eq!(info.to_key(), [7, 8, 0xff00, 0xff01]);
    let p = Player::new(&[9, 7, 8, 6]);
    assert_eq!(p.player_id.0, [7, 8]);
    assert_eq!(p.data, PlayerData { balance: 0, power: 0, placed: 0, previous: 0 });
}

#[test]
fn commitment_info_holds_both_words() {
    let c = CommitmentInfo::new(3, 4);
    assert_eq!(c.0, [3, 4]);
}

#[test]
fn register_creates_account() {
    let mut s = state_with(OutcomePolicy::FightAttrition, vec![]);
    let tx = Transaction { command: REGISTER, data: [7, 8, 0] };
    let r = tx.process(&mut s, &PKEY, &NO_SIG);
    assert_eq!(r, Ok(NO_ERROR));
    assert_eq!(s.players.len(), 1);
    assert_eq!(s.players[0].player_id.0, [7, 8]);
    assert_eq!(s.players[0].data.power, 1000);
    assert_eq!(s.players[0].data.balance, 0);
    assert_eq!(s.players[0].data.previous, (1u64 << 32) + 20);
}

#[test]
fn second_register_reports_existing_and_changes_nothing() {
    let mut s = state_with(OutcomePolicy::FightAttrition, vec![]);
    let tx = Transaction { command: REGISTER, data: [7, 8, 0] };
    assert_eq!(tx.process(&mut s, &PKEY, &NO_SIG), Ok(NO_ERROR));
    let before = s.clone();
    assert_eq!(tx.process(&mut s, &PKEY, &NO_SIG), Ok(ERROR_PLAYER_ALREADY_ACTIVITED));
    assert_eq!(s, before);
}

#[test]
fn resurrect_halves_balance_and_restores_power() {
    let mut s = state_with(OutcomePolicy::FightAttrition, vec![account(101, 3, 0, 999)]);
    let tx = Transaction { command: RESURRECT, data: [7, 8, 0] };
    assert_eq!(tx.process(&mut s, &PKEY, &NO_SIG), Ok(NO_ERROR));
    assert_eq!(s.players[0].data.balance, 50);
    assert_eq!(s.players[0].data.power, 1003);
    assert_eq!(s.players[0].data.previous, (1u64 << 32) + 20);
}

#[test]
fn resurrect_missing_account_is_reported() {
    let mut s = state_with(OutcomePolicy::FightAttrition, vec![]);
    let tx = Transaction { command: RESURRECT, data: [7, 8, 0] };
    assert_eq!(tx.process(&mut s, &PKEY, &NO_SIG), Ok(ERROR_PLAYER_NOT_FOUND));
    assert_eq!(s.players.len(), 0);
}

#[test]
fn resurrect_power_wrap_is_fatal() {
    let mut s = state_with(OutcomePolicy::FightAttrition, vec![account(10, u64::MAX, 0, 0)]);
    let before = s.clone();
    let tx = Transaction { command: RESURRECT, data: [7, 8, 0] };
    assert_eq!(tx.process(&mut s, &PKEY, &NO_SIG), Err(Fatal::Overflow));
    assert_eq!(s, before);
}

#[test]
fn withdraw_scenario() {
    let mut s = state_with(OutcomePolicy::FightAttrition, vec![account(50, 0, 0, 0)]);
    let tx = Transaction { command: WITHDRAW, data: [30, 0, 0] };
    assert_eq!(tx.process(&mut s, &PKEY, &NO_SIG), Ok(NO_ERROR));
    assert_eq!(s.settlements.len(), 1);
    assert_eq!(s.settlements[0], [30, 0, 0]);
    assert_eq!(s.players[0].data.balance, 20);

    let tx2 = Transaction { command: WITHDRAW, data: [40, 0, 0] };
    let before = s.clone();
    assert_eq!(tx2.process(&mut s, &PKEY, &NO_SIG), Err(Fatal::BalanceConstraint));
    assert_eq!(s, before);
    assert_eq!(s.players[0].data.balance, 20);
}

#[test]
fn withdraw_missing_account_is_reported() {
    let mut s = state_with(OutcomePolicy::FightAttrition, vec![]);
    let tx = Transaction { command: WITHDRAW, data: [30, 0, 0] };
    assert_eq!(tx.process(&mut s, &PKEY, &NO_SIG), Ok(ERROR_PLAYER_NOT_FOUND));
    assert_eq!(s.settlements.len(), 0);
}

#[test]
fn place_errors() {
    // missing account
    let mut s = state_with(OutcomePolicy::FightAttrition, vec![]);
    let tx = Transaction { command: PLACE, data: [5, 0, 0] };
    assert_eq!(tx.process(&mut s, &PKEY, &NO_SIG), Ok(ERROR_PLAYER_NOT_FOUND));
    // busy account
    let mut s = state_with(OutcomePolicy::FightAttrition, vec![account(0, 10, 3, 0)]);
    s.games.push(Game { player: [7, 8], bet: 3, rand: 0, result: None });
    assert_eq!(tx.process(&mut s, &PKEY, &NO_SIG), Ok(PLAYER_IN_GAME));
    // zero stake
    let mut s = state_with(OutcomePolicy::FightAttrition, vec![account(0, 10, 0, 0)]);
    let tx0 = Transaction { command: PLACE, data: [0, 0, 0] };
    assert_eq!(tx0.process(&mut s, &PKEY, &NO_SIG), Ok(INVALID_PLACE));
    // depleted account, attrition
    let mut s = state_with(OutcomePolicy::FightAttrition, vec![account(9, 0, 0, 0)]);
    assert_eq!(tx.process(&mut s, &PKEY, &NO_SIG), Ok(PLAYER_IS_DEAD));
    // stake above balance, dice
    let mut s = state_with(OutcomePolicy::DiceVsHouse, vec![account(4, 0, 0, 0)]);
    assert_eq!(tx.process(&mut s, &PKEY, &NO_SIG), Ok(INVALID_PLACE));
    assert_eq!(s.games.len(), 0);
}

#[test]
fn place_marks_account_and_opens_game() {
    let mut s = state_with(OutcomePolicy::FightAttrition, vec![account(0, 10, 0, 0)]);
    let tx = Transaction { command: PLACE, data: [5, 0, 0] };
    let sigr = [1, 2, 4, 8];
    assert_eq!(tx.process(&mut s, &PKEY, &sigr), Ok(NO_ERROR));
    assert_eq!(s.players[0].data.placed, 5);
    assert_eq!(s.games.len(), 1);
    assert_eq!(s.games[0], Game { player: [7, 8], bet: 5, rand: 1 ^ 2 ^ 4 ^ 8, result: None });
}

#[test]
fn dice_scenario() {
    let mut s = state_with(OutcomePolicy::DiceVsHouse, vec![account(100, 0, 0, 0)]);
    let place = Transaction { command: PLACE, data: [10, 0, 0] };
    // per-game entropy 3, from the signature words
    assert_eq!(place.process(&mut s, &PKEY, &[3, 0, 0, 0]), Ok(NO_ERROR));
    assert_eq!(s.players[0].data.balance, 90);
    assert_eq!(s.players[0].data.placed, 10);
    // tick reveals 5: final randomness 3 ^ 5 = 6, rolls 0 and 0, a win
    let tick = Transaction { command: TIMETICK, data: [5, 0, 0] };
    assert_eq!(tick.process(&mut s, &PKEY, &NO_SIG), Ok(NO_ERROR));
    assert_eq!(s.players[0].data.balance, 110);
    assert_eq!(s.players[0].data.placed, 0);
    assert_eq!(s.players[0].data.previous, 6);
    assert_eq!(s.games.len(), 0);
    assert_eq!(s.counter, 1);
}

#[test]
fn attrition_scenario() {
    let mut s = state_with(
        OutcomePolicy::FightAttrition,
        vec![account(100, 1000, 0, (1u64 << 32) + 20)],
    );
    let place = Transaction { command: PLACE, data: [5, 0, 0] };
    assert_eq!(place.process(&mut s, &PKEY, &[9, 0, 0, 0]), Ok(NO_ERROR));
    // fight tag while wagering: balance halves; the new packed info is
    // (9 ^ 2) masked to 33 bits
    let tick = Transaction { command: TIMETICK, data: [2, 0, 0] };
    assert_eq!(tick.process(&mut s, &PKEY, &NO_SIG), Ok(NO_ERROR));
    assert_eq!(s.players[0].data.balance, 50);
    assert_eq!(s.players[0].data.power, 1000);
    assert_eq!(s.players[0].data.previous, 11);
    assert_eq!(s.players[0].data.placed, 0);
    assert_eq!(s.games.len(), 0);
}

#[test]
fn attrition_damage_saturates_at_zero() {
    let mut p = account(0, 150, 0, (1u64 << 32) + 200);
    let mut g = Game { player: [7, 8], bet: 1, rand: 0, result: None };
    assert!(g.settle(&mut p, 7, OutcomePolicy::FightAttrition));
    assert_eq!(p.data.power, 0);
    assert_eq!(p.data.previous, 7);
    // equal damage also floors at zero
    let mut p = account(0, 200, 0, (1u64 << 32) + 200);
    assert!(g.settle(&mut p, 7, OutcomePolicy::FightAttrition));
    assert_eq!(p.data.power, 0);
    // smaller damage is subtracted exactly
    let mut p = account(0, 201, 0, (1u64 << 32) + 200);
    assert!(g.settle(&mut p, 7, OutcomePolicy::FightAttrition));
    assert_eq!(p.data.power, 1);
}

#[test]
fn attrition_rewards() {
    // non-fight tag, idle: the balance gains the middle byte
    let mut p = account(5, 9, 0, (2u64 << 32) + (77 << 8) + 33);
    let mut g = Game { player: [7, 8], bet: 1, rand: 0, result: None };
    assert!(g.settle(&mut p, 0, OutcomePolicy::FightAttrition));
    assert_eq!(p.data.balance, 5 + 77);
    assert_eq!(p.data.power, 9);
    // non-fight tag, wagering: the power gains the low byte
    let mut p = account(5, 9, 4, (2u64 << 32) + (77 << 8) + 33);
    assert!(g.settle(&mut p, 0, OutcomePolicy::FightAttrition));
    assert_eq!(p.data.balance, 5);
    assert_eq!(p.data.power, 9 + 33);
}

#[test]
fn attrition_reward_wrap_is_refused() {
    let mut p = account(u64::MAX, 9, 0, (2u64 << 32) + (77 << 8));
    let mut g = Game { player: [7, 8], bet: 1, rand: 0, result: None };
    let before = p;
    assert!(!g.settle(&mut p, 0, OutcomePolicy::FightAttrition));
    assert_eq!(p, before);
}

#[test]
fn dice_loss_keeps_balance_and_records_rolls() {
    // 517 % 6 == 1, (517 >> 8) % 6 == 2: the player loses
    let mut p = account(40, 0, 10, 0);
    let mut g = Game { player: [7, 8], bet: 10, rand: 0, result: None };
    assert!(g.settle(&mut p, 517, OutcomePolicy::DiceVsHouse));
    assert_eq!(p.data.balance, 40);
    assert_eq!(p.data.placed, 0);
    assert_eq!(p.data.previous, 517);
    assert_eq!(g.result, Some([1, 2]));
}

#[test]
fn dice_win_wrap_is_refused() {
    let mut p = account(u64::MAX, 0, 1, 0);
    let mut g = Game { player: [7, 8], bet: 1, rand: 0, result: None };
    let before = p;
    assert!(!g.settle(&mut p, 0, OutcomePolicy::DiceVsHouse));
    assert_eq!(p, before);
    assert_eq!(g.result, None);
}

#[test]
fn tick_accepts_matching_commitment_and_rotates_it() {
    let mut s = state_with(OutcomePolicy::FightAttrition, vec![]);
    s.rand_commitment = checkseed(5);
    let next = 0xabcd;
    let tick = Transaction { command: TIMETICK, data: [5, next, 0] };
    assert_eq!(tick.process(&mut s, &PKEY, &NO_SIG), Ok(NO_ERROR));
    assert_eq!(s.counter, 1);
    assert_eq!(s.rand_commitment, next);
}

#[test]
fn tick_commitment_mismatch_is_fatal_and_moves_nothing() {
    let mut s = state_with(OutcomePolicy::FightAttrition, vec![account(0, 10, 0, 0)]);
    let place = Transaction { command: PLACE, data: [5, 0, 0] };
    assert_eq!(place.process(&mut s, &PKEY, &[9, 0, 0, 0]), Ok(NO_ERROR));
    s.rand_commitment = checkseed(5) ^ 1;
    let before = s.clone();
    let tick = Transaction { command: TIMETICK, data: [5, 0, 0] };
    assert_eq!(tick.process(&mut s, &PKEY, &NO_SIG), Err(Fatal::CommitmentMismatch));
    assert_eq!(s, before);
    assert_eq!(s.counter, 0);
    assert_eq!(s.games.len(), 1);
    assert_eq!(s.players[0].data.placed, 5);
}

#[test]
fn first_tick_accepts_any_reveal() {
    let mut s = state_with(OutcomePolicy::FightAttrition, vec![]);
    assert_eq!(s.rand_commitment, 0);
    let tick = Transaction { command: TIMETICK, data: [999, 123, 0] };
    assert_eq!(tick.process(&mut s, &PKEY, &NO_SIG), Ok(NO_ERROR));
    assert_eq!(s.counter, 1);
    assert_eq!(s.rand_commitment, 123);
}

#[test]
fn tick_counter_wrap_is_fatal() {
    let mut s = state_with(OutcomePolicy::FightAttrition, vec![]);
    s.counter = u64::MAX;
    let before = s.clone();
    let tick = Transaction { command: TIMETICK, data: [1, 2, 0] };
    assert_eq!(tick.process(&mut s, &PKEY, &NO_SIG), Err(Fatal::Overflow));
    assert_eq!(s, before);
}

#[test]
fn settle_missing_game_account_is_fatal() {
    let mut s = state_with(OutcomePolicy::FightAttrition, vec![]);
    s.games.push(Game { player: [7, 8], bet: 5, rand: 0, result: None });
    let before = s.clone();
    let tick = Transaction { command: TIMETICK, data: [1, 2, 0] };
    assert_eq!(tick.process(&mut s, &PKEY, &NO_SIG), Err(Fatal::GamePlayerMissing));
    assert_eq!(s, before);
}

#[test]
fn placed_marker_and_games_stay_in_step() {
    let mut s = state_with(OutcomePolicy::FightAttrition, vec![account(0, 10, 0, 0)]);
    assert_eq!(s.players[0].data.placed, 0);
    assert!(s.games.is_empty());
    let place = Transaction { command: PLACE, data: [5, 0, 0] };
    assert_eq!(place.process(&mut s, &PKEY, &[1, 0, 0, 0]), Ok(NO_ERROR));
    assert!(s.players[0].data.placed != 0);
    assert_eq!(s.games.iter().filter(|g| g.player == [7, 8]).count(), 1);
    let tick = Transaction { command: TIMETICK, data: [1, 2, 0] };
    assert_eq!(tick.process(&mut s, &PKEY, &NO_SIG), Ok(NO_ERROR));
    assert_eq!(s.players[0].data.placed, 0);
    assert!(s.games.is_empty());
}

#[test]
fn replay_is_deterministic() {
    let run = || {
        let mut s = state_with(OutcomePolicy::FightAttrition, vec![]);
        let txs = vec![
            Transaction { command: REGISTER, data: [7, 8, 0] },
            Transaction { command: PLACE, data: [5, 0, 0] },
            Transaction { command: TIMETICK, data: [9, 4, 0] },
            Transaction { command: WITHDRAW, data: [0, 1, 2] },
        ];
        for tx in &txs {
            tx.process(&mut s, &PKEY, &[6, 0, 0, 0]).unwrap();
        }
        let batch = s.flush_settlement();
        (s, batch)
    };
    let (s1, b1) = run();
    let (s2, b2) = run();
    assert_eq!(s1, s2);
    assert_eq!(b1, b2);
}

#[test]
fn flush_settlement_drains_in_order() {
    let mut s = state_with(OutcomePolicy::FightAttrition, vec![account(100, 0, 0, 0)]);
    let w1 = Transaction { command: WITHDRAW, data: [10, 5, 6] };
    let w2 = Transaction { command: WITHDRAW, data: [20, 7, 9] };
    assert_eq!(w1.process(&mut s, &PKEY, &NO_SIG), Ok(NO_ERROR));
    assert_eq!(w2.process(&mut s, &PKEY, &NO_SIG), Ok(NO_ERROR));
    let batch = s.flush_settlement();
    assert_eq!(batch, vec![[10, 5, 6], [20, 7, 9]]);
    assert!(s.settlements.is_empty());
    assert_eq!(s.players[0].data.balance, 70);
}

#[test]
fn store_and_initialize_round_trip() {
    let mut s = state_with(OutcomePolicy::FightAttrition, vec![]);
    s.rand_commitment = 42;
    s.counter = 7;
    let words = s.store();
    assert_eq!(words, vec![42, 7]);
    let mut t = State::new(OutcomePolicy::FightAttrition);
    t.initialize(&words);
    assert_eq!(t.rand_commitment, 42);
    assert_eq!(t.counter, 7);
    let before = t.clone();
    t.initialize(&vec![]);
    assert_eq!(t, before);
}

#[test]
fn preempt_and_rand_seed() {
    let mut s = State::new(OutcomePolicy::FightAttrition);
    assert!(s.preempt());
    s.counter = 5;
    assert!(!s.preempt());
    s.counter = 200;
    assert!(s.preempt());
    s.rand_commitment = 99;
    assert_eq!(s.rand_seed(), 99);
}

#[test]
fn new_game_appends_in_order() {
    let mut s = State::new(OutcomePolicy::FightAttrition);
    let p = account(0, 1, 0, 0);
    let g1 = Game::new(&p, 3, 4);
    let g2 = Game::new(&p, 5, 6);
    s.new_game(g1);
    s.new_game(g2);
    assert_eq!(s.games, vec![g1, g2]);
    assert_eq!(g1, Game { player: [7, 8], bet: 3, rand: 4, result: None });
}

#[test]
fn tick_settles_every_game_in_list_order() {
    let a = account(10, 5, 2, (1u64 << 32) + 3);
    let b = Player {
        player_id: PlayerInfo([9, 10]),
        data: PlayerData { balance: 4, power: 6, placed: 3, previous: (2u64 << 32) + 1 },
    };
    let mut s = state_with(OutcomePolicy::FightAttrition, vec![a, b]);
    s.games.push(Game { player: [7, 8], bet: 2, rand: 0, result: None });
    s.games.push(Game { player: [9, 10], bet: 3, rand: 0, result: None });
    let tick = Transaction { command: TIMETICK, data: [1, 0, 0] };
    assert_eq!(tick.process(&mut s, &PKEY, &NO_SIG), Ok(NO_ERROR));
    // fight tag while wagering halves the balance
    assert_eq!(s.players[0].data.balance, 5);
    assert_eq!(s.players[0].data.placed, 0);
    // non-fight tag while wagering credits the low byte to power
    assert_eq!(s.players[1].data.power, 7);
    assert_eq!(s.players[1].data.placed, 0);
    assert!(s.games.is_empty());
}

#[test]
fn settle_overflow_in_any_game_leaves_everything_untouched() {
    let a = account(10, 5, 2, (1u64 << 32) + 3);
    let b = Player {
        player_id: PlayerInfo([9, 10]),
        data: PlayerData { balance: 4, power: u64::MAX, placed: 3, previous: (2u64 << 32) + 1 },
    };
    let mut s = state_with(OutcomePolicy::FightAttrition, vec![a, b]);
    s.games.push(Game { player: [7, 8], bet: 2, rand: 0, result: None });
    s.games.push(Game { player: [9, 10], bet: 3, rand: 0, result: None });
    let before = s.clone();
    let tick = Transaction { command: TIMETICK, data: [1, 0, 0] };
    assert_eq!(tick.process(&mut s, &PKEY, &NO_SIG), Err(Fatal::Overflow));
    // the first game would have settled cleanly; nothing may show of it
    assert_eq!(s, before);
}

#[test]
fn account_record_round_trip() {
    let p = account(10, 20, 30, 40);
    let record = p.record();
    assert_eq!(record, vec![10, 20, 30, 40]);
    let q = Player::from_record(&[0, 7, 8, 0], &record).unwrap();
    assert_eq!(q, p);
    assert_eq!(Player::from_record(&[0, 7, 8, 0], &vec![]), None);
}
