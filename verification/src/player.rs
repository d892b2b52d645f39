use vstd::prelude::*;

verus! {

/// Canonical handle of a registered player: two 64-bit words taken from a
/// longer processed key. Equality is exact word-pair equality.
#[derive(Clone, Copy, Debug, PartialEq, Eq)]
pub struct PlayerInfo(pub [u64; 2]);

/// Two identity handles denote the same player exactly when both words agree.
pub open spec fn pid_eq(a: [u64; 2], b: [u64; 2]) -> bool {
    a[0] == b[0] && a[1] == b[1]
}

impl PlayerInfo {
    /// Extracts the identity words from a full four-word processed key.
    pub fn new(pid: &[u64; 4]) -> (r: Self)
        ensures
            r == (PlayerInfo([pid[1], pid[2]])),
    {
        PlayerInfo([pid[1], pid[2]])
    }

    pub fn from_raw(a: u64, b: u64) -> (r: Self)
        ensures
            r == (PlayerInfo([a, b])),
    {
        PlayerInfo([a, b])
    }

    /// Ledger key of this player's account record: the identity words plus two
    /// fixed suffix words that set account records apart from other record kinds.
    pub fn to_key(&self) -> (r: [u64; 4])
        ensures
            r[0] == self.0[0] && r[1] == self.0[1] && r[2] == 0xff00 && r[3] == 0xff01,
    {
        [self.0[0], self.0[1], 0xff00, 0xff01]
    }
}

/// The mutable record of one account. `balance` and `power` never underflow
/// (subtraction saturates at zero); `placed` is zero when the account is idle
/// and holds the wager amount while a game is in flight; `previous` packs the
/// tag and payload of the last settled outcome.
#[derive(Clone, Copy, Debug, PartialEq, Eq)]
pub struct PlayerData {
    pub balance: u64,
    pub power: u64,
    pub placed: u64,
    pub previous: u64,
}

/// An account: its identity handle and its record.
#[derive(Clone, Copy, Debug, PartialEq, Eq)]
pub struct Player {
    pub player_id: PlayerInfo,
    pub data: PlayerData,
}

impl Player {
    /// A fresh, zeroed account for the identity carried by a processed key.
    pub fn new(player_id: &[u64; 4]) -> (r: Self)
        ensures
            r.player_id.0[0] == player_id[1],
            r.player_id.0[1] == player_id[2],
            r.data == (PlayerData { balance: 0, power: 0, placed: 0, previous: 0 }),
    {
        Player {
            player_id: PlayerInfo::new(player_id),
            data: PlayerData { balance: 0, power: 0, placed: 0, previous: 0 },
        }
    }

    /// The words of this account's stored record, to be written under
    /// `PlayerInfo::to_key`: balance, power, placed marker, packed outcome.
    pub fn record(&self) -> (v: Vec<u64>)
        ensures
            v@ == seq![self.data.balance, self.data.power, self.data.placed, self.data.previous],
    {
        let mut v: Vec<u64> = Vec::with_capacity(4);
        v.push(self.data.balance);
        v.push(self.data.power);
        v.push(self.data.placed);
        v.push(self.data.previous);
        proof {
            assert(v@ =~= seq![
                self.data.balance,
                self.data.power,
                self.data.placed,
                self.data.previous,
            ]);
        }
        v
    }

    /// Rebuilds the account that `record` stored for the identity carried by
    /// a processed key; an empty record means the identity was never stored.
    pub fn from_record(player_id: &[u64; 4], record: &Vec<u64>) -> (r: Option<Player>)
        requires
            record@.len() == 0 || record@.len() >= 4,
        ensures
            record@.len() == 0 ==> r is None,
            record@.len() >= 4 ==> r == Some(
                Player {
                    player_id: PlayerInfo([player_id[1], player_id[2]]),
                    data: PlayerData {
                        balance: record@[0],
                        power: record@[1],
                        placed: record@[2],
                        previous: record@[3],
                    },
                },
            ),
    {
        if record.is_empty() {
            None
        } else {
            Some(
                Player {
                    player_id: PlayerInfo::new(player_id),
                    data: PlayerData {
                        balance: record[0],
                        power: record[1],
                        placed: record[2],
                        previous: record[3],
                    },
                },
            )
        }
    }
}

/// Index of the first account with the given identity, if any is present.
pub open spec fn first_match(players: Seq<Player>, pid: [u64; 2]) -> Option<int>
    decreases players.len(),
{
    if players.len() == 0 {
        None
    } else if pid_eq(players[0].player_id.0, pid) {
        Some(0int)
    } else {
        match first_match(players.skip(1), pid) {
            None => None,
            Some(i) => Some(i + 1),
        }
    }
}

/// `first_match` returns the least index holding the identity, and `None`
/// exactly when no account holds it.
pub proof fn lemma_first_match(players: Seq<Player>, pid: [u64; 2])
    ensures
        match first_match(players, pid) {
            None => forall|k: int|
                0 <= k < players.len() ==> !pid_eq(#[trigger] players[k].player_id.0, pid),
            Some(i) => 0 <= i < players.len() && pid_eq(players[i].player_id.0, pid)
                && forall|k: int| 0 <= k < i ==> !pid_eq(#[trigger] players[k].player_id.0, pid),
        },
    decreases players.len(),
{
    if players.len() != 0 && !pid_eq(players[0].player_id.0, pid) {
        let rest = players.skip(1);
        lemma_first_match(rest, pid);
        assert forall|k: int| 0 <= k < rest.len() implies rest[k] == players[k + 1] by {}
        match first_match(rest, pid) {
            None => {
                assert forall|k: int|
                    0 <= k < players.len() implies !pid_eq(
                    #[trigger] players[k].player_id.0,
                    pid,
                ) by {
                    if k >= 1 {
                        assert(players[k] == rest[k - 1]);
                    }
                }
            },
            Some(i) => {
                assert(players[i + 1] == rest[i]);
                assert forall|k: int| 0 <= k < i + 1 implies !pid_eq(
                    #[trigger] players[k].player_id.0,
                    pid,
                ) by {
                    if k >= 1 {
                        assert(players[k] == rest[k - 1]);
                    }
                }
            },
        }
    }
}

/// Linear search for an account by identity; returns the first matching index.
pub fn find_player(players: &Vec<Player>, pid: &[u64; 2]) -> (r: Option<usize>)
    ensures
        match r {
            Some(i) => first_match(players@, *pid) == Some(i as int),
            None => first_match(players@, *pid) is None,
        },
{
    let n = players.len();
    for i in 0..n
        invariant
            n == players@.len(),
            forall|k: int| 0 <= k < i ==> !pid_eq(#[trigger] players@[k].player_id.0, *pid),
    {
        if players[i].player_id.0[0] == pid[0] && players[i].player_id.0[1] == pid[1] {
            proof {
                lemma_first_match(players@, *pid);
                assert(pid_eq(players@[i as int].player_id.0, *pid));
            }
            return Some(i);
        }
    }
    proof {
        lemma_first_match(players@, *pid);
    }
    None
}

} // verus!
