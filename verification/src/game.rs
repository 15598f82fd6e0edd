//! The in-memory game room of the single-process service: who joined,
//! which player keeps how many live listeners, and the snapshot handed to
//! a client that asks for the room's state.

use vstd::prelude::*;

use crate::board::Board;

verus! {

/// A room snapshot: the joined players, those of them with a live
/// listener, the board if one was started, and whether play began.
#[derive(Debug)]
pub struct GameState {
    pub players: Vec<u64>,
    pub listening_players: Vec<u64>,
    pub board: Option<Board>,
    pub started: bool,
}

/// The first position of `id` among the listener entries from `i` on.
pub open spec fn v_find_listener(s: Seq<(u64, i32)>, id: u64, i: int) -> Option<int>
    decreases s.len() - i,
{
    if i < 0 || i >= s.len() {
        None
    } else if s[i].0 == id {
        Some(i)
    } else {
        v_find_listener(s, id, i + 1)
    }
}

/// How many listeners `id` keeps: the entry's count, or zero without one.
pub open spec fn v_listen_count(s: Seq<(u64, i32)>, id: u64) -> int {
    match v_find_listener(s, id, 0) {
        Some(i) => s[i].1 as int,
        None => 0,
    }
}

/// The ids with a positive count, in entry order, from `i` on.
pub open spec fn v_listening_ids(s: Seq<(u64, i32)>, i: int) -> Seq<u64>
    decreases s.len() - i,
{
    if i < 0 || i >= s.len() {
        Seq::empty()
    } else {
        (if s[i].1 > 0 {
            seq![s[i].0]
        } else {
            Seq::empty()
        }) + v_listening_ids(s, i + 1)
    }
}

/// How many of the players from `i` on keep a positive listener count.
pub open spec fn v_total_listeners(players: Seq<u64>, listeners: Seq<(u64, i32)>, i: int) -> int
    decreases players.len() - i,
{
    if i < 0 || i >= players.len() {
        0
    } else {
        (if v_listen_count(listeners, players[i]) > 0 {
            1int
        } else {
            0int
        }) + v_total_listeners(players, listeners, i + 1)
    }
}

/// One game room.
#[derive(Debug)]
pub struct Game {
    pub listening_players: Vec<(u64, i32)>,
    pub players: Vec<u64>,
    pub board: Option<Board>,
    pub cleanup_counters: Vec<(u64, u64)>,
    pub started: bool,
    pub id: u64,
}

impl Game {
    /// An empty room under the given id.
    pub fn new(id: u64) -> (r: Game)
        ensures
            r.listening_players@.len() == 0,
            r.players@.len() == 0,
            r.board is None,
            r.cleanup_counters@.len() == 0,
            !r.started,
            r.id == id,
    {
        Game {
            listening_players: Vec::new(),
            players: Vec::new(),
            board: None,
            cleanup_counters: Vec::new(),
            started: false,
            id,
        }
    }

    /// Whether `player_id` already joined.
    pub fn has_player(&self, player_id: u64) -> (r: bool)
        ensures
            r == self.players@.contains(player_id),
    {
        let mut i: usize = 0;
        while i < self.players.len()
            invariant
                i <= self.players@.len(),
                forall|k: int| 0 <= k < i ==> self.players@[k] != player_id,
            decreases self.players@.len() - i,
        {
            if self.players[i] == player_id {
                return true;
            }
            i = i + 1;
        }
        proof {
            assert(!self.players@.contains(player_id));
        }
        false
    }

    /// Join the room: only a player not yet present joins, and only while
    /// fewer than two have.
    pub fn join(&mut self, player_id: u64) -> (r: bool)
        ensures
            r == (!old(self).players@.contains(player_id) && old(self).players@.len() < 2),
            r ==> final(self).players@ == old(self).players@.push(player_id),
            !r ==> final(self).players@ == old(self).players@,
            *final(self) == (Game { players: final(self).players, ..*old(self) }),
    {
        if self.has_player(player_id) || self.players.len() >= 2 {
            false
        } else {
            self.players.push(player_id);
            true
        }
    }

    /// Change a player's listener count by `change` and return the new
    /// count; a player without an entry starts from zero.
    pub fn update_listeners(&mut self, player_id: u64, change: i32) -> (r: i32)
        requires
            i32::MIN <= v_listen_count(old(self).listening_players@, player_id) + change
                <= i32::MAX,
        ensures
            r == v_listen_count(old(self).listening_players@, player_id) + change,
            match v_find_listener(old(self).listening_players@, player_id, 0) {
                Some(i) => final(self).listening_players@ == old(self).listening_players@.update(
                    i,
                    (player_id, r),
                ),
                None => final(self).listening_players@ == old(self).listening_players@.push(
                    (player_id, r),
                ),
            },
            *final(self) == (Game { listening_players: final(self).listening_players, ..*old(self) }),
    {
        let ghost s0 = old(self).listening_players@;
        let mut i: usize = 0;
        while i < self.listening_players.len()
            invariant
                *self == *old(self),
                s0 == self.listening_players@,
                i <= s0.len(),
                i32::MIN <= v_listen_count(s0, player_id) + change <= i32::MAX,
                v_find_listener(s0, player_id, 0) == v_find_listener(s0, player_id, i as int),
            decreases s0.len() - i,
        {
            if self.listening_players[i].0 == player_id {
                proof {
                    assert(v_find_listener(s0, player_id, i as int) == Some(i as int));
                    assert(v_listen_count(s0, player_id) == s0[i as int].1);
                }
                let current = self.listening_players[i].1;
                let updated = current + change;
                self.listening_players[i] = (player_id, updated);
                return updated;
            }
            i = i + 1;
        }
        proof {
            assert(v_find_listener(s0, player_id, 0) is None);
        }
        self.listening_players.push((player_id, change));
        change
    }

    /// A player's current listener count.
    pub fn get_listen_count(&self, player_id: u64) -> (r: i32)
        ensures
            r == v_listen_count(self.listening_players@, player_id),
    {
        let ghost s0 = self.listening_players@;
        let mut i: usize = 0;
        while i < self.listening_players.len()
            invariant
                s0 == self.listening_players@,
                i <= s0.len(),
                v_find_listener(s0, player_id, 0) == v_find_listener(s0, player_id, i as int),
            decreases s0.len() - i,
        {
            if self.listening_players[i].0 == player_id {
                proof {
                    assert(v_find_listener(s0, player_id, i as int) == Some(i as int));
                }
                return self.listening_players[i].1;
            }
            i = i + 1;
        }
        proof {
            assert(v_find_listener(s0, player_id, 0) is None);
        }
        0
    }

    /// How many joined players keep at least one live listener.
    pub fn get_total_listeners(&self) -> (r: i32)
        requires
            self.players@.len() <= 2,
        ensures
            r == v_total_listeners(self.players@, self.listening_players@, 0),
    {
        let ghost ps = self.players@;
        let ghost ls = self.listening_players@;
        let mut total: i32 = 0;
        let mut i: usize = 0;
        while i < self.players.len()
            invariant
                ps == self.players@,
                ls == self.listening_players@,
                ps.len() <= 2,
                i <= ps.len(),
                v_total_listeners(ps, ls, 0) == total + v_total_listeners(ps, ls, i as int),
                0 <= total <= i,
            decreases ps.len() - i,
        {
            if self.get_listen_count(self.players[i]) > 0 {
                total = total + 1;
            }
            i = i + 1;
        }
        total
    }

    /// The snapshot sent to a client: the players, those listening in
    /// entry order, a copy of the board, and whether play began.
    pub fn get_game_state(&self) -> (r: GameState)
        ensures
            r.players@ == self.players@,
            r.listening_players@ == v_listening_ids(self.listening_players@, 0),
            (r.board is Some <==> self.board is Some),
            (self.board matches Some(b) ==> r.board matches Some(rb) && rb@ == b@),
            r.started == self.started,
    {
        let ghost ls = self.listening_players@;
        let mut listening: Vec<u64> = Vec::new();
        let mut i: usize = 0;
        while i < self.listening_players.len()
            invariant
                ls == self.listening_players@,
                i <= ls.len(),
                v_listening_ids(ls, 0) == listening@ + v_listening_ids(ls, i as int),
            decreases ls.len() - i,
        {
            let ghost l0 = listening@;
            let entry = self.listening_players[i];
            if entry.1 > 0 {
                listening.push(entry.0);
            }
            proof {
                assert(listening@ + v_listening_ids(ls, i + 1) =~= l0 + v_listening_ids(
                    ls,
                    i as int,
                ));
            }
            i = i + 1;
        }
        proof {
            assert(listening@ + v_listening_ids(ls, ls.len() as int) =~= listening@);
        }
        let board = match &self.board {
            Some(b) => Some(b.clone()),
            None => None,
        };
        GameState {
            players: crate::board::copy_vec(&self.players),
            listening_players: listening,
            board,
            started: self.started,
        }
    }
}

} // verus!
