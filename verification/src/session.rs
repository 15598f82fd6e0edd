//! The per-socket session state machine: what a client request does in
//! each state, how broker stream entries drive transitions, where a
//! session resumes reading after a reconnect, and when a disconnect may
//! clean up and forfeit.
//!
//! The functions here decide; the surrounding process performs the I/O the
//! decisions call for and feeds the results back.

use vstd::prelude::*;

use crate::board::{Player, Turn};
use crate::play::{ChatMessage, PlayRequest, TurnStart, MAX_CHAT_LEN};
use crate::setup::{setup_wf, BoardSetup, GameStart};

verus! {

/// A broker stream entry id: milliseconds and a sequence number within
/// them, ordered lexicographically.
#[derive(Debug, Clone, Copy, PartialEq, Eq, Structural)]
pub struct StreamId {
    pub ms: u64,
    pub seq: u64,
}

impl StreamId {
    pub open spec fn spec_le(self, other: StreamId) -> bool {
        self.ms < other.ms || (self.ms == other.ms && self.seq <= other.seq)
    }

    pub open spec fn spec_lt(self, other: StreamId) -> bool {
        self.ms < other.ms || (self.ms == other.ms && self.seq < other.seq)
    }
}

/// The session state, one per user, as persisted between reconnects.
#[derive(Debug, Clone)]
pub enum PlaySocketState {
    WaitingForSetup { last_message: Option<StreamId> },
    Matchmaking { elo: i64, elo_range: i64, setup: BoardSetup, last_message: Option<StreamId> },
    Game { game_id: u128, my_turn: bool, player: Player, last_message: Option<StreamId> },
}

/// The model of a session state.
pub enum PlaySocketStateV {
    WaitingForSetup { last_message: Option<StreamId> },
    Matchmaking {
        elo: i64,
        elo_range: i64,
        setup: Seq<Seq<Option<crate::piece::SetupPieceType>>>,
        last_message: Option<StreamId>,
    },
    Game { game_id: u128, my_turn: bool, player: Player, last_message: Option<StreamId> },
}

impl View for PlaySocketState {
    type V = PlaySocketStateV;

    open spec fn view(&self) -> PlaySocketStateV {
        match self {
            PlaySocketState::WaitingForSetup { last_message } => PlaySocketStateV::WaitingForSetup {
                last_message: *last_message,
            },
            PlaySocketState::Matchmaking { elo, elo_range, setup, last_message } => {
                PlaySocketStateV::Matchmaking {
                    elo: *elo,
                    elo_range: *elo_range,
                    setup: setup@,
                    last_message: *last_message,
                }
            },
            PlaySocketState::Game { game_id, my_turn, player, last_message } => {
                PlaySocketStateV::Game {
                    game_id: *game_id,
                    my_turn: *my_turn,
                    player: *player,
                    last_message: *last_message,
                }
            },
        }
    }
}

impl PlaySocketState {
    /// The stream cursor: the id of the last entry this session acted on.
    pub open spec fn spec_last_message(self) -> Option<StreamId> {
        match self {
            PlaySocketState::WaitingForSetup { last_message } => last_message,
            PlaySocketState::Matchmaking { last_message, .. } => last_message,
            PlaySocketState::Game { last_message, .. } => last_message,
        }
    }

    /// The state with its cursor moved to `id`.
    pub open spec fn spec_with_last(self, id: StreamId) -> PlaySocketState {
        match self {
            PlaySocketState::WaitingForSetup { .. } => PlaySocketState::WaitingForSetup {
                last_message: Some(id),
            },
            PlaySocketState::Matchmaking { elo, elo_range, setup, .. } => {
                PlaySocketState::Matchmaking { elo, elo_range, setup, last_message: Some(id) }
            },
            PlaySocketState::Game { game_id, my_turn, player, .. } => PlaySocketState::Game {
                game_id,
                my_turn,
                player,
                last_message: Some(id),
            },
        }
    }
}

/// Where a session reads: its game's stream while in a game, its own user
/// stream otherwise.
#[derive(Debug, Clone, Copy, PartialEq, Eq, Structural)]
pub enum SessionStreamKey {
    Game { game_id: u128 },
    User { user_id: u128 },
}

/// Where a resumed session starts reading: strictly after the stored
/// cursor; from the beginning of the stream; or only entries newer than
/// the connection.
#[derive(Debug, Clone, Copy, PartialEq, Eq, Structural)]
pub enum ResumeCursor {
    After { id: StreamId },
    FromStart,
    OnlyNew,
}

/// Whether an entry with id `id` is replayed when reading resumes at
/// `cursor`. Entries that only arrive after the connection are not a
/// replay.
pub open spec fn cursor_replays(cursor: ResumeCursor, id: StreamId) -> bool {
    match cursor {
        ResumeCursor::After { id: c } => c.spec_lt(id),
        ResumeCursor::FromStart => true,
        ResumeCursor::OnlyNew => false,
    }
}

impl PlaySocketState {
    /// The stream this session reads.
    pub fn stream_key(&self, user_id: u128) -> (r: SessionStreamKey)
        ensures
            r == match *self {
                PlaySocketState::Game { game_id, .. } => SessionStreamKey::Game { game_id },
                _ => SessionStreamKey::User { user_id },
            },
    {
        match self {
            PlaySocketState::Game { game_id, .. } => SessionStreamKey::Game { game_id: *game_id },
            _ => SessionStreamKey::User { user_id },
        }
    }

    /// Where this session resumes reading: right after its cursor when one
    /// is stored; from the stream's start for a game (no game entry may be
    /// missed); only new entries elsewhere.
    pub fn resume_cursor(&self) -> (r: ResumeCursor)
        ensures
            r == match self.spec_last_message() {
                Some(id) => ResumeCursor::After { id },
                None => if *self matches PlaySocketState::Game { .. } {
                    ResumeCursor::FromStart
                } else {
                    ResumeCursor::OnlyNew
                },
            },
    {
        match self {
            PlaySocketState::WaitingForSetup { last_message } => match last_message {
                Some(id) => ResumeCursor::After { id: *id },
                None => ResumeCursor::OnlyNew,
            },
            PlaySocketState::Matchmaking { last_message, .. } => match last_message {
                Some(id) => ResumeCursor::After { id: *id },
                None => ResumeCursor::OnlyNew,
            },
            PlaySocketState::Game { last_message, .. } => match last_message {
                Some(id) => ResumeCursor::After { id: *id },
                None => ResumeCursor::FromStart,
            },
        }
    }
}

/// One broker stream entry as the session sees it: its id and whichever of
/// the producer keys are present.
#[derive(Debug)]
pub struct StreamEvent {
    pub id: StreamId,
    pub game_start: Option<GameStart>,
    pub turn_start: Option<TurnStart>,
    pub moves: Option<Vec<crate::board::Move>>,
    pub chat: Option<ChatMessage>,
    pub end: Option<u128>,
}

/// What the session asks its socket to do in response to stream entries.
#[derive(Debug)]
pub enum SocketEffect {
    /// Load the game's board and chat log and send GameState and FullChat.
    SendGameState,
    /// Forward a turn start.
    SendTurnStart { turn_start: TurnStart },
    /// Tell the client it is their turn.
    SendYourTurn,
    /// Forward applied sub-moves.
    SendMoves { moves: Vec<crate::board::Move> },
    /// Forward another player's chat line.
    SendChat { message: ChatMessage },
    /// Forward the game's end; the socket closes after this.
    SendEnd { winner: u128 },
}

/// The state after a game-start entry: a fresh Game session for the
/// announced game, on the side whose id matches, not yet to move. A
/// session already in a game keeps its cursor; any other starts the game
/// stream afresh.
pub open spec fn v_apply_game_start(
    state: PlaySocketState,
    user_id: u128,
    white_id: u128,
    game_id: u128,
) -> PlaySocketState {
    PlaySocketState::Game {
        game_id,
        my_turn: false,
        player: if user_id == white_id {
            Player::White
        } else {
            Player::Black
        },
        last_message: match state {
            PlaySocketState::Game { last_message, .. } => last_message,
            _ => None,
        },
    }
}

/// The state after a turn-start entry: in a game, `my_turn` follows from
/// comparing the announced side with the session's own; elsewhere nothing
/// changes.
pub open spec fn v_apply_turn_start(state: PlaySocketState, turn: Player) -> PlaySocketState {
    match state {
        PlaySocketState::Game { game_id, player, last_message, .. } => PlaySocketState::Game {
            game_id,
            my_turn: turn == player,
            player,
            last_message,
        },
        _ => state,
    }
}

/// The whole dispatch of one stream entry: the cursor moves to its id,
/// then each present key acts in order (game start, turn start, moves,
/// chat, end). The result is the new state, the socket effects in order,
/// and whether the socket stays open.
pub open spec fn v_process_stream(state: PlaySocketState, user_id: u128, ev: StreamEvent) -> (
    PlaySocketState,
    Seq<SocketEffect>,
    bool,
) {
    let s1 = state.spec_with_last(ev.id);
    let s2 = match ev.game_start {
        Some(gs) => v_apply_game_start(s1, user_id, gs.white.id, gs.game_id),
        None => s1,
    };
    let e2: Seq<SocketEffect> = match ev.game_start {
        Some(_) => seq![SocketEffect::SendGameState],
        None => Seq::empty(),
    };
    let s3 = match ev.turn_start {
        Some(ts) => v_apply_turn_start(s2, ts.turn),
        None => s2,
    };
    let e3: Seq<SocketEffect> = match ev.turn_start {
        Some(ts) => match s2 {
            PlaySocketState::Game { player, .. } => seq![
                SocketEffect::SendTurnStart { turn_start: ts },
            ] + if ts.turn == player {
                seq![SocketEffect::SendYourTurn]
            } else {
                Seq::empty()
            },
            _ => Seq::empty(),
        },
        None => Seq::empty(),
    };
    let e4: Seq<SocketEffect> = match ev.moves {
        Some(ms) => seq![SocketEffect::SendMoves { moves: ms }],
        None => Seq::empty(),
    };
    let e5: Seq<SocketEffect> = match ev.chat {
        Some(c) => if c.id != user_id {
            seq![SocketEffect::SendChat { message: c }]
        } else {
            Seq::empty()
        },
        None => Seq::empty(),
    };
    let e6: Seq<SocketEffect> = match ev.end {
        Some(w) => seq![SocketEffect::SendEnd { winner: w }],
        None => Seq::empty(),
    };
    (s3, e2 + e3 + e4 + e5 + e6, ev.end is None)
}

impl PlaySocketState {
    /// Act on one stream entry, as `v_process_stream` describes. Returns
    /// the socket effects in order and whether the socket stays open.
    #[verifier::rlimit(60)]
    pub fn process_stream_id(&mut self, user_id: u128, event: StreamEvent) -> (r: (
        Vec<SocketEffect>,
        bool,
    ))
        ensures
            *final(self) == v_process_stream(*old(self), user_id, event).0,
            r.0@ == v_process_stream(*old(self), user_id, event).1,
            r.1 == v_process_stream(*old(self), user_id, event).2,
    {
        let ghost s0 = *self;
        let mut effects: Vec<SocketEffect> = Vec::new();
        let StreamEvent { id, game_start, turn_start, moves, chat, end } = event;
        // move the cursor
        match self {
            PlaySocketState::WaitingForSetup { last_message } => {
                *last_message = Some(id);
            },
            PlaySocketState::Matchmaking { last_message, .. } => {
                *last_message = Some(id);
            },
            PlaySocketState::Game { last_message, .. } => {
                *last_message = Some(id);
            },
        }
        proof {
            assert(*self == s0.spec_with_last(id));
        }
        // a game start replaces the session with a fresh game session
        match game_start {
            Some(gs) => {
                let keep = match self {
                    PlaySocketState::Game { last_message, .. } => *last_message,
                    _ => None,
                };
                *self = PlaySocketState::Game {
                    game_id: gs.game_id,
                    my_turn: false,
                    player: if user_id == gs.white.id {
                        Player::White
                    } else {
                        Player::Black
                    },
                    last_message: keep,
                };
                effects.push(SocketEffect::SendGameState);
            },
            None => {},
        }
        let ghost s2 = *self;
        let ghost eff2 = effects@;
        // a turn start updates whose turn it is and is forwarded
        match turn_start {
            Some(ts) => {
                match self {
                    PlaySocketState::Game { my_turn, player, .. } => {
                        *my_turn = ts.turn == *player;
                        let mine = *my_turn;
                        effects.push(SocketEffect::SendTurnStart { turn_start: ts });
                        if mine {
                            effects.push(SocketEffect::SendYourTurn);
                        }
                    },
                    _ => {},
                }
            },
            None => {},
        }
        // applied sub-moves are forwarded as they are
        match moves {
            Some(ms) => {
                effects.push(SocketEffect::SendMoves { moves: ms });
            },
            None => {},
        }
        // chat is forwarded unless this session authored it
        match chat {
            Some(c) => {
                if c.id != user_id {
                    effects.push(SocketEffect::SendChat { message: c });
                }
            },
            None => {},
        }
        // the end of the game is forwarded and closes the socket
        let keep_open = match end {
            Some(w) => {
                effects.push(SocketEffect::SendEnd { winner: w });
                false
            },
            None => true,
        };
        proof {
            assert(effects@ =~= v_process_stream(s0, user_id, event).1);
        }
        (effects, keep_open)
    }
}

/// What handling one client request asks the surrounding process to do.
#[derive(Debug)]
pub enum RequestAction {
    /// The request is not legal in the current state: drop it silently.
    Ignore,
    /// Publish the turn to the game-requests stream, then save the state.
    PublishTurn { turn: Turn },
    /// Publish the chat line on the game's stream, echo it to the sender,
    /// and push it onto the game's capped chat log.
    PublishChat { game_id: u128, message: ChatMessage },
    /// Write the widened range to the matchmaking queue row, then run the
    /// matchmaker again.
    UpdateEloRange { elo_range: i64 },
    /// Look up the player's rating, then call `enter_matchmaking` with it.
    EnterMatchmaking { setup: BoardSetup },
    /// Leave the game loop; the session surrenders.
    Surrender,
}

/// The handling of one client request: what the state becomes and what the
/// process must do. A turn is accepted only in a game and on one's own
/// turn, and spends that turn at once; chat is capped and game-bound; the
/// range widens only while matchmaking (doubling, stopped at the type's
/// maximum); a setup is accepted only before matchmaking and only when
/// valid; surrender only inside a game.
pub open spec fn v_handle_message(
    state: PlaySocketState,
    user_id: u128,
    request: PlayRequest,
) -> (PlaySocketState, RequestAction) {
    match request {
        PlayRequest::Turn { piece_idx, move_idx } => match state {
            PlaySocketState::Game { game_id, my_turn, player, last_message } => if my_turn {
                (
                    PlaySocketState::Game { game_id, my_turn: false, player, last_message },
                    RequestAction::PublishTurn {
                        turn: Turn { game_id, piece_idx, move_idx },
                    },
                )
            } else {
                (state, RequestAction::Ignore)
            },
            _ => (state, RequestAction::Ignore),
        },
        PlayRequest::ChatMessage { message } => if message.len() > MAX_CHAT_LEN {
            (state, RequestAction::Ignore)
        } else {
            match state {
                PlaySocketState::Game { game_id, .. } => (
                    state,
                    RequestAction::PublishChat {
                        game_id,
                        message: ChatMessage { id: user_id, message },
                    },
                ),
                _ => (state, RequestAction::Ignore),
            }
        },
        PlayRequest::ExpandEloRange => match state {
            PlaySocketState::Matchmaking { elo, elo_range, setup, last_message } => {
                let widened: i64 = if 0 <= elo_range <= i64::MAX / 2 {
                    (elo_range * 2) as i64
                } else {
                    elo_range
                };
                (
                    PlaySocketState::Matchmaking {
                        elo,
                        elo_range: widened,
                        setup,
                        last_message,
                    },
                    RequestAction::UpdateEloRange { elo_range: widened },
                )
            },
            _ => (state, RequestAction::Ignore),
        },
        PlayRequest::BoardSetup { setup } => match state {
            PlaySocketState::WaitingForSetup { .. } => if crate::setup::v_total_value(setup@)
                <= crate::setup::MAX_TOTAL_VALUE as int && crate::setup::v_contains_king(setup@) {
                (state, RequestAction::EnterMatchmaking { setup })
            } else {
                (state, RequestAction::Ignore)
            },
            _ => (state, RequestAction::Ignore),
        },
        PlayRequest::Surrender => match state {
            PlaySocketState::Game { .. } => (state, RequestAction::Surrender),
            _ => (state, RequestAction::Ignore),
        },
    }
}

impl PlaySocketState {
    /// Handle one client request, as `v_handle_message` describes.
    pub fn handle_message(&mut self, user_id: u128, request: PlayRequest) -> (a: RequestAction)
        requires
            (request matches PlayRequest::BoardSetup { setup } ==> setup_wf(setup@)),
        ensures
            *final(self) == v_handle_message(*old(self), user_id, request).0,
            a == v_handle_message(*old(self), user_id, request).1,
    {
        match request {
            PlayRequest::Turn { piece_idx, move_idx } => match self {
                PlaySocketState::Game { game_id, my_turn, .. } => {
                    if *my_turn {
                        *my_turn = false;
                        RequestAction::PublishTurn {
                            turn: Turn { game_id: *game_id, piece_idx, move_idx },
                        }
                    } else {
                        RequestAction::Ignore
                    }
                },
                _ => RequestAction::Ignore,
            },
            PlayRequest::ChatMessage { message } => {
                if message.len() > MAX_CHAT_LEN {
                    return RequestAction::Ignore;
                }
                match self {
                    PlaySocketState::Game { game_id, .. } => RequestAction::PublishChat {
                        game_id: *game_id,
                        message: ChatMessage { id: user_id, message },
                    },
                    _ => RequestAction::Ignore,
                }
            },
            PlayRequest::ExpandEloRange => match self {
                PlaySocketState::Matchmaking { elo_range, .. } => {
                    let widened: i64 = if 0 <= *elo_range && *elo_range <= i64::MAX / 2 {
                        *elo_range * 2
                    } else {
                        *elo_range
                    };
                    *elo_range = widened;
                    RequestAction::UpdateEloRange { elo_range: widened }
                },
                _ => RequestAction::Ignore,
            },
            PlayRequest::BoardSetup { setup } => match self {
                PlaySocketState::WaitingForSetup { .. } => {
                    if setup.is_valid() {
                        RequestAction::EnterMatchmaking { setup }
                    } else {
                        RequestAction::Ignore
                    }
                },
                _ => RequestAction::Ignore,
            },
            PlayRequest::Surrender => match self {
                PlaySocketState::Game { .. } => RequestAction::Surrender,
                _ => RequestAction::Ignore,
            },
        }
    }

    /// Enter matchmaking with a validated setup and the rating just read
    /// from the store: the opening range is 200 rating points.
    pub fn enter_matchmaking(&mut self, setup: BoardSetup, elo: i64)
        ensures
            *final(self) == (PlaySocketState::Matchmaking {
                elo,
                elo_range: 200,
                setup,
                last_message: None,
            }),
    {
        *self = PlaySocketState::Matchmaking { elo, elo_range: 200, setup, last_message: None };
    }

    /// Fall back to waiting for a setup, as done when the game a session
    /// believed in no longer exists.
    pub fn reset_to_waiting(&mut self)
        ensures
            *final(self) == (PlaySocketState::WaitingForSetup { last_message: None }),
    {
        *self = PlaySocketState::WaitingForSetup { last_message: None };
    }
}

/// Cleanup steps after a session ends, in order.
#[derive(Debug, Clone, Copy, PartialEq, Eq, Structural)]
pub enum CleanupAction {
    /// Delete the session's queue row.
    LeaveQueue,
    /// Delete the session's state, user stream and snowflake keys.
    DeleteKeys,
    /// Publish a forfeit of the session's game to the game-requests stream.
    PublishForfeit { game_id: u128, user_id: u128 },
}

/// The cleanup of one session: leave the queue, delete its keys, and
/// forfeit its game exactly when it was in one and the exit surrenders.
pub open spec fn v_cleanup_actions(
    state: PlaySocketState,
    user_id: u128,
    surrender: bool,
) -> Seq<CleanupAction> {
    seq![CleanupAction::LeaveQueue, CleanupAction::DeleteKeys] + (match state {
        PlaySocketState::Game { game_id, .. } => if surrender {
            seq![CleanupAction::PublishForfeit { game_id, user_id }]
        } else {
            Seq::empty()
        },
        _ => Seq::empty(),
    })
}

/// The cleanup steps for an ended session.
pub fn cleanup_actions(state: &PlaySocketState, user_id: u128, surrender: bool) -> (r: Vec<
    CleanupAction,
>)
    ensures
        r@ == v_cleanup_actions(*state, user_id, surrender),
{
    let mut r: Vec<CleanupAction> = Vec::new();
    r.push(CleanupAction::LeaveQueue);
    r.push(CleanupAction::DeleteKeys);
    match state {
        PlaySocketState::Game { game_id, .. } => {
            if surrender {
                r.push(CleanupAction::PublishForfeit { game_id: *game_id, user_id });
            }
        },
        _ => {},
    }
    proof {
        assert(r@ =~= v_cleanup_actions(*state, user_id, surrender));
    }
    r
}

/// Whether a grace timer that stored `snowflake_at_disconnect` may clean
/// up, given what the snowflake key holds when the timer fires: only when
/// the key still holds exactly the stored token.
pub fn should_cleanup(snowflake_at_disconnect: u128, snowflake_now: Option<u128>) -> (r: bool)
    ensures
        r == (snowflake_now == Some(snowflake_at_disconnect)),
{
    match snowflake_now {
        Some(s) => s == snowflake_at_disconnect,
        None => false,
    }
}

/// What a fired grace timer does: the full cleanup when its snowflake
/// still stands, nothing at all otherwise.
pub open spec fn v_grace_outcome(
    state: PlaySocketState,
    user_id: u128,
    surrender: bool,
    snowflake_at_disconnect: u128,
    snowflake_now: Option<u128>,
) -> Seq<CleanupAction> {
    if snowflake_now == Some(snowflake_at_disconnect) {
        v_cleanup_actions(state, user_id, surrender)
    } else {
        Seq::empty()
    }
}

/// The actions of a fired grace timer.
pub fn grace_timer_actions(
    state: &PlaySocketState,
    user_id: u128,
    surrender: bool,
    snowflake_at_disconnect: u128,
    snowflake_now: Option<u128>,
) -> (r: Vec<CleanupAction>)
    ensures
        r@ == v_grace_outcome(*state, user_id, surrender, snowflake_at_disconnect, snowflake_now),
{
    if should_cleanup(snowflake_at_disconnect, snowflake_now) {
        cleanup_actions(state, user_id, surrender)
    } else {
        Vec::new()
    }
}

/// Disconnect grace: when another connection for the same user has
/// replaced the snowflake by the time the grace timer fires, the timer
/// does nothing at all — in particular it forfeits nothing.
pub proof fn lemma_disconnect_grace(
    state: PlaySocketState,
    user_id: u128,
    surrender: bool,
    snowflake_at_disconnect: u128,
    snowflake_now: Option<u128>,
)
    requires
        snowflake_now != Some(snowflake_at_disconnect),
    ensures
        v_grace_outcome(state, user_id, surrender, snowflake_at_disconnect, snowflake_now)
            == Seq::<CleanupAction>::empty(),
{
}

/// Dispatching a stream entry in a game moves the cursor to that entry's
/// id: the cursor always names the last entry acted on.
pub proof fn lemma_cursor_tracks_last_entry(
    state: PlaySocketState,
    user_id: u128,
    ev: StreamEvent,
)
    requires
        state is Game,
    ensures
        v_process_stream(state, user_id, ev).0.spec_last_message() == Some(ev.id),
{
}

/// Reconnect replays in order: an entry already observed lies at or before
/// the stored cursor, a replayed entry lies strictly after it, so no
/// replayed entry precedes (or equals) any observed one.
pub proof fn lemma_reconnect_replays_in_order(
    cursor: StreamId,
    observed: StreamId,
    replayed: StreamId,
)
    requires
        observed.spec_le(cursor),
        cursor_replays(ResumeCursor::After { id: cursor }, replayed),
    ensures
        observed.spec_lt(replayed),
        !replayed.spec_le(observed),
{
}

} // verus!
