use duckchess::board::{Player, Turn};
use duckchess::clock::{ChessClock, Timer};
use duckchess::config::{get_default_cookies_same_site, SameSiteConfig, SameSitePolicy};
use duckchess::game::Game;
use duckchess::matchmake::{find_match, matchmake, MatchmakeOutcome, QueueRow};
use duckchess::piece::SetupPieceType;
use duckchess::play::{send_game_state_responses, ChatMessage, PlayRequest, PlayResponse, TurnStart};
use duckchess::session::{
    cleanup_actions, grace_timer_actions, CleanupAction, PlaySocketState, RequestAction,
    ResumeCursor, SessionStreamKey, SocketEffect, StreamEvent, StreamId,
};
use duckchess::setup::{BoardSetup, GameStart, GameStartPlayer};
use duckchess::worker::{end_game_chat, process_forfeit, process_game_start, process_turn};

fn standard_setup() -> BoardSetup {
    let pawns: Vec<Option<SetupPieceType>> = vec![Some(SetupPieceType::Pawn); 8];
    let back: Vec<Option<SetupPieceType>> = vec![
        Some(SetupPieceType::Castle),
        Some(SetupPieceType::Knight),
        Some(SetupPieceType::Bishop),
        Some(SetupPieceType::Queen),
        Some(SetupPieceType::King),
        Some(SetupPieceType::Bishop),
        Some(SetupPieceType::Knight),
        Some(SetupPieceType::Castle),
    ];
    BoardSetup(vec![pawns, back])
}

fn row(id: u128, elo: i64, elo_range: i64, start_time: u64) -> QueueRow {
    QueueRow { id, elo, elo_range, start_time, setup: standard_setup() }
}

#[test]
fn find_match_prefers_longest_waiting_compatible() {
    let queue = vec![
        row(1, 1500, 200, 50), // compatible, waited less
        row(2, 3000, 10, 5),   // incompatible: seeker outside its range
        row(3, 1450, 200, 10), // compatible, waited longest
    ];
    assert_eq!(find_match(&queue, 9, 1500, 200), Some(2));
    // nobody compatible
    let queue = vec![row(2, 3000, 10, 5)];
    assert_eq!(find_match(&queue, 9, 1500, 200), None);
    // a player never matches their own row
    let queue = vec![row(9, 1500, 200, 5)];
    assert_eq!(find_match(&queue, 9, 1500, 200), None);
}

#[test]
fn matchmaking_race_pairs_exactly_two() {
    // Three players with overlapping ranges arrive; the first pass pairs
    // two of them and the third waits alone.
    let mut queue: Vec<QueueRow> = Vec::new();
    // C enters an empty queue
    match matchmake(&queue, 100, 1500, 200, standard_setup(), 1) {
        MatchmakeOutcome::EnterQueue { row } => {
            assert_eq!(row.id, 100);
            assert_eq!(row.start_time, 1);
            queue.push(row);
        }
        _ => panic!("an empty queue cannot match"),
    }
    // D matches C; the transaction removes both rows
    let partner = match matchmake(&queue, 200, 1510, 200, standard_setup(), 2) {
        MatchmakeOutcome::Matched { partner, game_start } => {
            assert_eq!(partner, 100);
            let pair = [game_start.white.id, game_start.black.id];
            assert!(pair.contains(&100) && pair.contains(&200));
            partner
        }
        _ => panic!("D must match C"),
    };
    queue.retain(|r| r.id != partner && r.id != 200);
    // E now finds nobody
    match matchmake(&queue, 300, 1505, 200, standard_setup(), 3) {
        MatchmakeOutcome::EnterQueue { row } => assert_eq!(row.id, 300),
        _ => panic!("E must wait alone"),
    }
}

#[test]
fn session_turn_only_on_own_turn() {
    let mut s = PlaySocketState::Game {
        game_id: 5,
        my_turn: true,
        player: Player::White,
        last_message: None,
    };
    match s.handle_message(7, PlayRequest::Turn { piece_idx: 2, move_idx: 0 }) {
        RequestAction::PublishTurn { turn } => {
            assert_eq!(turn, Turn { game_id: 5, piece_idx: 2, move_idx: 0 });
        }
        _ => panic!("a turn on one's own turn is published"),
    }
    // the turn is spent at once: a second submission is dropped
    match s.handle_message(7, PlayRequest::Turn { piece_idx: 2, move_idx: 0 }) {
        RequestAction::Ignore => {}
        _ => panic!("a second turn before the echo is dropped"),
    }
}

#[test]
fn session_chat_is_capped_and_game_bound() {
    let mut s = PlaySocketState::Game {
        game_id: 5,
        my_turn: false,
        player: Player::White,
        last_message: None,
    };
    match s.handle_message(7, PlayRequest::ChatMessage { message: vec![b'x'; 1024] }) {
        RequestAction::PublishChat { game_id, message } => {
            assert_eq!(game_id, 5);
            assert_eq!(message.id, 7);
        }
        _ => panic!("chat within the cap is published"),
    }
    match s.handle_message(7, PlayRequest::ChatMessage { message: vec![b'x'; 1025] }) {
        RequestAction::Ignore => {}
        _ => panic!("overlong chat is dropped"),
    }
    let mut waiting = PlaySocketState::WaitingForSetup { last_message: None };
    match waiting.handle_message(7, PlayRequest::ChatMessage { message: b"hi".to_vec() }) {
        RequestAction::Ignore => {}
        _ => panic!("chat outside a game is dropped"),
    }
}

#[test]
fn session_setup_validation_gates_matchmaking() {
    let mut s = PlaySocketState::WaitingForSetup { last_message: None };
    match s.handle_message(7, PlayRequest::BoardSetup { setup: standard_setup() }) {
        RequestAction::EnterMatchmaking { .. } => {}
        _ => panic!("a valid setup enters matchmaking"),
    }
    let kingless = BoardSetup(vec![vec![None; 8], vec![None; 8]]);
    match s.handle_message(7, PlayRequest::BoardSetup { setup: kingless }) {
        RequestAction::Ignore => {}
        _ => panic!("an invalid setup is dropped"),
    }
    s.enter_matchmaking(standard_setup(), 1500);
    match &s {
        PlaySocketState::Matchmaking { elo, elo_range, .. } => {
            assert_eq!(*elo, 1500);
            assert_eq!(*elo_range, 200);
        }
        _ => panic!("enter_matchmaking moves the state"),
    }
    match s.handle_message(7, PlayRequest::ExpandEloRange) {
        RequestAction::UpdateEloRange { elo_range } => assert_eq!(elo_range, 400),
        _ => panic!("the range doubles"),
    }
}

#[test]
fn stream_dispatch_game_start_and_turn_start() {
    let mut s = PlaySocketState::Matchmaking {
        elo: 1500,
        elo_range: 200,
        setup: standard_setup(),
        last_message: None,
    };
    let gs = GameStart {
        white: GameStartPlayer { id: 7, setup: standard_setup() },
        black: GameStartPlayer { id: 8, setup: standard_setup() },
        game_id: 99,
    };
    let ts = TurnStart { turn: Player::White, move_pieces: Vec::new(), moves: Vec::new() };
    let ev = StreamEvent {
        id: StreamId { ms: 10, seq: 1 },
        game_start: Some(gs),
        turn_start: Some(ts),
        moves: None,
        chat: None,
        end: None,
    };
    let (effects, keep_open) = s.process_stream_id(7, ev);
    assert!(keep_open);
    // a fresh game session, on the White side, whose turn it now is
    match &s {
        PlaySocketState::Game { game_id, my_turn, player, last_message } => {
            assert_eq!(*game_id, 99);
            assert!(*my_turn);
            assert_eq!(*player, Player::White);
            // the game stream is new: its cursor starts unset
            assert!(last_message.is_none());
        }
        _ => panic!("a game start moves the session into the game"),
    }
    assert!(matches!(effects[0], SocketEffect::SendGameState));
    assert!(matches!(effects[1], SocketEffect::SendTurnStart { .. }));
    assert!(matches!(effects[2], SocketEffect::SendYourTurn));
}

#[test]
fn stream_dispatch_filters_own_chat_and_closes_on_end() {
    let mut s = PlaySocketState::Game {
        game_id: 99,
        my_turn: false,
        player: Player::Black,
        last_message: None,
    };
    let ev = StreamEvent {
        id: StreamId { ms: 11, seq: 0 },
        game_start: None,
        turn_start: None,
        moves: None,
        chat: Some(ChatMessage { id: 7, message: b"me".to_vec() }),
        end: None,
    };
    let (effects, keep_open) = s.process_stream_id(7, ev);
    assert!(keep_open);
    assert!(effects.is_empty(), "a session's own chat is not echoed back");
    match &s {
        PlaySocketState::Game { last_message, .. } => {
            assert_eq!(*last_message, Some(StreamId { ms: 11, seq: 0 }));
        }
        _ => unreachable!(),
    }
    let ev = StreamEvent {
        id: StreamId { ms: 12, seq: 0 },
        game_start: None,
        turn_start: None,
        moves: None,
        chat: None,
        end: Some(8),
    };
    let (effects, keep_open) = s.process_stream_id(7, ev);
    assert!(!keep_open, "the end of the game closes the socket");
    assert!(matches!(effects[0], SocketEffect::SendEnd { winner: 8 }));
}

#[test]
fn reconnect_resumes_after_cursor() {
    let s = PlaySocketState::Game {
        game_id: 99,
        my_turn: false,
        player: Player::Black,
        last_message: Some(StreamId { ms: 12, seq: 0 }),
    };
    assert_eq!(s.stream_key(7), SessionStreamKey::Game { game_id: 99 });
    assert_eq!(s.resume_cursor(), ResumeCursor::After { id: StreamId { ms: 12, seq: 0 } });
    // without a cursor a game replays from the start of its stream
    let s = PlaySocketState::Game {
        game_id: 99,
        my_turn: false,
        player: Player::Black,
        last_message: None,
    };
    assert_eq!(s.resume_cursor(), ResumeCursor::FromStart);
    let s = PlaySocketState::WaitingForSetup { last_message: None };
    assert_eq!(s.stream_key(7), SessionStreamKey::User { user_id: 7 });
    assert_eq!(s.resume_cursor(), ResumeCursor::OnlyNew);
}

#[test]
fn disconnect_grace_aborts_on_replaced_snowflake() {
    let s = PlaySocketState::Game {
        game_id: 99,
        my_turn: false,
        player: Player::Black,
        last_message: None,
    };
    // the snowflake still stands: full cleanup, with the forfeit
    let acts = grace_timer_actions(&s, 7, true, 1111, Some(1111));
    assert_eq!(
        acts,
        vec![
            CleanupAction::LeaveQueue,
            CleanupAction::DeleteKeys,
            CleanupAction::PublishForfeit { game_id: 99, user_id: 7 },
        ]
    );
    // a reconnect replaced it: the timer does nothing at all
    let acts = grace_timer_actions(&s, 7, true, 1111, Some(2222));
    assert!(acts.is_empty());
    let acts = grace_timer_actions(&s, 7, true, 1111, None);
    assert!(acts.is_empty());
    // a non-surrendering exit cleans up without a forfeit
    let acts = cleanup_actions(&s, 7, false);
    assert_eq!(acts, vec![CleanupAction::LeaveQueue, CleanupAction::DeleteKeys]);
}

#[test]
fn forfeit_names_the_other_player_winner() {
    let gs = GameStart {
        white: GameStartPlayer { id: 10, setup: standard_setup() },
        black: GameStartPlayer { id: 20, setup: standard_setup() },
        game_id: 1,
    };
    let outcome = process_game_start(gs);
    assert!(outcome.immediate_winner.is_none());
    assert_eq!(outcome.turn_start.turn, Player::White);
    let winner = process_forfeit(&outcome.board, 10);
    assert_eq!(winner, 20);
    let winner = process_forfeit(&outcome.board, 20);
    assert_eq!(winner, 10);
    let chat = end_game_chat(&outcome.board, 20);
    assert_eq!(chat.id, 0);
    assert_eq!(chat.message, b"black wins".to_vec());
    let chat = end_game_chat(&outcome.board, 10);
    assert_eq!(chat.message, b"white wins".to_vec());
}

#[test]
fn worker_processes_a_turn_and_reports_the_next_side() {
    let gs = GameStart {
        white: GameStartPlayer { id: 10, setup: standard_setup() },
        black: GameStartPlayer { id: 20, setup: standard_setup() },
        game_id: 1,
    };
    let mut board = process_game_start(gs).board;
    let turn = Turn { game_id: 1, piece_idx: 0, move_idx: 0 };
    let outcome = process_turn(&mut board, &turn).expect("a listed move is honoured");
    assert!(!outcome.game_over);
    assert_eq!(outcome.turn_start.turn, Player::Black);
    assert_eq!(outcome.winner, 10, "the mover would win were the game over now");
    // replaying with stale indices that no longer exist is a no-op
    let stale = Turn { game_id: 1, piece_idx: 50, move_idx: 0 };
    assert!(process_turn(&mut board, &stale).is_none());
}

#[test]
fn clock_runs_and_pauses() {
    let mut clock = ChessClock::new();
    assert_eq!(clock.white, Timer::Paused { time_remaining: 600 });
    let t = clock.player_timer(Player::White);
    t.start(1000);
    assert_eq!(*t, Timer::Running { end_time: 1600 });
    assert!(t.has_time(1600));
    assert!(!t.has_time(1601));
    assert!(t.pause(1300));
    assert_eq!(*t, Timer::Paused { time_remaining: 300 });
    // an expired running timer refuses to pause
    let mut expired = Timer::Running { end_time: 10 };
    assert!(!expired.pause(11));
    assert_eq!(expired, Timer::Running { end_time: 10 });
}

#[test]
fn same_site_policy_parses_exactly() {
    assert_eq!(
        SameSiteConfig::parse(&b"Lax".to_vec()),
        Some(SameSiteConfig(SameSitePolicy::Lax))
    );
    assert_eq!(
        SameSiteConfig::parse(&b"Strict".to_vec()),
        Some(SameSiteConfig(SameSitePolicy::Strict))
    );
    assert_eq!(
        SameSiteConfig::parse(&b"None".to_vec()),
        Some(SameSiteConfig(SameSitePolicy::Unrestricted))
    );
    assert_eq!(SameSiteConfig::parse(&b"lax".to_vec()), None);
    assert_eq!(get_default_cookies_same_site(), SameSiteConfig(SameSitePolicy::Lax));
}

#[test]
fn game_room_membership_and_listeners() {
    let mut g = Game::new(1);
    assert!(g.join(10));
    assert!(!g.join(10), "a player joins once");
    assert!(g.join(20));
    assert!(!g.join(30), "a room holds two players");
    assert_eq!(g.update_listeners(10, 1), 1);
    assert_eq!(g.update_listeners(10, 1), 2);
    assert_eq!(g.update_listeners(10, -1), 1);
    assert_eq!(g.get_listen_count(10), 1);
    assert_eq!(g.get_listen_count(20), 0);
    assert_eq!(g.get_total_listeners(), 1);
    let state = g.get_game_state();
    assert_eq!(state.players, vec![10, 20]);
    assert_eq!(state.listening_players, vec![10]);
    assert!(state.board.is_none());
    assert!(!state.started);
}

#[test]
fn game_state_responses_come_in_order() {
    let gs = GameStart {
        white: GameStartPlayer { id: 10, setup: standard_setup() },
        black: GameStartPlayer { id: 20, setup: standard_setup() },
        game_id: 1,
    };
    let board = process_game_start(gs).board;
    let chat = vec![ChatMessage { id: 10, message: b"glhf".to_vec() }];
    let responses = send_game_state_responses(board, chat);
    assert_eq!(responses.len(), 2);
    assert!(matches!(responses[0], PlayResponse::GameState { .. }));
    match &responses[1] {
        PlayResponse::FullChat { chat } => {
            assert_eq!(chat.len(), 1);
            assert_eq!(chat[0].message, b"glhf".to_vec());
        }
        _ => panic!("the chat log follows the board"),
    }
}
