use duckchess::board::{Board, Move, MoveType, Player, Turn};
use duckchess::codec;
use duckchess::piece::{PieceType, SetupPieceType};
use duckchess::play::{ChatMessage, PlayRequest, PlayResponse};
use duckchess::session::{PlaySocketState, StreamId};
use duckchess::setup::{BoardSetup, GameStart, GameStartPlayer};
use duckchess::vec2::Vec2;

fn standard_setup() -> BoardSetup {
    let pawns: Vec<Option<SetupPieceType>> = vec![Some(SetupPieceType::Pawn); 8];
    let back: Vec<Option<SetupPieceType>> = vec![
        Some(SetupPieceType::Castle),
        Some(SetupPieceType::Knight),
        Some(SetupPieceType::Bishop),
        Some(SetupPieceType::Queen),
        Some(SetupPieceType::King),
        Some(SetupPieceType::Bishop),
        Some(SetupPieceType::Knight),
        Some(SetupPieceType::Castle),
    ];
    BoardSetup(vec![pawns, back])
}

fn fresh_board() -> Board {
    Board::new(GameStart {
        white: GameStartPlayer { id: 77, setup: standard_setup() },
        black: GameStartPlayer { id: 88, setup: standard_setup() },
        game_id: 123456789,
    })
}

#[test]
fn board_round_trips() {
    let b = fresh_board();
    let mut out = Vec::new();
    codec::encode_board(&b, &mut out);
    let (back, consumed) = codec::decode_board(&out, 0).expect("decodes");
    assert_eq!(consumed, out.len());
    let mut again = Vec::new();
    codec::encode_board(&back, &mut again);
    assert_eq!(out, again);
    assert_eq!(back.id, b.id);
    assert_eq!(back.turn, b.turn);
    assert_eq!(back.white_player, b.white_player);
    assert_eq!(back.black_player, b.black_player);
    assert_eq!(back.kings, b.kings);
    assert_eq!(back.move_pieces, b.move_pieces);
}

#[test]
fn move_round_trips() {
    let m = Move {
        move_type: MoveType::Promotion { into: PieceType::Knight },
        from: Vec2(0, 1),
        to: Vec2(0, 0),
    };
    let mut out = Vec::new();
    codec::encode_move(m, &mut out);
    let (back, consumed) = codec::decode_move(&out, 0).expect("decodes");
    assert_eq!(consumed, out.len());
    assert_eq!(back, m);
    let c = Move {
        move_type: MoveType::Castle { from: Vec2(7, 7), to: Vec2(5, 7) },
        from: Vec2(4, 7),
        to: Vec2(6, 7),
    };
    let mut out = Vec::new();
    codec::encode_move(c, &mut out);
    let (back, _) = codec::decode_move(&out, 0).expect("decodes");
    assert_eq!(back, c);
}

#[test]
fn play_request_round_trips() {
    let cases = vec![
        PlayRequest::Turn { piece_idx: 6, move_idx: 1 },
        PlayRequest::ChatMessage { message: b"good luck".to_vec() },
        PlayRequest::ExpandEloRange,
        PlayRequest::BoardSetup { setup: standard_setup() },
        PlayRequest::Surrender,
    ];
    for case in cases {
        let mut out = Vec::new();
        codec::encode_play_request(&case, &mut out);
        let (back, consumed) = codec::decode_play_request(&out, 0).expect("decodes");
        assert_eq!(consumed, out.len());
        let mut again = Vec::new();
        codec::encode_play_request(&back, &mut again);
        assert_eq!(out, again);
    }
}

#[test]
fn play_response_round_trips() {
    let b = fresh_board();
    let cases = vec![
        PlayResponse::InvalidRequest,
        PlayResponse::GameState { board: b },
        PlayResponse::Move {
            moves: vec![Move { move_type: MoveType::SlidingMove, from: Vec2(6, 7), to: Vec2(5, 5) }],
        },
        PlayResponse::End { winner: 99 },
        PlayResponse::ChatMessage {
            message: ChatMessage { id: 4, message: b"hello".to_vec() },
        },
        PlayResponse::FullChat {
            chat: vec![
                ChatMessage { id: 4, message: b"hi".to_vec() },
                ChatMessage { id: 5, message: b"hey".to_vec() },
            ],
        },
    ];
    for case in cases {
        let mut out = Vec::new();
        codec::encode_play_response(&case, &mut out);
        let (back, consumed) = codec::decode_play_response(&out, 0).expect("decodes");
        assert_eq!(consumed, out.len());
        let mut again = Vec::new();
        codec::encode_play_response(&back, &mut again);
        assert_eq!(out, again);
    }
}

#[test]
fn turn_and_game_start_round_trip() {
    let t = Turn { game_id: 7, piece_idx: 3, move_idx: 2 };
    let mut out = Vec::new();
    codec::encode_turn(&t, &mut out);
    let (back, consumed) = codec::decode_turn(&out, 0).expect("decodes");
    assert_eq!(consumed, out.len());
    assert_eq!(back, t);

    let gs = GameStart {
        white: GameStartPlayer { id: 1, setup: standard_setup() },
        black: GameStartPlayer { id: 2, setup: standard_setup() },
        game_id: 3,
    };
    let mut out = Vec::new();
    codec::encode_game_start(&gs, &mut out);
    let (back, consumed) = codec::decode_game_start(&out, 0).expect("decodes");
    assert_eq!(consumed, out.len());
    assert_eq!(back.white.id, 1);
    assert_eq!(back.black.id, 2);
    assert_eq!(back.game_id, 3);
}

#[test]
fn socket_state_round_trips() {
    let cases = vec![
        PlaySocketState::WaitingForSetup { last_message: None },
        PlaySocketState::Matchmaking {
            elo: 1500,
            elo_range: 200,
            setup: standard_setup(),
            last_message: Some(StreamId { ms: 17, seq: 3 }),
        },
        PlaySocketState::Game {
            game_id: 42,
            my_turn: true,
            player: Player::Black,
            last_message: Some(StreamId { ms: 9, seq: 0 }),
        },
    ];
    for case in cases {
        let mut out = Vec::new();
        codec::encode_socket_state(&case, &mut out);
        let (back, consumed) = codec::decode_socket_state(&out, 0).expect("decodes");
        assert_eq!(consumed, out.len());
        let mut again = Vec::new();
        codec::encode_socket_state(&back, &mut again);
        assert_eq!(out, again);
    }
}

#[test]
fn truncated_input_is_rejected() {
    let b = fresh_board();
    let mut out = Vec::new();
    codec::encode_board(&b, &mut out);
    out.pop();
    assert!(codec::decode_board(&out, 0).is_none());
    let garbage = vec![250u8, 1, 2, 3];
    assert!(codec::decode_play_request(&garbage, 0).is_none());
}
