use duckchess::board::{Board, Floor, Kings, Move, MoveType, Player, Tile, Turn};
use duckchess::piece::{Piece, PieceType, SetupPieceType};
use duckchess::setup::{BoardSetup, GameStart, GameStartPlayer};
use duckchess::vec2::Vec2;

fn standard_setup() -> BoardSetup {
    // row 0 stands in front (pawns), row 1 is the home row
    let pawns: Vec<Option<SetupPieceType>> = vec![Some(SetupPieceType::Pawn); 8];
    let back: Vec<Option<SetupPieceType>> = vec![
        Some(SetupPieceType::Castle),
        Some(SetupPieceType::Knight),
        Some(SetupPieceType::Bishop),
        Some(SetupPieceType::Queen),
        Some(SetupPieceType::King),
        Some(SetupPieceType::Bishop),
        Some(SetupPieceType::Knight),
        Some(SetupPieceType::Castle),
    ];
    BoardSetup(vec![pawns, back])
}

fn empty_grid() -> Vec<Vec<Tile>> {
    let mut grid = Vec::new();
    for y in 0..8 {
        let mut row = Vec::new();
        for x in 0..8 {
            let floor = if (y + x) % 2 == 0 { Floor::Light } else { Floor::Dark };
            row.push(Tile { floor, piece: None });
        }
        grid.push(row);
    }
    grid
}

fn put(grid: &mut Vec<Vec<Tile>>, x: i8, y: i8, kind: PieceType, owner: Player, has_moved: bool) {
    grid[y as usize][x as usize].piece = Some(Piece { piece_type: kind, owner, has_moved });
}

fn board_from(grid: Vec<Vec<Tile>>, kings: Kings) -> Board {
    let mut b = Board {
        id: 1,
        turn: Player::White,
        white_player: 10,
        black_player: 20,
        board: grid,
        kings,
        move_pieces: Vec::new(),
        moves: Vec::new(),
    };
    b.generate_moves(true);
    b
}

fn total_moves(b: &Board) -> usize {
    b.moves.iter().map(|row| row.len()).sum()
}

#[test]
fn standard_opening_has_twenty_moves() {
    let gs = GameStart {
        white: GameStartPlayer { id: 10, setup: standard_setup() },
        black: GameStartPlayer { id: 20, setup: standard_setup() },
        game_id: 1,
    };
    let b = Board::new(gs);
    assert_eq!(b.turn, Player::White);
    assert_eq!(total_moves(&b), 20);
    // sixteen pawn moves and four knight moves
    let mut pawn_moves = 0;
    let mut knight_moves = 0;
    for (i, origin) in b.move_pieces.iter().enumerate() {
        let piece = b.board[origin.1 as usize][origin.0 as usize].piece.clone().unwrap();
        match piece.piece_type {
            PieceType::Pawn { .. } => pawn_moves += b.moves[i].len(),
            PieceType::Knight => knight_moves += b.moves[i].len(),
            _ => panic!("only pawns and knights can open"),
        }
    }
    assert_eq!(pawn_moves, 16);
    assert_eq!(knight_moves, 4);
}

#[test]
fn knight_to_f3_round_trip_turn() {
    let gs = GameStart {
        white: GameStartPlayer { id: 10, setup: standard_setup() },
        black: GameStartPlayer { id: 20, setup: standard_setup() },
        game_id: 1,
    };
    let mut b = Board::new(gs);
    // the g1 knight stands at (6, 7); find its option onto f3 = (5, 5)
    let piece_idx = b.move_pieces.iter().position(|p| *p == Vec2(6, 7)).unwrap();
    let move_idx = b.moves[piece_idx].iter().position(|m| m.to == Vec2(5, 5)).unwrap();
    let chosen = b.moves[piece_idx][move_idx].clone();
    assert!(matches!(chosen.move_type, MoveType::JumpingMove));
    let turn = Turn { game_id: b.id, piece_idx, move_idx };
    let (applied, game_over) = b.evaluate_turn(&turn).unwrap();
    assert_eq!(applied.len(), 2);
    assert_eq!(applied[0].from, Vec2(6, 7));
    assert_eq!(applied[0].to, Vec2(5, 5));
    assert!(matches!(applied[1].move_type, MoveType::TurnEnd));
    assert!(!game_over);
    assert_eq!(b.turn, Player::Black);
    // the knight now stands on f3
    let knight = b.board[5][5].piece.clone().unwrap();
    assert!(matches!(knight.piece_type, PieceType::Knight));
    assert_eq!(knight.owner, Player::White);
}

#[test]
fn en_passant_capture() {
    // White pawn on e5 = (4, 3); Black pawn just double-advanced to d5 = (3, 3).
    let mut grid = empty_grid();
    put(&mut grid, 4, 7, PieceType::King, Player::White, false);
    put(&mut grid, 4, 0, PieceType::King, Player::Black, false);
    put(
        &mut grid,
        4,
        3,
        PieceType::Pawn { turns_since_double_advance: None },
        Player::White,
        true,
    );
    put(
        &mut grid,
        3,
        3,
        PieceType::Pawn { turns_since_double_advance: Some(1) },
        Player::Black,
        true,
    );
    let mut b = board_from(grid, Kings { white: Vec2(4, 7), black: Vec2(4, 0) });
    let piece_idx = b.move_pieces.iter().position(|p| *p == Vec2(4, 3)).unwrap();
    let move_idx = b.moves[piece_idx]
        .iter()
        .position(|m| matches!(m.move_type, MoveType::EnPassant))
        .expect("en passant must be offered");
    let ep = b.moves[piece_idx][move_idx].clone();
    assert_eq!(ep.from, Vec2(4, 3));
    assert_eq!(ep.to, Vec2(3, 2));
    let turn = Turn { game_id: b.id, piece_idx, move_idx };
    let (applied, _) = b.evaluate_turn(&turn).unwrap();
    // captured pawn hops onto the target first, then the capture, then the turn end
    assert_eq!(applied.len(), 3);
    assert!(matches!(applied[0].move_type, MoveType::JumpingMove));
    assert_eq!(applied[0].from, Vec2(3, 3));
    assert_eq!(applied[0].to, Vec2(3, 2));
    assert!(matches!(applied[1].move_type, MoveType::EnPassant));
    assert!(matches!(applied[2].move_type, MoveType::TurnEnd));
    // board: White pawn on d6, d5 and e5 empty
    let d6 = b.board[2][3].piece.clone().unwrap();
    assert!(matches!(d6.piece_type, PieceType::Pawn { .. }));
    assert_eq!(d6.owner, Player::White);
    assert!(b.board[3][3].piece.is_none());
    assert!(b.board[3][4].piece.is_none());
}

#[test]
fn castling_through_check_is_not_offered() {
    // White king e1 = (4, 7), rook h1 = (7, 7); Black rook controls the f-file.
    let mut grid = empty_grid();
    put(&mut grid, 4, 7, PieceType::King, Player::White, false);
    put(&mut grid, 7, 7, PieceType::Castle, Player::White, false);
    put(&mut grid, 4, 0, PieceType::King, Player::Black, false);
    put(&mut grid, 5, 1, PieceType::Castle, Player::Black, false);
    let b = board_from(grid, Kings { white: Vec2(4, 7), black: Vec2(4, 0) });
    for row in &b.moves {
        for m in row {
            assert!(
                !matches!(m.move_type, MoveType::Castle { .. }),
                "castling through an attacked square must not be offered"
            );
        }
    }
}

#[test]
fn castling_is_offered_on_a_clear_safe_wing() {
    let mut grid = empty_grid();
    put(&mut grid, 4, 7, PieceType::King, Player::White, false);
    put(&mut grid, 7, 7, PieceType::Castle, Player::White, false);
    put(&mut grid, 4, 0, PieceType::King, Player::Black, false);
    let b = board_from(grid, Kings { white: Vec2(4, 7), black: Vec2(4, 0) });
    let mut castle: Option<Move> = None;
    for row in &b.moves {
        for m in row {
            if matches!(m.move_type, MoveType::Castle { .. }) {
                castle = Some(m.clone());
            }
        }
    }
    let castle = castle.expect("castling must be offered");
    assert_eq!(castle.from, Vec2(4, 7));
    assert_eq!(castle.to, Vec2(6, 7));
    match castle.move_type {
        MoveType::Castle { from, to } => {
            assert_eq!(from, Vec2(7, 7));
            assert_eq!(to, Vec2(5, 7));
        }
        _ => unreachable!(),
    }
}

#[test]
fn promotion_offers_four_choices() {
    // White pawn on a7 = (0, 1) with a8 = (0, 0) empty.
    let mut grid = empty_grid();
    put(&mut grid, 4, 7, PieceType::King, Player::White, false);
    put(&mut grid, 4, 2, PieceType::King, Player::Black, true);
    put(
        &mut grid,
        0,
        1,
        PieceType::Pawn { turns_since_double_advance: None },
        Player::White,
        true,
    );
    let b = board_from(grid, Kings { white: Vec2(4, 7), black: Vec2(4, 2) });
    let piece_idx = b.move_pieces.iter().position(|p| *p == Vec2(0, 1)).unwrap();
    let promos: Vec<&Move> = b.moves[piece_idx]
        .iter()
        .filter(|m| matches!(m.move_type, MoveType::Promotion { .. }))
        .collect();
    assert_eq!(promos.len(), 4);
    let mut kinds = Vec::new();
    for m in &promos {
        assert_eq!(m.to, Vec2(0, 0));
        if let MoveType::Promotion { into } = &m.move_type {
            kinds.push(into.clone());
        }
    }
    assert!(matches!(kinds[0], PieceType::Queen));
    assert!(matches!(kinds[1], PieceType::Knight));
    assert!(matches!(kinds[2], PieceType::Bishop));
    assert!(matches!(kinds[3], PieceType::Castle));
}

#[test]
fn setup_validation_requires_king_and_budget() {
    // the standard rows are worth 4300, within the 4800 budget
    assert!(standard_setup().is_valid());
    assert_eq!(standard_setup().total_value(), 4300);
    // no king: invalid despite a tiny budget
    let mut rows = vec![vec![None; 8], vec![None; 8]];
    rows[1][0] = Some(SetupPieceType::Pawn);
    assert!(!BoardSetup(rows).is_valid());
    // a king, but over budget: one king and eight queens cost 7600
    let mut rows = vec![vec![None; 8], vec![None; 8]];
    rows[1][4] = Some(SetupPieceType::King);
    for x in 0..8 {
        rows[0][x] = Some(SetupPieceType::Queen);
    }
    assert!(!BoardSetup(rows).is_valid());
    // exactly at the cap: a king and eight rooks and a pawn = 400+4000+100 = 4500
    let mut rows = vec![vec![None; 8], vec![None; 8]];
    rows[1][4] = Some(SetupPieceType::King);
    for x in 0..8 {
        rows[0][x] = Some(SetupPieceType::Castle);
    }
    rows[1][0] = Some(SetupPieceType::Pawn);
    assert!(BoardSetup(rows).is_valid());
}

#[test]
fn out_of_range_turn_is_ignored() {
    let gs = GameStart {
        white: GameStartPlayer { id: 10, setup: standard_setup() },
        black: GameStartPlayer { id: 20, setup: standard_setup() },
        game_id: 1,
    };
    let mut b = Board::new(gs);
    let before = {
        let mut out = Vec::new();
        duckchess::codec::encode_board(&b, &mut out);
        out
    };
    // indices past the current move lists are a no-op
    let turn = Turn { game_id: b.id, piece_idx: 99, move_idx: 0 };
    assert!(b.evaluate_turn(&turn).is_none());
    let turn = Turn { game_id: b.id, piece_idx: 0, move_idx: 99 };
    assert!(b.evaluate_turn(&turn).is_none());
    let after = {
        let mut out = Vec::new();
        duckchess::codec::encode_board(&b, &mut out);
        out
    };
    assert_eq!(before, after);
}

#[test]
fn board_setup_rotation_mirrors_both_ways() {
    let mut s = standard_setup();
    s.rotate();
    // home row now sits in row 0, mirrored left to right
    assert!(matches!(s.0[0][3], Some(SetupPieceType::King)));
    assert!(matches!(s.0[0][4], Some(SetupPieceType::Queen)));
    assert!(matches!(s.0[1][0], Some(SetupPieceType::Pawn)));
}
