//! Turn evaluation and board construction: resolving a turn request
//! against the cached move lists, applying its sub-moves in order, and
//! building a fresh board from a game-start payload.

use vstd::prelude::*;

use crate::board::{move_ok, Board, BoardV, Kings, Move, MoveType, Player, Tile, Turn};
use crate::movegen::v_gen_from;
use crate::piece::SetupPieceType;
use crate::setup::{setup_wf, v_contains_king, v_rotate, GameStart};
use crate::vec2::Vec2;

verus! {

/// The board after the moves `s[i..]` are applied in order.
pub open spec fn apply_seq(bv: BoardV, s: Seq<Move>, i: int) -> BoardV
    decreases s.len() - i,
{
    if i < 0 || i >= s.len() {
        bv
    } else {
        apply_seq(bv.do_move(s[i]), s, i + 1)
    }
}

/// The turn-end sentinel.
pub open spec fn turn_end_move() -> Move {
    Move { move_type: MoveType::TurnEnd, from: Vec2(-1i8, -1i8), to: Vec2(-1i8, -1i8) }
}

/// The sub-moves a chosen move expands to: the captured pawn's hop for an
/// en passant, the rook's slide for a castle, then the move itself, then
/// the turn-end sentinel.
pub open spec fn v_turn_moves(bv: BoardV, pi: int, mi: int) -> Seq<Move> {
    let m = bv.moves[pi][mi];
    (match m.move_type {
        MoveType::EnPassant => seq![
            Move { move_type: MoveType::JumpingMove, from: Vec2(m.to.0, m.from.1), to: m.to },
        ],
        MoveType::Castle { from, to } => seq![Move { move_type: MoveType::SlidingMove, from, to }],
        _ => Seq::empty(),
    }) + seq![m] + seq![turn_end_move()]
}

/// Whether a turn request addresses a move the board currently offers.
pub open spec fn turn_in_bounds(bv: BoardV, t: Turn) -> bool {
    0 <= t.piece_idx < bv.moves.len() && 0 <= t.move_idx < bv.moves[t.piece_idx as int].len()
}

/// The board after a turn request is honoured: its sub-moves applied and
/// the next side's legal moves regenerated.
pub open spec fn v_after_turn(bv: BoardV, t: Turn) -> BoardV {
    let applied = apply_seq(bv, v_turn_moves(bv, t.piece_idx as int, t.move_idx as int), 0);
    let g = v_gen_from(applied, true, 0);
    BoardV { move_pieces: g.0, moves: g.1, ..applied }
}

impl Board {
    /// Resolve a turn request. Out-of-range indices yield `None` and leave
    /// the board untouched. Otherwise the chosen move's sub-moves are
    /// applied in order and returned, the next side's moves are
    /// regenerated, and the game is over exactly when none exist.
    pub fn evaluate_turn(&mut self, turn: &Turn) -> (r: Option<(Vec<Move>, bool)>)
        requires
            old(self)@.wf(),
            old(self)@.moves_ok(),
        ensures
            final(self)@.wf(),
            final(self)@.moves_ok(),
            turn_in_bounds(old(self)@, *turn) ==> {
                &&& r is Some
                &&& r->Some_0.0@ == v_turn_moves(
                    old(self)@,
                    turn.piece_idx as int,
                    turn.move_idx as int,
                )
                &&& r->Some_0.1 == (v_after_turn(old(self)@, *turn).moves.len() == 0)
                &&& final(self)@ == v_after_turn(old(self)@, *turn)
            },
            !turn_in_bounds(old(self)@, *turn) ==> r is None && final(self)@ == old(self)@,
    {
        let ghost b0 = *self;
        if turn.piece_idx >= self.moves.len() {
            return None;
        }
        let row_len = self.moves[turn.piece_idx].len();
        if turn.move_idx >= row_len {
            return None;
        }
        let in_move = self.moves[turn.piece_idx][turn.move_idx];
        proof {
            assert(self.moves@[turn.piece_idx as int]@[turn.move_idx as int] == b0@.moves[turn.piece_idx as int][turn.move_idx as int]);
            assert(move_ok(in_move));
        }
        let mut output: Vec<Move> = Vec::new();
        match in_move.move_type {
            MoveType::EnPassant => {
                output.push(
                    Move {
                        move_type: MoveType::JumpingMove,
                        from: Vec2(in_move.to.0, in_move.from.1),
                        to: in_move.to,
                    },
                );
            },
            MoveType::Castle { from, to } => {
                output.push(Move { move_type: MoveType::SlidingMove, from, to });
            },
            _ => {},
        }
        output.push(in_move);
        output.push(Move { move_type: MoveType::TurnEnd, from: Vec2(-1, -1), to: Vec2(-1, -1) });
        let ghost out = v_turn_moves(b0@, turn.piece_idx as int, turn.move_idx as int);
        proof {
            assert(output@ =~= out);
        }
        let mut k: usize = 0;
        while k < output.len()
            invariant
                out == v_turn_moves(b0@, turn.piece_idx as int, turn.move_idx as int),
                output@ == out,
                k <= out.len(),
                self@.wf(),
                apply_seq(b0@, out, 0) == apply_seq(self@, out, k as int),
                forall|q: int|
                    0 <= q < out.len() ==> (#[trigger] out[q]).move_type is TurnEnd || (
                    out[q].from.spec_inside_board() && out[q].to.spec_inside_board()),
            decreases out.len() - k,
        {
            let m = output[k];
            self.do_move(&m);
            k = k + 1;
        }
        self.generate_moves(true);
        let game_over = self.moves.len() == 0;
        proof {
            assert(self@.moves.len() == v_after_turn(b0@, *turn).moves.len());
            assert(self@ == v_after_turn(b0@, *turn));
        }
        Some((output, game_over))
    }
}

/// Whether a tile holds `player`'s king.
pub open spec fn is_king_of(t: Tile, player: Player) -> bool {
    match t.piece {
        Some(p) => p.piece_type is King && p.owner == player,
        None => false,
    }
}

/// The first square, in row-major order from `idx`, whose tile holds
/// `player`'s king.
pub open spec fn v_find_king_from(g: Seq<Seq<Tile>>, player: Player, idx: int) -> Vec2
    decreases 64 - idx,
{
    if idx < 0 || idx >= 64 {
        Vec2(-1i8, -1i8)
    } else {
        let p = Vec2((idx % 8) as i8, (idx / 8) as i8);
        if is_king_of(g[idx / 8][idx % 8], player) {
            p
        } else {
            v_find_king_from(g, player, idx + 1)
        }
    }
}

/// Whether the grid holds `player`'s king anywhere.
pub open spec fn grid_has_king(g: Seq<Seq<Tile>>, player: Player) -> bool {
    exists|i: int| 0 <= i < 64 && is_king_of(#[trigger] g[i / 8][i % 8], player)
}

impl Board {
    /// The first square, row by row, on which `player`'s king stands.
    fn find_king_position(board: &Vec<Vec<Tile>>, player: Player) -> (r: Vec2)
        requires
            board@.len() == 8,
            forall|y: int| 0 <= y < 8 ==> (#[trigger] board@[y])@.len() == 8,
            grid_has_king(Seq::new(8, |y: int| board@[y]@), player),
        ensures
            r == v_find_king_from(Seq::new(8, |y: int| board@[y]@), player, 0),
            r.spec_inside_board(),
            is_king_of(Seq::new(8, |y: int| board@[y]@)[r.1 as int][r.0 as int], player),
    {
        let ghost g = Seq::new(8, |y: int| board@[y]@);
        let mut idx: usize = 0;
        while idx < 64
            invariant
                g == Seq::new(8, |y: int| board@[y]@),
                board@.len() == 8,
                forall|y: int| 0 <= y < 8 ==> (#[trigger] board@[y])@.len() == 8,
                grid_has_king(g, player),
                idx <= 64,
                v_find_king_from(g, player, 0) == v_find_king_from(g, player, idx as int),
                forall|i: int| 0 <= i < idx ==> !is_king_of(#[trigger] g[i / 8][i % 8], player),
            decreases 64 - idx,
        {
            let y = idx / 8;
            let x = idx % 8;
            let tile = &board[y][x];
            let hit = match &tile.piece {
                Some(p) => matches!(p.piece_type, crate::piece::PieceType::King) && p.owner
                    == player,
                None => false,
            };
            proof {
                assert(g[idx as int / 8][idx as int % 8] == board@[y as int]@[x as int]);
            }
            if hit {
                return Vec2(x as i8, y as i8);
            }
            idx = idx + 1;
        }
        proof {
            let i = choose|i: int| 0 <= i < 64 && is_king_of(#[trigger] g[i / 8][i % 8], player);
            assert(false);
        }
        Vec2(0, 0)
    }
}

/// The piece a setup cell places on the board.
pub open spec fn v_setup_piece(
    cell: Option<SetupPieceType>,
    owner: Player,
) -> Option<crate::piece::Piece> {
    match cell {
        Some(k) => Some(k.spec_to_piece(owner)),
        None => None,
    }
}

/// The opening grid: Black's rotated setup on rows 0 and 1, White's setup
/// on rows 6 and 7, floors coloured by parity.
pub open spec fn v_initial_grid(
    white: Seq<Seq<Option<SetupPieceType>>>,
    black_rot: Seq<Seq<Option<SetupPieceType>>>,
) -> Seq<Seq<Tile>> {
    Seq::new(
        8,
        |y: int|
            Seq::new(
                8,
                |x: int|
                    Tile {
                        floor: if (y + x) % 2 == 0 {
                            crate::board::Floor::Light
                        } else {
                            crate::board::Floor::Dark
                        },
                        piece: if y < 2 {
                            v_setup_piece(black_rot[y][x], Player::Black)
                        } else if y >= 6 {
                            v_setup_piece(white[y - 6][x], Player::White)
                        } else {
                            None
                        },
                    },
            ),
    )
}

/// The model of a fresh board for a game start: Black's rotated setup on
/// top, White's below, White to move, kings cached, White's legal moves
/// generated.
pub open spec fn v_new_board(
    white_id: u128,
    white_setup: Seq<Seq<Option<SetupPieceType>>>,
    black_id: u128,
    black_setup: Seq<Seq<Option<SetupPieceType>>>,
    game_id: u128,
) -> BoardV {
    let grid = v_initial_grid(white_setup, v_rotate(black_setup));
    let b1 = BoardV {
        id: game_id,
        turn: Player::White,
        white_player: white_id,
        black_player: black_id,
        grid,
        kings: Kings {
            white: v_find_king_from(grid, Player::White, 0),
            black: v_find_king_from(grid, Player::Black, 0),
        },
        move_pieces: Seq::empty(),
        moves: Seq::empty(),
    };
    let g = v_gen_from(b1, true, 0);
    BoardV { move_pieces: g.0, moves: g.1, ..b1 }
}

impl Board {
    /// A fresh board from a game-start payload: Black's setup rotated and
    /// placed on top, White's below, White to move, kings cached, and
    /// White's legal moves generated.
    pub fn new(game_start: GameStart) -> (r: Board)
        requires
            setup_wf(game_start.white.setup@),
            setup_wf(game_start.black.setup@),
            v_contains_king(game_start.white.setup@),
            v_contains_king(game_start.black.setup@),
        ensures
            r@ == v_new_board(
                game_start.white.id,
                game_start.white.setup@,
                game_start.black.id,
                game_start.black.setup@,
                game_start.game_id,
            ),
            r@.wf(),
            r@.moves_ok(),
    {
        let ghost white_s = game_start.white.setup@;
        let ghost black_s = game_start.black.setup@;
        let ghost target = v_initial_grid(white_s, v_rotate(black_s));
        let game_id = game_start.game_id;
        let white_player = game_start.white.id;
        let black_player = game_start.black.id;
        let white_setup = game_start.white.setup;
        let mut black_setup = game_start.black.setup;
        black_setup.rotate();
        let mut grid: Vec<Vec<Tile>> = Vec::new();
        let mut y: usize = 0;
        while y < 8
            invariant
                target == v_initial_grid(white_s, v_rotate(black_s)),
                white_setup@ == white_s,
                black_setup@ == v_rotate(black_s),
                setup_wf(white_setup@),
                setup_wf(black_setup@),
                white_setup.0@.len() == 2,
                black_setup.0@.len() == 2,
                y <= 8,
                grid@.len() == y,
                forall|i: int| 0 <= i < y ==> (#[trigger] grid@[i])@ =~= target[i],
            decreases 8 - y,
        {
            let mut row: Vec<Tile> = Vec::new();
            let mut x: usize = 0;
            while x < 8
                invariant
                    target == v_initial_grid(white_s, v_rotate(black_s)),
                    white_setup@ == white_s,
                    black_setup@ == v_rotate(black_s),
                    setup_wf(white_setup@),
                    setup_wf(black_setup@),
                    white_setup.0@.len() == 2,
                    black_setup.0@.len() == 2,
                    y < 8,
                    x <= 8,
                    row@.len() == x,
                    forall|j: int| 0 <= j < x ==> #[trigger] row@[j] == target[y as int][j],
                decreases 8 - x,
            {
                let floor = if (y + x) % 2 == 0 {
                    crate::board::Floor::Light
                } else {
                    crate::board::Floor::Dark
                };
                let cell: Option<SetupPieceType> = if y < 2 {
                    proof {
                        assert(black_setup.0@[y as int]@ == black_setup@[y as int]);
                    }
                    black_setup.0[y][x]
                } else if y >= 6 {
                    proof {
                        assert(white_setup.0@[y - 6int]@ == white_setup@[y - 6int]);
                    }
                    white_setup.0[y - 6][x]
                } else {
                    None
                };
                let owner = if y < 4 {
                    Player::Black
                } else {
                    Player::White
                };
                let piece = match cell {
                    Some(k) => Some(k.to_piece(owner)),
                    None => None,
                };
                row.push(Tile { floor, piece });
                proof {
                    assert(row@[x as int] == target[y as int][x as int]);
                }
                x = x + 1;
            }
            grid.push(row);
            y = y + 1;
        }
        proof {
            assert(Seq::new(8, |yy: int| grid@[yy]@) =~= target);
            lemma_rotate_keeps_king(black_s);
            let (wy, wx) = choose|wy: int, wx: int|
                0 <= wy < white_s.len() && 0 <= wx < white_s[wy].len() && #[trigger] white_s[wy][wx]
                    == Some(SetupPieceType::King);
            let wi = (6 + wy) * 8 + wx;
            assert(wi / 8 == 6 + wy && wi % 8 == wx) by (nonlinear_arith)
                requires 0 <= wy < 2 && 0 <= wx < 8 && wi == (6 + wy) * 8 + wx;
            assert(is_king_of(target[wi / 8][wi % 8], Player::White));
            assert(grid_has_king(target, Player::White));
            let rot = v_rotate(black_s);
            let (by, bx) = choose|by: int, bx: int|
                0 <= by < rot.len() && 0 <= bx < rot[by].len() && #[trigger] rot[by][bx] == Some(
                    SetupPieceType::King,
                );
            let bi = by * 8 + bx;
            assert(bi / 8 == by && bi % 8 == bx) by (nonlinear_arith)
                requires 0 <= by < 2 && 0 <= bx < 8 && bi == by * 8 + bx;
            assert(is_king_of(target[bi / 8][bi % 8], Player::Black));
            assert(grid_has_king(target, Player::Black));
        }
        let kw = Self::find_king_position(&grid, Player::White);
        let kb = Self::find_king_position(&grid, Player::Black);
        let mut board = Board {
            id: game_id,
            turn: Player::White,
            white_player,
            black_player,
            board: grid,
            kings: Kings { white: kw, black: kb },
            move_pieces: Vec::new(),
            moves: Vec::new(),
        };
        proof {
            assert(board@.grid =~= target);
            assert(board@.moves =~= Seq::<Seq<Move>>::empty());
        }
        board.generate_moves(true);
        board
    }
}

impl Board {
    /// The turn-start message for the board's current move lists.
    pub fn turn_message(&self) -> (r: crate::play::PlayResponse)
        ensures
            r@ == (crate::play::PlayResponseV::TurnStart {
                turn: self@.turn,
                move_pieces: self@.move_pieces,
                moves: self@.moves,
            }),
    {
        let r = crate::play::PlayResponse::TurnStart {
            turn: self.turn,
            move_pieces: crate::board::copy_vec(&self.move_pieces),
            moves: crate::board::copy_move_rows(&self.moves),
        };
        proof {
            assert(r@->TurnStart_moves =~= self@.moves);
        }
        r
    }

    /// Resolve a move chosen by its indices and answer with the applied
    /// sub-moves, as the in-memory service did; out-of-range indices yield
    /// `None` and change nothing.
    pub fn execute_move(&mut self, piece_idx: usize, move_idx: usize) -> (r: Option<
        crate::play::PlayResponse,
    >)
        requires
            old(self)@.wf(),
            old(self)@.moves_ok(),
        ensures
            final(self)@.wf(),
            final(self)@.moves_ok(),
            ({
                let t = Turn { game_id: old(self)@.id, piece_idx, move_idx };
                if turn_in_bounds(old(self)@, t) {
                    &&& r is Some
                    &&& r->Some_0@ == (crate::play::PlayResponseV::Move {
                        moves: v_turn_moves(old(self)@, piece_idx as int, move_idx as int),
                    })
                    &&& final(self)@ == v_after_turn(old(self)@, t)
                } else {
                    r is None && final(self)@ == old(self)@
                }
            }),
    {
        let turn = Turn { game_id: self.id, piece_idx, move_idx };
        match self.evaluate_turn(&turn) {
            None => None,
            Some((moves, _game_over)) => Some(crate::play::PlayResponse::Move { moves }),
        }
    }
}

/// Rotation keeps every kind a setup holds, the king among them.
pub proof fn lemma_rotate_keeps_king(s: Seq<Seq<Option<SetupPieceType>>>)
    requires
        setup_wf(s),
        v_contains_king(s),
    ensures
        v_contains_king(v_rotate(s)),
{
    let (y, x) = choose|y: int, x: int|
        0 <= y < s.len() && 0 <= x < s[y].len() && #[trigger] s[y][x] == Some(SetupPieceType::King);
    assert(v_rotate(s)[1 - y][7 - x] == Some(SetupPieceType::King));
}

} // verus!
