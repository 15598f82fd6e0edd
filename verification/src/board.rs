//! The authoritative game state: an 8x8 grid of tiles, whose turn it is,
//! the cached king positions, and the legal moves most recently generated
//! for the side to move.

use vstd::prelude::*;

use crate::piece::{Piece, PieceType};
use crate::vec2::Vec2;

verus! {

/// One of the two sides.
#[derive(Debug, Clone, Copy, PartialEq, Eq, Structural)]
pub enum Player {
    White,
    Black,
}

impl Player {
    pub open spec fn spec_other(self) -> Player {
        match self {
            Player::White => Player::Black,
            Player::Black => Player::White,
        }
    }

    /// The opposing side.
    #[verifier::when_used_as_spec(spec_other)]
    pub fn other(self) -> (r: Player)
        ensures
            r == self.spec_other(),
    {
        match self {
            Player::White => Player::Black,
            Player::Black => Player::White,
        }
    }
}

/// The floor colour of a square, derived from its coordinates' parity.
#[derive(Debug, Clone, Copy, PartialEq, Eq, Structural)]
pub enum Floor {
    Light,
    Dark,
}

/// One square of the grid.
#[derive(Debug, Clone, Copy, PartialEq, Eq, Structural)]
pub struct Tile {
    pub floor: Floor,
    pub piece: Option<Piece>,
}

/// A move: its kind and the moved piece's origin and destination.
/// For a Castle kind, `from`/`to` describe the king and the payload
/// records the rook's origin and target. TurnEnd is the sentinel that
/// separates applied sub-moves; it moves nothing.
#[derive(Debug, Clone, Copy, PartialEq, Eq, Structural)]
pub struct Move {
    pub move_type: MoveType,
    pub from: Vec2,
    pub to: Vec2,
}

#[derive(Debug, Clone, Copy, PartialEq, Eq, Structural)]
pub enum MoveType {
    JumpingMove,
    SlidingMove,
    EnPassant,
    Promotion { into: PieceType },
    Castle { from: Vec2, to: Vec2 },
    TurnEnd,
}

/// Cached positions of the two kings.
#[derive(Debug, Clone, Copy, PartialEq, Eq, Structural)]
pub struct Kings {
    pub white: Vec2,
    pub black: Vec2,
}

impl Kings {
    pub open spec fn spec_of(self, player: Player) -> Vec2 {
        match player {
            Player::White => self.white,
            Player::Black => self.black,
        }
    }

    pub open spec fn spec_set(self, player: Player, pos: Vec2) -> Kings {
        match player {
            Player::White => Kings { white: pos, ..self },
            Player::Black => Kings { black: pos, ..self },
        }
    }
}

/// A turn request: indices into the `move_pieces`/`moves` arrays most
/// recently broadcast for this turn.
#[derive(Debug, Clone, Copy, PartialEq, Eq, Structural)]
pub struct Turn {
    pub game_id: u128,
    pub piece_idx: usize,
    pub move_idx: usize,
}

/// The authoritative board.
#[derive(Debug)]
pub struct Board {
    pub id: u128,
    pub turn: Player,
    pub white_player: u128,
    pub black_player: u128,
    pub board: Vec<Vec<Tile>>,
    pub kings: Kings,
    pub move_pieces: Vec<Vec2>,
    pub moves: Vec<Vec<Move>>,
}

/// The mathematical model of a board.
pub struct BoardV {
    pub id: u128,
    pub turn: Player,
    pub white_player: u128,
    pub black_player: u128,
    pub grid: Seq<Seq<Tile>>,
    pub kings: Kings,
    pub move_pieces: Seq<Vec2>,
    pub moves: Seq<Seq<Move>>,
}

impl View for Board {
    type V = BoardV;

    open spec fn view(&self) -> BoardV {
        BoardV {
            id: self.id,
            turn: self.turn,
            white_player: self.white_player,
            black_player: self.black_player,
            grid: Seq::new(self.board@.len(), |y: int| self.board@[y]@),
            kings: self.kings,
            move_pieces: self.move_pieces@,
            moves: Seq::new(self.moves@.len(), |i: int| self.moves@[i]@),
        }
    }
}

pub open spec fn grid_wf(g: Seq<Seq<Tile>>) -> bool {
    &&& g.len() == 8
    &&& forall|y: int| 0 <= y < 8 ==> (#[trigger] g[y]).len() == 8
}

impl BoardV {
    /// Well-formed: the grid is 8x8.
    pub open spec fn wf(self) -> bool {
        grid_wf(self.grid)
    }

    pub open spec fn tile_at(self, p: Vec2) -> Tile {
        self.grid[p.1 as int][p.0 as int]
    }

    /// The grid with the piece of one square replaced.
    pub open spec fn with_piece(self, p: Vec2, piece: Option<Piece>) -> BoardV {
        BoardV {
            grid: self.grid.update(
                p.1 as int,
                self.grid[p.1 as int].update(
                    p.0 as int,
                    Tile { floor: self.tile_at(p).floor, piece },
                ),
            ),
            ..self
        }
    }

    /// The grid with one whole tile replaced.
    pub open spec fn with_tile(self, p: Vec2, tile: Tile) -> BoardV {
        BoardV {
            grid: self.grid.update(p.1 as int, self.grid[p.1 as int].update(p.0 as int, tile)),
            ..self
        }
    }

    pub open spec fn king_position(self, player: Player) -> Vec2 {
        self.kings.spec_of(player)
    }

    pub open spec fn turn_player_id(self) -> u128 {
        match self.turn {
            Player::White => self.white_player,
            Player::Black => self.black_player,
        }
    }

    pub open spec fn not_turn_player_id(self) -> u128 {
        match self.turn {
            Player::White => self.black_player,
            Player::Black => self.white_player,
        }
    }

    /// The board after a turn ends: every pawn's double-advance counter
    /// ticks, and the turn flips. The cached moves are left as they are.
    pub open spec fn post_turn(self) -> BoardV {
        BoardV {
            grid: Seq::new(
                self.grid.len(),
                |y: int|
                    Seq::new(
                        self.grid[y].len(),
                        |x: int|
                            Tile {
                                floor: self.grid[y][x].floor,
                                piece: match self.grid[y][x].piece {
                                    Some(p) => Some(p.spec_post_turn()),
                                    None => None,
                                },
                            },
                    ),
            ),
            turn: self.turn.spec_other(),
            ..self
        }
    }

    /// The moved piece as it is put down on its destination: a pawn that
    /// jumped more than one rank starts its double-advance counter, a moved
    /// piece remembers that it moved, a promotion changes the kind.
    pub open spec fn picked_piece(p: Piece, m: Move) -> Piece {
        let p1 = match p.piece_type {
            PieceType::Pawn { turns_since_double_advance } => if m.from.1 - m.to.1 > 1
                || m.from.1 - m.to.1 < -1 {
                Piece {
                    piece_type: PieceType::Pawn { turns_since_double_advance: Some(0) },
                    ..p
                }
            } else {
                p
            },
            _ => p,
        };
        let p2 = if m.from != m.to {
            Piece { has_moved: true, ..p1 }
        } else {
            p1
        };
        match m.move_type {
            MoveType::Promotion { into } => Piece { piece_type: into, ..p2 },
            _ => p2,
        }
    }

    /// The board after one move is applied. A TurnEnd move ends the turn;
    /// any other move carries the (adjusted) piece from its origin to its
    /// destination, updating the king cache when a king moves.
    pub open spec fn do_move(self, m: Move) -> BoardV {
        if m.move_type is TurnEnd {
            self.post_turn()
        } else {
            let picked = self.tile_at(m.from).piece;
            let moved = match picked {
                Some(p) => Some(BoardV::picked_piece(p, m)),
                None => None,
            };
            let kings = match picked {
                Some(p) => if p.piece_type is King {
                    self.kings.spec_set(p.owner, m.to)
                } else {
                    self.kings
                },
                None => self.kings,
            };
            let b1 = BoardV { kings, ..self };
            let b2 = b1.with_piece(m.to, moved);
            if m.from != m.to {
                b2.with_piece(m.from, None)
            } else {
                b2
            }
        }
    }
}

/// A move that can be applied to a well-formed board without leaving it:
/// not a turn-end sentinel, and every square it names lies on the board.
pub open spec fn move_ok(m: Move) -> bool {
    &&& m.from.spec_inside_board()
    &&& m.to.spec_inside_board()
    &&& !(m.move_type is TurnEnd)
    &&& match m.move_type {
        MoveType::Castle { from, to } => from.spec_inside_board() && to.spec_inside_board(),
        _ => true,
    }
}

impl BoardV {
    /// Every cached move can be applied to the board.
    pub open spec fn moves_ok(self) -> bool {
        forall|i: int, j: int|
            0 <= i < self.moves.len() && 0 <= j < self.moves[i].len() ==> move_ok(
                #[trigger] self.moves[i][j],
            )
    }
}

impl Board {
    /// The player id of the side to move.
    pub fn get_turn_player_id(&self) -> (r: u128)
        ensures
            r == self@.turn_player_id(),
    {
        match self.turn {
            Player::White => self.white_player,
            Player::Black => self.black_player,
        }
    }

    /// The player id of the side not to move.
    pub fn get_not_turn_player_id(&self) -> (r: u128)
        ensures
            r == self@.not_turn_player_id(),
    {
        match self.turn {
            Player::White => self.black_player,
            Player::Black => self.white_player,
        }
    }

    /// The player id of the side to move (the name the in-memory service
    /// used for the same lookup).
    pub fn get_player_id(&self) -> (r: u128)
        ensures
            r == self@.turn_player_id(),
    {
        self.get_turn_player_id()
    }

    /// The cached position of a player's king.
    pub fn get_king_position(&self, player: Player) -> (r: Vec2)
        ensures
            r == self@.king_position(player),
    {
        match player {
            Player::White => self.kings.white,
            Player::Black => self.kings.black,
        }
    }

    pub fn get_tile(&self, pos: Vec2) -> (t: &Tile)
        requires
            self@.wf(),
            pos.spec_inside_board(),
        ensures
            *t == self@.tile_at(pos),
    {
        &self.board[pos.1 as usize][pos.0 as usize]
    }

    pub fn get_tile_mut(&mut self, pos: Vec2) -> (t: &mut Tile)
        requires
            old(self)@.wf(),
            pos.spec_inside_board(),
        ensures
            *t == old(self)@.tile_at(pos),
            final(self)@.wf(),
            final(self)@.grid =~= old(self)@.with_tile(pos, *final(t)).grid,
            final(self)@ == (BoardV { grid: final(self)@.grid, ..old(self)@ }),
    {
        proof {
            lemma_grid_lens(*self);
        }
        let y = pos.1 as usize;
        let x = pos.0 as usize;
        &mut self.board[y][x]
    }

    /// Replace the piece standing on one square.
    fn set_piece(&mut self, pos: Vec2, piece: Option<Piece>)
        requires
            old(self)@.wf(),
            pos.spec_inside_board(),
        ensures
            final(self)@ == old(self)@.with_piece(pos, piece),
            final(self)@.wf(),
    {
        proof {
            lemma_grid_lens(*self);
        }
        let ghost b0 = *self;
        let y = pos.1 as usize;
        let x = pos.0 as usize;
        let floor = self.board[y][x].floor;
        self.board[y][x] = Tile { floor, piece };
        proof {
            assert(self@.grid =~= b0@.with_piece(pos, piece).grid);
            assert(self@ == b0@.with_piece(pos, piece));
        }
    }

    /// Apply one move, as `BoardV::do_move` describes: a TurnEnd ends the
    /// turn; any other move carries its piece from origin to destination.
    pub fn do_move(&mut self, mov: &Move)
        requires
            old(self)@.wf(),
            !(mov.move_type is TurnEnd) ==> mov.from.spec_inside_board()
                && mov.to.spec_inside_board(),
        ensures
            final(self)@ == old(self)@.do_move(*mov),
            final(self)@.wf(),
    {
        if let MoveType::TurnEnd = mov.move_type {
            self.post_turn();
            return ;
        }
        let ghost b0 = *self;
        let start = mov.from;
        let end = mov.to;
        let mut piece = self.get_tile(start).piece;
        match &mut piece {
            Some(p) => {
                match p.piece_type {
                    PieceType::Pawn { .. } => {
                        let dy = start.1 - end.1;
                        if dy > 1 || dy < -1 {
                            p.piece_type = PieceType::Pawn {
                                turns_since_double_advance: Some(0),
                            };
                        }
                    },
                    PieceType::King => {
                        match p.owner {
                            Player::White => {
                                self.kings.white = end;
                            },
                            Player::Black => {
                                self.kings.black = end;
                            },
                        }
                    },
                    _ => {},
                }
                if start.0 != end.0 || start.1 != end.1 {
                    p.has_moved = true;
                }
                if let MoveType::Promotion { into } = mov.move_type {
                    p.piece_type = into;
                }
            },
            None => {},
        }
        proof {
            assert(piece == (match b0@.tile_at(start).piece {
                Some(p) => Some(BoardV::picked_piece(p, *mov)),
                None => None::<Piece>,
            }));
        }
        self.set_piece(end, piece);
        if start.0 != end.0 || start.1 != end.1 {
            self.set_piece(start, None);
        }
        proof {
            assert(self@ == b0@.do_move(*mov));
        }
    }

    /// End the turn: tick every pawn's double-advance counter and flip
    /// whose turn it is.
    pub fn post_turn(&mut self)
        requires
            old(self)@.wf(),
        ensures
            final(self)@ == old(self)@.post_turn(),
            final(self)@.wf(),
    {
        let ghost b0 = *self;
        proof {
            lemma_grid_lens(*self);
        }
        let mut y: usize = 0;
        while y < 8
            invariant
                b0@.wf(),
                y <= 8,
                self.board@.len() == 8,
                forall|yy: int| 0 <= yy < 8 ==> (#[trigger] self.board@[yy])@.len() == 8,
                forall|yy: int| y <= yy < 8 ==> #[trigger] self.board@[yy]@ == b0.board@[yy]@,
                forall|yy: int|
                    0 <= yy < y ==> #[trigger] self.board@[yy]@ =~= b0@.post_turn().grid[yy],
                *self == (Board { board: self.board, ..b0 }),
            decreases 8 - y,
        {
            let mut x: usize = 0;
            while x < 8
                invariant
                    b0@.wf(),
                    y < 8,
                    x <= 8,
                    self.board@.len() == 8,
                    forall|yy: int| 0 <= yy < 8 ==> (#[trigger] self.board@[yy])@.len() == 8,
                    forall|yy: int| y < yy < 8 ==> #[trigger] self.board@[yy]@ == b0.board@[yy]@,
                    forall|yy: int|
                        0 <= yy < y ==> #[trigger] self.board@[yy]@ =~= b0@.post_turn().grid[yy],
                    forall|xx: int|
                        x <= xx < 8 ==> #[trigger] self.board@[y as int]@[xx] == b0.board@[y as int]@[xx],
                    forall|xx: int|
                        0 <= xx < x ==> #[trigger] self.board@[y as int]@[xx] == b0@.post_turn().grid[y as int][xx],
                    *self == (Board { board: self.board, ..b0 }),
                decreases 8 - x,
            {
                proof {
                    assert(b0@.post_turn().grid[y as int][x as int] == Tile {
                        floor: b0@.grid[y as int][x as int].floor,
                        piece: match b0@.grid[y as int][x as int].piece {
                            Some(p) => Some(p.spec_post_turn()),
                            None => None,
                        },
                    });
                    assert(b0@.grid[y as int][x as int] == b0.board@[y as int]@[x as int]);
                }
                match &mut self.board[y][x].piece {
                    Some(piece) => {
                        piece.post_turn();
                    },
                    None => {},
                }
                x = x + 1;
            }
            y = y + 1;
        }
        self.turn = self.turn.other();
        proof {
            assert(self@.grid =~= b0@.post_turn().grid);
            assert(self@ == b0@.post_turn());
        }
    }
}

/// A copy of a vector of plain values.
pub fn copy_vec<T: Copy>(v: &Vec<T>) -> (r: Vec<T>)
    ensures
        r@ == v@,
{
    let mut r: Vec<T> = Vec::new();
    let mut i: usize = 0;
    while i < v.len()
        invariant
            i <= v@.len(),
            r@ == v@.take(i as int),
        decreases v@.len() - i,
    {
        r.push(v[i]);
        proof {
            assert(v@.take(i + 1) =~= v@.take(i as int).push(v@[i as int]));
        }
        i = i + 1;
    }
    proof {
        assert(v@.take(v@.len() as int) =~= v@);
    }
    r
}

/// A copy of a vector of move lists.
pub fn copy_move_rows(v: &Vec<Vec<Move>>) -> (r: Vec<Vec<Move>>)
    ensures
        r@.len() == v@.len(),
        forall|i: int| 0 <= i < v@.len() ==> (#[trigger] r@[i])@ == v@[i]@,
{
    let mut r: Vec<Vec<Move>> = Vec::new();
    let mut i: usize = 0;
    while i < v.len()
        invariant
            i <= v@.len(),
            r@.len() == i,
            forall|k: int| 0 <= k < i ==> (#[trigger] r@[k])@ == v@[k]@,
        decreases v@.len() - i,
    {
        r.push(copy_vec(&v[i]));
        i = i + 1;
    }
    r
}

impl Clone for Board {
    /// A copy whose model is the same board.
    fn clone(&self) -> (r: Board)
        ensures
            r@ == self@,
    {
        let mut grid: Vec<Vec<Tile>> = Vec::new();
        let mut y: usize = 0;
        while y < self.board.len()
            invariant
                y <= self.board@.len(),
                grid@.len() == y,
                forall|i: int| 0 <= i < y ==> (#[trigger] grid@[i])@ == self.board@[i]@,
            decreases self.board@.len() - y,
        {
            grid.push(copy_vec(&self.board[y]));
            y = y + 1;
        }
        let mut moves: Vec<Vec<Move>> = Vec::new();
        let mut i: usize = 0;
        while i < self.moves.len()
            invariant
                i <= self.moves@.len(),
                moves@.len() == i,
                forall|k: int| 0 <= k < i ==> (#[trigger] moves@[k])@ == self.moves@[k]@,
            decreases self.moves@.len() - i,
        {
            moves.push(copy_vec(&self.moves[i]));
            i = i + 1;
        }
        let r = Board {
            id: self.id,
            turn: self.turn,
            white_player: self.white_player,
            black_player: self.black_player,
            board: grid,
            kings: self.kings,
            move_pieces: copy_vec(&self.move_pieces),
            moves,
        };
        proof {
            assert(r@.grid =~= self@.grid);
            assert(r@.moves =~= self@.moves);
            assert(r@ == self@);
        }
        r
    }
}

/// The view's rows mirror the rows of the underlying vectors.
pub proof fn lemma_grid_lens(b: Board)
    requires
        b@.wf(),
    ensures
        b.board@.len() == 8,
        forall|y: int| 0 <= y < 8 ==> (#[trigger] b.board@[y])@.len() == 8,
{
    assert(b@.grid.len() == b.board@.len());
    assert forall|y: int| 0 <= y < 8 implies (#[trigger] b.board@[y])@.len() == 8 by {
        assert(b@.grid[y] == b.board@[y]@);
        assert(b@.grid[y].len() == 8);
    }
}

} // verus!
