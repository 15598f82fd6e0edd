//! Move generation: pseudo-legal moves per piece from a small table of
//! offset vectors, castling through an attack test, en-passant and
//! promotion handling, and the legality filter that drops every move that
//! would leave the mover's own king capturable.
//!
//! The spec functions here are the mathematical account of generation; the
//! exec methods on `Piece`, `Board` and `Move` mirror them exactly.

use vstd::prelude::*;

use crate::board::{Board, BoardV, Move, MoveType, Player};
use crate::piece::{Piece, PieceType};
use crate::vec2::Vec2;

verus! {

/// Termination rank for the generation functions: a deep (filtered)
/// generation may consult shallow generations through the legality test,
/// never the other way around.
pub open spec fn gen_rank(deep: bool) -> int {
    if deep {
        7
    } else {
        1
    }
}

/// Moves along one ray: step from `cur` in direction `dir` while squares
/// are free, at most `limit` steps, stopping on the first occupied square
/// (which is captured when it holds an enemy piece).
pub open spec fn v_ray(
    bv: BoardV,
    owner: Player,
    from: Vec2,
    dir: Vec2,
    cur: Vec2,
    limit: int,
    mt: MoveType,
) -> Seq<Move>
    decreases limit,
{
    if !cur.spec_inside_board() || limit <= 0 {
        Seq::empty()
    } else {
        match bv.tile_at(cur).piece {
            Some(blocking) => if blocking.owner != owner {
                seq![Move { move_type: mt, from, to: cur }]
            } else {
                Seq::empty()
            },
            None => seq![Move { move_type: mt, from, to: cur }] + v_ray(
                bv,
                owner,
                from,
                dir,
                cur.spec_plus(dir),
                limit - 1,
                mt,
            ),
        }
    }
}

/// Moves along every ray from `offsets[i..]`.
pub open spec fn v_simple_from(
    bv: BoardV,
    owner: Player,
    pos: Vec2,
    offsets: Seq<Vec2>,
    i: int,
    limit: int,
    mt: MoveType,
) -> Seq<Move>
    decreases offsets.len() - i,
{
    if i < 0 || i >= offsets.len() {
        Seq::empty()
    } else {
        v_ray(bv, owner, pos, offsets[i], pos.spec_plus(offsets[i]), limit, mt) + v_simple_from(
            bv,
            owner,
            pos,
            offsets,
            i + 1,
            limit,
            mt,
        )
    }
}

pub open spec fn king_offsets() -> Seq<Vec2> {
    seq![
        Vec2(0i8, 1i8),
        Vec2(0i8, -1i8),
        Vec2(1i8, 0i8),
        Vec2(-1i8, 0i8),
        Vec2(-1i8, -1i8),
        Vec2(-1i8, 1i8),
        Vec2(1i8, -1i8),
        Vec2(1i8, 1i8),
    ]
}

pub open spec fn rook_offsets() -> Seq<Vec2> {
    seq![Vec2(0i8, 1i8), Vec2(0i8, -1i8), Vec2(1i8, 0i8), Vec2(-1i8, 0i8)]
}

pub open spec fn bishop_offsets() -> Seq<Vec2> {
    seq![Vec2(-1i8, -1i8), Vec2(-1i8, 1i8), Vec2(1i8, -1i8), Vec2(1i8, 1i8)]
}

pub open spec fn knight_offsets() -> Seq<Vec2> {
    seq![
        Vec2(2i8, 1i8),
        Vec2(2i8, -1i8),
        Vec2(-2i8, 1i8),
        Vec2(-2i8, -1i8),
        Vec2(1i8, 2i8),
        Vec2(1i8, -2i8),
        Vec2(-1i8, 2i8),
        Vec2(-1i8, -2i8),
    ]
}

/// The direction a pawn advances.
pub open spec fn pawn_dir(owner: Player) -> Vec2 {
    match owner {
        Player::White => Vec2(0i8, -1i8),
        Player::Black => Vec2(0i8, 1i8),
    }
}

/// The rank on which a pawn promotes.
pub open spec fn final_rank(owner: Player) -> i8 {
    match owner {
        Player::White => 0,
        Player::Black => 7,
    }
}

/// A pawn's plain advances: one square forward when free, two when it has
/// not yet moved and both squares are free.
pub open spec fn v_pawn_adv(bv: BoardV, piece: Piece, pos: Vec2) -> Seq<Move> {
    let dir = pawn_dir(piece.owner);
    let to1 = pos.spec_plus(dir);
    if !to1.spec_inside_board() || bv.tile_at(to1).piece is Some {
        Seq::empty()
    } else {
        seq![Move { move_type: MoveType::SlidingMove, from: pos, to: to1 }] + (
        if piece.has_moved {
            Seq::empty()
        } else {
            let to2 = to1.spec_plus(dir);
            if !to2.spec_inside_board() || bv.tile_at(to2).piece is Some {
                Seq::empty()
            } else {
                seq![Move { move_type: MoveType::SlidingMove, from: pos, to: to2 }]
            }
        })
    }
}

/// A pawn's diagonal capture toward `side`.
pub open spec fn v_pawn_cap(bv: BoardV, piece: Piece, pos: Vec2, side: Vec2) -> Seq<Move> {
    let to = pos.spec_plus(pawn_dir(piece.owner)).spec_plus(side);
    if !to.spec_inside_board() {
        Seq::empty()
    } else {
        match bv.tile_at(to).piece {
            Some(p) => if p.owner != piece.owner {
                seq![Move { move_type: MoveType::SlidingMove, from: pos, to }]
            } else {
                Seq::empty()
            },
            None => Seq::empty(),
        }
    }
}

/// A pawn's en-passant capture toward `side`: the neighbouring square must
/// hold an enemy pawn that double-advanced on the previous turn.
pub open spec fn v_pawn_ep(bv: BoardV, piece: Piece, pos: Vec2, side: Vec2) -> Seq<Move> {
    let to = pos.spec_plus(side).spec_plus(pawn_dir(piece.owner));
    if !to.spec_inside_board() {
        Seq::empty()
    } else {
        match bv.tile_at(pos.spec_plus(side)).piece {
            Some(p) => match p.piece_type {
                PieceType::Pawn { turns_since_double_advance: Some(t) } => if t == 1 && p.owner
                    != piece.owner {
                    seq![Move { move_type: MoveType::EnPassant, from: pos, to }]
                } else {
                    Seq::empty()
                },
                _ => Seq::empty(),
            },
            None => Seq::empty(),
        }
    }
}

/// A pawn move whose target is the final rank becomes the four promotion
/// choices; any other move stands as it is.
pub open spec fn v_promote_one(owner: Player, m: Move) -> Seq<Move> {
    if m.to.1 == final_rank(owner) {
        seq![
            Move { move_type: MoveType::Promotion { into: PieceType::Queen }, from: m.from, to: m.to },
            Move { move_type: MoveType::Promotion { into: PieceType::Knight }, from: m.from, to: m.to },
            Move { move_type: MoveType::Promotion { into: PieceType::Bishop }, from: m.from, to: m.to },
            Move { move_type: MoveType::Promotion { into: PieceType::Castle }, from: m.from, to: m.to },
        ]
    } else {
        seq![m]
    }
}

pub open spec fn v_promote_from(owner: Player, s: Seq<Move>, i: int) -> Seq<Move>
    decreases s.len() - i,
{
    if i < 0 || i >= s.len() {
        Seq::empty()
    } else {
        v_promote_one(owner, s[i]) + v_promote_from(owner, s, i + 1)
    }
}

/// All pawn moves before promotion expansion, in generation order:
/// advances, captures, en passant.
pub open spec fn v_pawn_base(bv: BoardV, piece: Piece, pos: Vec2) -> Seq<Move> {
    v_pawn_adv(bv, piece, pos) + v_pawn_cap(bv, piece, pos, Vec2(-1i8, 0i8)) + v_pawn_cap(
        bv,
        piece,
        pos,
        Vec2(1i8, 0i8),
    ) + v_pawn_ep(bv, piece, pos, Vec2(-1i8, 0i8)) + v_pawn_ep(bv, piece, pos, Vec2(1i8, 0i8))
}

/// A pawn's moves.
pub open spec fn v_pawn(bv: BoardV, piece: Piece, pos: Vec2) -> Seq<Move> {
    v_promote_from(piece.owner, v_pawn_base(bv, piece, pos), 0)
}

/// Whether every square from `cur` to the edge, exclusive of the edge
/// square itself, is free. Walks the castling corridor between king and
/// rook.
pub open spec fn v_path_clear(bv: BoardV, cur: Vec2, dir: Vec2) -> bool
    decreases (if dir.0 >= 0 {
        8 - cur.0
    } else {
        cur.0 + 1
    })
        when (dir.0 == 1 || dir.0 == -1) && dir.1 == 0 && -1 <= cur.0 <= 8
{
    if !cur.spec_plus(dir).spec_inside_board() {
        true
    } else if bv.tile_at(cur).piece is Some {
        false
    } else {
        v_path_clear(bv, cur.spec_plus(dir), dir)
    }
}

pub open spec fn king_jump(from: Vec2, to: Vec2) -> Move {
    Move { move_type: MoveType::JumpingMove, from, to }
}

/// The castle move toward one corner, when the corner holds an unmoved
/// rook of the same owner, the corridor between is empty, and no square
/// the king stands on, crosses, or lands on is attacked.
pub open spec fn v_castle_side(bv: BoardV, owner: Player, pos: Vec2, corner: Vec2) -> Seq<Move>
    decreases 5int, 0int,
{
    match bv.tile_at(corner).piece {
        Some(rook) => if rook.piece_type is Castle && !rook.has_moved && rook.owner == owner {
            let dir = if corner.0 == 0 {
                Vec2(-1i8, 0i8)
            } else {
                Vec2(1i8, 0i8)
            };
            let nkp = pos.spec_plus(dir).spec_plus(dir);
            if v_path_clear(bv, pos.spec_plus(dir), dir) && !v_wcl(bv, king_jump(pos, pos))
                && !v_wcl(bv, king_jump(pos, pos.spec_plus(dir))) && !v_wcl(
                bv,
                king_jump(pos, nkp),
            ) {
                seq![
                    Move {
                        move_type: MoveType::Castle { from: corner, to: nkp.spec_minus(dir) },
                        from: pos,
                        to: nkp,
                    },
                ]
            } else {
                Seq::empty()
            }
        } else {
            Seq::empty()
        },
        None => Seq::empty(),
    }
}

/// The members of `s[i..]` that do not lose the game for the mover.
pub open spec fn v_filter_from(bv: BoardV, s: Seq<Move>, i: int) -> Seq<Move>
    decreases 6int, s.len() - i,
{
    if i < 0 || i >= s.len() {
        Seq::empty()
    } else {
        (if !v_wcl(bv, s[i]) {
            seq![s[i]]
        } else {
            Seq::empty()
        }) + v_filter_from(bv, s, i + 1)
    }
}

/// The moves of one piece standing on `pos`: none when it is not its
/// owner's turn; otherwise the pseudo-legal moves of its kind, filtered
/// by the legality test when `deep`.
pub open spec fn v_piece_moves(bv: BoardV, piece: Piece, pos: Vec2, deep: bool) -> Seq<Move>
    decreases gen_rank(deep), 64int,
{
    if piece.owner != bv.turn {
        Seq::empty()
    } else {
        let base = match piece.piece_type {
            PieceType::King => v_simple_from(
                bv,
                piece.owner,
                pos,
                king_offsets(),
                0,
                1,
                MoveType::SlidingMove,
            ) + (if deep && !piece.has_moved && (pos.0 == 3 || pos.0 == 4) {
                v_castle_side(bv, piece.owner, pos, Vec2(0, pos.1)) + v_castle_side(
                    bv,
                    piece.owner,
                    pos,
                    Vec2(7, pos.1),
                )
            } else {
                Seq::empty()
            }),
            PieceType::Queen => v_simple_from(
                bv,
                piece.owner,
                pos,
                king_offsets(),
                0,
                127,
                MoveType::SlidingMove,
            ),
            PieceType::Castle => v_simple_from(
                bv,
                piece.owner,
                pos,
                rook_offsets(),
                0,
                127,
                MoveType::SlidingMove,
            ),
            PieceType::Bishop => v_simple_from(
                bv,
                piece.owner,
                pos,
                bishop_offsets(),
                0,
                127,
                MoveType::SlidingMove,
            ),
            PieceType::Knight => v_simple_from(
                bv,
                piece.owner,
                pos,
                knight_offsets(),
                0,
                1,
                MoveType::JumpingMove,
            ),
            PieceType::Pawn { .. } => v_pawn(bv, piece, pos),
        };
        if deep {
            v_filter_from(bv, base, 0)
        } else {
            base
        }
    }
}

/// The generation sweep from square `idx` (row-major) to the end of the
/// board: origins with at least one move, and their move lists.
pub open spec fn v_gen_from(bv: BoardV, deep: bool, idx: int) -> (Seq<Vec2>, Seq<Seq<Move>>)
    decreases gen_rank(deep) + 1, 64 - idx,
{
    if idx < 0 || idx >= 64 {
        (Seq::empty(), Seq::empty())
    } else {
        let p = Vec2((idx % 8) as i8, (idx / 8) as i8);
        let rest = v_gen_from(bv, deep, idx + 1);
        match bv.tile_at(p).piece {
            Some(piece) => {
                let ms = v_piece_moves(bv, piece, p, deep);
                if ms.len() > 0 {
                    (seq![p] + rest.0, seq![ms] + rest.1)
                } else {
                    rest
                }
            },
            None => rest,
        }
    }
}

/// Whether the side to move can capture the opposing king outright:
/// some shallow-generated move lands on that king's cached square.
/// (A castle move always lands on an empty square, so the shallow sweep,
/// which generates no castles, decides this faithfully.)
pub open spec fn v_about_to_win(bv: BoardV) -> bool
    decreases 3int, 0int,
{
    let g = v_gen_from(bv, false, 0);
    exists|i: int, j: int|
        0 <= i < g.1.len() && 0 <= j < g.1[i].len() && (#[trigger] g.1[i][j]).to == bv.king_position(
            bv.turn.spec_other(),
        )
}

/// Whether applying `m` and ending the turn leaves the mover's king
/// capturable by the opponent.
pub open spec fn v_wcl(bv: BoardV, m: Move) -> bool
    decreases 4int, 0int,
{
    v_about_to_win(bv.do_move(m).post_turn())
}

/// An offset vector small enough that one step from an on-board square
/// stays within the coordinate type.
pub open spec fn small_offset(v: Vec2) -> bool {
    -2 <= v.0 <= 2 && -2 <= v.1 <= 2
}

impl Piece {
    /// The ray moves of this piece along each offset, as `v_simple_from`
    /// describes.
    fn generate_simple_moves(
        &self,
        offsets: &Vec<Vec2>,
        limit: i8,
        pos: Vec2,
        move_type: MoveType,
        board: &Board,
    ) -> (r: Vec<Move>)
        requires
            board@.wf(),
            pos.spec_inside_board(),
            forall|k: int| 0 <= k < offsets@.len() ==> small_offset(#[trigger] offsets@[k]),
        ensures
            r@ == v_simple_from(board@, self.owner, pos, offsets@, 0, limit as int, move_type),
    {
        let ghost total = v_simple_from(
            board@,
            self.owner,
            pos,
            offsets@,
            0,
            limit as int,
            move_type,
        );
        let mut moves: Vec<Move> = Vec::new();
        let mut i: usize = 0;
        while i < offsets.len()
            invariant
                board@.wf(),
                pos.spec_inside_board(),
                forall|k: int| 0 <= k < offsets@.len() ==> small_offset(#[trigger] offsets@[k]),
                i <= offsets@.len(),
                total == v_simple_from(
                    board@,
                    self.owner,
                    pos,
                    offsets@,
                    0,
                    limit as int,
                    move_type,
                ),
                total == moves@ + v_simple_from(
                    board@,
                    self.owner,
                    pos,
                    offsets@,
                    i as int,
                    limit as int,
                    move_type,
                ),
            decreases offsets@.len() - i,
        {
            let dir = offsets[i];
            let mut to = pos.plus(dir);
            let mut lim = limit;
            proof {
                assert(v_simple_from(
                    board@,
                    self.owner,
                    pos,
                    offsets@,
                    i as int,
                    limit as int,
                    move_type,
                ) == v_ray(board@, self.owner, pos, dir, pos.spec_plus(dir), limit as int, move_type)
                    + v_simple_from(
                    board@,
                    self.owner,
                    pos,
                    offsets@,
                    i + 1,
                    limit as int,
                    move_type,
                ));
                assert(moves@ + (v_ray(
                    board@,
                    self.owner,
                    pos,
                    dir,
                    pos.spec_plus(dir),
                    limit as int,
                    move_type,
                ) + v_simple_from(
                    board@,
                    self.owner,
                    pos,
                    offsets@,
                    i + 1,
                    limit as int,
                    move_type,
                )) =~= (moves@ + v_ray(
                    board@,
                    self.owner,
                    pos,
                    dir,
                    pos.spec_plus(dir),
                    limit as int,
                    move_type,
                )) + v_simple_from(
                    board@,
                    self.owner,
                    pos,
                    offsets@,
                    i + 1,
                    limit as int,
                    move_type,
                ));
            }
            while to.is_inside_board() && lim > 0
                invariant_except_break
                    board@.wf(),
                    pos.spec_inside_board(),
                    small_offset(dir),
                    total == moves@ + v_ray(
                        board@,
                        self.owner,
                        pos,
                        dir,
                        to,
                        lim as int,
                        move_type,
                    ) + v_simple_from(
                        board@,
                        self.owner,
                        pos,
                        offsets@,
                        i + 1,
                        limit as int,
                        move_type,
                    ),
                ensures
                    total == moves@ + v_simple_from(
                        board@,
                        self.owner,
                        pos,
                        offsets@,
                        i + 1,
                        limit as int,
                        move_type,
                    ),
                decreases lim,
            {
                let ghost moves0 = moves@;
                let ghost to0 = to;
                let ghost lim0 = lim as int;
                let tile_piece = board.get_tile(to).piece;
                match tile_piece {
                    Some(blocking) => {
                        if blocking.owner != self.owner {
                            moves.push(Move { move_type, from: pos, to });
                        }
                        proof {
                            assert(moves@ + v_simple_from(
                                board@,
                                self.owner,
                                pos,
                                offsets@,
                                i + 1,
                                limit as int,
                                move_type,
                            ) =~= moves0 + v_ray(
                                board@,
                                self.owner,
                                pos,
                                dir,
                                to0,
                                lim0,
                                move_type,
                            ) + v_simple_from(
                                board@,
                                self.owner,
                                pos,
                                offsets@,
                                i + 1,
                                limit as int,
                                move_type,
                            ));
                        }
                        break ;
                    },
                    None => {
                        moves.push(Move { move_type, from: pos, to });
                        to = to.plus(dir);
                        lim = lim - 1;
                        proof {
                            assert(moves@ + v_ray(
                                board@,
                                self.owner,
                                pos,
                                dir,
                                to,
                                lim as int,
                                move_type,
                            ) =~= moves0 + v_ray(
                                board@,
                                self.owner,
                                pos,
                                dir,
                                to0,
                                lim0,
                                move_type,
                            ));
                        }
                    },
                }
            }
            i = i + 1;
        }
        moves
    }

    /// A pawn's moves, as `v_pawn` describes: advances, captures,
    /// en passant, each expanded into the four promotion choices when it
    /// reaches the final rank.
    fn pawn_moves(&self, board: &Board, pos: Vec2) -> (r: Vec<Move>)
        requires
            board@.wf(),
            pos.spec_inside_board(),
        ensures
            r@ == v_pawn(board@, *self, pos),
    {
        let dir = match self.owner {
            Player::White => Vec2(0i8, -1i8),
            Player::Black => Vec2(0i8, 1i8),
        };
        let mut base: Vec<Move> = Vec::new();
        // advance by one, and by two while unmoved
        let to1 = pos.plus(dir);
        if to1.is_inside_board() && board.get_tile(to1).piece.is_none() {
            base.push(Move { move_type: MoveType::SlidingMove, from: pos, to: to1 });
            if !self.has_moved {
                let to2 = to1.plus(dir);
                if to2.is_inside_board() && board.get_tile(to2).piece.is_none() {
                    base.push(Move { move_type: MoveType::SlidingMove, from: pos, to: to2 });
                }
            }
        }
        proof {
            assert(base@ =~= v_pawn_adv(board@, *self, pos));
        }
        // diagonal captures
        let mut s: i8 = -1;
        while s <= 1
            invariant
                board@.wf(),
                pos.spec_inside_board(),
                dir == pawn_dir(self.owner),
                s == -1 || s == 1 || s == 3,
                s == -1 ==> base@ == v_pawn_adv(board@, *self, pos),
                s == 1 ==> base@ == v_pawn_adv(board@, *self, pos) + v_pawn_cap(
                    board@,
                    *self,
                    pos,
                    Vec2(-1i8, 0i8),
                ),
                s == 3 ==> base@ == v_pawn_adv(board@, *self, pos) + v_pawn_cap(
                    board@,
                    *self,
                    pos,
                    Vec2(-1i8, 0i8),
                ) + v_pawn_cap(board@, *self, pos, Vec2(1i8, 0i8)),
            decreases 3 - s,
        {
            let side = Vec2(s, 0);
            let to = pos.plus(dir).plus(side);
            if to.is_inside_board() {
                match board.get_tile(to).piece {
                    Some(p) => {
                        if p.owner != self.owner {
                            base.push(Move { move_type: MoveType::SlidingMove, from: pos, to });
                        }
                    },
                    None => {},
                }
            }
            proof {
                assert(pos.spec_plus(dir).spec_plus(side) == to);
            }
            s = s + 2;
        }
        // en-passant captures
        let mut s: i8 = -1;
        while s <= 1
            invariant
                board@.wf(),
                pos.spec_inside_board(),
                dir == pawn_dir(self.owner),
                s == -1 || s == 1 || s == 3,
                s == -1 ==> base@ == v_pawn_adv(board@, *self, pos) + v_pawn_cap(
                    board@,
                    *self,
                    pos,
                    Vec2(-1i8, 0i8),
                ) + v_pawn_cap(board@, *self, pos, Vec2(1i8, 0i8)),
                s == 1 ==> base@ == v_pawn_adv(board@, *self, pos) + v_pawn_cap(
                    board@,
                    *self,
                    pos,
                    Vec2(-1i8, 0i8),
                ) + v_pawn_cap(board@, *self, pos, Vec2(1i8, 0i8)) + v_pawn_ep(
                    board@,
                    *self,
                    pos,
                    Vec2(-1i8, 0i8),
                ),
                s == 3 ==> base@ == v_pawn_base(board@, *self, pos),
            decreases 3 - s,
        {
            let side = Vec2(s, 0);
            let to = pos.plus(side).plus(dir);
            if to.is_inside_board() {
                match board.get_tile(Vec2(pos.0 + s, pos.1)).piece {
                    Some(
                        Piece {
                            piece_type: PieceType::Pawn { turns_since_double_advance: Some(t) },
                            owner,
                            ..
                        },
                    ) => {
                        if t == 1 && owner != self.owner {
                            base.push(Move { move_type: MoveType::EnPassant, from: pos, to });
                        }
                    },
                    _ => {},
                }
            }
            proof {
                assert(pos.spec_plus(side) == Vec2((pos.0 + s) as i8, pos.1));
                assert(pos.spec_plus(side).spec_plus(dir) == to);
                if s == 1 {
                    assert(base@ =~= v_pawn_base(board@, *self, pos));
                }
            }
            s = s + 2;
        }
        // promotion expansion
        let final_rank_v: i8 = match self.owner {
            Player::White => 0,
            Player::Black => 7,
        };
        let mut out: Vec<Move> = Vec::new();
        let mut i: usize = 0;
        while i < base.len()
            invariant
                i <= base@.len(),
                final_rank_v == final_rank(self.owner),
                v_promote_from(self.owner, base@, 0) == out@ + v_promote_from(
                    self.owner,
                    base@,
                    i as int,
                ),
            decreases base@.len() - i,
        {
            let ghost out0 = out@;
            let m = base[i];
            if m.to.1 == final_rank_v {
                out.push(
                    Move {
                        move_type: MoveType::Promotion { into: PieceType::Queen },
                        from: m.from,
                        to: m.to,
                    },
                );
                out.push(
                    Move {
                        move_type: MoveType::Promotion { into: PieceType::Knight },
                        from: m.from,
                        to: m.to,
                    },
                );
                out.push(
                    Move {
                        move_type: MoveType::Promotion { into: PieceType::Bishop },
                        from: m.from,
                        to: m.to,
                    },
                );
                out.push(
                    Move {
                        move_type: MoveType::Promotion { into: PieceType::Castle },
                        from: m.from,
                        to: m.to,
                    },
                );
            } else {
                out.push(m);
            }
            proof {
                assert(out@ =~= out0 + v_promote_one(self.owner, base@[i as int]));
                assert(out0 + (v_promote_one(self.owner, base@[i as int]) + v_promote_from(
                    self.owner,
                    base@,
                    i + 1,
                )) =~= (out0 + v_promote_one(self.owner, base@[i as int])) + v_promote_from(
                    self.owner,
                    base@,
                    i + 1,
                ));
            }
            i = i + 1;
        }
        out
    }
}

/// Every move of the list can be applied to a well-formed board.
pub open spec fn all_ok(s: Seq<Move>) -> bool {
    forall|k: int| 0 <= k < s.len() ==> crate::board::move_ok(#[trigger] s[k])
}

proof fn lemma_all_ok_add(s1: Seq<Move>, s2: Seq<Move>)
    requires
        all_ok(s1),
        all_ok(s2),
    ensures
        all_ok(s1 + s2),
{
    assert forall|k: int| 0 <= k < (s1 + s2).len() implies crate::board::move_ok(
        #[trigger] (s1 + s2)[k],
    ) by {
        if k < s1.len() {
            assert((s1 + s2)[k] == s1[k]);
        } else {
            assert((s1 + s2)[k] == s2[k - s1.len()]);
        }
    }
}

proof fn lemma_ray_ok(
    bv: BoardV,
    owner: Player,
    from: Vec2,
    dir: Vec2,
    cur: Vec2,
    limit: int,
    mt: MoveType,
)
    requires
        from.spec_inside_board(),
        !(mt is TurnEnd),
        !(mt is Castle),
    ensures
        all_ok(v_ray(bv, owner, from, dir, cur, limit, mt)),
    decreases limit,
{
    if cur.spec_inside_board() && limit > 0 {
        lemma_ray_ok(bv, owner, from, dir, cur.spec_plus(dir), limit - 1, mt);
        match bv.tile_at(cur).piece {
            Some(_) => {},
            None => {
                lemma_all_ok_add(
                    seq![Move { move_type: mt, from, to: cur }],
                    v_ray(bv, owner, from, dir, cur.spec_plus(dir), limit - 1, mt),
                );
            },
        }
    }
}

proof fn lemma_simple_ok(
    bv: BoardV,
    owner: Player,
    pos: Vec2,
    offsets: Seq<Vec2>,
    i: int,
    limit: int,
    mt: MoveType,
)
    requires
        pos.spec_inside_board(),
        !(mt is TurnEnd),
        !(mt is Castle),
    ensures
        all_ok(v_simple_from(bv, owner, pos, offsets, i, limit, mt)),
    decreases offsets.len() - i,
{
    if 0 <= i < offsets.len() {
        lemma_ray_ok(bv, owner, pos, offsets[i], pos.spec_plus(offsets[i]), limit, mt);
        lemma_simple_ok(bv, owner, pos, offsets, i + 1, limit, mt);
        lemma_all_ok_add(
            v_ray(bv, owner, pos, offsets[i], pos.spec_plus(offsets[i]), limit, mt),
            v_simple_from(bv, owner, pos, offsets, i + 1, limit, mt),
        );
    }
}

proof fn lemma_promote_from_ok(owner: Player, s: Seq<Move>, i: int)
    requires
        all_ok(s),
    ensures
        all_ok(v_promote_from(owner, s, i)),
    decreases s.len() - i,
{
    if 0 <= i < s.len() {
        lemma_promote_from_ok(owner, s, i + 1);
        lemma_all_ok_add(v_promote_one(owner, s[i]), v_promote_from(owner, s, i + 1));
    }
}

proof fn lemma_pawn_ok(bv: BoardV, piece: Piece, pos: Vec2)
    requires
        pos.spec_inside_board(),
    ensures
        all_ok(v_pawn(bv, piece, pos)),
{
    lemma_all_ok_add(v_pawn_adv(bv, piece, pos), v_pawn_cap(bv, piece, pos, Vec2(-1i8, 0i8)));
    lemma_all_ok_add(
        v_pawn_adv(bv, piece, pos) + v_pawn_cap(bv, piece, pos, Vec2(-1i8, 0i8)),
        v_pawn_cap(bv, piece, pos, Vec2(1i8, 0i8)),
    );
    lemma_all_ok_add(
        v_pawn_adv(bv, piece, pos) + v_pawn_cap(bv, piece, pos, Vec2(-1i8, 0i8)) + v_pawn_cap(
            bv,
            piece,
            pos,
            Vec2(1i8, 0i8),
        ),
        v_pawn_ep(bv, piece, pos, Vec2(-1i8, 0i8)),
    );
    lemma_all_ok_add(
        v_pawn_adv(bv, piece, pos) + v_pawn_cap(bv, piece, pos, Vec2(-1i8, 0i8)) + v_pawn_cap(
            bv,
            piece,
            pos,
            Vec2(1i8, 0i8),
        ) + v_pawn_ep(bv, piece, pos, Vec2(-1i8, 0i8)),
        v_pawn_ep(bv, piece, pos, Vec2(1i8, 0i8)),
    );
    lemma_promote_from_ok(piece.owner, v_pawn_base(bv, piece, pos), 0);
}

proof fn lemma_castle_ok(bv: BoardV, owner: Player, pos: Vec2, corner: Vec2)
    requires
        pos.spec_inside_board(),
        pos.0 == 3 || pos.0 == 4,
        corner.0 == 0 || corner.0 == 7,
        corner.1 == pos.1,
    ensures
        all_ok(v_castle_side(bv, owner, pos, corner)),
{
}

/// The filtered list keeps only members of the original list, all of which
/// pass the legality test.
proof fn lemma_filter_from_props(bv: BoardV, s: Seq<Move>, i: int)
    ensures
        forall|k: int|
            0 <= k < v_filter_from(bv, s, i).len() ==> !v_wcl(
                bv,
                #[trigger] v_filter_from(bv, s, i)[k],
            ) && exists|j: int| i <= j < s.len() && s[j] == v_filter_from(bv, s, i)[k],
    decreases s.len() - i,
{
    if 0 <= i < s.len() {
        lemma_filter_from_props(bv, s, i + 1);
        let f = v_filter_from(bv, s, i);
        let rest = v_filter_from(bv, s, i + 1);
        assert forall|k: int| 0 <= k < f.len() implies !v_wcl(bv, #[trigger] f[k]) && exists|j: int|
            i <= j < s.len() && s[j] == f[k] by {
            if !v_wcl(bv, s[i]) && k == 0 {
                assert(f[k] == s[i]);
                assert(s[i] == f[k]);
            } else {
                let off: int = if !v_wcl(bv, s[i]) {
                    1
                } else {
                    0
                };
                assert(f[k] == rest[k - off]);
                let j = choose|j: int| i + 1 <= j < s.len() && s[j] == rest[k - off];
                assert(s[j] == f[k]);
            }
        }
    }
}

proof fn lemma_piece_moves_ok(bv: BoardV, piece: Piece, pos: Vec2, deep: bool)
    requires
        pos.spec_inside_board(),
    ensures
        all_ok(v_piece_moves(bv, piece, pos, deep)),
{
    if piece.owner == bv.turn {
        let base = match piece.piece_type {
            PieceType::King => v_simple_from(
                bv,
                piece.owner,
                pos,
                king_offsets(),
                0,
                1,
                MoveType::SlidingMove,
            ) + (if deep && !piece.has_moved && (pos.0 == 3 || pos.0 == 4) {
                v_castle_side(bv, piece.owner, pos, Vec2(0i8, pos.1)) + v_castle_side(
                    bv,
                    piece.owner,
                    pos,
                    Vec2(7i8, pos.1),
                )
            } else {
                Seq::empty()
            }),
            PieceType::Queen => v_simple_from(
                bv,
                piece.owner,
                pos,
                king_offsets(),
                0,
                127,
                MoveType::SlidingMove,
            ),
            PieceType::Castle => v_simple_from(
                bv,
                piece.owner,
                pos,
                rook_offsets(),
                0,
                127,
                MoveType::SlidingMove,
            ),
            PieceType::Bishop => v_simple_from(
                bv,
                piece.owner,
                pos,
                bishop_offsets(),
                0,
                127,
                MoveType::SlidingMove,
            ),
            PieceType::Knight => v_simple_from(
                bv,
                piece.owner,
                pos,
                knight_offsets(),
                0,
                1,
                MoveType::JumpingMove,
            ),
            PieceType::Pawn { .. } => v_pawn(bv, piece, pos),
        };
        match piece.piece_type {
            PieceType::King => {
                lemma_simple_ok(bv, piece.owner, pos, king_offsets(), 0, 1, MoveType::SlidingMove);
                if deep && !piece.has_moved && (pos.0 == 3 || pos.0 == 4) {
                    lemma_castle_ok(bv, piece.owner, pos, Vec2(0i8, pos.1));
                    lemma_castle_ok(bv, piece.owner, pos, Vec2(7i8, pos.1));
                    lemma_all_ok_add(
                        v_castle_side(bv, piece.owner, pos, Vec2(0i8, pos.1)),
                        v_castle_side(bv, piece.owner, pos, Vec2(7i8, pos.1)),
                    );
                }
                lemma_all_ok_add(
                    v_simple_from(bv, piece.owner, pos, king_offsets(), 0, 1, MoveType::SlidingMove),
                    if deep && !piece.has_moved && (pos.0 == 3 || pos.0 == 4) {
                        v_castle_side(bv, piece.owner, pos, Vec2(0i8, pos.1)) + v_castle_side(
                            bv,
                            piece.owner,
                            pos,
                            Vec2(7i8, pos.1),
                        )
                    } else {
                        Seq::empty()
                    },
                );
            },
            PieceType::Queen => {
                lemma_simple_ok(
                    bv,
                    piece.owner,
                    pos,
                    king_offsets(),
                    0,
                    127,
                    MoveType::SlidingMove,
                );
            },
            PieceType::Castle => {
                lemma_simple_ok(
                    bv,
                    piece.owner,
                    pos,
                    rook_offsets(),
                    0,
                    127,
                    MoveType::SlidingMove,
                );
            },
            PieceType::Bishop => {
                lemma_simple_ok(
                    bv,
                    piece.owner,
                    pos,
                    bishop_offsets(),
                    0,
                    127,
                    MoveType::SlidingMove,
                );
            },
            PieceType::Knight => {
                lemma_simple_ok(
                    bv,
                    piece.owner,
                    pos,
                    knight_offsets(),
                    0,
                    1,
                    MoveType::JumpingMove,
                );
            },
            PieceType::Pawn { .. } => {
                lemma_pawn_ok(bv, piece, pos);
            },
        }
        if deep {
            lemma_filter_from_props(bv, base, 0);
            assert forall|k: int| 0 <= k < v_piece_moves(bv, piece, pos, deep).len() implies
                crate::board::move_ok(#[trigger] v_piece_moves(bv, piece, pos, deep)[k]) by {
                let f = v_filter_from(bv, base, 0);
                let j = choose|j: int| 0 <= j < base.len() && base[j] == f[k];
                assert(crate::board::move_ok(base[j]));
            }
        }
    }
}

proof fn lemma_piece_moves_sound(bv: BoardV, piece: Piece, pos: Vec2)
    ensures
        forall|k: int|
            0 <= k < v_piece_moves(bv, piece, pos, true).len() ==> !v_wcl(
                bv,
                #[trigger] v_piece_moves(bv, piece, pos, true)[k],
            ),
{
    if piece.owner == bv.turn {
        let base = match piece.piece_type {
            PieceType::King => v_simple_from(
                bv,
                piece.owner,
                pos,
                king_offsets(),
                0,
                1,
                MoveType::SlidingMove,
            ) + (if !piece.has_moved && (pos.0 == 3 || pos.0 == 4) {
                v_castle_side(bv, piece.owner, pos, Vec2(0i8, pos.1)) + v_castle_side(
                    bv,
                    piece.owner,
                    pos,
                    Vec2(7i8, pos.1),
                )
            } else {
                Seq::empty()
            }),
            PieceType::Queen => v_simple_from(
                bv,
                piece.owner,
                pos,
                king_offsets(),
                0,
                127,
                MoveType::SlidingMove,
            ),
            PieceType::Castle => v_simple_from(
                bv,
                piece.owner,
                pos,
                rook_offsets(),
                0,
                127,
                MoveType::SlidingMove,
            ),
            PieceType::Bishop => v_simple_from(
                bv,
                piece.owner,
                pos,
                bishop_offsets(),
                0,
                127,
                MoveType::SlidingMove,
            ),
            PieceType::Knight => v_simple_from(
                bv,
                piece.owner,
                pos,
                knight_offsets(),
                0,
                1,
                MoveType::JumpingMove,
            ),
            PieceType::Pawn { .. } => v_pawn(bv, piece, pos),
        };
        lemma_filter_from_props(bv, base, 0);
        assert(v_piece_moves(bv, piece, pos, true) == v_filter_from(bv, base, 0));
    }
}

proof fn lemma_gen_from_sound(bv: BoardV, idx: int)
    ensures
        forall|i: int, j: int|
            0 <= i < v_gen_from(bv, true, idx).1.len() && 0 <= j < v_gen_from(
                bv,
                true,
                idx,
            ).1[i].len() ==> !v_wcl(bv, #[trigger] v_gen_from(bv, true, idx).1[i][j]),
    decreases 64 - idx,
{
    if 0 <= idx < 64 {
        lemma_gen_from_sound(bv, idx + 1);
        let p = Vec2((idx % 8) as i8, (idx / 8) as i8);
        let g = v_gen_from(bv, true, idx);
        let rest = v_gen_from(bv, true, idx + 1);
        match bv.tile_at(p).piece {
            Some(piece) => {
                lemma_piece_moves_sound(bv, piece, p);
                let ms = v_piece_moves(bv, piece, p, true);
                if ms.len() > 0 {
                    assert forall|i: int, j: int|
                        0 <= i < g.1.len() && 0 <= j < g.1[i].len() implies !v_wcl(
                        bv,
                        #[trigger] g.1[i][j],
                    ) by {
                        if i == 0 {
                            assert(g.1[i] == ms);
                        } else {
                            assert(g.1[i] == rest.1[i - 1]);
                        }
                    }
                }
            },
            None => {},
        }
    }
}

/// The legality filter drops nothing it should keep: every member of the
/// pseudo-legal list that passes the look-ahead is in the filtered list.
pub proof fn lemma_filter_keeps_legal(bv: BoardV, s: Seq<Move>, i: int, j: int)
    requires
        0 <= i <= j < s.len(),
        !v_wcl(bv, s[j]),
    ensures
        v_filter_from(bv, s, i).contains(s[j]),
    decreases j - i,
{
    if i == j {
        assert(v_filter_from(bv, s, i)[0] == s[j]);
    } else {
        lemma_filter_keeps_legal(bv, s, i + 1, j);
        let rest = v_filter_from(bv, s, i + 1);
        let k = choose|k: int| 0 <= k < rest.len() && rest[k] == s[j];
        let head: Seq<Move> = if !v_wcl(bv, s[i]) {
            seq![s[i]]
        } else {
            Seq::empty()
        };
        assert(v_filter_from(bv, s, i)[head.len() + k] == s[j]);
    }
}

/// Deep generation keeps every pseudo-legal move of the piece that does
/// not lose the mover's king: nothing legal is withheld relative to the
/// pseudo-legal sweep.
pub proof fn lemma_piece_moves_complete(bv: BoardV, piece: Piece, pos: Vec2, j: int)
    requires
        0 <= j < v_piece_moves(bv, piece, pos, false).len(),
        piece.owner == bv.turn,
        !(piece.piece_type is King),
        !v_wcl(bv, v_piece_moves(bv, piece, pos, false)[j]),
    ensures
        v_piece_moves(bv, piece, pos, true).contains(v_piece_moves(bv, piece, pos, false)[j]),
{
    let base = v_piece_moves(bv, piece, pos, false);
    assert(v_piece_moves(bv, piece, pos, true) == v_filter_from(bv, base, 0));
    lemma_filter_keeps_legal(bv, base, 0, j);
}

/// Move-generation soundness: every move the deep sweep offers, once
/// applied and followed by the turn end, leaves a position in which the
/// opponent has no move onto the mover's king.
pub proof fn lemma_move_generation_soundness(bv: BoardV, i: int, j: int)
    requires
        0 <= i < v_gen_from(bv, true, 0).1.len(),
        0 <= j < v_gen_from(bv, true, 0).1[i].len(),
    ensures
        !v_about_to_win(bv.do_move(v_gen_from(bv, true, 0).1[i][j]).post_turn()),
{
    lemma_gen_from_sound(bv, 0);
    assert(!v_wcl(bv, v_gen_from(bv, true, 0).1[i][j]));
}

impl Move {
    /// Whether making this move loses outright: the board after the move
    /// and the turn flip lets the opponent capture the mover's king.
    pub fn would_cause_lose(&self, board: &Board) -> (r: bool)
        requires
            board@.wf(),
            !(self.move_type is TurnEnd) ==> self.from.spec_inside_board()
                && self.to.spec_inside_board(),
        ensures
            r == v_wcl(board@, *self),
        decreases 4int, 0int,
    {
        let mut b = board.clone();
        b.do_move(self);
        b.post_turn();
        b.about_to_win()
    }
}

impl Piece {
    /// The castle moves toward one corner, as `v_castle_side` describes.
    fn castle_side_moves(&self, board: &Board, pos: Vec2, corner: Vec2) -> (r: Vec<Move>)
        requires
            board@.wf(),
            pos.spec_inside_board(),
            pos.0 == 3 || pos.0 == 4,
            corner.1 == pos.1,
            corner.0 == 0 || corner.0 == 7,
        ensures
            r@ == v_castle_side(board@, self.owner, pos, corner),
        decreases 6int, 0int,
    {
        let mut moves: Vec<Move> = Vec::new();
        let corner_piece = board.get_tile(corner).piece;
        match corner_piece {
            Some(rook) => {
                let is_rook = matches!(rook.piece_type, PieceType::Castle);
                if is_rook && !rook.has_moved && rook.owner == self.owner {
                    let dirx: i8 = if corner.0 == 0 {
                        -1
                    } else {
                        1
                    };
                    let dir = Vec2(dirx, 0);
                    let mut cur = pos.plus(dir);
                    let mut clear = true;
                    loop
                        invariant_except_break
                            board@.wf(),
                            dir == (Vec2(dirx, 0i8)),
                            dirx == -1 || dirx == 1,
                            cur.1 == pos.1,
                            0 <= pos.1 < 8,
                            0 <= cur.0 <= 7,
                            clear,
                            v_path_clear(board@, pos.spec_plus(dir), dir) == v_path_clear(
                                board@,
                                cur,
                                dir,
                            ),
                        ensures
                            clear == v_path_clear(board@, pos.spec_plus(dir), dir),
                        decreases (if dirx == 1 {
                            8 - cur.0
                        } else {
                            cur.0 + 1
                        }),
                    {
                        let next = cur.plus(dir);
                        if !next.is_inside_board() {
                            break ;
                        }
                        if board.get_tile(cur).piece.is_some() {
                            clear = false;
                            break ;
                        }
                        cur = next;
                    }
                    if clear {
                        let nkp = pos.plus(dir).plus(dir);
                        let m0 = Move { move_type: MoveType::JumpingMove, from: pos, to: pos };
                        let m1 = Move {
                            move_type: MoveType::JumpingMove,
                            from: pos,
                            to: pos.plus(dir),
                        };
                        let m2 = Move { move_type: MoveType::JumpingMove, from: pos, to: nkp };
                        if !m0.would_cause_lose(board) && !m1.would_cause_lose(board)
                            && !m2.would_cause_lose(board) {
                            moves.push(
                                Move {
                                    move_type: MoveType::Castle {
                                        from: corner,
                                        to: nkp.minus(dir),
                                    },
                                    from: pos,
                                    to: nkp,
                                },
                            );
                        }
                    }
                }
            },
            None => {},
        }
        proof {
            assert(moves@ =~= v_castle_side(board@, self.owner, pos, corner));
        }
        moves
    }

    /// The moves of this piece from `pos`: empty when it is not its
    /// owner's turn; otherwise its pseudo-legal moves, with every move
    /// that loses the king dropped when `deep`.
    pub fn generate_moves(&self, board: &Board, pos: Vec2, deep: bool) -> (r: Vec<Move>)
        requires
            board@.wf(),
            pos.spec_inside_board(),
        ensures
            r@ == v_piece_moves(board@, *self, pos, deep),
            all_ok(r@),
        decreases gen_rank(deep), 3int,
    {
        proof {
            lemma_piece_moves_ok(board@, *self, pos, deep);
        }
        if self.owner != board.turn {
            let r: Vec<Move> = Vec::new();
            return r;
        }
        let moves: Vec<Move> = match self.piece_type {
            PieceType::King => {
                let offs = vec![
                    Vec2(0i8, 1i8),
                    Vec2(0i8, -1i8),
                    Vec2(1i8, 0i8),
                    Vec2(-1i8, 0i8),
                    Vec2(-1i8, -1i8),
                    Vec2(-1i8, 1i8),
                    Vec2(1i8, -1i8),
                    Vec2(1i8, 1i8),
                ];
                proof {
                    assert(offs@ =~= king_offsets());
                }
                let mut ms = self.generate_simple_moves(
                    &offs,
                    1,
                    pos,
                    MoveType::SlidingMove,
                    board,
                );
                if deep && !self.has_moved && (pos.0 == 3 || pos.0 == 4) {
                    let mut c1 = self.castle_side_moves(board, pos, Vec2(0, pos.1));
                    let mut c2 = self.castle_side_moves(board, pos, Vec2(7, pos.1));
                    ms.append(&mut c1);
                    ms.append(&mut c2);
                    proof {
                        assert(ms@ =~= v_simple_from(
                            board@,
                            self.owner,
                            pos,
                            king_offsets(),
                            0,
                            1,
                            MoveType::SlidingMove,
                        ) + (v_castle_side(board@, self.owner, pos, Vec2(0i8, pos.1))
                            + v_castle_side(board@, self.owner, pos, Vec2(7i8, pos.1))));
                    }
                } else {
                    proof {
                        assert(ms@ =~= v_simple_from(
                            board@,
                            self.owner,
                            pos,
                            king_offsets(),
                            0,
                            1,
                            MoveType::SlidingMove,
                        ) + Seq::<Move>::empty());
                    }
                }
                ms
            },
            PieceType::Queen => {
                let offs = vec![
                    Vec2(0i8, 1i8),
                    Vec2(0i8, -1i8),
                    Vec2(1i8, 0i8),
                    Vec2(-1i8, 0i8),
                    Vec2(-1i8, -1i8),
                    Vec2(-1i8, 1i8),
                    Vec2(1i8, -1i8),
                    Vec2(1i8, 1i8),
                ];
                proof {
                    assert(offs@ =~= king_offsets());
                }
                self.generate_simple_moves(&offs, 127, pos, MoveType::SlidingMove, board)
            },
            PieceType::Castle => {
                let offs = vec![Vec2(0i8, 1i8), Vec2(0i8, -1i8), Vec2(1i8, 0i8), Vec2(-1i8, 0i8)];
                proof {
                    assert(offs@ =~= rook_offsets());
                }
                self.generate_simple_moves(&offs, 127, pos, MoveType::SlidingMove, board)
            },
            PieceType::Bishop => {
                let offs = vec![
                    Vec2(-1i8, -1i8),
                    Vec2(-1i8, 1i8),
                    Vec2(1i8, -1i8),
                    Vec2(1i8, 1i8),
                ];
                proof {
                    assert(offs@ =~= bishop_offsets());
                }
                self.generate_simple_moves(&offs, 127, pos, MoveType::SlidingMove, board)
            },
            PieceType::Knight => {
                let offs = vec![
                    Vec2(2i8, 1i8),
                    Vec2(2i8, -1i8),
                    Vec2(-2i8, 1i8),
                    Vec2(-2i8, -1i8),
                    Vec2(1i8, 2i8),
                    Vec2(1i8, -2i8),
                    Vec2(-1i8, 2i8),
                    Vec2(-1i8, -2i8),
                ];
                proof {
                    assert(offs@ =~= knight_offsets());
                }
                self.generate_simple_moves(&offs, 1, pos, MoveType::JumpingMove, board)
            },
            PieceType::Pawn { .. } => self.pawn_moves(board, pos),
        };
        if deep {
            let ghost base = moves@;
            proof {
                match self.piece_type {
                    PieceType::King => {
                        lemma_simple_ok(
                            board@,
                            self.owner,
                            pos,
                            king_offsets(),
                            0,
                            1,
                            MoveType::SlidingMove,
                        );
                        if !self.has_moved && (pos.0 == 3 || pos.0 == 4) {
                            lemma_castle_ok(board@, self.owner, pos, Vec2(0i8, pos.1));
                            lemma_castle_ok(board@, self.owner, pos, Vec2(7i8, pos.1));
                        }
                    },
                    PieceType::Queen => {
                        lemma_simple_ok(
                            board@,
                            self.owner,
                            pos,
                            king_offsets(),
                            0,
                            127,
                            MoveType::SlidingMove,
                        );
                    },
                    PieceType::Castle => {
                        lemma_simple_ok(
                            board@,
                            self.owner,
                            pos,
                            rook_offsets(),
                            0,
                            127,
                            MoveType::SlidingMove,
                        );
                    },
                    PieceType::Bishop => {
                        lemma_simple_ok(
                            board@,
                            self.owner,
                            pos,
                            bishop_offsets(),
                            0,
                            127,
                            MoveType::SlidingMove,
                        );
                    },
                    PieceType::Knight => {
                        lemma_simple_ok(
                            board@,
                            self.owner,
                            pos,
                            knight_offsets(),
                            0,
                            1,
                            MoveType::JumpingMove,
                        );
                    },
                    PieceType::Pawn { .. } => {
                        lemma_pawn_ok(board@, *self, pos);
                    },
                }
                assert(all_ok(base));
            }
            let mut legal: Vec<Move> = Vec::new();
            let mut i: usize = 0;
            while i < moves.len()
                invariant
                    deep,
                    board@.wf(),
                    i <= moves@.len(),
                    moves@ == base,
                    all_ok(base),
                    v_filter_from(board@, base, 0) == legal@ + v_filter_from(
                        board@,
                        base,
                        i as int,
                    ),
                decreases moves@.len() - i,
            {
                let ghost legal0 = legal@;
                let m = moves[i];
                if !m.would_cause_lose(board) {
                    legal.push(m);
                }
                proof {
                    assert(legal@ + v_filter_from(board@, base, i + 1) =~= legal0 + v_filter_from(
                        board@,
                        base,
                        i as int,
                    ));
                }
                i = i + 1;
            }
            legal
        } else {
            moves
        }
    }
}

/// The rows of a vector of move lists, as a sequence of sequences.
pub open spec fn rows_view(m: Vec<Vec<Move>>) -> Seq<Seq<Move>> {
    Seq::new(m@.len(), |i: int| m@[i]@)
}

/// The generation sweep pairs each listed origin with a non-empty move
/// list of applyable moves, and lists as many origins as move lists.
pub proof fn lemma_gen_from_shape(bv: BoardV, deep: bool, idx: int)
    ensures
        v_gen_from(bv, deep, idx).0.len() == v_gen_from(bv, deep, idx).1.len(),
        forall|i: int|
            0 <= i < v_gen_from(bv, deep, idx).1.len() ==> (#[trigger] v_gen_from(
                bv,
                deep,
                idx,
            ).1[i]).len() > 0,
        forall|i: int, j: int|
            0 <= i < v_gen_from(bv, deep, idx).1.len() && 0 <= j < v_gen_from(
                bv,
                deep,
                idx,
            ).1[i].len() ==> crate::board::move_ok(#[trigger] v_gen_from(bv, deep, idx).1[i][j]),
    decreases 64 - idx,
{
    if 0 <= idx < 64 {
        lemma_gen_from_shape(bv, deep, idx + 1);
        let p = Vec2((idx % 8) as i8, (idx / 8) as i8);
        match bv.tile_at(p).piece {
            Some(piece) => {
                lemma_piece_moves_ok(bv, piece, p, deep);
            },
            None => {},
        }
    }
}

impl Board {
    /// Fill `move_pieces` and `moves` with the generation sweep for the
    /// side to move; with `deep`, only moves that survive the legality
    /// filter are kept.
    pub fn generate_moves(&mut self, deep: bool)
        requires
            old(self)@.wf(),
        ensures
            final(self)@ == (BoardV {
                move_pieces: v_gen_from(old(self)@, deep, 0).0,
                moves: v_gen_from(old(self)@, deep, 0).1,
                ..old(self)@
            }),
            final(self)@.wf(),
            final(self)@.moves_ok(),
        decreases gen_rank(deep) + 1, 64int,
    {
        let ghost b0 = *self;
        let ghost g = v_gen_from(b0@, deep, 0);
        let mut move_pieces: Vec<Vec2> = Vec::new();
        let mut moves: Vec<Vec<Move>> = Vec::new();
        let mut y: i8 = 0;
        while y < 8
            invariant
                *self == b0,
                b0@.wf(),
                0 <= y <= 8,
                g == v_gen_from(b0@, deep, 0),
                g.0 == move_pieces@ + v_gen_from(b0@, deep, 8 * y).0,
                g.1 == rows_view(moves) + v_gen_from(b0@, deep, 8 * y).1,
            decreases 8 - y,
        {
            let mut x: i8 = 0;
            while x < 8
                invariant
                    *self == b0,
                    b0@.wf(),
                    0 <= y < 8,
                    0 <= x <= 8,
                    g == v_gen_from(b0@, deep, 0),
                    g.0 == move_pieces@ + v_gen_from(b0@, deep, 8 * y + x).0,
                    g.1 == rows_view(moves) + v_gen_from(b0@, deep, 8 * y + x).1,
                decreases 8 - x,
            {
                let ghost mp0 = move_pieces@;
                let ghost rows0 = rows_view(moves);
                let p = Vec2(x, y);
                let tile_piece = self.get_tile(p).piece;
                proof {
                    assert((8 * y + x) / 8 == y as int && (8 * y + x) % 8 == x as int) by (nonlinear_arith)
                        requires 0 <= x < 8 && 0 <= y < 8;
                }
                match tile_piece {
                    Some(piece) => {
                        let ms = piece.generate_moves(self, p, deep);
                        if ms.len() > 0 {
                            let ghost msv = ms@;
                            moves.push(ms);
                            move_pieces.push(p);
                            proof {
                                assert(move_pieces@ =~= mp0 + seq![p]);
                                assert(rows_view(moves) =~= rows0 + seq![msv]);
                                assert(mp0 + (seq![p] + v_gen_from(b0@, deep, 8 * y + x + 1).0)
                                    =~= (mp0 + seq![p]) + v_gen_from(b0@, deep, 8 * y + x + 1).0);
                                assert(rows0 + (seq![msv] + v_gen_from(b0@, deep, 8 * y + x + 1).1)
                                    =~= (rows0 + seq![msv]) + v_gen_from(b0@, deep, 8 * y + x + 1).1);
                            }
                        }
                    },
                    None => {},
                }
                x = x + 1;
            }
            y = y + 1;
        }
        self.move_pieces = move_pieces;
        self.moves = moves;
        proof {
            assert(v_gen_from(b0@, deep, 64).0 =~= Seq::<Vec2>::empty());
            assert(g.0 =~= move_pieces@);
            assert(g.1 =~= rows_view(moves));
            assert(self@.move_pieces == move_pieces@);
            assert(self@.moves =~= rows_view(moves));
            assert(self@ == (BoardV { move_pieces: g.0, moves: g.1, ..b0@ }));
            lemma_gen_from_shape(b0@, deep, 0);
        }
    }

    /// Whether the side to move can capture the opposing king: regenerates
    /// the shallow sweep and looks for a move onto that king's square.
    pub fn about_to_win(&mut self) -> (r: bool)
        requires
            old(self)@.wf(),
        ensures
            r == v_about_to_win(old(self)@),
            final(self)@ == (BoardV {
                move_pieces: v_gen_from(old(self)@, false, 0).0,
                moves: v_gen_from(old(self)@, false, 0).1,
                ..old(self)@
            }),
            final(self)@.wf(),
        decreases 3int, 0int,
    {
        let ghost b0 = *self;
        let ghost g = v_gen_from(b0@, false, 0);
        self.generate_moves(false);
        let target = self.get_king_position(self.turn.other());
        let mut i: usize = 0;
        while i < self.moves.len()
            invariant
                b0 == *old(self),
                g == v_gen_from(b0@, false, 0),
                self@.wf(),
                self@.moves == g.1,
                self@ == (BoardV { move_pieces: g.0, moves: g.1, ..b0@ }),
                target == b0@.king_position(b0@.turn.spec_other()),
                i <= g.1.len(),
                self.moves@.len() == g.1.len(),
                forall|a: int, b: int|
                    0 <= a < i && 0 <= b < g.1[a].len() ==> (#[trigger] g.1[a][b]).to != target,
            decreases g.1.len() - i,
        {
            let row_len = self.moves[i].len();
            let mut j: usize = 0;
            while j < row_len
                invariant
                    b0 == *old(self),
                    g == v_gen_from(b0@, false, 0),
                    self@.wf(),
                    self@.moves == g.1,
                    self@ == (BoardV { move_pieces: g.0, moves: g.1, ..b0@ }),
                    target == b0@.king_position(b0@.turn.spec_other()),
                    0 <= i < g.1.len(),
                    self.moves@.len() == g.1.len(),
                    row_len == g.1[i as int].len(),
                    j <= row_len,
                    forall|a: int, b: int|
                        0 <= a < i && 0 <= b < g.1[a].len() ==> (#[trigger] g.1[a][b]).to != target,
                    forall|b: int| 0 <= b < j ==> (#[trigger] g.1[i as int][b]).to != target,
                decreases row_len - j,
            {
                proof {
                    assert(self.moves@[i as int]@[j as int] == g.1[i as int][j as int]);
                }
                let m = self.moves[i][j];
                if m.to.0 == target.0 && m.to.1 == target.1 {
                    proof {
                        assert(m.to == target);
                        assert(0 <= i < g.1.len() && 0 <= j < g.1[i as int].len() && (g.1[i as int][j as int]).to
                            == b0@.king_position(b0@.turn.spec_other()));
                        assert((v_gen_from(b0@, false, 0).1[i as int][j as int]).to
                            == b0@.king_position(b0@.turn.spec_other()));
                        assert(exists|a: int, b: int|
                            0 <= a < v_gen_from(b0@, false, 0).1.len() && 0 <= b < v_gen_from(
                                b0@,
                                false,
                                0,
                            ).1[a].len() && (#[trigger] v_gen_from(b0@, false, 0).1[a][b]).to
                                == b0@.king_position(b0@.turn.spec_other()));
                        reveal_with_fuel(v_about_to_win, 1);
                        assert(v_about_to_win(b0@));
                    }
                    return true;
                }
                j = j + 1;
            }
            i = i + 1;
        }
        proof {
            assert(!v_about_to_win(b0@));
        }
        false
    }
}

} // verus!
