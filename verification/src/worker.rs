//! The game-service dispatch rules: what one consumed entry of the
//! game-requests stream does to the authoritative board, and what is
//! published in consequence. The surrounding worker loop reads, claims and
//! acknowledges entries and performs the publishes these functions return.

use vstd::prelude::*;

use crate::board::{copy_move_rows, copy_vec, Board, Player, Turn};
use crate::play::{ChatMessage, TurnStart, TurnStartV};
use crate::setup::{setup_wf, v_contains_king, GameStart};
use crate::turns::{turn_in_bounds, v_after_turn, v_new_board, v_turn_moves};

verus! {

/// The consequences of a honoured turn: the sub-moves to broadcast, the
/// next turn start, and — when the next side has no move — the end of the
/// game with the mover as winner.
#[derive(Debug)]
pub struct TurnOutcome {
    pub moves: Vec<crate::board::Move>,
    pub turn_start: TurnStart,
    pub game_over: bool,
    pub winner: u128,
}

/// Process a `turn` entry against the game's board. A request whose
/// indices do not address a currently offered move yields `None` and
/// leaves the board as it is (the entry is acknowledged and ignored).
/// Otherwise the board advances as `v_after_turn` describes, and the
/// outcome carries the applied sub-moves, the next turn start, whether the
/// game ended, and the side that just moved as the winner if it did.
pub fn process_turn(board: &mut Board, turn: &Turn) -> (r: Option<TurnOutcome>)
    requires
        old(board)@.wf(),
        old(board)@.moves_ok(),
    ensures
        final(board)@.wf(),
        final(board)@.moves_ok(),
        turn_in_bounds(old(board)@, *turn) ==> ({
            let after = v_after_turn(old(board)@, *turn);
            &&& r is Some
            &&& r->Some_0.moves@ == v_turn_moves(
                old(board)@,
                turn.piece_idx as int,
                turn.move_idx as int,
            )
            &&& r->Some_0.turn_start@ == (TurnStartV {
                turn: after.turn,
                move_pieces: after.move_pieces,
                moves: after.moves,
            })
            &&& r->Some_0.game_over == (after.moves.len() == 0)
            &&& r->Some_0.winner == after.not_turn_player_id()
            &&& final(board)@ == after
        }),
        !turn_in_bounds(old(board)@, *turn) ==> r is None && final(board)@ == old(board)@,
{
    let outcome = board.evaluate_turn(turn);
    match outcome {
        None => None,
        Some((moves, game_over)) => {
            let turn_start = TurnStart {
                turn: board.turn,
                move_pieces: copy_vec(&board.move_pieces),
                moves: copy_move_rows(&board.moves),
            };
            proof {
                assert(turn_start@.moves =~= board@.moves);
            }
            let winner = board.get_not_turn_player_id();
            Some(TurnOutcome { moves, turn_start, game_over, winner })
        },
    }
}

/// The consequences of a `game_start` entry: the fresh board to store, the
/// first turn start to broadcast beside the game start itself, and — when
/// White opens with no legal move — an immediate end naming White's
/// player, as the source service does.
#[derive(Debug)]
pub struct GameStartOutcome {
    pub board: Board,
    pub turn_start: TurnStart,
    pub immediate_winner: Option<u128>,
}

/// Process a `game_start` entry: build the board, describe White's first
/// turn, and end the game at once if White has no legal moves.
pub fn process_game_start(game_start: GameStart) -> (r: GameStartOutcome)
    requires
        setup_wf(game_start.white.setup@),
        setup_wf(game_start.black.setup@),
        v_contains_king(game_start.white.setup@),
        v_contains_king(game_start.black.setup@),
    ensures
        r.board@ == v_new_board(
            game_start.white.id,
            game_start.white.setup@,
            game_start.black.id,
            game_start.black.setup@,
            game_start.game_id,
        ),
        r.board@.wf(),
        r.board@.moves_ok(),
        r.turn_start@ == (TurnStartV {
            turn: Player::White,
            move_pieces: r.board@.move_pieces,
            moves: r.board@.moves,
        }),
        r.immediate_winner == if r.board@.moves.len() == 0 {
            Some(game_start.white.id)
        } else {
            None::<u128>
        },
{
    let white_id = game_start.white.id;
    let board = Board::new(game_start);
    let turn_start = TurnStart {
        turn: Player::White,
        move_pieces: copy_vec(&board.move_pieces),
        moves: copy_move_rows(&board.moves),
    };
    proof {
        assert(turn_start@.moves =~= board@.moves);
    }
    let immediate_winner = if board.moves.len() == 0 {
        Some(white_id)
    } else {
        None
    };
    GameStartOutcome { board, turn_start, immediate_winner }
}

/// Process a `forfeit` entry: the winner is the player who did not
/// forfeit. (An unknown forfeiter leaves White the winner, as looking up
/// neither side would.)
pub fn process_forfeit(board: &Board, player_id: u128) -> (winner: u128)
    ensures
        winner == if board@.white_player == player_id {
            board@.black_player
        } else {
            board@.white_player
        },
{
    if board.white_player == player_id {
        board.black_player
    } else {
        board.white_player
    }
}

pub open spec fn white_wins_text() -> Seq<u8> {
    seq![119u8, 104u8, 105u8, 116u8, 101u8, 32u8, 119u8, 105u8, 110u8, 115u8]
}

pub open spec fn black_wins_text() -> Seq<u8> {
    seq![98u8, 108u8, 97u8, 99u8, 107u8, 32u8, 119u8, 105u8, 110u8, 115u8]
}

/// The server's closing chat line: which colour won, attributed to the
/// server itself. Published beside the `end` key; afterwards the board,
/// game stream and chat log expire.
pub fn end_game_chat(board: &Board, winner: u128) -> (r: ChatMessage)
    ensures
        r.id == 0,
        r.message@ == if winner == board@.white_player {
            white_wins_text()
        } else {
            black_wins_text()
        },
{
    let message: Vec<u8> = if winner == board.white_player {
        let m = vec![119u8, 104u8, 105u8, 116u8, 101u8, 32u8, 119u8, 105u8, 110u8, 115u8];
        proof {
            assert(m@ =~= white_wins_text());
        }
        m
    } else {
        let m = vec![98u8, 108u8, 97u8, 99u8, 107u8, 32u8, 119u8, 105u8, 110u8, 115u8];
        proof {
            assert(m@ =~= black_wins_text());
        }
        m
    };
    ChatMessage { id: 0, message }
}

/// How long the keys of an ended game linger, in seconds.
pub const ENDED_GAME_TTL: u64 = 30;

} // verus!
