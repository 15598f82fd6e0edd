//! The duplex play protocol: what a client may send and what the server
//! sends back. Chat text travels as UTF-8 bytes; ids are the numeric form
//! of the time-ordered unique identifiers.

use vstd::prelude::*;

use crate::board::{Board, Move, Player};
use crate::setup::BoardSetup;
use crate::vec2::Vec2;

verus! {

/// One chat line: the author's id (0 for the server itself) and the text
/// as UTF-8 bytes.
#[derive(Debug, Clone)]
pub struct ChatMessage {
    pub id: u128,
    pub message: Vec<u8>,
}

/// The model of a chat line.
pub struct ChatMessageV {
    pub id: u128,
    pub message: Seq<u8>,
}

impl View for ChatMessage {
    type V = ChatMessageV;

    open spec fn view(&self) -> ChatMessageV {
        ChatMessageV { id: self.id, message: self.message@ }
    }
}

/// The start of a turn: whose it is, and the origins and move lists the
/// addressed side may choose from.
#[derive(Debug, Clone)]
pub struct TurnStart {
    pub turn: Player,
    pub move_pieces: Vec<Vec2>,
    pub moves: Vec<Vec<Move>>,
}

/// The model of a turn start.
pub struct TurnStartV {
    pub turn: Player,
    pub move_pieces: Seq<Vec2>,
    pub moves: Seq<Seq<Move>>,
}

impl View for TurnStart {
    type V = TurnStartV;

    open spec fn view(&self) -> TurnStartV {
        TurnStartV {
            turn: self.turn,
            move_pieces: self.move_pieces@,
            moves: Seq::new(self.moves@.len(), |i: int| self.moves@[i]@),
        }
    }
}

/// A client-to-server message.
#[derive(Debug)]
pub enum PlayRequest {
    Turn { piece_idx: usize, move_idx: usize },
    ChatMessage { message: Vec<u8> },
    ExpandEloRange,
    BoardSetup { setup: BoardSetup },
    Surrender,
}

/// The model of a client-to-server message.
pub enum PlayRequestV {
    Turn { piece_idx: usize, move_idx: usize },
    ChatMessage { message: Seq<u8> },
    ExpandEloRange,
    BoardSetup { setup: Seq<Seq<Option<crate::piece::SetupPieceType>>> },
    Surrender,
}

impl View for PlayRequest {
    type V = PlayRequestV;

    open spec fn view(&self) -> PlayRequestV {
        match self {
            PlayRequest::Turn { piece_idx, move_idx } => PlayRequestV::Turn {
                piece_idx: *piece_idx,
                move_idx: *move_idx,
            },
            PlayRequest::ChatMessage { message } => PlayRequestV::ChatMessage {
                message: message@,
            },
            PlayRequest::ExpandEloRange => PlayRequestV::ExpandEloRange,
            PlayRequest::BoardSetup { setup } => PlayRequestV::BoardSetup { setup: setup@ },
            PlayRequest::Surrender => PlayRequestV::Surrender,
        }
    }
}

/// A server-to-client message.
#[derive(Debug)]
pub enum PlayResponse {
    InvalidRequest,
    GameState { board: Board },
    TurnStart { turn: Player, move_pieces: Vec<Vec2>, moves: Vec<Vec<Move>> },
    Move { moves: Vec<Move> },
    End { winner: u128 },
    ChatMessage { message: ChatMessage },
    FullChat { chat: Vec<ChatMessage> },
}

/// The model of a server-to-client message.
pub enum PlayResponseV {
    InvalidRequest,
    GameState { board: crate::board::BoardV },
    TurnStart { turn: Player, move_pieces: Seq<Vec2>, moves: Seq<Seq<Move>> },
    Move { moves: Seq<Move> },
    End { winner: u128 },
    ChatMessage { message: ChatMessageV },
    FullChat { chat: Seq<ChatMessageV> },
}

impl View for PlayResponse {
    type V = PlayResponseV;

    open spec fn view(&self) -> PlayResponseV {
        match self {
            PlayResponse::InvalidRequest => PlayResponseV::InvalidRequest,
            PlayResponse::GameState { board } => PlayResponseV::GameState { board: board@ },
            PlayResponse::TurnStart { turn, move_pieces, moves } => PlayResponseV::TurnStart {
                turn: *turn,
                move_pieces: move_pieces@,
                moves: Seq::new(moves@.len(), |i: int| moves@[i]@),
            },
            PlayResponse::Move { moves } => PlayResponseV::Move { moves: moves@ },
            PlayResponse::End { winner } => PlayResponseV::End { winner: *winner },
            PlayResponse::ChatMessage { message } => PlayResponseV::ChatMessage {
                message: message@,
            },
            PlayResponse::FullChat { chat } => PlayResponseV::FullChat {
                chat: Seq::new(chat@.len(), |i: int| chat@[i]@),
            },
        }
    }
}

/// The longest chat line a client may send, in bytes.
pub const MAX_CHAT_LEN: usize = 1024;

/// What a session in a game sends after connecting, once the surrounding
/// process has loaded the game's board and chat log: the board state first,
/// then the full chat.
pub fn send_game_state_responses(board: Board, chat: Vec<ChatMessage>) -> (r: Vec<PlayResponse>)
    ensures
        r@.len() == 2,
        r@[0]@ == (PlayResponseV::GameState { board: board@ }),
        r@[1]@ == (PlayResponseV::FullChat {
            chat: Seq::new(chat@.len(), |i: int| chat@[i]@),
        }),
{
    let ghost chat0 = chat@;
    let mut r: Vec<PlayResponse> = Vec::new();
    r.push(PlayResponse::GameState { board });
    r.push(PlayResponse::FullChat { chat });
    proof {
        assert(r@[1]@->FullChat_chat =~= Seq::new(chat0.len(), |i: int| chat0[i]@));
    }
    r
}

pub open spec fn your_turn_text() -> Seq<u8> {
    seq![121u8, 111u8, 117u8, 114u8, 32u8, 116u8, 117u8, 114u8, 110u8]
}

/// The server's nudge when it becomes the receiver's turn.
pub fn your_turn_message() -> (r: Vec<u8>)
    ensures
        r@ == your_turn_text(),
{
    let r = vec![121u8, 111u8, 117u8, 114u8, 32u8, 116u8, 117u8, 114u8, 110u8];
    proof {
        assert(r@ =~= your_turn_text());
    }
    r
}

} // verus!
