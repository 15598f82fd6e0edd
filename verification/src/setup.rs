//! Board setups: the back two rows a player submits, their point budget,
//! and the rotation applied when a setup is assigned to Black.

use vstd::prelude::*;

use crate::piece::SetupPieceType;

verus! {

/// The budget cap: the standard chess back rows are worth 4300, and 500
/// points are granted on top.
pub const MAX_TOTAL_VALUE: i32 = 4800;

/// A submitted setup: two rows of eight optional piece kinds. Row 1 is the
/// home (back) row, row 0 the one in front of it, in the submitting
/// player's own orientation.
#[derive(Debug)]
pub struct BoardSetup(pub Vec<Vec<Option<SetupPieceType>>>);

impl Clone for BoardSetup {
    /// A copy describing the same setup.
    fn clone(&self) -> (r: BoardSetup)
        ensures
            r@ == self@,
    {
        let mut rows: Vec<Vec<Option<SetupPieceType>>> = Vec::new();
        let mut y: usize = 0;
        while y < self.0.len()
            invariant
                y <= self.0@.len(),
                rows@.len() == y,
                forall|i: int| 0 <= i < y ==> (#[trigger] rows@[i])@ == self.0@[i]@,
            decreases self.0@.len() - y,
        {
            rows.push(crate::board::copy_vec(&self.0[y]));
            y = y + 1;
        }
        let r = BoardSetup(rows);
        proof {
            assert(r@ =~= self@);
        }
        r
    }
}

impl View for BoardSetup {
    type V = Seq<Seq<Option<SetupPieceType>>>;

    open spec fn view(&self) -> Seq<Seq<Option<SetupPieceType>>> {
        Seq::new(self.0@.len(), |y: int| self.0@[y]@)
    }
}

/// A well-formed setup: two rows of eight.
pub open spec fn setup_wf(s: Seq<Seq<Option<SetupPieceType>>>) -> bool {
    &&& s.len() == 2
    &&& forall|y: int| 0 <= y < 2 ==> (#[trigger] s[y]).len() == 8
}

/// The setup as it stands after the horizontal and vertical mirror applied
/// when playing as Black.
pub open spec fn v_rotate(s: Seq<Seq<Option<SetupPieceType>>>) -> Seq<Seq<Option<SetupPieceType>>> {
    Seq::new(s.len(), |y: int| s[s.len() - 1 - y].reverse())
}

/// The points of the cells of one row from `i` on.
pub open spec fn v_row_value(row: Seq<Option<SetupPieceType>>, i: int) -> int
    decreases row.len() - i,
{
    if i < 0 || i >= row.len() {
        0
    } else {
        (match row[i] {
            Some(k) => k.spec_setup_value() as int,
            None => 0,
        }) + v_row_value(row, i + 1)
    }
}

/// The total point value of a setup.
pub open spec fn v_total_value(s: Seq<Seq<Option<SetupPieceType>>>) -> int {
    v_row_value(s[0], 0) + v_row_value(s[1], 0)
}

/// Whether a setup places a king somewhere.
pub open spec fn v_contains_king(s: Seq<Seq<Option<SetupPieceType>>>) -> bool {
    exists|y: int, x: int|
        0 <= y < s.len() && 0 <= x < s[y].len() && #[trigger] s[y][x] == Some(SetupPieceType::King)
}

proof fn lemma_row_value_bounds(row: Seq<Option<SetupPieceType>>, i: int)
    requires
        0 <= i <= row.len(),
    ensures
        0 <= v_row_value(row, i) <= 900 * (row.len() - i),
    decreases row.len() - i,
{
    if 0 <= i < row.len() {
        lemma_row_value_bounds(row, i + 1);
    }
}

impl BoardSetup {
    /// Mirror the setup horizontally and vertically, as done when the
    /// submitting player is assigned Black.
    pub fn rotate(&mut self)
        requires
            setup_wf(old(self)@),
        ensures
            final(self)@ == v_rotate(old(self)@),
            setup_wf(final(self)@),
    {
        let ghost s0 = self@;
        let mut rows: Vec<Vec<Option<SetupPieceType>>> = Vec::new();
        let mut y: usize = 0;
        while y < 2
            invariant
                s0 == self@,
                setup_wf(s0),
                self.0@.len() == 2,
                y <= 2,
                rows@.len() == y,
                forall|i: int| 0 <= i < y ==> (#[trigger] rows@[i])@ =~= s0[1 - i].reverse(),
            decreases 2 - y,
        {
            proof {
                assert(self.0@[1 - y as int]@ == s0[1 - y as int]);
            }
            let src = &self.0[1 - y];
            let mut row: Vec<Option<SetupPieceType>> = Vec::new();
            let mut x: usize = 0;
            while x < 8
                invariant
                    src@.len() == 8,
                    x <= 8,
                    row@.len() == x,
                    forall|i: int| 0 <= i < x ==> #[trigger] row@[i] == src@[7 - i],
                decreases 8 - x,
            {
                row.push(src[7 - x]);
                x = x + 1;
            }
            proof {
                assert(row@ =~= src@.reverse());
            }
            rows.push(row);
            y = y + 1;
        }
        self.0 = rows;
        proof {
            assert(self@ =~= v_rotate(s0));
        }
    }

    /// The total point value of the setup.
    pub fn total_value(&self) -> (v: i32)
        requires
            setup_wf(self@),
        ensures
            v == v_total_value(self@),
    {
        let mut sum: i32 = 0;
        let mut y: usize = 0;
        while y < 2
            invariant
                setup_wf(self@),
                self.0@.len() == 2,
                y <= 2,
                sum == (if y == 0 {
                    0int
                } else if y == 1 {
                    v_row_value(self@[0], 0)
                } else {
                    v_total_value(self@)
                }),
            decreases 2 - y,
        {
            proof {
                lemma_row_value_bounds(self@[y as int], 0);
                if y == 1 {
                    lemma_row_value_bounds(self@[0], 0);
                }
            }
            let mut x: usize = 8;
            let mut row_sum: i32 = 0;
            while x > 0
                invariant
                    setup_wf(self@),
                    self.0@.len() == 2,
                    y < 2,
                    x <= 8,
                    self@[y as int].len() == 8,
                    row_sum == v_row_value(self@[y as int], x as int),
                    0 <= row_sum <= 900 * (8 - x),
                decreases x,
            {
                x = x - 1;
                proof {
                    assert(self.0@[y as int]@ == self@[y as int]);
                }
                let v = match &self.0[y][x] {
                    Some(k) => k.setup_value(),
                    None => 0,
                };
                row_sum = row_sum + v;
            }
            sum = sum + row_sum;
            y = y + 1;
        }
        sum
    }

    /// Whether the setup places a king somewhere.
    pub fn contains_king(&self) -> (r: bool)
        requires
            setup_wf(self@),
        ensures
            r == v_contains_king(self@),
    {
        let mut y: usize = 0;
        while y < 2
            invariant
                setup_wf(self@),
                self.0@.len() == 2,
                y <= 2,
                forall|i: int, j: int|
                    0 <= i < y && 0 <= j < 8 ==> #[trigger] self@[i][j] != Some(
                        SetupPieceType::King,
                    ),
            decreases 2 - y,
        {
            let mut x: usize = 0;
            while x < 8
                invariant
                    setup_wf(self@),
                    self.0@.len() == 2,
                    y < 2,
                    x <= 8,
                    self@[y as int].len() == 8,
                    forall|i: int, j: int|
                        0 <= i < y && 0 <= j < 8 ==> #[trigger] self@[i][j] != Some(
                            SetupPieceType::King,
                        ),
                    forall|j: int|
                        0 <= j < x ==> #[trigger] self@[y as int][j] != Some(SetupPieceType::King),
                decreases 8 - x,
            {
                proof {
                    assert(self.0@[y as int]@ == self@[y as int]);
                }
                match &self.0[y][x] {
                    Some(SetupPieceType::King) => {
                        proof {
                            assert(self@[y as int][x as int] == Some(SetupPieceType::King));
                        }
                        return true;
                    },
                    _ => {},
                }
                x = x + 1;
            }
            y = y + 1;
        }
        proof {
            assert(!v_contains_king(self@));
        }
        false
    }

    /// Whether the setup may enter a game: it holds a king and its pieces
    /// together are worth at most the budget cap. This is the whole rule:
    /// the two-by-eight shape already confines pieces to the back rows.
    pub fn is_valid(&self) -> (r: bool)
        requires
            setup_wf(self@),
        ensures
            r == (v_total_value(self@) <= MAX_TOTAL_VALUE && v_contains_king(self@)),
    {
        self.total_value() <= MAX_TOTAL_VALUE && self.contains_king()
    }
}

/// One player's part of a match: their id and the setup they submitted.
#[derive(Debug, Clone)]
pub struct GameStartPlayer {
    pub id: u128,
    pub setup: BoardSetup,
}

/// The payload that starts a game: the two players, White first, and the
/// fresh game id.
#[derive(Debug, Clone)]
pub struct GameStart {
    pub white: GameStartPlayer,
    pub black: GameStartPlayer,
    pub game_id: u128,
}

/// The model of a game-start payload.
pub struct GameStartV {
    pub white_id: u128,
    pub white_setup: Seq<Seq<Option<SetupPieceType>>>,
    pub black_id: u128,
    pub black_setup: Seq<Seq<Option<SetupPieceType>>>,
    pub game_id: u128,
}

impl View for GameStart {
    type V = GameStartV;

    open spec fn view(&self) -> GameStartV {
        GameStartV {
            white_id: self.white.id,
            white_setup: self.white.setup@,
            black_id: self.black.id,
            black_setup: self.black.setup@,
            game_id: self.game_id,
        }
    }
}

} // verus!
