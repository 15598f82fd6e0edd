//! The matchmaker: selecting the longest-waiting compatible partner from a
//! snapshot of the queue, and the consequences of a match — both rows
//! leave the queue, the sides are drawn at random, and a fresh game id is
//! minted.

use vstd::prelude::*;

use crate::setup::{BoardSetup, GameStart, GameStartPlayer};

verus! {

/// One row of the matchmaking queue.
#[derive(Debug)]
pub struct QueueRow {
    pub id: u128,
    pub elo: i64,
    pub elo_range: i64,
    pub start_time: u64,
    pub setup: BoardSetup,
}

/// Whether a queue row may be matched with a seeker: it is another player,
/// its rating lies within the seeker's range, and the seeker's rating lies
/// within its own.
pub open spec fn compatible(me: u128, elo: int, elo_range: int, row: QueueRow) -> bool {
    &&& row.id != me
    &&& elo - elo_range <= row.elo <= elo + elo_range
    &&& row.elo - row.elo_range <= elo <= row.elo + row.elo_range
}

/// Relies on rand::random::<bool>: a fair draw of one bit; nothing is
/// promised of its value.
#[verifier::external_body]
fn coin() -> bool {
    rand::random::<bool>()
}

/// Relies on uuid::Uuid::new_v7 at the present instant: a fresh
/// time-ordered unique id, as a number; nothing is promised of its value.
#[verifier::external_body]
pub fn fresh_id() -> u128 {
    uuid::Uuid::new_v7(uuid::Timestamp::now(uuid::NoContext)).as_u128()
}

/// One of the two orders of the pair, drawn at random.
pub fn randomly_permute_2<T>(choices: (T, T)) -> (r: (T, T))
    ensures
        r == (choices.0, choices.1) || r == (choices.1, choices.0),
{
    if coin() {
        (choices.0, choices.1)
    } else {
        (choices.1, choices.0)
    }
}

/// The longest-waiting compatible row: the first index whose row is
/// compatible and waited at least as long as every other compatible row;
/// `None` exactly when no row is compatible.
pub fn find_match(queue: &Vec<QueueRow>, me: u128, elo: i64, elo_range: i64) -> (r: Option<usize>)
    ensures
        match r {
            Some(i) => {
                &&& 0 <= i < queue@.len()
                &&& compatible(me, elo as int, elo_range as int, queue@[i as int])
                &&& forall|j: int|
                    0 <= j < queue@.len() && compatible(
                        me,
                        elo as int,
                        elo_range as int,
                        #[trigger] queue@[j],
                    ) ==> queue@[i as int].start_time < queue@[j].start_time || (queue@[i as int].start_time
                        == queue@[j].start_time && i <= j)
            },
            None => forall|j: int|
                0 <= j < queue@.len() ==> !compatible(
                    me,
                    elo as int,
                    elo_range as int,
                    #[trigger] queue@[j],
                ),
        },
{
    let mut best: Option<usize> = None;
    let mut k: usize = 0;
    while k < queue.len()
        invariant
            k <= queue@.len(),
            match best {
                Some(i) => {
                    &&& 0 <= i < k
                    &&& compatible(me, elo as int, elo_range as int, queue@[i as int])
                    &&& forall|j: int|
                        0 <= j < k && compatible(
                            me,
                            elo as int,
                            elo_range as int,
                            #[trigger] queue@[j],
                        ) ==> queue@[i as int].start_time < queue@[j].start_time || (
                        queue@[i as int].start_time == queue@[j].start_time && i <= j)
                },
                None => forall|j: int|
                    0 <= j < k ==> !compatible(
                        me,
                        elo as int,
                        elo_range as int,
                        #[trigger] queue@[j],
                    ),
            },
        decreases queue@.len() - k,
    {
        let row = &queue[k];
        let row_compatible = row.id != me && (elo as i128 - elo_range as i128 <= row.elo as i128
            && row.elo as i128 <= elo as i128 + elo_range as i128) && (row.elo as i128
            - row.elo_range as i128 <= elo as i128 && elo as i128 <= row.elo as i128
            + row.elo_range as i128);
        if row_compatible {
            match best {
                Some(i) => {
                    if row.start_time < queue[i].start_time {
                        best = Some(k);
                    }
                },
                None => {
                    best = Some(k);
                },
            }
        }
        k = k + 1;
    }
    best
}

/// What entering matchmaking does, given a snapshot of the queue: join the
/// queue when no partner fits, or match with the chosen partner.
#[derive(Debug)]
pub enum MatchmakeOutcome {
    /// No compatible partner waits: upsert this row.
    EnterQueue { row: QueueRow },
    /// A partner was found: delete both players' rows in one transaction,
    /// notify the partner of the match, and publish the game start.
    Matched { partner: u128, game_start: GameStart },
}

/// Run one matchmaking pass against a snapshot of the queue. When a
/// partner is found, the game start carries the two players with their
/// setups, White and Black drawn at random, under a freshly minted game
/// id; otherwise the seeker's own row, stamped `now`, is to be upserted.
pub fn matchmake(
    queue: &Vec<QueueRow>,
    user_id: u128,
    elo: i64,
    elo_range: i64,
    setup: BoardSetup,
    now: u64,
) -> (r: MatchmakeOutcome)
    ensures
        (forall|j: int|
            0 <= j < queue@.len() ==> !compatible(
                user_id,
                elo as int,
                elo_range as int,
                #[trigger] queue@[j],
            )) ==> (r matches MatchmakeOutcome::EnterQueue { row } && row.id == user_id && row.elo
            == elo && row.elo_range == elo_range && row.start_time == now && row.setup@ == setup@),
        (exists|j: int|
            0 <= j < queue@.len() && compatible(
                user_id,
                elo as int,
                elo_range as int,
                #[trigger] queue@[j],
            )) ==> (r matches MatchmakeOutcome::Matched { partner, game_start } && {
            &&& exists|i: int|
                0 <= i < queue@.len() && compatible(
                    user_id,
                    elo as int,
                    elo_range as int,
                    #[trigger] queue@[i],
                ) && partner == queue@[i].id && ((game_start.white.id == partner
                    && game_start.white.setup@ == queue@[i].setup@ && game_start.black.id == user_id
                    && game_start.black.setup@ == setup@) || (game_start.black.id == partner
                    && game_start.black.setup@ == queue@[i].setup@ && game_start.white.id == user_id
                    && game_start.white.setup@ == setup@))
        }),
{
    let found = find_match(queue, user_id, elo, elo_range);
    match found {
        None => MatchmakeOutcome::EnterQueue {
            row: QueueRow { id: user_id, elo, elo_range, start_time: now, setup },
        },
        Some(i) => {
            let partner = queue[i].id;
            let partner_setup = queue[i].setup.clone();
            let game_id = fresh_id();
            let (white, black) = randomly_permute_2(
                (
                    GameStartPlayer { id: partner, setup: partner_setup },
                    GameStartPlayer { id: user_id, setup },
                ),
            );
            MatchmakeOutcome::Matched {
                partner,
                game_start: GameStart { white, black, game_id },
            }
        },
    }
}

/// The queue once a completed match deletes both players' rows.
pub open spec fn queue_without(queue: Seq<QueueRow>, a: u128, b: u128) -> Seq<QueueRow> {
    queue.filter(|row: QueueRow| row.id != a && row.id != b)
}

/// Matchmaking uniqueness: once a match of `x` with `y` removes both rows
/// in its transaction, no later matchmaking pass over the resulting queue
/// can select either of them — in particular, `y`'s own pass no longer
/// sees `x`, so no second `match` for the same pair can be produced.
pub proof fn lemma_matchmaking_uniqueness(queue: Seq<QueueRow>, x: u128, y: u128, j: int)
    requires
        0 <= j < queue_without(queue, x, y).len(),
    ensures
        queue_without(queue, x, y)[j].id != x,
        queue_without(queue, x, y)[j].id != y,
{
    let f = |row: QueueRow| row.id != x && row.id != y;
    queue.lemma_filter_pred(f, j);
    assert(f(queue.filter(f)[j]));
}

} // verus!
