//! The chess clock: one countdown timer per side, driven by the caller's
//! reading of the wall clock in whole seconds since the epoch.

use vstd::prelude::*;

use crate::board::Player;

verus! {

/// Both sides' time budget for one game, in seconds.
pub const GAME_LENGTH: u64 = 2 * 10 * 60;

/// A one-sided countdown: either running until a fixed instant, or paused
/// with so many seconds left. Instants and durations are whole seconds.
#[derive(Debug, Clone, Copy, PartialEq, Eq, Structural)]
pub enum Timer {
    Running { end_time: u64 },
    Paused { time_remaining: u64 },
}

impl Timer {
    /// A paused timer with the given budget.
    pub fn new(time_seconds: u64) -> (r: Timer)
        ensures
            r == (Timer::Paused { time_remaining: time_seconds }),
    {
        Timer::Paused { time_remaining: time_seconds }
    }

    /// The timer once started at instant `now`: a paused timer begins
    /// running until `now` plus its remaining budget; a running timer is
    /// left alone.
    pub open spec fn spec_start(self, now: u64) -> Timer {
        match self {
            Timer::Paused { time_remaining } => Timer::Running {
                end_time: (now + time_remaining) as u64,
            },
            Timer::Running { .. } => self,
        }
    }

    /// Start the timer at instant `now`.
    pub fn start(&mut self, now: u64)
        requires
            (*old(self) matches Timer::Paused { time_remaining } ==> now + time_remaining
                <= u64::MAX),
        ensures
            *final(self) == old(self).spec_start(now),
    {
        match *self {
            Timer::Paused { time_remaining } => {
                *self = Timer::Running { end_time: now + time_remaining };
            },
            Timer::Running { .. } => {},
        }
    }

    /// Pause the timer at instant `now`. A running timer whose end lies at
    /// or past `now` pauses with the seconds left and the call succeeds; one
    /// that already expired is left running and the call fails. A paused
    /// timer stays paused and the call succeeds.
    pub fn pause(&mut self, now: u64) -> (ok: bool)
        ensures
            match *old(self) {
                Timer::Running { end_time } => if end_time >= now {
                    ok && *final(self) == (Timer::Paused {
                        time_remaining: (end_time - now) as u64,
                    })
                } else {
                    !ok && *final(self) == *old(self)
                },
                Timer::Paused { .. } => ok && *final(self) == *old(self),
            },
    {
        match *self {
            Timer::Running { end_time } => {
                if end_time >= now {
                    *self = Timer::Paused { time_remaining: end_time - now };
                    true
                } else {
                    false
                }
            },
            Timer::Paused { .. } => true,
        }
    }

    /// Whether any time is left at instant `now`: a running timer has time
    /// until its end instant passes, a paused one while its budget is
    /// positive.
    pub fn has_time(&self, now: u64) -> (r: bool)
        ensures
            r == match *self {
                Timer::Running { end_time } => end_time >= now,
                Timer::Paused { time_remaining } => time_remaining > 0,
            },
    {
        match self {
            Timer::Running { end_time } => *end_time >= now,
            Timer::Paused { time_remaining } => *time_remaining > 0,
        }
    }
}

/// The two timers of one game.
#[derive(Debug, Clone, Copy, PartialEq, Eq, Structural)]
pub struct ChessClock {
    pub white: Timer,
    pub black: Timer,
}

impl ChessClock {
    /// A clock granting each side half the game length, paused.
    pub fn new() -> (r: ChessClock)
        ensures
            r.white == (Timer::Paused { time_remaining: GAME_LENGTH / 2 }),
            r.black == (Timer::Paused { time_remaining: GAME_LENGTH / 2 }),
    {
        ChessClock { white: Timer::new(GAME_LENGTH / 2), black: Timer::new(GAME_LENGTH / 2) }
    }

    /// The timer of one side.
    pub fn player_timer(&mut self, player: Player) -> (t: &mut Timer)
        ensures
            *t == match player {
                Player::White => old(self).white,
                Player::Black => old(self).black,
            },
            *final(self) == match player {
                Player::White => ChessClock { white: *final(t), ..*old(self) },
                Player::Black => ChessClock { black: *final(t), ..*old(self) },
            },
    {
        match player {
            Player::White => &mut self.white,
            Player::Black => &mut self.black,
        }
    }
}

} // verus!
