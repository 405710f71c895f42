//! The automaton that looks for a bullseye along one scan line.
//!
//! A line through the centre of a symbol crosses a black ring, the white
//! centre and the black ring again. The automaton counts the lengths of these
//! three runs and, when the second black run ends, tests whether their
//! proportions are those of a bullseye.

use vstd::prelude::*;

verus! {

/// The automaton's state as a mathematical value.
pub enum Ring {
    /// No black pixel seen yet on this line.
    Seek,
    /// Inside the first black run, `b1` pixels so far.
    FirstBlack { b1: int },
    /// Inside the white run that follows a black run of `b1` pixels.
    White { b1: int, w1: int },
    /// Inside the black run that follows the white run.
    SecondBlack { b1: int, w1: int, b2: int },
}

/// The size of a number.
pub open spec fn spec_abs(v: int) -> int {
    if v < 0 {
        -v
    } else {
        v
    }
}

/// The lesser of two numbers.
pub open spec fn spec_min(a: int, b: int) -> int {
    if a <= b {
        a
    } else {
        b
    }
}

/// Whether runs of `b1` black, `w1` white and `b2` black pixels have the
/// proportions of a bullseye no wider than `max_unit` per ring.
pub open spec fn ring_accepts(b1: int, w1: int, b2: int, max_unit: int) -> bool {
    &&& b1 >= 2
    &&& b2 >= 2
    &&& b1 <= max_unit
    &&& b2 <= max_unit
    &&& w1 <= 2 * max_unit
    &&& spec_abs(b1 + b2 - w1) <= spec_min(b1 + b2, w1)
    &&& spec_abs(b1 - b2) <= spec_min(b1, b2)
}

impl Ring {
    /// Number of pixels that the counted runs cover.
    pub open spec fn span(self) -> int {
        match self {
            Ring::Seek => 0,
            Ring::FirstBlack { b1 } => b1,
            Ring::White { b1, w1 } => b1 + w1,
            Ring::SecondBlack { b1, w1, b2 } => b1 + w1 + b2,
        }
    }

    /// Every run that the state counts is non-empty.
    pub open spec fn wf(self) -> bool {
        match self {
            Ring::Seek => true,
            Ring::FirstBlack { b1 } => b1 >= 1,
            Ring::White { b1, w1 } => b1 >= 1 && w1 >= 1,
            Ring::SecondBlack { b1, w1, b2 } => b1 >= 1 && w1 >= 1 && b2 >= 1,
        }
    }

    /// The state after one more pixel, white or black.
    pub open spec fn step(self, white: bool) -> Ring {
        match self {
            Ring::Seek => if white {
                Ring::Seek
            } else {
                Ring::FirstBlack { b1: 1 }
            },
            Ring::FirstBlack { b1 } => if white {
                Ring::White { b1, w1: 1 }
            } else {
                Ring::FirstBlack { b1: b1 + 1 }
            },
            Ring::White { b1, w1 } => if white {
                Ring::White { b1, w1: w1 + 1 }
            } else {
                Ring::SecondBlack { b1, w1, b2: 1 }
            },
            Ring::SecondBlack { b1, w1, b2 } => if white {
                Ring::White { b1: b2, w1: 1 }
            } else {
                Ring::SecondBlack { b1, w1, b2: b2 + 1 }
            },
        }
    }

    /// Where a bullseye is found when the next pixel is read: the distance
    /// from that pixel back to the middle of the white run. `None` when the
    /// pixel does not end a second black run or the runs are not accepted.
    pub open spec fn centre_back(self, white: bool, max_unit: int) -> Option<int> {
        match self {
            Ring::SecondBlack { b1, w1, b2 } => if white && ring_accepts(b1, w1, b2, max_unit) {
                Some(1 + b2 + w1 / 2)
            } else {
                None
            },
            _ => None,
        }
    }
}

/// The automaton's state.
#[derive(Clone, Copy, Debug)]
pub enum RingState {
    SeekFirstBlack,
    InFirstBlack { b1: usize },
    InWhiteRing { b1: usize, w1: usize },
    InSecondBlack { b1: usize, w1: usize, b2: usize },
}

impl View for RingState {
    type V = Ring;

    open spec fn view(&self) -> Ring {
        match *self {
            RingState::SeekFirstBlack => Ring::Seek,
            RingState::InFirstBlack { b1 } => Ring::FirstBlack { b1: b1 as int },
            RingState::InWhiteRing { b1, w1 } => Ring::White { b1: b1 as int, w1: w1 as int },
            RingState::InSecondBlack { b1, w1, b2 } => Ring::SecondBlack {
                b1: b1 as int,
                w1: w1 as int,
                b2: b2 as int,
            },
        }
    }
}

/// Whether runs of `b1` black, `w1` white and `b2` black pixels have the
/// proportions of a bullseye no wider than `max_unit` per ring. No sum or
/// product of the lengths is formed that could exceed a `usize`.
pub fn accepts(b1: usize, w1: usize, b2: usize, max_unit: usize) -> (r: bool)
    ensures
        r == ring_accepts(b1 as int, w1 as int, b2 as int, max_unit as int),
{
    if b1 < 2 || b2 < 2 || b1 > max_unit || b2 > max_unit {
        return false;
    }
    // w1 <= 2 * max_unit
    if w1 > max_unit && w1 - max_unit > max_unit {
        return false;
    }
    // |b1 + b2 - w1| <= min(b1 + b2, w1)
    let white_fits: bool = if b1 >= w1 {
        // The black runs are longer by (b1 - w1) + b2.
        b1 - w1 <= w1 && b2 <= w1 - (b1 - w1)
    } else if b2 >= w1 - b1 {
        // The black runs are longer by b2 - (w1 - b1).
        b2 - (w1 - b1) <= w1
    } else {
        // The white run is longer by w1 - b1 - b2.
        let rest: usize = w1 - b1 - b2;
        rest <= b1 || rest - b1 <= b2
    };
    if !white_fits {
        return false;
    }
    // |b1 - b2| <= min(b1, b2)
    if b1 >= b2 {
        b1 - b2 <= b2
    } else {
        b2 - b1 <= b1
    }
}

impl RingState {
    /// Reads one more pixel. Returns the next state and, where the pixel
    /// completes an accepted bullseye, the distance back to its centre.
    pub fn step(self, white: bool, max_unit: usize) -> (r: (RingState, Option<usize>))
        requires
            self@.span() < usize::MAX,
        ensures
            r.0@ == self@.step(white),
            match r.1 {
                Some(d) => self@.centre_back(white, max_unit as int) == Some(d as int),
                None => self@.centre_back(white, max_unit as int).is_none(),
            },
    {
        match self {
            RingState::SeekFirstBlack => {
                if white {
                    (RingState::SeekFirstBlack, None)
                } else {
                    (RingState::InFirstBlack { b1: 1 }, None)
                }
            },
            RingState::InFirstBlack { b1 } => {
                if white {
                    (RingState::InWhiteRing { b1, w1: 1 }, None)
                } else {
                    (RingState::InFirstBlack { b1: b1 + 1 }, None)
                }
            },
            RingState::InWhiteRing { b1, w1 } => {
                if white {
                    (RingState::InWhiteRing { b1, w1: w1 + 1 }, None)
                } else {
                    (RingState::InSecondBlack { b1, w1, b2: 1 }, None)
                }
            },
            RingState::InSecondBlack { b1, w1, b2 } => {
                if white {
                    let hit: Option<usize> = if accepts(b1, w1, b2, max_unit) {
                        Some(1 + b2 + w1 / 2)
                    } else {
                        None
                    };
                    (RingState::InWhiteRing { b1: b2, w1: 1 }, hit)
                } else {
                    (RingState::InSecondBlack { b1, w1, b2: b2 + 1 }, None)
                }
            },
        }
    }
}

/// A step keeps every counted run non-empty and lengthens the span by at most
/// one pixel.
pub proof fn lemma_step_span(r: Ring, white: bool)
    requires
        r.wf(),
    ensures
        r.step(white).wf(),
        r.step(white).span() <= r.span() + 1,
{
}

/// An accepted bullseye lies within the counted runs: its centre is at least
/// two pixels back, and the pixel before the centre is still a pixel short
/// of the start of the first black run.
pub proof fn lemma_centre_within_span(r: Ring, white: bool, max_unit: int)
    requires
        r.wf(),
        r.centre_back(white, max_unit).is_some(),
    ensures
        2 <= r.centre_back(white, max_unit).unwrap(),
        r.centre_back(white, max_unit).unwrap() + 2 <= r.span(),
{
}

} // verus!
