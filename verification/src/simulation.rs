//! A run of the simulation: a board, and the count of ticks that decides when
//! it comes to rest.

use vstd::prelude::*;
use rand::rngs::ThreadRng;
use crate::board::{Board, HOPS_PER_TICK};
use crate::interaction::interact;
use crate::model::BoardView;
use crate::movement::moved;

verus! {

/// A board that is advanced tick by tick until a set number of ticks is
/// reached. After that it rests: advancing it changes nothing any more.
pub struct Simulation {
    board: Board,
    iterations: usize,
    iteration: usize,
    running: bool,
}

impl Simulation {
    /// The board as it stands.
    pub closed spec fn board_view(&self) -> BoardView {
        self.board@
    }

    /// The number of ticks after which the run rests.
    pub closed spec fn target(&self) -> nat {
        self.iterations as nat
    }

    /// The number of ticks made so far.
    pub closed spec fn ticks(&self) -> nat {
        self.iteration as nat
    }

    /// Whether the run is still going.
    pub closed spec fn going(&self) -> bool {
        self.running
    }

    /// The board is well formed, and a run that is still going has not
    /// reached its target, unless it has not made a tick yet.
    pub open spec fn wf(&self) -> bool {
        &&& self.board_view().wf()
        &&& self.going() ==> self.ticks() == 0 || self.ticks() < self.target()
    }

    /// A run on `board` that rests after `iterations` ticks. The first tick
    /// is made in any case, also where `iterations` is 0.
    pub fn new(board: Board, iterations: usize) -> (run: Self)
        requires
            board.wf(),
        ensures
            run.wf(),
            run.board_view() == board@,
            run.target() == iterations,
            run.ticks() == 0,
            run.going(),
    {
        Simulation { board, iterations, iteration: 0, running: true }
    }

    /// The board.
    pub fn board(&self) -> (board: &Board)
        ensures
            board@ == self.board_view(),
    {
        &self.board
    }

    /// The number of ticks made so far.
    pub fn iteration(&self) -> (n: usize)
        ensures
            n == self.ticks(),
    {
        self.iteration
    }

    /// Whether the run is still going.
    pub fn is_running(&self) -> (going: bool)
        ensures
            going == self.going(),
    {
        self.running
    }

    /// Makes one tick if the run is still going, and brings the run to rest
    /// when that tick was the last. A run at rest stays as it is.
    pub fn advance(&mut self, rng: &mut ThreadRng)
        requires
            old(self).wf(),
        ensures
            final(self).wf(),
            final(self).target() == old(self).target(),
            old(self).going() ==> {
                &&& moved(
                    interact(old(self).board_view()),
                    final(self).board_view(),
                    HOPS_PER_TICK as nat,
                )
                &&& final(self).ticks() == old(self).ticks() + 1
                &&& final(self).going() == (final(self).ticks() < final(self).target())
            },
            !old(self).going() ==> {
                &&& final(self).board_view() == old(self).board_view()
                &&& final(self).ticks() == old(self).ticks()
                &&& !final(self).going()
            },
    {
        if self.running {
            self.board.tick(rng);
            self.iteration = self.iteration + 1;
            if self.iteration >= self.iterations {
                self.running = false;
            }
        }
    }
}

} // verus!
