use vstd::prelude::*;

use crate::progress::Progress;

verus! {

/// One iteration: the candidate proposed and its energy, the temperature,
/// the acceptance probability and the random draw it was judged by, and
/// whether it was taken.
pub struct Move<T, S> {
    pub neighbour: T,
    pub energy: S,
    pub temperature: S,
    pub probability: S,
    pub draw: S,
    pub accepted: bool,
}

/// Where a run that started at `start` (a state and its energy) stands after
/// the given moves: the last accepted candidate, or the start if none was.
pub open spec fn outcome<T, S>(start: (T, S), moves: Seq<Move<T, S>>) -> (T, S)
    decreases moves.len(),
{
    if moves.len() == 0 {
        start
    } else {
        let m = moves.last();
        if m.accepted {
            (m.neighbour, m.energy)
        } else {
            outcome(start, moves.drop_last())
        }
    }
}

/// Where a run stands just before its move at `index`.
pub open spec fn before<T, S>(start: (T, S), moves: Seq<Move<T, S>>, index: int) -> (T, S) {
    outcome(start, moves.take(index))
}

/// Where the acceptance rule never takes a candidate worse than the current
/// state, the run never ends worse than it began: for any preorder `le` on
/// energies ("no worse than"), if each accepted move's energy is no worse than
/// the energy current when it was made, the final energy is no worse than the
/// initial one.
pub proof fn lemma_no_regression<T, S>(
    start: (T, S),
    moves: Seq<Move<T, S>>,
    le: spec_fn(S, S) -> bool,
)
    requires
        forall|x: S| #[trigger] le(x, x),
        forall|x: S, y: S, z: S| #[trigger] le(x, y) && #[trigger] le(y, z) ==> le(x, z),
        forall|i: int|
            0 <= i < moves.len() && (#[trigger] moves[i]).accepted ==> le(
                moves[i].energy,
                before(start, moves, i).1,
            ),
    ensures
        le(outcome(start, moves).1, start.1),
    decreases moves.len(),
{
    if moves.len() > 0 {
        let rest = moves.drop_last();
        assert forall|i: int|
            0 <= i < rest.len() && (#[trigger] rest[i]).accepted implies le(
                rest[i].energy,
                before(start, rest, i).1,
            ) by {
            assert(rest.take(i) =~= moves.take(i));
            assert(rest[i] == moves[i]);
        }
        lemma_no_regression(start, rest, le);
        let last = moves.len() - 1;
        assert(moves.take(last) =~= rest);
        if moves[last].accepted {
            let before = outcome(start, rest).1;
            assert(le(moves[last].energy, before));
            assert(le(before, start.1));
        }
    }
}

/// A run's outcome is fixed by where it began and by the moves it accepted:
/// two runs from the same start, whose moves agree in number, in which are
/// accepted, and in the candidate and energy of each accepted one, end in the
/// same state with the same energy, whatever their rejected candidates were.
pub proof fn lemma_outcome_determined<T, S>(
    start: (T, S),
    moves1: Seq<Move<T, S>>,
    moves2: Seq<Move<T, S>>,
)
    requires
        moves1.len() == moves2.len(),
        forall|i: int|
            0 <= i < moves1.len() ==> (#[trigger] moves1[i]).accepted == moves2[i].accepted,
        forall|i: int|
            0 <= i < moves1.len() && (#[trigger] moves1[i]).accepted ==> moves1[i].neighbour
                == moves2[i].neighbour && moves1[i].energy == moves2[i].energy,
    ensures
        outcome(start, moves1) == outcome(start, moves2),
    decreases moves1.len(),
{
    if moves1.len() > 0 {
        let last = moves1.len() - 1;
        assert(moves1[last].accepted == moves2[last].accepted);
        lemma_outcome_determined(start, moves1.drop_last(), moves2.drop_last());
    }
}

/// Every state a run holds keeps any invariant that its start has and that
/// each step from the current state to its candidate preserves: if `inv` holds
/// of the start, `step(x, y) && inv(x)` implies `inv(y)`, and each candidate is
/// related by `step` to the state current when it was proposed, then `inv`
/// holds of the state the run ends in.
pub proof fn lemma_invariant_kept<T, S>(
    start: (T, S),
    moves: Seq<Move<T, S>>,
    inv: spec_fn(T) -> bool,
    step: spec_fn(T, T) -> bool,
)
    requires
        inv(start.0),
        forall|x: T, y: T| #[trigger] step(x, y) && inv(x) ==> inv(y),
        forall|i: int|
            0 <= i < moves.len() ==> step(
                before(start, moves, i).0,
                (#[trigger] moves[i]).neighbour,
            ),
    ensures
        inv(outcome(start, moves).0),
    decreases moves.len(),
{
    if moves.len() > 0 {
        let rest = moves.drop_last();
        assert forall|i: int| 0 <= i < rest.len() implies step(
            before(start, rest, i).0,
            (#[trigger] rest[i]).neighbour,
        ) by {
            assert(rest.take(i) =~= moves.take(i));
            assert(rest[i] == moves[i]);
        }
        lemma_invariant_kept(start, rest, inv, step);
        let last = moves.len() - 1;
        assert(moves.take(last) =~= rest);
        assert(step(before(start, moves, last).0, moves[last].neighbour));
    }
}

/// One optimisation run: the current state and its energy, how many of the
/// iteration budget are spent, and (ghost) where it began and every move made.
pub struct Run<T, S> {
    state: T,
    energy: S,
    done: u64,
    total: u64,
    start: Ghost<(T, S)>,
    moves: Ghost<Seq<Move<T, S>>>,
}

impl<T, S> Run<T, S> {
    pub closed spec fn state(&self) -> T {
        self.state
    }

    pub closed spec fn energy(&self) -> S {
        self.energy
    }

    /// Iterations completed.
    pub closed spec fn count(&self) -> u64 {
        self.done
    }

    /// The iteration budget.
    pub closed spec fn budget(&self) -> u64 {
        self.total
    }

    /// The initial state and its energy.
    pub closed spec fn start(&self) -> (T, S) {
        self.start@
    }

    /// Every move handed to the run so far, in order.
    pub closed spec fn moves(&self) -> Seq<Move<T, S>> {
        self.moves@
    }

    /// The budget bounds the count, one move was made per iteration, and the
    /// current state and energy are the outcome of those moves.
    pub open spec fn wf(&self) -> bool {
        &&& self.count() <= self.budget()
        &&& self.moves().len() == self.count()
        &&& (self.state(), self.energy()) == outcome(self.start(), self.moves())
    }

    /// A run of `total` iterations from `state`, whose energy is `energy`.
    pub fn new(total: u64, state: T, energy: S) -> (r: Self)
        ensures
            r.wf(),
            r.budget() == total,
            r.count() == 0,
            r.start() == (state, energy),
            r.moves() == Seq::<Move<T, S>>::empty(),
            r.state() == state,
            r.energy() == energy,
    {
        let ghost start = (state, energy);
        Run { state, energy, done: 0, total, start: Ghost(start), moves: Ghost(Seq::empty()) }
    }

    pub fn current_state(&self) -> (r: &T)
        ensures
            *r == self.state(),
    {
        &self.state
    }

    pub fn current_energy(&self) -> (r: &S)
        ensures
            *r == self.energy(),
    {
        &self.energy
    }

    pub fn iterations_done(&self) -> (r: u64)
        ensures
            r == self.count(),
    {
        self.done
    }

    pub fn num_iterations(&self) -> (r: u64)
        ensures
            r == self.budget(),
    {
        self.total
    }

    /// Whether the budget is spent.
    pub fn is_done(&self) -> (r: bool)
        requires
            self.wf(),
        ensures
            r == (self.count() == self.budget()),
    {
        self.done == self.total
    }

    /// The progress of the iteration about to be made.
    pub fn progress(&self) -> (p: Progress)
        requires
            self.wf(),
            self.count() < self.budget(),
        ensures
            p.step == self.count() + 1,
            p.total == self.budget(),
            p.wf(),
    {
        Progress::of_iteration(self.done, self.total)
    }

    /// Records one iteration: an accepted candidate replaces the current state
    /// and energy wholesale; a rejected one is dropped.
    pub fn step(&mut self, m: Move<T, S>)
        requires
            old(self).wf(),
            old(self).count() < old(self).budget(),
        ensures
            final(self).wf(),
            final(self).count() == old(self).count() + 1,
            final(self).budget() == old(self).budget(),
            final(self).start() == old(self).start(),
            final(self).moves() == old(self).moves().push(m),
            m.accepted ==> final(self).state() == m.neighbour && final(self).energy()
                == m.energy,
            !m.accepted ==> final(self).state() == old(self).state() && final(self).energy()
                == old(self).energy(),
    {
        let ghost moves = self.moves@.push(m);
        proof {
            assert(moves.drop_last() =~= self.moves@);
        }
        self.moves = Ghost(moves);
        self.done = self.done + 1;
        if m.accepted {
            self.state = m.neighbour;
            self.energy = m.energy;
        }
    }

    /// Ends the run, handing back the state it reached.
    pub fn into_state(self) -> (r: T)
        requires
            self.wf(),
        ensures
            r == self.state(),
            r == outcome(self.start(), self.moves()).0,
    {
        self.state
    }
}

} // verus!
