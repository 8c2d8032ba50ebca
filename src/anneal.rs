use vstd::prelude::*;
use vstd::std_specs::cmp::PartialOrdSpec;

use crate::progress::Progress;
use crate::run::{before, outcome, Move, Run};

verus! {

/// The acceptance test: the probability is at least the draw.
pub open spec fn at_least<S: PartialOrd>(probability: S, draw: S) -> bool {
    probability.partial_cmp_spec(&draw) matches Some(
        core::cmp::Ordering::Greater
        | core::cmp::Ordering::Equal,
    )
}

/// Whether a candidate is taken: its acceptance probability is at least the
/// random draw, so that a probability equal to the draw accepts.
pub fn accepts<S: PartialOrd>(probability: S, draw: S) -> (r: bool)
    ensures
        S::obeys_partial_cmp_spec() ==> (r == at_least(probability, draw)),
{
    probability >= draw
}

/// What a search space supplies so that a run can be made over states `T`.
///
/// Energies, temperatures, probabilities and random draws all share the type
/// `Scalar` (a real number in practice); lower energy is better. The usual
/// acceptance rule is the Metropolis criterion: certain acceptance of a
/// candidate of lower energy, else `exp(-(energy_neighbour - energy_current) /
/// temperature)`.
///
/// The spec methods say what the capabilities compute, for the contract of
/// [`Anneal::optimise`]. An implementation outside Verus gives them ordinary
/// bodies that compute the same thing; nothing calls them at run time.
pub trait Anneal<T> {
    type Scalar: Copy + PartialOrd;

    /// The energy of a state, a function of the state alone.
    spec fn energy_of(&self, state: T) -> Self::Scalar;

    /// The acceptance probability, a function of the two energies and the temperature.
    spec fn probability_of(
        &self,
        energy_current: Self::Scalar,
        energy_neighbour: Self::Scalar,
        temperature: Self::Scalar,
    ) -> Self::Scalar;

    /// Which candidates `neighbour` may propose from a state.
    spec fn is_neighbour(&self, from: T, to: T) -> bool;

    /// Which temperatures the schedule may give at a progress and energy.
    spec fn is_temperature(&self, progress: Progress, energy: Self::Scalar, t: Self::Scalar) -> bool;

    /// Which values the random source may draw.
    spec fn is_draw(&self, d: Self::Scalar) -> bool;

    /// The probability of moving from a state of energy `energy_current` to a
    /// candidate of energy `energy_neighbour` at the given temperature.
    fn accept_probability(
        &self,
        energy_current: Self::Scalar,
        energy_neighbour: Self::Scalar,
        temperature: Self::Scalar,
    ) -> (r: Self::Scalar)
        ensures
            r == self.probability_of(energy_current, energy_neighbour, temperature),
    ;

    /// The next uniform draw from `[0, 1)`.
    fn random(&self) -> (r: Self::Scalar)
        ensures
            self.is_draw(r),
    ;

    /// The temperature at the given progress, for a current state of the given energy.
    fn temperature(&self, progress: Progress, energy: Self::Scalar) -> (r: Self::Scalar)
        ensures
            self.is_temperature(progress, energy, r),
    ;

    /// The energy of a state; the same state always has the same energy.
    fn energy(&self, state: &T) -> (r: Self::Scalar)
        ensures
            r == self.energy_of(*state),
    ;

    /// A candidate near the given state, which is left as it was.
    fn neighbour(&self, state: &T) -> (r: T)
        ensures
            self.is_neighbour(*state, r),
    ;

    /// Runs `num_iterations` iterations of simulated annealing from
    /// `initial_state` and returns the last state reached.
    ///
    /// Each iteration asks for the temperature at progress `(i + 1) /
    /// num_iterations` and the current energy, then for a candidate and its
    /// energy, then for the acceptance probability, then for one random draw; the
    /// candidate replaces the current state when the probability is at least the
    /// draw. No capability is called at all when `num_iterations <= 0`.
    ///
    /// For a positive budget the result is the outcome of a trace of exactly
    /// `num_iterations` moves from the initial state and its energy, in which
    /// iteration `i` asked the schedule at progress `i + 1` of `num_iterations`
    /// with the energy then current, each draw came from `random`,
    /// each candidate was proposed from the state then current, carries its own
    /// energy, was judged by the acceptance probability of the current energy,
    /// its energy and the temperature, and was taken exactly when that
    /// probability was at least the draw.
    ///
    /// The contract below is proved for this body; an implementation that
    /// overrides the method takes it over unchecked.
    fn optimise(&self, num_iterations: i64, initial_state: T) -> (r: T)
        ensures
            num_iterations <= 0 ==> r == initial_state,
            num_iterations > 0 ==> exists|moves: Seq<Move<T, Self::Scalar>>|
                {
                    &&& moves.len() == num_iterations
                    &&& r == (#[trigger] outcome(
                        (initial_state, self.energy_of(initial_state)),
                        moves,
                    )).0
                    &&& forall|i: int|
                        0 <= i < moves.len() ==> {
                            let cur = before((initial_state, self.energy_of(initial_state)), moves, i);
                            let m = #[trigger] moves[i];
                            &&& self.is_temperature(
                                (Progress { step: (i + 1) as u64, total: num_iterations as u64 }),
                                cur.1,
                                m.temperature,
                            )
                            &&& self.is_neighbour(cur.0, m.neighbour)
                            &&& m.energy == self.energy_of(m.neighbour)
                            &&& self.is_draw(m.draw)
                            &&& m.probability == self.probability_of(cur.1, m.energy, m.temperature)
                            &&& Self::Scalar::obeys_partial_cmp_spec() ==> (m.accepted == at_least(
                                m.probability,
                                m.draw,
                            ))
                        }
                },
    {
        if num_iterations <= 0 {
            return initial_state;
        }
        let total = num_iterations as u64;
        let ghost start = initial_state;
        let energy = self.energy(&initial_state);
        let mut run = Run::new(total, initial_state, energy);
        while !run.is_done()
            invariant
                run.wf(),
                run.budget() == total,
                run.start() == (start, energy),
                energy == self.energy_of(start),
                forall|i: int|
                    0 <= i < run.moves().len() ==> {
                        let cur = before((start, energy), run.moves(), i);
                        let m = #[trigger] run.moves()[i];
                        &&& self.is_temperature(
                            (Progress { step: (i + 1) as u64, total }),
                            cur.1,
                            m.temperature,
                        )
                        &&& self.is_neighbour(cur.0, m.neighbour)
                        &&& m.energy == self.energy_of(m.neighbour)
                        &&& self.is_draw(m.draw)
                        &&& m.probability == self.probability_of(cur.1, m.energy, m.temperature)
                        &&& Self::Scalar::obeys_partial_cmp_spec() ==> (m.accepted == at_least(
                            m.probability,
                            m.draw,
                        ))
                    },
            decreases total - run.count(),
        {
            let ghost old_moves = run.moves();
            let progress = run.progress();
            let current_energy = *run.current_energy();
            let temperature = self.temperature(progress, current_energy);
            let neighbour = self.neighbour(run.current_state());
            let neighbour_energy = self.energy(&neighbour);
            let probability = self.accept_probability(
                current_energy,
                neighbour_energy,
                temperature,
            );
            let draw = self.random();
            let accepted = accepts(probability, draw);
            run.step(
                Move {
                    neighbour,
                    energy: neighbour_energy,
                    temperature,
                    probability,
                    draw,
                    accepted,
                },
            );
            proof {
                let moves = run.moves();
                assert forall|i: int| 0 <= i < old_moves.len() implies moves.take(i)
                    =~= old_moves.take(i) && moves[i] == old_moves[i] by {}
                assert(moves.take(old_moves.len() as int) =~= old_moves);
            }
        }
        let ghost moves = run.moves();
        let r = run.into_state();
        assert(r == outcome((start, energy), moves).0);
        r
    }
}

} // verus!
