//! Seeds that chance gives: the operations of a session that draw one.

use vstd::prelude::*;
use vstd::string::*;

use crate::controls::PresetChoice;
use crate::number::{answers, calculates, Arithmetic, Real};
use crate::session::{Event, Moment, Session, SessionModel, Turn};
use crate::startup::{first_model, Surroundings};
use crate::update::{took, Response};
use crate::work::Effect;

verus! {

/// The error of a random source that gives nothing.
#[verifier::external_type_specification]
#[verifier::external_body]
pub struct ExRandomError(getrandom::Error);

/// `getrandom::u64` asks the system's random source for a number, or reports
/// why there is none. Nothing is claimed of either.
pub assume_specification[ getrandom::u64 ]() -> (r: Result<u64, getrandom::Error>);

/// What `Display` writes for a `getrandom::Error`. Parts of it come from the
/// operating system, so nothing is claimed of the text.
#[verifier::external_body]
fn error_text(error: getrandom::Error) -> (r: String) {
    error.to_string()
}

fn draw() -> (r: Result<u64, String>) {
    match getrandom::u64() {
        Ok(seed) => Ok(seed),
        Err(error) => Err(error_text(error)),
    }
}

impl SessionModel {
    /// The user asked for another seed, and this one was drawn.
    pub open spec fn seed_randomized(
        self,
        seed: Result<u64, String>,
        moment: Moment,
        ev: spec_fn(Arithmetic) -> Real,
    ) -> Turn {
        self.updated(Event::RandomizeSeed(seed), moment, ev)
    }

    /// The user chose a preset, and this seed was drawn for it.
    pub open spec fn preset_chosen(
        self,
        index: usize,
        choice: Option<PresetChoice>,
        seed: Result<u64, String>,
        moment: Moment,
        ev: spec_fn(Arithmetic) -> Real,
    ) -> Turn {
        self.updated(Event::PresetSelected { index, choice, seed }, moment, ev)
    }
}

/// A session that has begun with a seed.
pub open spec fn begun_with(
    session: Session,
    effects: Seq<Effect>,
    choice: PresetChoice,
    seed: u64,
    around: Surroundings,
) -> bool {
    (session@, effects) == first_model(choice, seed, around).routed(around.now)
}

impl Session {
    /// Begin a session with the first preset and a seed of chance; without one
    /// the seed is zero.
    pub fn begin(choice: PresetChoice, around: Surroundings) -> (r: (Session, Vec<Effect>))
        ensures
            r.0.valid(),
            exists|seed: u64| #[trigger] begun_with(r.0, r.1@, choice, seed, around),
    {
        let ghost given = choice;
        let seed: u64 = match getrandom::u64() {
            Ok(seed) => seed,
            Err(_) => 0,
        };
        let begun: (Session, Vec<Effect>) = Session::create(choice, seed, around);
        assert(begun_with(begun.0, begun.1@, given, seed, around));
        begun
    }

    /// Draw another seed. Whatever is drawn, the session takes the turn that
    /// belongs to it.
    pub fn randomize_seed<C: Fn(Arithmetic) -> Real>(&mut self, moment: Moment, calc: &C) -> (r:
        Response)
        requires
            old(self).valid(),
            calculates(*calc),
        ensures
            final(self).valid(),
            exists|seed: Result<u64, String>|
                took(
                    *final(self),
                    r,
                    #[trigger] old(self)@.seed_randomized(seed, moment, answers(*calc)),
                ),
    {
        let seed: Result<u64, String> = draw();
        let ghost drawn = seed;
        let response: Response = self.update(Event::RandomizeSeed(seed), moment, calc);
        assert(took(*self, response, old(self)@.seed_randomized(drawn, moment, answers(*calc))));
        response
    }

    /// Choose a preset, with a seed of chance. Whatever is drawn, the session
    /// takes the turn that belongs to it.
    pub fn choose_preset<C: Fn(Arithmetic) -> Real>(
        &mut self,
        index: usize,
        choice: Option<PresetChoice>,
        moment: Moment,
        calc: &C,
    ) -> (r: Response)
        requires
            old(self).valid(),
            calculates(*calc),
        ensures
            final(self).valid(),
            exists|seed: Result<u64, String>|
                took(
                    *final(self),
                    r,
                    #[trigger] old(self)@.preset_chosen(
                        index,
                        choice,
                        seed,
                        moment,
                        answers(*calc),
                    ),
                ),
    {
        let seed: Result<u64, String> = draw();
        let ghost (given, drawn) = (choice, seed);
        let response: Response = self.update(
            Event::PresetSelected { index, choice, seed },
            moment,
            calc,
        );
        assert(took(
            *self,
            response,
            old(self)@.preset_chosen(index, given, drawn, moment, answers(*calc)),
        ));
        response
    }
}

} // verus!
