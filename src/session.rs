use vstd::prelude::*;

verus! {

/// The stages of one proving session, in the only order they can be passed.
#[derive(Clone, Copy, Debug, PartialEq, Eq, Structural)]
pub enum Stage {
    Unbuilt,
    Built,
    WitnessFilled,
    LocallyVerified,
    Proved,
    Verified,
}

/// What the driver of a session reports after attempting the work of the
/// current stage; `true` when that work succeeded.
#[derive(Clone, Copy, Debug, PartialEq, Eq, Structural)]
pub enum Event {
    CircuitBuilt,
    WitnessPopulated(bool),
    ConstraintsChecked(bool),
    ProofProduced(bool),
    ProofChecked(bool),
}

/// Why a session was aborted. None of these is retried.
#[derive(Clone, Copy, Debug, PartialEq, Eq, Structural)]
pub enum SessionError {
    /// The remaining wires could not be derived from the assigned ones.
    WitnessDerivation,
    /// The populated witness breaks an asserted equality.
    ConstraintViolation,
    /// The prover failed to produce a proof.
    Proving,
    /// The proof does not verify against the public values.
    Verification,
    /// The event does not belong to the current stage.
    OutOfOrder,
}

/// The position of a stage in the session.
pub open spec fn rank(s: Stage) -> nat {
    match s {
        Stage::Unbuilt => 0,
        Stage::Built => 1,
        Stage::WitnessFilled => 2,
        Stage::LocallyVerified => 3,
        Stage::Proved => 4,
        Stage::Verified => 5,
    }
}

/// The event that ends stage `s`, with the given outcome; none ends `Verified`.
pub open spec fn ends_stage(s: Stage, e: Event) -> bool {
    match e {
        Event::CircuitBuilt => s == Stage::Unbuilt,
        Event::WitnessPopulated(_) => s == Stage::Built,
        Event::ConstraintsChecked(_) => s == Stage::WitnessFilled,
        Event::ProofProduced(_) => s == Stage::LocallyVerified,
        Event::ProofChecked(_) => s == Stage::Proved,
    }
}

/// Whether the event reports success.
pub open spec fn succeeded(e: Event) -> bool {
    match e {
        Event::CircuitBuilt => true,
        Event::WitnessPopulated(ok) => ok,
        Event::ConstraintsChecked(ok) => ok,
        Event::ProofProduced(ok) => ok,
        Event::ProofChecked(ok) => ok,
    }
}

/// The error that a failed event aborts the session with.
pub open spec fn failure_of(e: Event) -> SessionError {
    match e {
        Event::WitnessPopulated(_) => SessionError::WitnessDerivation,
        Event::ConstraintsChecked(_) => SessionError::ConstraintViolation,
        Event::ProofProduced(_) => SessionError::Proving,
        _ => SessionError::Verification,
    }
}

/// Moves a session on by one event: to the next stage when the event ends
/// the current stage and succeeded; to the event's error when it ends the
/// stage and failed; to `OutOfOrder` when it does not belong to the stage.
pub fn advance(stage: Stage, event: Event) -> (r: Result<Stage, SessionError>)
    ensures
        !ends_stage(stage, event) ==> r == Err::<Stage, SessionError>(SessionError::OutOfOrder),
        ends_stage(stage, event) && !succeeded(event) ==> r == Err::<Stage, SessionError>(
            failure_of(event),
        ),
        ends_stage(stage, event) && succeeded(event) <==> r is Ok,
        r matches Ok(s) ==> rank(s) == rank(stage) + 1,
{
    match (stage, event) {
        (Stage::Unbuilt, Event::CircuitBuilt) => Ok(Stage::Built),
        (Stage::Built, Event::WitnessPopulated(ok)) => {
            if ok {
                Ok(Stage::WitnessFilled)
            } else {
                Err(SessionError::WitnessDerivation)
            }
        },
        (Stage::WitnessFilled, Event::ConstraintsChecked(ok)) => {
            if ok {
                Ok(Stage::LocallyVerified)
            } else {
                Err(SessionError::ConstraintViolation)
            }
        },
        (Stage::LocallyVerified, Event::ProofProduced(ok)) => {
            if ok {
                Ok(Stage::Proved)
            } else {
                Err(SessionError::Proving)
            }
        },
        (Stage::Proved, Event::ProofChecked(ok)) => {
            if ok {
                Ok(Stage::Verified)
            } else {
                Err(SessionError::Verification)
            }
        },
        _ => Err(SessionError::OutOfOrder),
    }
}

} // verus!
