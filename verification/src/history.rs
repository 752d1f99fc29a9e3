//! What holds of a progress record over its whole life, whatever requests
//! it receives and in whatever order.

use vstd::prelude::*;
use crate::achievement::mint_outcome;
use crate::bitset::{
    challenge_bit, lemma_mark_module, lemma_module_mask_ready, mask_of, module_begun, module_bit,
    module_challenges, module_owns, module_ready, CHALLENGE_COUNT, MODULE_COUNT,
};
use crate::error::ShadowRanchError;
use crate::identity::Identity;
use crate::ledger::{challenge_outcome, module_outcome};
use crate::progress::{
    lemma_extends_itself, lemma_extends_keeps_bits, lemma_extends_transitive,
    lemma_with_challenge, lemma_with_module, ModuleStage, UserProgress,
};

verus! {

/// One request made against a progress record.
pub enum Operation {
    /// `requester` asks at time `now` to complete challenge `challenge_id`.
    CompleteChallenge { requester: Identity, challenge_id: u8, now: i64 },
    /// `requester` asks at time `now` to complete module `module_id`.
    CompleteModule { requester: Identity, module_id: u8, now: i64 },
    /// `requester` asks for the achievement credential of module `module_id`.
    MintAchievement { requester: Identity, module_id: u8 },
}

impl Operation {
    /// The identity that makes the request.
    pub open spec fn requester(self) -> Identity {
        match self {
            Operation::CompleteChallenge { requester, .. } => requester,
            Operation::CompleteModule { requester, .. } => requester,
            Operation::MintAchievement { requester, .. } => requester,
        }
    }

    /// Whether the id in the request names a challenge, or a module, of the
    /// curriculum.
    pub open spec fn in_range(self) -> bool {
        match self {
            Operation::CompleteChallenge { challenge_id, .. } => challenge_id < CHALLENGE_COUNT,
            Operation::CompleteModule { module_id, .. } => module_id < MODULE_COUNT,
            Operation::MintAchievement { module_id, .. } => module_id < MODULE_COUNT,
        }
    }

    /// Whether the request, where it carries a time, carries one that is
    /// not before `start`.
    pub open spec fn not_before(self, start: i64) -> bool {
        match self {
            Operation::CompleteChallenge { now, .. } => start <= now,
            Operation::CompleteModule { now, .. } => start <= now,
            Operation::MintAchievement { .. } => true,
        }
    }
}

/// How the operation of this library that serves `op` answers on `record`.
pub open spec fn outcome(record: UserProgress, op: Operation) -> Result<(), ShadowRanchError> {
    match op {
        Operation::CompleteChallenge { requester, challenge_id, .. } => challenge_outcome(
            record,
            requester,
            challenge_id,
        ),
        Operation::CompleteModule { requester, module_id, .. } => module_outcome(
            record,
            requester,
            module_id,
        ),
        Operation::MintAchievement { requester, module_id } => mint_outcome(
            record,
            requester,
            module_id,
        ),
    }
}

/// The record that the operation of this library that serves `op` leaves
/// behind on `record`.
pub open spec fn apply(record: UserProgress, op: Operation) -> UserProgress {
    match op {
        Operation::CompleteChallenge { challenge_id, now, .. } => if outcome(record, op) is Ok {
            record.with_challenge(challenge_id, now)
        } else {
            record
        },
        Operation::CompleteModule { module_id, now, .. } => if outcome(record, op) is Ok {
            record.with_module(module_id, now)
        } else {
            record
        },
        Operation::MintAchievement { .. } => record,
    }
}

/// The record that the requests `ops`, served one after the other, leave
/// behind on `record`.
pub open spec fn apply_all(record: UserProgress, ops: Seq<Operation>) -> UserProgress
    decreases ops.len(),
{
    if ops.len() == 0 {
        record
    } else {
        apply(apply_all(record, ops.drop_last()), ops.last())
    }
}

/// No request clears a bit: whatever the request and however it is
/// answered, the record after it has the same authority and time of
/// creation, and every challenge and module completed that was completed
/// before.
pub proof fn law_step_never_decreases(record: UserProgress, op: Operation)
    ensures
        apply(record, op).extends(record),
        record@.challenges.subset_of(apply(record, op)@.challenges),
        record@.modules.subset_of(apply(record, op)@.modules),
{
    lemma_extends_itself(record);
    match op {
        Operation::CompleteChallenge { challenge_id, now, .. } => {
            if outcome(record, op) is Ok {
                lemma_with_challenge(record, challenge_id, now);
            }
        },
        Operation::CompleteModule { module_id, now, .. } => {
            if outcome(record, op) is Ok {
                lemma_with_module(record, module_id, now);
            }
        },
        Operation::MintAchievement { .. } => {},
    }
    lemma_extends_keeps_bits(apply(record, op), record);
}

/// Over any sequence of requests both bitsets only grow: the record at the
/// end has every bit that the record at the start had, and the same
/// authority and time of creation.
pub proof fn law_history_never_decreases(record: UserProgress, ops: Seq<Operation>)
    ensures
        apply_all(record, ops).extends(record),
        record@.challenges.subset_of(apply_all(record, ops)@.challenges),
        record@.modules.subset_of(apply_all(record, ops)@.modules),
    decreases ops.len(),
{
    if ops.len() == 0 {
        lemma_extends_itself(record);
    } else {
        let before = apply_all(record, ops.drop_last());
        law_history_never_decreases(record, ops.drop_last());
        law_step_never_decreases(before, ops.last());
        lemma_extends_transitive(record, before, apply(before, ops.last()));
    }
    lemma_extends_keeps_bits(apply_all(record, ops), record);
}

/// Over any sequence of requests whose times are not before the creation
/// of the record, a well-formed record stays well formed: a module is
/// completed only with all its challenges completed, only modules that
/// exist are completed, and the last change is not before the creation.
pub proof fn law_history_keeps_well_formed(record: UserProgress, ops: Seq<Operation>)
    requires
        record.well_formed(),
        forall|i: int| 0 <= i < ops.len() ==> (#[trigger] ops[i]).not_before(record.created_at),
    ensures
        apply_all(record, ops).well_formed(),
        apply_all(record, ops).created_at == record.created_at,
    decreases ops.len(),
{
    if ops.len() > 0 {
        let before = apply_all(record, ops.drop_last());
        let op = ops.last();
        let earlier = ops.drop_last();
        assert forall|i: int| 0 <= i < earlier.len() implies (#[trigger] earlier[i]).not_before(
            record.created_at,
        ) by {
            assert(earlier[i] == ops[i]);
        }
        law_history_keeps_well_formed(record, earlier);
        assert(ops[ops.len() - 1].not_before(record.created_at));
        match op {
            Operation::CompleteChallenge { challenge_id, now, .. } => {
                if outcome(before, op) is Ok {
                    lemma_with_challenge(before, challenge_id, now);
                }
            },
            Operation::CompleteModule { module_id, now, .. } => {
                if outcome(before, op) is Ok {
                    lemma_with_module(before, module_id, now);
                }
            },
            Operation::MintAchievement { .. } => {},
        }
    }
}

/// No request moves a module back to an earlier stage.
pub proof fn law_stage_never_goes_back(record: UserProgress, op: Operation, module_id: u8)
    ensures
        record.stage(module_id).rank() <= apply(record, op).stage(module_id).rank(),
{
    let next = apply(record, op);
    law_step_never_decreases(record, op);
    lemma_extends_keeps_bits(next, record);
    if record.module_done(module_id) {
        assert(next.module_done(module_id));
    } else if module_ready(record.challenges_completed, module_id) {
        assert forall|c: u8| module_owns(module_id, c) implies challenge_bit(
            next.challenges_completed,
            c,
        ) by {
            assert(record.challenge_done(c));
            assert(next.challenge_done(c));
        }
    } else if module_begun(record.challenges_completed, module_id) {
        let c = choose|c: u8|
            module_owns(module_id, c) && challenge_bit(record.challenges_completed, c);
        assert(record.challenge_done(c));
        assert(next.challenge_done(c));
        assert(module_owns(module_id, c) && challenge_bit(next.challenges_completed, c));
    }
}

/// A module becomes complete only from the stage in which all its
/// challenges are completed, and only by a request to complete that module.
pub proof fn law_module_completes_after_challenges(
    record: UserProgress,
    op: Operation,
    module_id: u8,
)
    requires
        record.stage(module_id) != ModuleStage::ModuleComplete,
        apply(record, op).stage(module_id) == ModuleStage::ModuleComplete,
    ensures
        record.stage(module_id) == ModuleStage::ChallengesComplete,
        op matches Operation::CompleteModule { module_id: completed, .. } && completed
            == module_id,
        outcome(record, op) is Ok,
{
    let m = record.modules_completed;
    match op {
        Operation::CompleteModule { module_id: completed, .. } => {
            if outcome(record, op) is Ok {
                lemma_mark_module(m, completed);
                assert(module_bit(m | (1u8 << completed), module_id));
            }
        },
        _ => {},
    }
}

/// Completing a challenge a second time changes no bit: after two requests
/// of one requester for one challenge, both bitsets are as after the
/// first, whatever the two times and however the requests are answered.
pub proof fn law_complete_challenge_idempotent(
    record: UserProgress,
    requester: Identity,
    challenge_id: u8,
    first: i64,
    second: i64,
)
    ensures
        ({
            let once = apply(
                record,
                Operation::CompleteChallenge { requester, challenge_id, now: first },
            );
            let twice = apply(
                once,
                Operation::CompleteChallenge { requester, challenge_id, now: second },
            );
            &&& twice.challenges_completed == once.challenges_completed
            &&& twice.modules_completed == once.modules_completed
            &&& outcome(once, Operation::CompleteChallenge { requester, challenge_id, now: second })
                == outcome(
                record,
                Operation::CompleteChallenge { requester, challenge_id, now: first },
            )
        }),
{
    let c = record.challenges_completed;
    assert((c | (1u16 << challenge_id)) | (1u16 << challenge_id) == c | (1u16 << challenge_id))
        by (bit_vector);
}

/// Completing a module a second time changes no bit: after two requests of
/// one requester for one module, both bitsets are as after the first, and
/// the second request is answered as the first was.
pub proof fn law_complete_module_idempotent(
    record: UserProgress,
    requester: Identity,
    module_id: u8,
    first: i64,
    second: i64,
)
    ensures
        ({
            let once = apply(
                record,
                Operation::CompleteModule { requester, module_id, now: first },
            );
            let twice = apply(
                once,
                Operation::CompleteModule { requester, module_id, now: second },
            );
            &&& twice.challenges_completed == once.challenges_completed
            &&& twice.modules_completed == once.modules_completed
            &&& outcome(once, Operation::CompleteModule { requester, module_id, now: second })
                == outcome(record, Operation::CompleteModule { requester, module_id, now: first })
        }),
{
    let m = record.modules_completed;
    assert((m | (1u8 << module_id)) | (1u8 << module_id) == m | (1u8 << module_id))
        by (bit_vector);
}

/// The authority's request to complete a module of the curriculum
/// succeeds exactly when the four challenges of the module are completed,
/// which is when the challenge bitset covers the mask of the module;
/// otherwise it is refused with `ModuleNotComplete`.
pub proof fn law_module_needs_its_challenges(record: UserProgress, module_id: u8)
    requires
        module_id < MODULE_COUNT,
    ensures
        (module_outcome(record, record.authority, module_id) is Ok) <==> (forall|c: u8|
            module_owns(module_id, c) ==> record.challenge_done(c)),
        (module_outcome(record, record.authority, module_id) is Ok) <==> ((
        record.challenges_completed & mask_of(module_challenges(module_id))) == mask_of(
            module_challenges(module_id),
        )),
        !(module_outcome(record, record.authority, module_id) is Ok) ==> module_outcome(
            record,
            record.authority,
            module_id,
        ) == Err::<(), ShadowRanchError>(ShadowRanchError::ModuleNotComplete),
{
    lemma_module_mask_ready(record.challenges_completed, module_id);
    if module_ready(record.challenges_completed, module_id) {
        assert forall|c: u8| module_owns(module_id, c) implies record.challenge_done(c) by {
            assert(challenge_bit(record.challenges_completed, c));
        }
    }
    if forall|c: u8| module_owns(module_id, c) ==> record.challenge_done(c) {
        assert forall|c: u8| module_owns(module_id, c) implies challenge_bit(
            record.challenges_completed,
            c,
        ) by {
            assert(record.challenge_done(c));
        }
    }
}

/// A request of anyone but the authority of the record, for a challenge or
/// module of the curriculum, is refused with `Unauthorized` and leaves the
/// record as it was.
pub proof fn law_only_authority(record: UserProgress, op: Operation)
    requires
        op.requester() != record.authority,
        op.in_range(),
    ensures
        outcome(record, op) == Err::<(), ShadowRanchError>(ShadowRanchError::Unauthorized),
        apply(record, op) == record,
{
}

/// A request for a challenge or a module that the curriculum does not
/// have is refused, whoever makes it, with `InvalidChallengeId` or with
/// `InvalidModuleId`, and leaves the record as it was.
pub proof fn law_out_of_range_is_refused(record: UserProgress, op: Operation)
    requires
        !op.in_range(),
    ensures
        outcome(record, op) == Err::<(), ShadowRanchError>(
            if op is CompleteChallenge {
                ShadowRanchError::InvalidChallengeId
            } else {
                ShadowRanchError::InvalidModuleId
            },
        ),
        apply(record, op) == record,
{
}

/// A request that is refused, for whatever reason, leaves the record as it
/// was; and a request of anyone but the authority is refused.
pub proof fn law_refusal_changes_nothing(record: UserProgress, op: Operation)
    ensures
        outcome(record, op) is Err ==> apply(record, op) == record,
        op.requester() != record.authority ==> outcome(record, op) is Err,
{
}

/// The credential of a module of the curriculum is granted to the
/// authority exactly when the bit of the module is set, and is refused
/// with `ModuleNotComplete` otherwise.
pub proof fn law_credential_needs_its_module(record: UserProgress, module_id: u8)
    requires
        module_id < MODULE_COUNT,
    ensures
        (mint_outcome(record, record.authority, module_id) is Ok) <==> module_bit(
            record.modules_completed,
            module_id,
        ),
        !module_bit(record.modules_completed, module_id) ==> mint_outcome(
            record,
            record.authority,
            module_id,
        ) == Err::<(), ShadowRanchError>(ShadowRanchError::ModuleNotComplete),
{
}

/// In a well-formed record, a module whose credential is granted has all
/// four of its challenges completed.
pub proof fn law_credential_needs_challenges(
    record: UserProgress,
    requester: Identity,
    module_id: u8,
)
    requires
        record.well_formed(),
        mint_outcome(record, requester, module_id) is Ok,
    ensures
        forall|c: u8| module_owns(module_id, c) ==> record.challenge_done(c),
{
    assert(record.module_done(module_id));
    assert(module_ready(record.challenges_completed, module_id));
    assert forall|c: u8| module_owns(module_id, c) implies record.challenge_done(c) by {
        assert(challenge_bit(record.challenges_completed, c));
    }
}

} // verus!
