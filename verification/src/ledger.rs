//! The operations that create and advance a progress record. Each takes
//! the record together with the identity that asks, checks the request,
//! and either applies it in full or refuses it and changes nothing.

use vstd::prelude::*;
use crate::bitset::{
    create_module_mask, get_module_challenges, lemma_module_mask_ready, module_ready,
    CHALLENGE_COUNT, MODULE_COUNT,
};
use crate::error::ShadowRanchError;
use crate::history::{apply, Operation};
use crate::identity::Identity;
use crate::progress::{
    lemma_extends_itself, lemma_with_challenge, lemma_with_module, UserProgress,
};

verus! {

/// A request to create the progress record of `authority`.
#[derive(Clone, Copy, Debug, PartialEq, Eq)]
pub struct InitializeUser {
    /// The place of the authority's record: `None` until one is created.
    pub user_progress: Option<UserProgress>,
    /// The identity that asks, and that will control the record.
    pub authority: Identity,
}

/// A request to complete a challenge.
#[derive(Clone, Copy, Debug, PartialEq, Eq)]
pub struct CompleteChallenge {
    /// The record to advance.
    pub user_progress: UserProgress,
    /// The identity that asks.
    pub authority: Identity,
}

/// A request to complete a module.
#[derive(Clone, Copy, Debug, PartialEq, Eq)]
pub struct CompleteModule {
    /// The record to advance.
    pub user_progress: UserProgress,
    /// The identity that asks.
    pub authority: Identity,
}

/// How a request of `requester` is answered as far as ownership goes,
/// where `authority` controls the record: only the authority may use it.
pub open spec fn authority_outcome(authority: Identity, requester: Identity) -> Result<
    (),
    ShadowRanchError,
> {
    if requester == authority {
        Ok(())
    } else {
        Err(ShadowRanchError::Unauthorized)
    }
}

/// How a request of `requester` to complete challenge `challenge_id` on
/// `record` is answered. The range of the id is judged first, then the
/// requester.
pub open spec fn challenge_outcome(
    record: UserProgress,
    requester: Identity,
    challenge_id: u8,
) -> Result<(), ShadowRanchError> {
    if challenge_id >= CHALLENGE_COUNT {
        Err(ShadowRanchError::InvalidChallengeId)
    } else if requester != record.authority {
        Err(ShadowRanchError::Unauthorized)
    } else {
        Ok(())
    }
}

/// How a request of `requester` to complete module `module_id` on `record`
/// is answered. The range of the id is judged first, then the requester,
/// then the challenges of the module.
pub open spec fn module_outcome(record: UserProgress, requester: Identity, module_id: u8) -> Result<
    (),
    ShadowRanchError,
> {
    if module_id >= MODULE_COUNT {
        Err(ShadowRanchError::InvalidModuleId)
    } else if requester != record.authority {
        Err(ShadowRanchError::Unauthorized)
    } else if !module_ready(record.challenges_completed, module_id) {
        Err(ShadowRanchError::ModuleNotComplete)
    } else {
        Ok(())
    }
}

/// The ownership guard of every operation on a record: passes where
/// `requester` is the `authority` that controls the record, and is
/// `Unauthorized` for everybody else.
pub fn check_authority(authority: &Identity, requester: &Identity) -> (result: Result<
    (),
    ShadowRanchError,
>)
    ensures
        result == authority_outcome(*authority, *requester),
{
    if *requester == *authority {
        Ok(())
    } else {
        Err(ShadowRanchError::Unauthorized)
    }
}

/// Creates the record of `ctx.authority` at time `now`, with no challenge
/// and no module completed. Refused with `AlreadyExists`, and nothing
/// changed, where a record is in place already.
pub fn initialize_user(ctx: &mut InitializeUser, now: i64) -> (result: Result<
    (),
    ShadowRanchError,
>)
    ensures
        final(ctx).authority == old(ctx).authority,
        old(ctx).user_progress is Some ==> result == Err::<(), ShadowRanchError>(
            ShadowRanchError::AlreadyExists,
        ),
        old(ctx).user_progress is None ==> result is Ok,
        result is Err ==> final(ctx).user_progress == old(ctx).user_progress,
        result is Ok ==> final(ctx).user_progress == Some(
            UserProgress::fresh(old(ctx).authority, now),
        ),
        result is Ok ==> UserProgress::fresh(old(ctx).authority, now).well_formed(),
{
    if ctx.user_progress.is_some() {
        return Err(ShadowRanchError::AlreadyExists);
    }
    ctx.user_progress = Some(UserProgress::new(ctx.authority, now));
    Ok(())
}

/// Marks challenge `challenge_id` as completed at time `now`. Refused with
/// `InvalidChallengeId` where the id is 16 or more, else with `Unauthorized`
/// where `ctx.authority` is not the authority of the record; a refusal
/// changes nothing. Completing a challenge again succeeds and sets no new bit.
pub fn complete_challenge(ctx: &mut CompleteChallenge, challenge_id: u8, now: i64) -> (result:
    Result<(), ShadowRanchError>)
    ensures
        result == challenge_outcome(old(ctx).user_progress, old(ctx).authority, challenge_id),
        final(ctx).authority == old(ctx).authority,
        result is Err ==> final(ctx).user_progress == old(ctx).user_progress,
        result is Ok ==> final(ctx).user_progress == old(ctx).user_progress.with_challenge(
            challenge_id,
            now,
        ),
        result is Ok ==> final(ctx).user_progress@.challenges == old(
            ctx,
        ).user_progress@.challenges.insert(challenge_id),
        final(ctx).user_progress == apply(
            old(ctx).user_progress,
            (Operation::CompleteChallenge { requester: old(ctx).authority, challenge_id, now }),
        ),
        final(ctx).user_progress.extends(old(ctx).user_progress),
        old(ctx).user_progress.well_formed() && old(ctx).user_progress.created_at <= now
            ==> final(ctx).user_progress.well_formed(),
{
    proof {
        lemma_extends_itself(ctx.user_progress);
    }
    if challenge_id >= CHALLENGE_COUNT {
        return Err(ShadowRanchError::InvalidChallengeId);
    }
    match check_authority(&ctx.user_progress.authority, &ctx.authority) {
        Ok(()) => {},
        Err(e) => {
            return Err(e);
        },
    }
    let challenge_mask: u16 = 1u16 << challenge_id;
    ctx.user_progress.challenges_completed = ctx.user_progress.challenges_completed
        | challenge_mask;
    ctx.user_progress.updated_at = now;
    proof {
        lemma_with_challenge(old(ctx).user_progress, challenge_id, now);
    }
    Ok(())
}

/// Marks module `module_id` as completed at time `now`. Refused with
/// `InvalidModuleId` where the id is 4 or more, else with `Unauthorized`
/// where `ctx.authority` is not the authority of the record, else with
/// `ModuleNotComplete` where one of the four challenges of the module is
/// not completed; a refusal changes nothing. Completing a module again
/// succeeds and sets no new bit.
pub fn complete_module(ctx: &mut CompleteModule, module_id: u8, now: i64) -> (result: Result<
    (),
    ShadowRanchError,
>)
    ensures
        result == module_outcome(old(ctx).user_progress, old(ctx).authority, module_id),
        final(ctx).authority == old(ctx).authority,
        result is Err ==> final(ctx).user_progress == old(ctx).user_progress,
        result is Ok ==> final(ctx).user_progress == old(ctx).user_progress.with_module(
            module_id,
            now,
        ),
        result is Ok ==> final(ctx).user_progress@.modules == old(
            ctx,
        ).user_progress@.modules.insert(module_id),
        final(ctx).user_progress == apply(
            old(ctx).user_progress,
            (Operation::CompleteModule { requester: old(ctx).authority, module_id, now }),
        ),
        final(ctx).user_progress.extends(old(ctx).user_progress),
        old(ctx).user_progress.well_formed() && old(ctx).user_progress.created_at <= now
            ==> final(ctx).user_progress.well_formed(),
{
    proof {
        lemma_extends_itself(ctx.user_progress);
    }
    if module_id >= MODULE_COUNT {
        return Err(ShadowRanchError::InvalidModuleId);
    }
    match check_authority(&ctx.user_progress.authority, &ctx.authority) {
        Ok(()) => {},
        Err(e) => {
            return Err(e);
        },
    }
    let module_challenges = match get_module_challenges(module_id) {
        Ok(challenges) => challenges,
        Err(e) => {
            return Err(e);
        },
    };
    proof {
        lemma_module_mask_ready(ctx.user_progress.challenges_completed, module_id);
    }
    let module_mask = create_module_mask(module_challenges);
    if (ctx.user_progress.challenges_completed & module_mask) != module_mask {
        return Err(ShadowRanchError::ModuleNotComplete);
    }
    let module_completion_mask: u8 = 1u8 << module_id;
    ctx.user_progress.modules_completed = ctx.user_progress.modules_completed
        | module_completion_mask;
    ctx.user_progress.updated_at = now;
    proof {
        lemma_with_module(old(ctx).user_progress, module_id, now);
    }
    Ok(())
}

} // verus!
