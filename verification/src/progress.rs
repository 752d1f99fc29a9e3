//! The progress record: one per authority.

use vstd::prelude::*;
use crate::bitset::{
    challenge_bit, challenge_set, create_module_mask, get_module_challenges,
    lemma_mark_challenge, lemma_mark_module, lemma_module_mask_begun, lemma_module_mask_ready,
    module_begun, module_bit, module_ready, module_set, CHALLENGE_COUNT, MODULE_COUNT,
};
use crate::error::ShadowRanchError;
use crate::identity::Identity;

verus! {

/// The progress of one user through the curriculum.
#[derive(Clone, Copy, Debug, PartialEq, Eq)]
pub struct UserProgress {
    /// The identity that alone controls this record. It never changes.
    pub authority: Identity,
    /// Bit `c` is set when challenge `c` is completed. Bits are never cleared.
    pub challenges_completed: u16,
    /// Bit `m` is set when module `m` is completed. Bits are never cleared.
    pub modules_completed: u8,
    /// The time at which the record was created.
    pub created_at: i64,
    /// The time of the last change to the record.
    pub updated_at: i64,
}

/// How far a module has come, as the two bitsets of a record show it. A
/// module only moves forward through these stages. Whether its credential
/// was issued is not recorded, and so is no stage.
#[derive(Clone, Copy, Debug, PartialEq, Eq, Structural)]
pub enum ModuleStage {
    /// No challenge of the module is completed.
    NotStarted,
    /// Some of the challenges of the module are completed, not all.
    ChallengesInProgress,
    /// All challenges of the module are completed, the module is not.
    ChallengesComplete,
    /// The module is completed.
    ModuleComplete,
}

impl ModuleStage {
    /// The place of the stage in the order in which a module passes
    /// through the stages.
    pub open spec fn rank(self) -> nat {
        match self {
            ModuleStage::NotStarted => 0,
            ModuleStage::ChallengesInProgress => 1,
            ModuleStage::ChallengesComplete => 2,
            ModuleStage::ModuleComplete => 3,
        }
    }
}

/// A progress record as mathematics sees it: two sets of ids in place of
/// the two bitsets.
pub struct ProgressView {
    /// The bytes of the authority.
    pub authority: Seq<u8>,
    /// The ids of the completed challenges.
    pub challenges: Set<u8>,
    /// The ids of the completed modules.
    pub modules: Set<u8>,
    /// The time of creation.
    pub created_at: int,
    /// The time of the last change.
    pub updated_at: int,
}

impl View for UserProgress {
    type V = ProgressView;

    open spec fn view(&self) -> ProgressView {
        ProgressView {
            authority: self.authority@,
            challenges: challenge_set(self.challenges_completed),
            modules: module_set(self.modules_completed),
            created_at: self.created_at as int,
            updated_at: self.updated_at as int,
        }
    }
}

impl UserProgress {
    /// The number of bytes that a stored record takes: a tag of 8 bytes,
    /// the authority (32), the challenge bitset (2), the module bitset (1)
    /// and the two times (8 each).
    pub const LEN: usize = 8 + 32 + 2 + 1 + 8 + 8;

    /// The record of an authority that has completed nothing yet.
    pub open spec fn fresh(authority: Identity, now: i64) -> UserProgress {
        UserProgress {
            authority,
            challenges_completed: 0,
            modules_completed: 0,
            created_at: now,
            updated_at: now,
        }
    }

    /// This record after challenge `challenge_id` was completed at `now`.
    pub open spec fn with_challenge(self, challenge_id: u8, now: i64) -> UserProgress {
        UserProgress {
            challenges_completed: self.challenges_completed | (1u16 << challenge_id),
            updated_at: now,
            ..self
        }
    }

    /// This record after module `module_id` was completed at `now`.
    pub open spec fn with_module(self, module_id: u8, now: i64) -> UserProgress {
        UserProgress {
            modules_completed: self.modules_completed | (1u8 << module_id),
            updated_at: now,
            ..self
        }
    }

    /// Whether challenge `challenge_id` is completed.
    pub open spec fn challenge_done(self, challenge_id: u8) -> bool {
        challenge_bit(self.challenges_completed, challenge_id)
    }

    /// Whether module `module_id` is completed.
    pub open spec fn module_done(self, module_id: u8) -> bool {
        module_bit(self.modules_completed, module_id)
    }

    /// The stage of module `module_id`.
    pub open spec fn stage(self, module_id: u8) -> ModuleStage {
        if self.module_done(module_id) {
            ModuleStage::ModuleComplete
        } else if module_ready(self.challenges_completed, module_id) {
            ModuleStage::ChallengesComplete
        } else if module_begun(self.challenges_completed, module_id) {
            ModuleStage::ChallengesInProgress
        } else {
            ModuleStage::NotStarted
        }
    }

    /// What holds of every record that the operations of this library
    /// produce: only modules that exist are completed, a completed module
    /// has all its challenges completed, and the record was not changed
    /// before it was created.
    pub open spec fn well_formed(self) -> bool {
        &&& forall|m: u8| self.module_done(m) ==> m < MODULE_COUNT
        &&& forall|m: u8|
            m < MODULE_COUNT && #[trigger] self.module_done(m) ==> module_ready(
                self.challenges_completed,
                m,
            )
        &&& self.created_at <= self.updated_at
    }

    /// Whether this record keeps all that `earlier` held for good: the
    /// authority and the time of creation are the same, and every bit of
    /// either bitset that was set in `earlier` is set in this record.
    pub open spec fn extends(self, earlier: UserProgress) -> bool {
        &&& self.authority == earlier.authority
        &&& self.created_at == earlier.created_at
        &&& earlier.challenges_completed & self.challenges_completed
            == earlier.challenges_completed
        &&& earlier.modules_completed & self.modules_completed == earlier.modules_completed
    }

    /// A new record for `authority`, created at `now`, with nothing completed.
    pub fn new(authority: Identity, now: i64) -> (record: UserProgress)
        ensures
            record == UserProgress::fresh(authority, now),
            record@.challenges == Set::<u8>::empty(),
            record@.modules == Set::<u8>::empty(),
            record.well_formed(),
    {
        let record = UserProgress {
            authority,
            challenges_completed: 0,
            modules_completed: 0,
            created_at: now,
            updated_at: now,
        };
        proof {
            lemma_empty_bitsets();
            assert(record@.challenges =~= Set::<u8>::empty());
            assert(record@.modules =~= Set::<u8>::empty());
        }
        record
    }

    /// The stage of module `module_id`; `InvalidModuleId` where the id is 4
    /// or more.
    pub fn module_stage(&self, module_id: u8) -> (result: Result<ModuleStage, ShadowRanchError>)
        ensures
            module_id < MODULE_COUNT ==> result == Ok::<ModuleStage, ShadowRanchError>(
                self.stage(module_id),
            ),
            module_id >= MODULE_COUNT ==> result == Err::<ModuleStage, ShadowRanchError>(
                ShadowRanchError::InvalidModuleId,
            ),
    {
        let module_challenges = match get_module_challenges(module_id) {
            Ok(challenges) => challenges,
            Err(e) => {
                return Err(e);
            },
        };
        proof {
            lemma_module_mask_ready(self.challenges_completed, module_id);
            lemma_module_mask_begun(self.challenges_completed, module_id);
        }
        let module_mask = create_module_mask(module_challenges);
        let module_completion_mask: u8 = 1u8 << module_id;
        let completed = self.challenges_completed & module_mask;
        if (self.modules_completed & module_completion_mask) != 0 {
            Ok(ModuleStage::ModuleComplete)
        } else if completed == module_mask {
            Ok(ModuleStage::ChallengesComplete)
        } else if completed != 0 {
            Ok(ModuleStage::ChallengesInProgress)
        } else {
            Ok(ModuleStage::NotStarted)
        }
    }
}

/// Nothing is marked in a bitset that is zero.
pub proof fn lemma_empty_bitsets()
    ensures
        forall|c: u8| !#[trigger] challenge_bit(0, c),
        forall|m: u8| !#[trigger] module_bit(0, m),
{
    assert forall|c: u8| !#[trigger] challenge_bit(0, c) by {
        assert(0u16 & (1u16 << c) == 0) by (bit_vector);
    }
    assert forall|m: u8| !#[trigger] module_bit(0, m) by {
        assert(0u8 & (1u8 << m) == 0) by (bit_vector);
    }
}

/// A record extends itself.
pub proof fn lemma_extends_itself(record: UserProgress)
    ensures
        record.extends(record),
{
    let c = record.challenges_completed;
    let m = record.modules_completed;
    assert(c & c == c) by (bit_vector);
    assert(m & m == m) by (bit_vector);
}

/// Completing a challenge adds that challenge to the completed ones and
/// takes nothing away; where the clock has not gone back behind the
/// creation of the record, it keeps the record well formed.
pub proof fn lemma_with_challenge(record: UserProgress, challenge_id: u8, now: i64)
    requires
        challenge_id < CHALLENGE_COUNT,
    ensures
        record.with_challenge(challenge_id, now)@.challenges == record@.challenges.insert(
            challenge_id,
        ),
        record.with_challenge(challenge_id, now)@.modules == record@.modules,
        record.with_challenge(challenge_id, now).extends(record),
        record.well_formed() && record.created_at <= now ==> record.with_challenge(
            challenge_id,
            now,
        ).well_formed(),
{
    let c = record.challenges_completed;
    let m = record.modules_completed;
    let next = record.with_challenge(challenge_id, now);
    lemma_mark_challenge(c, challenge_id);
    assert(c & (c | (1u16 << challenge_id)) == c) by (bit_vector);
    assert(m & m == m) by (bit_vector);
    if record.well_formed() && record.created_at <= now {
        assert forall|k: u8| next.module_done(k) implies k < MODULE_COUNT by {
            assert(record.module_done(k));
        }
        assert forall|k: u8|
            k < MODULE_COUNT && #[trigger] next.module_done(k) implies module_ready(
            next.challenges_completed,
            k,
        ) by {
            assert(record.module_done(k));
            assert(module_ready(c, k));
        }
    }
}

/// Completing a module whose challenges are all completed adds that module
/// to the completed ones and takes nothing away; where the clock has not
/// gone back behind the creation of the record, it keeps the record well
/// formed.
pub proof fn lemma_with_module(record: UserProgress, module_id: u8, now: i64)
    requires
        module_id < MODULE_COUNT,
    ensures
        record.with_module(module_id, now)@.modules == record@.modules.insert(module_id),
        record.with_module(module_id, now)@.challenges == record@.challenges,
        record.with_module(module_id, now).extends(record),
        record.well_formed() && record.created_at <= now && module_ready(
            record.challenges_completed,
            module_id,
        ) ==> record.with_module(module_id, now).well_formed(),
{
    let c = record.challenges_completed;
    let m = record.modules_completed;
    let next = record.with_module(module_id, now);
    lemma_mark_module(m, module_id);
    assert(m & (m | (1u8 << module_id)) == m) by (bit_vector);
    assert(c & c == c) by (bit_vector);
    if record.well_formed() && record.created_at <= now && module_ready(c, module_id) {
        assert forall|k: u8| next.module_done(k) implies k < MODULE_COUNT by {
            if k != module_id {
                assert(record.module_done(k));
            }
        }
        assert forall|k: u8|
            k < MODULE_COUNT && #[trigger] next.module_done(k) implies module_ready(
            next.challenges_completed,
            k,
        ) by {
            if k != module_id {
                assert(record.module_done(k));
            }
        }
    }
}

/// A record that extends another has every challenge and every module
/// completed that the other has.
pub proof fn lemma_extends_keeps_bits(later: UserProgress, earlier: UserProgress)
    requires
        later.extends(earlier),
    ensures
        forall|c: u8| earlier.challenge_done(c) ==> later.challenge_done(c),
        forall|m: u8| earlier.module_done(m) ==> later.module_done(m),
        earlier@.challenges.subset_of(later@.challenges),
        earlier@.modules.subset_of(later@.modules),
{
    let ec = earlier.challenges_completed;
    let lc = later.challenges_completed;
    let em = earlier.modules_completed;
    let lm = later.modules_completed;
    assert forall|c: u8| earlier.challenge_done(c) implies later.challenge_done(c) by {
        assert(lc & (1u16 << c) != 0) by (bit_vector)
            requires
                ec & lc == ec,
                ec & (1u16 << c) != 0,
        ;
    }
    assert forall|m: u8| earlier.module_done(m) implies later.module_done(m) by {
        assert(lm & (1u8 << m) != 0) by (bit_vector)
            requires
                em & lm == em,
                em & (1u8 << m) != 0,
        ;
    }
    assert forall|c: u8| earlier@.challenges.contains(c) implies later@.challenges.contains(c) by {
        assert(earlier.challenge_done(c));
    }
    assert forall|m: u8| earlier@.modules.contains(m) implies later@.modules.contains(m) by {
        assert(earlier.module_done(m));
    }
}

/// Extending is transitive.
pub proof fn lemma_extends_transitive(a: UserProgress, b: UserProgress, c: UserProgress)
    requires
        b.extends(a),
        c.extends(b),
    ensures
        c.extends(a),
{
    let (ac, bc, cc) = (a.challenges_completed, b.challenges_completed, c.challenges_completed);
    let (am, bm, cm) = (a.modules_completed, b.modules_completed, c.modules_completed);
    assert(ac & cc == ac) by (bit_vector)
        requires
            ac & bc == ac,
            bc & cc == bc,
    ;
    assert(am & cm == am) by (bit_vector)
        requires
            am & bm == am,
            bm & cm == bm,
    ;
}

} // verus!
