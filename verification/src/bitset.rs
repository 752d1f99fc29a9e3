//! The fixed shape of the curriculum and the bitsets that record progress
//! through it: challenge `c` is bit `c` of a 16-bit set, module `m` is bit
//! `m` of an 8-bit set, and module `m` owns the challenges `4m` to `4m + 3`.

use vstd::prelude::*;
use crate::error::ShadowRanchError;

verus! {

/// Number of challenges in the curriculum; their ids are `0..16`.
pub const CHALLENGE_COUNT: u8 = 16;

/// Number of modules in the curriculum; their ids are `0..4`.
pub const MODULE_COUNT: u8 = 4;

/// Number of challenges that each module owns.
pub const CHALLENGES_PER_MODULE: u8 = 4;

/// Whether challenge `id` is marked in the challenge bitset `bits`.
pub open spec fn challenge_bit(bits: u16, id: u8) -> bool {
    id < CHALLENGE_COUNT && bits & (1u16 << id) != 0
}

/// Whether module `id` is marked in the module bitset `bits`.
pub open spec fn module_bit(bits: u8, id: u8) -> bool {
    id < 8 && bits & (1u8 << id) != 0
}

/// The challenges marked in `bits`, as a set of ids.
pub open spec fn challenge_set(bits: u16) -> Set<u8> {
    Set::new(|id: u8| challenge_bit(bits, id))
}

/// The modules marked in `bits`, as a set of ids.
pub open spec fn module_set(bits: u8) -> Set<u8> {
    Set::new(|id: u8| module_bit(bits, id))
}

/// Whether challenge `challenge_id` belongs to module `module_id`.
pub open spec fn module_owns(module_id: u8, challenge_id: u8) -> bool {
    4 * module_id <= challenge_id <= 4 * module_id + 3
}

/// The challenges of module `module_id`, in ascending order.
pub open spec fn module_challenges(module_id: u8) -> Seq<u8> {
    Seq::new(CHALLENGES_PER_MODULE as nat, |i: int| (4 * module_id + i) as u8)
}

/// The bitset in which exactly the challenges in `ids` are marked: the
/// bitwise or of `1 << id` over `ids`.
pub open spec fn mask_of(ids: Seq<u8>) -> u16
    decreases ids.len(),
{
    if ids.len() == 0 {
        0
    } else {
        mask_of(ids.drop_last()) | (1u16 << ids.last())
    }
}

/// Whether every challenge of module `module_id` is marked in `bits`.
pub open spec fn module_ready(bits: u16, module_id: u8) -> bool {
    forall|c: u8| module_owns(module_id, c) ==> challenge_bit(bits, c)
}

/// Marking challenge `id` in `bits` marks `id` and leaves every other
/// challenge as it was.
pub proof fn lemma_mark_challenge(bits: u16, id: u8)
    requires
        id < CHALLENGE_COUNT,
    ensures
        forall|c: u8| #[trigger]
            challenge_bit(bits | (1u16 << id), c) <==> (c == id || challenge_bit(bits, c)),
        challenge_set(bits | (1u16 << id)) == challenge_set(bits).insert(id),
{
    let marked = bits | (1u16 << id);
    assert forall|c: u8| #[trigger]
        challenge_bit(marked, c) <==> (c == id || challenge_bit(bits, c)) by {
        if c < 16 {
            assert((((bits | (1u16 << id)) & (1u16 << c)) != 0) <==> (c == id || (bits & (1u16
                << c)) != 0)) by (bit_vector)
                requires
                    id < 16,
                    c < 16,
            ;
        }
    }
    assert(challenge_set(marked) =~= challenge_set(bits).insert(id));
}

/// Marking module `id` in `bits` marks `id` and leaves every other module
/// as it was.
pub proof fn lemma_mark_module(bits: u8, id: u8)
    requires
        id < 8,
    ensures
        forall|m: u8| #[trigger]
            module_bit(bits | (1u8 << id), m) <==> (m == id || module_bit(bits, m)),
        module_set(bits | (1u8 << id)) == module_set(bits).insert(id),
{
    let marked = bits | (1u8 << id);
    assert forall|m: u8| #[trigger]
        module_bit(marked, m) <==> (m == id || module_bit(bits, m)) by {
        if m < 8 {
            assert((((bits | (1u8 << id)) & (1u8 << m)) != 0) <==> (m == id || (bits & (1u8 << m))
                != 0)) by (bit_vector)
                requires
                    id < 8,
                    m < 8,
            ;
        }
    }
    assert(module_set(marked) =~= module_set(bits).insert(id));
}

/// Whether every id in `ids` is the id of a challenge.
pub open spec fn valid_challenges(ids: Seq<u8>) -> bool {
    forall|i: int| 0 <= i < ids.len() ==> ids[i] < CHALLENGE_COUNT
}

/// The challenges marked in `mask_of(ids)` are exactly the members of `ids`.
pub proof fn lemma_mask_of_marks(ids: Seq<u8>)
    requires
        valid_challenges(ids),
    ensures
        forall|c: u8| #[trigger] challenge_bit(mask_of(ids), c) <==> ids.contains(c),
        challenge_set(mask_of(ids)) == ids.to_set(),
    decreases ids.len(),
{
    if ids.len() == 0 {
        assert forall|c: u8| !#[trigger] challenge_bit(mask_of(ids), c) by {
            assert(0u16 & (1u16 << c) == 0) by (bit_vector);
        }
    } else {
        let front = ids.drop_last();
        lemma_mask_of_marks(front);
        lemma_mark_challenge(mask_of(front), ids.last());
        assert forall|c: u8| #[trigger] challenge_bit(mask_of(ids), c) <==> ids.contains(c) by {
            if ids.contains(c) {
                let i = choose|i: int| 0 <= i < ids.len() && ids[i] == c;
                if i < front.len() {
                    assert(front[i] == c);
                }
            }
            if front.contains(c) {
                let i = choose|i: int| 0 <= i < front.len() && front[i] == c;
                assert(ids[i] == c);
            }
            assert(ids[ids.len() - 1] == ids.last());
        }
    }
    assert(challenge_set(mask_of(ids)) =~= ids.to_set());
}

/// A bitset covers `mask_of(ids)` exactly when every member of `ids` is
/// marked in it.
pub proof fn lemma_mask_covered(bits: u16, ids: Seq<u8>)
    requires
        valid_challenges(ids),
    ensures
        (bits & mask_of(ids) == mask_of(ids)) <==> (forall|i: int|
            0 <= i < ids.len() ==> challenge_bit(bits, #[trigger] ids[i])),
    decreases ids.len(),
{
    if ids.len() == 0 {
        assert(bits & 0u16 == 0u16) by (bit_vector);
    } else {
        let front = ids.drop_last();
        let last = ids.last();
        let rest = mask_of(front);
        lemma_mask_covered(bits, front);
        assert((bits & (rest | (1u16 << last)) == (rest | (1u16 << last))) <==> ((bits & rest
            == rest) && (bits & (1u16 << last) != 0))) by (bit_vector)
            requires
                last < 16,
        ;
        assert(ids[ids.len() - 1] == last);
        assert forall|i: int| 0 <= i < front.len() implies front[i] == ids[i] by {}
        if bits & mask_of(ids) == mask_of(ids) {
            assert forall|i: int| 0 <= i < ids.len() implies challenge_bit(
                bits,
                #[trigger] ids[i],
            ) by {
                if i < front.len() {
                    assert(challenge_bit(bits, front[i]));
                }
            }
        }
        if forall|i: int| 0 <= i < ids.len() ==> challenge_bit(bits, #[trigger] ids[i]) {
            assert forall|i: int| 0 <= i < front.len() implies challenge_bit(
                bits,
                #[trigger] front[i],
            ) by {
                assert(challenge_bit(bits, ids[i]));
            }
            assert(challenge_bit(bits, ids[ids.len() - 1]));
        }
    }
}

/// A bitset is disjoint from `mask_of(ids)` exactly when no member of `ids`
/// is marked in it.
pub proof fn lemma_mask_disjoint(bits: u16, ids: Seq<u8>)
    requires
        valid_challenges(ids),
    ensures
        (bits & mask_of(ids) == 0) <==> (forall|i: int|
            0 <= i < ids.len() ==> !challenge_bit(bits, #[trigger] ids[i])),
    decreases ids.len(),
{
    if ids.len() == 0 {
        assert(bits & 0u16 == 0u16) by (bit_vector);
    } else {
        let front = ids.drop_last();
        let last = ids.last();
        let rest = mask_of(front);
        lemma_mask_disjoint(bits, front);
        assert((bits & (rest | (1u16 << last)) == 0) <==> ((bits & rest == 0) && (bits & (1u16
            << last) == 0))) by (bit_vector);
        assert(ids[ids.len() - 1] == last);
        assert forall|i: int| 0 <= i < front.len() implies front[i] == ids[i] by {}
        if bits & mask_of(ids) == 0 {
            assert forall|i: int| 0 <= i < ids.len() implies !challenge_bit(
                bits,
                #[trigger] ids[i],
            ) by {
                if i < front.len() {
                    assert(!challenge_bit(bits, front[i]));
                }
            }
        }
        if forall|i: int| 0 <= i < ids.len() ==> !challenge_bit(bits, #[trigger] ids[i]) {
            assert forall|i: int| 0 <= i < front.len() implies !challenge_bit(
                bits,
                #[trigger] front[i],
            ) by {
                assert(!challenge_bit(bits, ids[i]));
            }
            assert(!challenge_bit(bits, ids[ids.len() - 1]));
        }
    }
}

/// Whether some challenge of module `module_id` is marked in `bits`.
pub open spec fn module_begun(bits: u16, module_id: u8) -> bool {
    exists|c: u8| module_owns(module_id, c) && challenge_bit(bits, c)
}

/// A bitset is disjoint from the mask of a module exactly when no
/// challenge of the module is marked in it.
pub proof fn lemma_module_mask_begun(bits: u16, module_id: u8)
    requires
        module_id < MODULE_COUNT,
    ensures
        (bits & mask_of(module_challenges(module_id)) != 0) <==> module_begun(bits, module_id),
{
    let ids = module_challenges(module_id);
    lemma_mask_disjoint(bits, ids);
    if module_begun(bits, module_id) {
        let c = choose|c: u8| module_owns(module_id, c) && challenge_bit(bits, c);
        let i = c - 4 * module_id;
        assert(ids[i] == c);
    }
    if !module_begun(bits, module_id) {
        assert forall|i: int| 0 <= i < ids.len() implies !challenge_bit(
            bits,
            #[trigger] ids[i],
        ) by {
            assert(module_owns(module_id, ids[i]));
        }
    }
}

/// A bitset covers the mask of a module exactly when every challenge of the
/// module is marked in it.
pub proof fn lemma_module_mask_ready(bits: u16, module_id: u8)
    requires
        module_id < MODULE_COUNT,
    ensures
        valid_challenges(module_challenges(module_id)),
        (bits & mask_of(module_challenges(module_id)) == mask_of(module_challenges(module_id)))
            <==> module_ready(bits, module_id),
{
    let ids = module_challenges(module_id);
    lemma_mask_covered(bits, ids);
    if module_ready(bits, module_id) {
        assert forall|i: int| 0 <= i < ids.len() implies challenge_bit(
            bits,
            #[trigger] ids[i],
        ) by {
            assert(module_owns(module_id, ids[i]));
        }
    }
    if forall|i: int| 0 <= i < ids.len() ==> challenge_bit(bits, #[trigger] ids[i]) {
        assert forall|c: u8| module_owns(module_id, c) implies challenge_bit(bits, c) by {
            let i = c - 4 * module_id;
            assert(ids[i] == c);
        }
    }
}

/// The challenges that module `module_id` owns, in ascending order:
/// `4 * module_id` to `4 * module_id + 3`. There is no module 4 or above.
pub fn get_module_challenges(module_id: u8) -> (result: Result<Vec<u8>, ShadowRanchError>)
    ensures
        module_id < MODULE_COUNT ==> (result matches Ok(challenges) && challenges@
            == module_challenges(module_id)),
        module_id >= MODULE_COUNT ==> result == Err::<Vec<u8>, ShadowRanchError>(
            ShadowRanchError::InvalidModuleId,
        ),
{
    let challenges: Vec<u8> = match module_id {
        0 => vec![0, 1, 2, 3],
        1 => vec![4, 5, 6, 7],
        2 => vec![8, 9, 10, 11],
        3 => vec![12, 13, 14, 15],
        _ => { return Err(ShadowRanchError::InvalidModuleId); },
    };
    assert(challenges@ =~= module_challenges(module_id));
    Ok(challenges)
}

/// The bitset in which exactly the given challenges are marked. Every id
/// must be the id of a challenge: there is no bit for any other.
pub fn create_module_mask(challenges: Vec<u8>) -> (mask: u16)
    requires
        valid_challenges(challenges@),
    ensures
        mask == mask_of(challenges@),
        forall|c: u8| #[trigger] challenge_bit(mask, c) <==> challenges@.contains(c),
{
    let mut mask: u16 = 0;
    let mut i: usize = 0;
    while i < challenges.len()
        invariant
            i <= challenges.len(),
            valid_challenges(challenges@),
            mask == mask_of(challenges@.subrange(0, i as int)),
        decreases challenges.len() - i,
    {
        let challenge_id: u8 = challenges[i];
        assert(challenges@.subrange(0, i + 1).drop_last() =~= challenges@.subrange(0, i as int));
        mask = mask | (1u16 << challenge_id);
        i += 1;
    }
    proof {
        assert(challenges@.subrange(0, i as int) =~= challenges@);
        lemma_mask_of_marks(challenges@);
    }
    mask
}

} // verus!
