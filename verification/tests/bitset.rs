use shadow_ranch::bitset::{
    create_module_mask, get_module_challenges, CHALLENGES_PER_MODULE, CHALLENGE_COUNT,
    MODULE_COUNT,
};
use shadow_ranch::ShadowRanchError;

#[test]
fn curriculum_has_four_modules_of_four_challenges() {
    assert_eq!(CHALLENGE_COUNT, 16);
    assert_eq!(MODULE_COUNT, 4);
    assert_eq!(CHALLENGES_PER_MODULE, 4);
    assert_eq!(MODULE_COUNT * CHALLENGES_PER_MODULE, CHALLENGE_COUNT);
}

#[test]
fn module_zero_owns_challenges_zero_to_three() {
    assert_eq!(get_module_challenges(0), Ok(vec![0, 1, 2, 3]));
}

#[test]
fn module_one_owns_challenges_four_to_seven() {
    assert_eq!(get_module_challenges(1), Ok(vec![4, 5, 6, 7]));
}

#[test]
fn module_two_owns_challenges_eight_to_eleven() {
    assert_eq!(get_module_challenges(2), Ok(vec![8, 9, 10, 11]));
}

#[test]
fn module_three_owns_challenges_twelve_to_fifteen() {
    assert_eq!(get_module_challenges(3), Ok(vec![12, 13, 14, 15]));
}

#[test]
fn every_module_owns_four_challenges_from_four_times_its_id() {
    for module_id in 0..MODULE_COUNT {
        let challenges = get_module_challenges(module_id).unwrap();
        assert_eq!(challenges.len(), 4);
        for (i, challenge_id) in challenges.iter().enumerate() {
            assert_eq!(*challenge_id, 4 * module_id + i as u8);
        }
    }
}

#[test]
fn there_is_no_module_four() {
    assert_eq!(get_module_challenges(4), Err(ShadowRanchError::InvalidModuleId));
}

#[test]
fn there_is_no_module_above_four() {
    assert_eq!(get_module_challenges(5), Err(ShadowRanchError::InvalidModuleId));
    assert_eq!(get_module_challenges(200), Err(ShadowRanchError::InvalidModuleId));
    assert_eq!(get_module_challenges(u8::MAX), Err(ShadowRanchError::InvalidModuleId));
}

#[test]
fn mask_of_nothing_is_zero() {
    assert_eq!(create_module_mask(vec![]), 0);
}

#[test]
fn mask_of_one_challenge_is_its_bit() {
    assert_eq!(create_module_mask(vec![0]), 0x0001);
    assert_eq!(create_module_mask(vec![3]), 0x0008);
    assert_eq!(create_module_mask(vec![9]), 0x0200);
    assert_eq!(create_module_mask(vec![15]), 0x8000);
}

#[test]
fn mask_of_each_module() {
    assert_eq!(create_module_mask(get_module_challenges(0).unwrap()), 0x000F);
    assert_eq!(create_module_mask(get_module_challenges(1).unwrap()), 0x00F0);
    assert_eq!(create_module_mask(get_module_challenges(2).unwrap()), 0x0F00);
    assert_eq!(create_module_mask(get_module_challenges(3).unwrap()), 0xF000);
}

#[test]
fn mask_ignores_order_and_repetition() {
    assert_eq!(create_module_mask(vec![5, 0]), 0x0021);
    assert_eq!(create_module_mask(vec![0, 5]), 0x0021);
    assert_eq!(create_module_mask(vec![3, 3, 3]), 0x0008);
    assert_eq!(create_module_mask(vec![1, 2, 1]), 0x0006);
}

#[test]
fn mask_of_all_challenges_is_all_ones() {
    let all: Vec<u8> = (0..CHALLENGE_COUNT).collect();
    assert_eq!(create_module_mask(all), 0xFFFF);
}

#[test]
fn mask_has_a_bit_exactly_for_each_member() {
    let ids = vec![2u8, 7, 11, 12];
    let mask = create_module_mask(ids.clone());
    for challenge_id in 0..CHALLENGE_COUNT {
        let marked = mask & (1u16 << challenge_id) != 0;
        assert_eq!(marked, ids.contains(&challenge_id));
    }
}
