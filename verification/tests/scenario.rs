use shadow_ranch::{
    complete_challenge, complete_module, initialize_user, mint_achievement_nft, CompleteChallenge,
    CompleteModule, Creator, Identity, InitializeUser, IssuedCredential, MintAchievementNft,
    ModuleStage, ShadowRanchError, UserProgress,
};

#[test]
fn first_module_from_start_to_credential() {
    let rancher = Identity::new([7; 32]);

    let mut init = InitializeUser { user_progress: None, authority: rancher };
    assert_eq!(initialize_user(&mut init, 1000), Ok(()));
    let mut progress = init.user_progress.unwrap();
    assert_eq!(progress.module_stage(0), Ok(ModuleStage::NotStarted));

    for challenge_id in 0..4u8 {
        let mut ctx = CompleteChallenge { user_progress: progress, authority: rancher };
        assert_eq!(complete_challenge(&mut ctx, challenge_id, 1001 + challenge_id as i64), Ok(()));
        progress = ctx.user_progress;
        let expected = if challenge_id < 3 {
            ModuleStage::ChallengesInProgress
        } else {
            ModuleStage::ChallengesComplete
        };
        assert_eq!(progress.module_stage(0), Ok(expected));
    }
    assert_eq!(progress.challenges_completed, 0x000F);

    let mut ctx = CompleteModule { user_progress: progress, authority: rancher };
    assert_eq!(complete_module(&mut ctx, 0, 1010), Ok(()));
    progress = ctx.user_progress;
    assert_eq!(progress.modules_completed, 0x01);
    assert_eq!(progress.module_stage(0), Ok(ModuleStage::ModuleComplete));

    let mint = MintAchievementNft { user_progress: progress, authority: rancher };
    let credential = mint_achievement_nft(
        &mint,
        String::from("Module 0"),
        String::from("SR0"),
        String::from("https://example.org/0.json"),
        0,
    );
    assert_eq!(
        credential,
        Ok(IssuedCredential {
            module_id: 0,
            owner: rancher,
            name: String::from("Module 0"),
            symbol: String::from("SR0"),
            uri: String::from("https://example.org/0.json"),
            seller_fee_basis_points: 0,
            creators: vec![Creator { address: rancher, verified: true, share: 100 }],
            is_mutable: true,
            update_authority_is_signer: true,
            max_supply: Some(0),
            amount: 1,
        })
    );
    assert_eq!(mint.user_progress, progress);

    let mut again = CompleteModule { user_progress: progress, authority: rancher };
    assert_eq!(complete_module(&mut again, 0, 1020), Ok(()));
    assert_eq!(again.user_progress.modules_completed, progress.modules_completed);
    assert_eq!(again.user_progress.challenges_completed, progress.challenges_completed);
    assert_eq!(
        again.user_progress,
        UserProgress {
            authority: rancher,
            challenges_completed: 0x000F,
            modules_completed: 0x01,
            created_at: 1000,
            updated_at: 1020,
        }
    );
}

#[test]
fn second_module_waits_for_its_own_challenges() {
    let rancher = Identity::new([8; 32]);
    let mut progress = UserProgress::new(rancher, 0);
    for challenge_id in 0..4u8 {
        let mut ctx = CompleteChallenge { user_progress: progress, authority: rancher };
        assert_eq!(complete_challenge(&mut ctx, challenge_id, 1), Ok(()));
        progress = ctx.user_progress;
    }
    let mut ctx = CompleteModule { user_progress: progress, authority: rancher };
    assert_eq!(complete_module(&mut ctx, 1, 2), Err(ShadowRanchError::ModuleNotComplete));
    assert_eq!(complete_module(&mut ctx, 0, 3), Ok(()));
    progress = ctx.user_progress;

    let mint = MintAchievementNft { user_progress: progress, authority: rancher };
    let refused =
        mint_achievement_nft(&mint, String::from("t"), String::from("s"), String::from("u"), 1);
    assert_eq!(refused, Err(ShadowRanchError::ModuleNotComplete));
    let granted =
        mint_achievement_nft(&mint, String::from("t"), String::from("s"), String::from("u"), 0);
    assert!(granted.is_ok());
}
