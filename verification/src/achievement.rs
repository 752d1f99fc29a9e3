//! Issuing an achievement credential for a completed module. The library
//! decides whether the credential is due and what it holds; minting it is
//! the work of a token-metadata service, which the caller invokes with the
//! credential that is returned here.

use vstd::prelude::*;
use crate::bitset::MODULE_COUNT;
use crate::error::ShadowRanchError;
use crate::identity::Identity;
use crate::ledger::check_authority;
use crate::progress::UserProgress;

verus! {

/// The share of the royalties that goes to the one creator of a credential,
/// in percent.
pub const CREATOR_SHARE: u8 = 100;

/// The royalty on resales of a credential, in basis points.
pub const SELLER_FEE_BASIS_POINTS: u16 = 0;

/// The number of prints that may be made of a credential: none, which makes
/// it one of a kind.
pub const MAX_SUPPLY: u64 = 0;

/// The number of units of a credential that are minted to its owner.
pub const MINT_AMOUNT: u64 = 1;

/// A request to mint the achievement credential of a module.
#[derive(Clone, Copy, Debug, PartialEq, Eq)]
pub struct MintAchievementNft {
    /// The record that shows the module as completed. It is only read.
    pub user_progress: UserProgress,
    /// The identity that asks, and that will own the credential.
    pub authority: Identity,
}

/// A creator named in the metadata of a credential.
#[derive(Clone, Copy, Debug, PartialEq, Eq)]
pub struct Creator {
    /// The identity of the creator.
    pub address: Identity,
    /// Whether the creator has signed for the credential.
    pub verified: bool,
    /// The creator's share of the royalties, in percent.
    pub share: u8,
}

/// One achievement credential, as the token-metadata service is asked to
/// mint it: a token of its own with the metadata below, marked as one of a
/// kind, of which `amount` units go to `owner`. It belongs to no
/// collection and has no count of uses.
#[derive(Debug, PartialEq, Eq)]
pub struct IssuedCredential {
    /// The module whose completion the credential attests.
    pub module_id: u8,
    /// The identity that receives the credential, and that signs as mint
    /// authority and update authority of its token.
    pub owner: Identity,
    /// The title of the credential.
    pub name: String,
    /// The symbol of the credential.
    pub symbol: String,
    /// Where the content of the credential is found.
    pub uri: String,
    /// The royalty on resales, in basis points.
    pub seller_fee_basis_points: u16,
    /// The creators of the credential.
    pub creators: Vec<Creator>,
    /// Whether the metadata may be changed later.
    pub is_mutable: bool,
    /// Whether the update authority signs the request.
    pub update_authority_is_signer: bool,
    /// How many prints may be made of the credential.
    pub max_supply: Option<u64>,
    /// How many units are minted to the owner.
    pub amount: u64,
}

impl IssuedCredential {
    /// Whether this is the credential of `owner` for module `module_id`
    /// with the given title, symbol and locator: `owner` is its only
    /// creator, verified and with the whole share; no royalty is due; the
    /// metadata stays open to change by `owner`, who signs; no print can be
    /// made of it; and one unit is minted.
    pub open spec fn is_credential_of(
        self,
        owner: Identity,
        module_id: u8,
        title: Seq<char>,
        symbol: Seq<char>,
        uri: Seq<char>,
    ) -> bool {
        &&& self.module_id == module_id
        &&& self.owner == owner
        &&& self.name@ == title
        &&& self.symbol@ == symbol
        &&& self.uri@ == uri
        &&& self.seller_fee_basis_points == SELLER_FEE_BASIS_POINTS
        &&& self.creators@ == seq![
            (Creator { address: owner, verified: true, share: CREATOR_SHARE }),
        ]
        &&& self.is_mutable
        &&& self.update_authority_is_signer
        &&& self.max_supply == Some(MAX_SUPPLY)
        &&& self.amount == MINT_AMOUNT
    }
}

/// How a request of `requester` for the credential of module `module_id`
/// is answered on `record`. The range of the id is judged first, then the
/// requester, then the module bit.
pub open spec fn mint_outcome(record: UserProgress, requester: Identity, module_id: u8) -> Result<
    (),
    ShadowRanchError,
> {
    if module_id >= MODULE_COUNT {
        Err(ShadowRanchError::InvalidModuleId)
    } else if requester != record.authority {
        Err(ShadowRanchError::Unauthorized)
    } else if !record.module_done(module_id) {
        Err(ShadowRanchError::ModuleNotComplete)
    } else {
        Ok(())
    }
}

/// Grants the achievement credential of module `module_id` to
/// `ctx.authority`. Refused with `InvalidModuleId` where the id is 4 or
/// more, else with `Unauthorized` where `ctx.authority` is not the
/// authority of the record, else with `ModuleNotComplete` where the module
/// is not marked as completed in the record. The record is only read: that
/// a credential was granted is not recorded, and asking again grants
/// another.
pub fn mint_achievement_nft(
    ctx: &MintAchievementNft,
    title: String,
    symbol: String,
    uri: String,
    module_id: u8,
) -> (result: Result<IssuedCredential, ShadowRanchError>)
    ensures
        match result {
            Ok(credential) => mint_outcome(ctx.user_progress, ctx.authority, module_id) is Ok
                && credential.is_credential_of(ctx.authority, module_id, title@, symbol@, uri@),
            Err(e) => mint_outcome(ctx.user_progress, ctx.authority, module_id) == Err::<
                (),
                ShadowRanchError,
            >(e),
        },
{
    if module_id >= MODULE_COUNT {
        return Err(ShadowRanchError::InvalidModuleId);
    }
    match check_authority(&ctx.user_progress.authority, &ctx.authority) {
        Ok(()) => {},
        Err(e) => {
            return Err(e);
        },
    }
    let module_completion_mask: u8 = 1u8 << module_id;
    if (ctx.user_progress.modules_completed & module_completion_mask) == 0 {
        return Err(ShadowRanchError::ModuleNotComplete);
    }
    let creators = vec![Creator { address: ctx.authority, verified: true, share: CREATOR_SHARE }];
    assert(creators@ =~= seq![
        (Creator { address: ctx.authority, verified: true, share: CREATOR_SHARE }),
    ]);
    Ok(
        IssuedCredential {
            module_id,
            owner: ctx.authority,
            name: title,
            symbol,
            uri,
            seller_fee_basis_points: SELLER_FEE_BASIS_POINTS,
            creators,
            is_mutable: true,
            update_authority_is_signer: true,
            max_supply: Some(MAX_SUPPLY),
            amount: MINT_AMOUNT,
        },
    )
}

} // verus!
