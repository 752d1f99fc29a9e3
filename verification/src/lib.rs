//! Progress tracking for a fixed curriculum of sixteen challenges in four
//! modules, with the checks that stand before the issuance of an
//! achievement credential for a completed module.
//!
//! - [`bitset`]: the shape of the curriculum and the two bitsets.
//! - [`identity`]: the 32-byte identity that controls a record.
//! - [`progress`]: the progress record, its model and its invariant.
//! - [`ledger`]: creating a record, completing challenges and modules.
//! - [`achievement`]: granting the credential of a completed module.
//! - [`history`]: what holds of a record over any sequence of requests.
//! - [`error`]: the failures that the operations report.
//!
//! The library holds no state and does no input or output: the caller
//! loads the record, reads the clock, and stores what comes back.

pub mod achievement;
pub mod bitset;
pub mod error;
pub mod history;
pub mod identity;
pub mod ledger;
pub mod progress;

pub use achievement::{mint_achievement_nft, Creator, IssuedCredential, MintAchievementNft};
pub use error::ShadowRanchError;
pub use identity::Identity;
pub use ledger::{
    complete_challenge, complete_module, initialize_user, CompleteChallenge, CompleteModule,
    InitializeUser,
};
pub use progress::{ModuleStage, ProgressView, UserProgress};
