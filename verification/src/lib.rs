//! Core, platform-independent logic of a keyboard-layout correction agent:
//! text normalization, language-pack identifiers, privacy policy, user
//! lexicons, settings, the in-memory input session and its detector,
//! keyboard profile resolution, the agent's decisions and synthetic key
//! replays, the tray badge, the package store's naming and integrity rules,
//! the package-signing key encoding, and scoring-model validation.

use vstd::prelude::*;

pub mod text;
pub mod pack_id;
pub mod privacy;
pub mod user_lexicon;
pub mod settings;
pub mod detector;
pub mod session;
pub mod test_support;
pub mod profile_resolver;
pub mod agent;
pub mod replay;
pub mod tray_visual;
pub mod package_store;
pub mod package_signing;
pub mod scoring_model;
pub mod edit_pipeline;
pub mod hook;
pub mod barrier;

verus! {

} // verus!
