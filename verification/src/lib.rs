//! Core of a personal mood/journal tracker: the journal entry model, the
//! save-file codec (current and legacy layouts), an optional passphrase
//! encryption layer, backup naming and retention rules, and the statistics
//! engine (weekday averages, streaks, activity correlation).
//!
//! Everything here is pure with respect to the outside world: file, clock and
//! archive handling live with the caller, which hands plain values in and out.
pub mod activities;
pub mod activity_stats;
pub mod auto_update_status;
pub mod backup;
pub mod encryption;
pub mod error_states;
pub mod export;
pub mod improved_daystat;
pub mod json;
pub mod legacy;
pub mod mood_tag;
pub mod prompt_states;
pub mod save;
pub mod save_codec;
pub mod state_stats;
pub mod text;
pub mod tutorial_state;
pub mod ui_states;
pub mod user_feedback;

use vstd::prelude::*;

verus! {

/// Shortest passphrase (in bytes) accepted by the encryption layer.
pub const MIN_ENCRYPT_KEY_LENGTH: usize = 4;

/// Longest passphrase (in bytes) accepted by the encryption layer.
pub const MAX_ENCRYPT_KEY_LENGTH: usize = 32;

} // verus!
