//! Core of a card-activated lock backend: a card/user registry with unique
//! keys, an append-only unlock audit log, and the authorization policy that
//! decides accept/reject for a presented card and records every accepted
//! unlock exactly once.

pub mod auth;
pub mod laws;
mod clock;

pub use auth::AuthDecision;
pub use auth::AuthError;
pub use auth::LogRow;
pub use auth::UnlockLog;
pub use auth::User;
pub use auth::UserManager;
pub use auth::decision_for_lookup;
