//! Group access and membership engine: privacy-gated admission, the
//! invite/join state machine, and the role-based permission model.

mod text;
mod error;

pub use text::str_len;
pub use error::ApiError;
pub mod reward;
pub mod principal;
pub mod member;
pub mod role;
pub mod privacy;
pub mod group;
pub mod engine;
pub mod membership;
pub mod lifecycle;
pub mod group_roles;
pub mod roster;
pub mod transfer;
pub mod laws;
