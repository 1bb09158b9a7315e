//! Mount orchestration for a user session: the list of network locations to
//! attach, the one-shot answer to authentication prompts, the countdown over
//! completions and the aggregate outcome.

pub mod auth;
pub mod completion;
pub mod entry;
pub mod errors;
pub mod mounts;
pub mod msg;

pub use auth::{ask_password_cb, AuthGate, AuthState, Challenge, MountOperationResult};
pub use completion::{consume_completions, evaluate_errors, user_mount_cb};
pub use entry::{parse_entries, MountEntry};
pub use errors::AdsysMountError;
pub use mounts::{dispatch, handle_mount, handle_user_mounts, mount_handled_cb, MountRequest};
pub use msg::{MountError, MountResult, MountStatus, Msg, ProviderError, ProviderErrorKind};
