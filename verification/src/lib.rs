//! A device-pairing authorization broker's core: an in-memory store that
//! correlates short device codes with in-flight browser logins, claims the
//! matching entry when the identity provider's callback arrives, and hands
//! the resulting token to a polling device. Every operation and lifecycle
//! law is stated as a contract and proved.

pub mod laws;
pub mod matcher;
pub mod session;
pub mod store;
pub mod utils;

pub use matcher::ClaimOutcome;
pub use matcher::CompletionOutcome;
pub use matcher::begin_auth_callback;
pub use matcher::finish_auth_callback;
pub use session::AuthorizeContext;
pub use session::AuthorizeContextView;
pub use store::CodeTokenStatus;
pub use store::DeviceCodeStore;
pub use store::StatusView;
pub use utils::generate_random_string;
