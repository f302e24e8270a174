use vstd::prelude::*;

pub mod assoc;
pub mod laws;
pub mod record;
pub mod session;
pub mod store;
pub mod token;

pub use record::SessionData;
pub use session::AxumSession;
pub use store::{SessionError, SessionStore, SyncPlan};

verus! {

} // verus!
