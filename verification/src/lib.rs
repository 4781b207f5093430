//! Authorization core: permission expressions, route policies and
//! session-bound identity.

pub mod auth;
pub mod evaluation;
pub mod json;
pub mod rights;
pub mod session;
pub mod store;

pub use auth::Auth;
pub use evaluation::{HasPermission, Progress, Step};
pub use rights::{Formula, Rights};
pub use session::{
    Resolution, SQLxAuth, SQLxSessionAuth, SQLxSessionAuthPool, SqlxSessionAuthFairing, SESSION_KEY,
};
pub use store::SessionData;
