pub mod admission;
pub mod rate_limiter;
pub mod requests;
pub mod window_laws;

pub use admission::{client_identifier, too_many_requests, Admission, Rejection};
pub use rate_limiter::RateLimiter;
pub use requests::{CreateUser, LoginRequest, UpdateUser};
