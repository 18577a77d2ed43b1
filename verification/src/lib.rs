//! A minimal HTTP/1.1 message model: parsing of request messages into a
//! structured form, and construction and serialization of response messages.

mod error;
mod header;
mod method;
mod request;
mod response;
mod status;
mod text;

pub use error::Error;
pub use error::ErrorType;
pub use header::Header;
pub use method::Method;
pub use request::Request;
pub use response::Response;
pub use status::Status;
