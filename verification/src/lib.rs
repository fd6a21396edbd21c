//! The core of a small HTTP server: reading requests off a stream chunk by chunk, writing
//! responses, and deciding what to do with each connection. Sockets, threads and polling are left
//! to the program around it.

pub mod errors;
pub mod head;
pub mod headers;
pub mod http_stream;
pub mod laws;
pub mod reading;
pub mod request;
pub mod response;
pub mod server;
pub mod socket;
pub mod sockets;
pub mod text;
pub mod turn;

pub use http::header;
pub use http::method;
pub use http::status;
pub use http::uri;
pub use http::version;

pub use crate::errors::ErrorKind;
pub use crate::head::RequestHead;
pub use crate::http_stream::HttpStreamReader;
pub use crate::request::Request;
pub use crate::response::Response;
pub use crate::response::ResponseWrapper;
pub use crate::server::Server;
