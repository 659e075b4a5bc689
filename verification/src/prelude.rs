//! Re-export of the common items needed to stand a rudimentary HTTP
//! server up.

pub use crate::method::HttpMethod;
pub use crate::request::Request;
pub use crate::response::HttpResponse;
pub use crate::response::Response;
pub use crate::server::HttpServer;
