//! Request-serving core of a static-content HTTP server: version handling,
//! response encoding, keep-alive policy, cache validation and path security.

pub mod text;
pub mod version;
pub mod response;
pub mod policy;
pub mod date;
pub mod cache;
pub mod percent;
pub mod mime;
pub mod security;
pub mod serve;
pub mod host;
pub mod cgi;
pub mod errors;
pub mod logfile;
pub mod default_page;
