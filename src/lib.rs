//! Request-lifecycle engine of a small HTTP/1.1 origin and reverse-proxy
//! server: head framing and parsing, FastCGI record encoding, the response
//! cache's naming and control rules, upstream rotation and response heads.

pub mod bytes;
pub mod headers;
pub mod http_stream;
pub mod percent;
pub mod conf;
pub mod request;
pub mod fcgi;
pub mod fcgi_response;
pub mod cache;
pub mod dispatcher;
pub mod response;
pub mod dir_response;
pub mod server;
pub mod args;
pub mod php;
pub mod logger;
pub mod conf_file;
pub mod relay;
