//! A small static-file HTTP/1.x server core: request decoding, response
//! encoding, resource resolution confined to a root, and a job queue for a
//! worker pool.

pub mod text;
pub mod headers;
pub mod httprequest;
pub mod httpresponse;
pub mod route;
pub mod handler;
pub mod threadpool;
pub mod httpserver;
