//! A small HTTP/1.1 server core: methods, header names and maps, route
//! patterns and the route matcher, the request-head parser and the
//! response model.

pub mod config;
pub mod files;
pub mod header;
pub mod http;
pub mod method;
pub mod pairs;
pub mod pattern;
pub mod response;
pub mod route;
pub mod router;
pub mod selection;
pub mod text;
