//! Request-construction engine for a REST API client.
//!
//! A [`request::Request`] accumulates an HTTP method, a path template and
//! typed parameters (path, query, header, form, body) together with an
//! authentication selector, and is then assembled against a shared
//! [`config::Configuration`] into a concrete wire-level request: path
//! substitution, query-string and form encoding, authentication injection
//! and body selection all happen here and are verified. Dispatching the
//! assembled request over a transport and feeding the response back into
//! [`response`] is left to the (unverified) surrounding program.

pub mod ascii;
pub mod auth;
pub mod config;
pub mod encode;
pub mod error;
pub mod method;
pub mod params;
pub mod request;
pub mod response;
pub mod template;
pub mod user_api;

pub use method::Method;
