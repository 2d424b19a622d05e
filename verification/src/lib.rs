//! Core logic of a transparent HLS proxy: a reversible codec that hides an
//! absolute URL inside a proxy-relative path, a manifest rewriter that applies
//! the codec line by line, and a target resolver that maps an incoming request
//! path back to the origin URL to fetch.

pub mod resolver;
pub mod session;
pub mod type_guesser;
pub mod codec;
pub mod url_rewriting;
pub mod urls;
