//! A configuration-driven HTTP reverse proxy core: route matching,
//! path rewriting, hop-by-hop header filtering, and the per-request
//! decision pipeline, with the surrounding transport kept outside.

pub mod config;
pub mod handler;
pub mod headers;
pub mod paths;
pub mod routes;
