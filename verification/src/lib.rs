//! Resolves share links of a short-video platform to media addresses, and
//! serves the resolved media as background download tasks.
pub mod address;
pub mod address_laws;
pub mod candidate_laws;
pub mod candidates;
pub mod collect;
pub mod collection_laws;
pub mod config;
pub mod decode;
pub mod decode_laws;
pub mod downloads;
pub mod errors;
pub mod fetch;
pub mod files;
pub mod images;
pub mod json;
pub mod laws;
pub mod markup;
pub mod naming;
pub mod page_laws;
pub mod patterns;
pub mod ranking;
pub mod readings;
pub mod resolution;
pub mod response;
pub mod roots;
pub mod script;
pub mod search_laws;
pub mod service_laws;
pub mod tasks;
pub mod text;
pub mod text_laws;
pub mod weburl;
pub mod work;
