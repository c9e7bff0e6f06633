//! Small helpers around HTTP requests and markdown files: rendering a request
//! as a `curl` command, building URLs from parts, choosing directory entries
//! and collecting the headers of a markdown document.

pub mod text;
pub mod pattern;
pub mod curl_from_reqwest;
pub mod url_builder;
pub mod markdown_headers;
pub mod common;

pub use common::select_entries;
pub use curl_from_reqwest::{curl_from_parts, curl_multipart_from_debug, to_curl, to_curl_multipart};
pub use url_builder::create_url;
