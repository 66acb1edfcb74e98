//! Stream checking for internet radio stations: a small HTTP response parser,
//! a content-type classifier, a resolver that follows redirects and
//! playlists, and the rules that turn a resolution into a station check.

pub mod text;
pub mod content_type;
pub mod headers;
pub mod urls;
pub mod request;
pub mod playlist;
pub mod streamcheck;
pub mod resolver;
pub mod check;
pub mod watchdog;
