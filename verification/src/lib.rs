//! An automation client for a remote file-hosting service whose reads come
//! from scraping server-rendered pages: a verified extraction layer over a
//! parsed-document model, URL and slug handling, the exact request shapes of
//! the write endpoints, an at-most-once user-hash cache, and the bookkeeping
//! of a bounded-concurrency upload batch. The network, the file system and
//! the HTML parser proper live outside the library; its callers hand in
//! plain values and parsed documents and carry the planned requests out.
pub mod album;
pub mod authentication;
pub mod cache;
pub mod cli;
pub mod dom;
pub mod text;
pub mod upload;
pub mod user;
pub mod weburl;
