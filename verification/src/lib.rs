//! The verified core of a downloader for the Pwned Passwords ranges.
//!
//! The library decides; a program around it reads, writes, sends and waits.
//! `args` holds the settings, `etag` the cache that lets a later run skip what
//! has not changed, `download` the request for one range with its retries,
//! `writer` the steps that put an answer into a file, and `run` and `stats`
//! what becomes of all the results. `hash_writer`, `individual_writer` and
//! `combined_writer` write ranges that are already in memory, one file each or
//! all into one. `text`, `lines` and `string_map` are what these are built on,
//! and `outside` holds everything that is believed about other code.

pub mod args;
pub mod combined_writer;
pub mod download;
pub mod etag;
pub mod hash_writer;
pub mod individual_writer;
pub mod lines;
pub mod outside;
pub mod run;
pub mod stats;
pub mod string_map;
pub mod text;
pub mod writer;
