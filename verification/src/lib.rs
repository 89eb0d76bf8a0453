//! Verified core of the pi gateway: the session manager and the session
//! list, request routing, workspace path safety and artifact tracking,
//! LAN authentication, budget cycles, automatic titles, search plans and
//! the way pi processes are launched. Callers do the I/O (processes,
//! sockets, files, the database) and hand these functions plain values.

pub mod rpc;
pub mod text;
pub mod paths;
pub mod tree;
pub mod lan_auth;
pub mod budget;
pub mod title;
pub mod session;
pub mod manager;
pub mod listing;
pub mod names;
pub mod launch;
pub mod extensions;
pub mod git;
pub mod fork;
pub mod search;
pub mod migrate;
pub mod system;
pub mod checkpoint;
pub mod boundary;
pub mod web;
pub mod events;
pub mod routing;
pub mod pattern;
pub mod archive;
pub mod json;
pub mod session_files;
