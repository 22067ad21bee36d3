//! `d2s` exposes Docker containers through SSH-compatible ports.
//!
//! This crate holds the decisions of the tool: which Docker paths a mapped
//! container may be reached by, what an SSH request turns into, how mappings
//! are kept, who may log in. Sockets, processes and files are the business of
//! the program around it, which hands plain values in and takes plain values
//! back.

pub mod attach;
pub mod authz;
pub mod cli;
pub mod config;
pub mod docker;
pub mod doctor;
pub mod exec;
pub mod files;
pub mod forward;
pub mod listen;
pub mod outside;
pub mod proxy;
pub mod report;
pub mod serve;
pub mod session;
pub mod text;
