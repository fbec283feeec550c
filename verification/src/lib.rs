//! A local command-line assistant for cataloging connections to data
//! sources, refreshing a manifest of discovered tables, and browsing the
//! manifest's documentation.  This crate holds the verified core: the
//! source-kind registry and its alias parser, the connection records and
//! their append-only YAML log, the configuration document, the manifest
//! explorer's resolution rules, and the cron controller.  Console
//! prompting, files, and subprocesses live with the caller, which hands
//! plain values in and out.

pub mod config;
pub mod cron;
pub mod document;
pub mod explorer;
pub mod paths;
pub mod prompt;
pub mod source_kind;
pub mod strutil;
pub mod warehouse;
