pub mod adapters;
pub mod again;
pub mod brief;
pub mod briefs;
pub mod captures;
pub mod cli;
pub mod client;
pub mod config;
pub mod crash;
pub mod diff;
pub mod digest;
pub mod error;
pub mod fork;
pub mod forward;
pub mod history;
pub mod hook;
pub mod index;
pub mod install;
pub mod installs;
pub mod journeys;
pub mod json;
pub mod listings;
pub mod mcp;
pub mod merge;
pub mod nodes;
pub mod order;
pub mod path;
pub mod pipeline;
pub mod product;
pub mod promote;
pub mod promotions;
pub mod proto;
pub mod recovery;
pub mod report;
pub mod requests;
pub mod restore;
pub mod restore_crash;
pub mod restore_run;
pub mod rewind;
pub mod server;
pub mod servers;
pub mod sides;
pub mod sorting;
pub mod spec_runner;
pub mod speculate;
pub mod store;
pub mod templates;
pub mod text;
pub mod told;
pub mod vecs;
pub mod walk;
