//! Walking a markdown wiki by following links worth following, and measuring what that buys.

pub mod aggregate;
pub mod cache;
pub mod cli;
pub mod counting;
pub mod doc;
pub mod doubles;
pub mod eval;
pub mod explore;
pub mod format;
pub mod gold;
pub mod graph;
pub mod hook;
pub mod json;
pub mod laws;
pub mod ledger;
pub mod ordered;
pub mod pass;
pub mod paths;
pub mod raw;
pub mod reading;
pub mod report;
pub mod row;
pub mod run;
pub mod s1mignore;
pub mod sorting;
pub mod text;
pub mod wiki;
