//! What the library promises of its operations, each promise over what goes in and what comes out.

pub mod answers;
pub mod basics;
pub mod degrees;
pub mod documents;
pub mod figures;
pub mod findings;
pub mod graph;
pub mod keywords;
pub mod lines;
pub mod listing;
pub mod lists;
pub mod measures;
pub mod metrics;
pub mod passes;
pub mod printing;
pub mod reporting;
pub mod scoring;
pub mod statistics;
pub mod stream;
pub mod tables;
pub mod texts;
