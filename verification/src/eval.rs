//! What the reading list is worth, as numbers: a gold set walked on a wiki whose pages a person has
//! labelled.

pub mod cells;
pub mod corpus;
pub mod experiments;
pub mod figures;
pub mod findings;
pub mod keywords;
pub mod labels;
pub mod measure;
pub mod overview;
pub mod runs;
