//! Decisions of a terminal media renamer: parsing scene-style file names,
//! rendering destination names, comparing duplicates, and driving lookups,
//! moves and retries step by step. Reading files, asking the network and
//! prompting the user are left to the program around the library.
pub mod calendar;
pub mod casing;
pub mod chars;
pub mod cli;
pub mod config;
pub mod duplicates;
pub mod metadata;
pub mod model;
pub mod number;
pub mod operations;
pub mod parser;
pub mod path_order;
pub mod pattern;
pub mod planning;
pub mod provider;
pub mod quality;
pub mod rename;
pub mod report;
pub mod resolve;
pub mod retry;
pub mod scanning;
pub mod settings;
pub mod template;
pub mod text;
pub mod titles;
pub mod workflow;
