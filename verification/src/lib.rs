//! Analysis of compiled Aleo programs (`.aleo` instruction files).

pub mod text;
pub mod parser;
pub mod spec;
pub mod value;
pub mod instruction;
pub mod symbolic;
pub mod generator;
pub mod invariants;
pub mod leo_runner;
pub mod fuzzer;
pub mod web;
pub mod report;
