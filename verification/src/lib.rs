//! Dependency analysis for software projects: manifest and lock-file
//! parsing, dependency resolution, package scoring, tree rendering and
//! analysis comparison.
pub mod analyzer;
pub mod cli;
pub mod diff;
pub mod display;
pub mod health;
pub mod manifest;
pub mod models;
pub mod paths;
pub mod resolver;
pub mod risk;
pub mod security;
pub mod text;
pub mod tree;
pub mod weight;
