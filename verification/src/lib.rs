//! Schematic data model, hierarchy bookkeeping, electrical-rule helpers and
//! netlist helpers for KiCad schematic projects.

pub mod cli;
pub mod diagnostic;
pub mod erc;
pub mod grouping;
pub mod loader;
pub mod model;
pub mod natural;
pub mod netlist;
pub mod paths;
pub mod text;
