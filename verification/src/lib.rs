//! A small terminal-presentation library built around a graph store and a
//! tree renderer: callers insert named nodes and edges, ask for the source
//! nodes (those with no incoming edge), and render the structure as an
//! indented box-drawing diagram.  Around that core sit plain text-formatting
//! helpers (key/value lines, rules, titles, tables) that colour their output
//! through the `colored` crate.

pub mod graph;
pub mod request_ext;
pub mod style;
pub mod tctermprint;
pub mod termprint;
pub mod textfmt;
