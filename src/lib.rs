//! Converts shading node graphs into generated Python that rebuilds them.
//!
//! The library holds the graph model, the merge of documents, the inference of
//! group interfaces from their call sites, the rewrite passes, the reachability
//! of groups from the roots, the deterministic layering scheduler, the socket
//! alias tables, the code generator that writes one function per reachable
//! group, the renaming of names, and the material distiller.

pub mod text;
pub mod socket;
pub mod value;
pub mod graph;
pub mod nodes;
pub mod variants;
pub mod order;
pub mod schedule;
pub mod usage;
pub mod interface;
pub mod aliases;
pub mod codegen;
pub mod emit;
pub mod generate;
pub mod rewrite;
pub mod merge;
pub mod names;
pub mod reach;
pub mod distill;
