//! The core of a framework for programs written as annotated Rust modules:
//! extension discovery, gate injection, embedded slots, dependency walking and
//! IDL generation.
//!
//! Sources are read into plain syntax trees ([`source`], [`syntax`]), questions
//! about the disk are answered from a [`disk::Disk`], and everything else is
//! computed from those. Contracts speak of the deep views of values ([`model`]);
//! what holds across functions stands in the `*_laws` modules.
pub mod account_laws;
pub mod account_types;
pub mod attrs;
pub mod cfg;
pub mod cfg_laws;
pub mod closure_laws;
pub mod dep_laws;
pub mod dep_walk;
pub mod disk;
pub mod embedding_laws;
pub mod expansion_laws;
pub mod extension;
pub mod graph_laws;
pub mod hash_laws;
pub mod idl;
pub mod idl_gen;
pub mod idl_laws;
pub mod layouts;
pub mod model;
pub mod nodes;
pub mod path;
pub mod path_laws;
pub mod program_laws;
pub mod scan;
pub mod scan_laws;
pub mod sha256;
pub mod slot_laws;
pub mod slot_offsets;
pub mod source;
pub mod syntax;
pub mod text;
pub mod text_laws;
pub mod value;
