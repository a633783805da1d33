//! Front-end IR builder and name-resolution pipeline for a declarative
//! hardware-description language.
//!
//! The pipeline runs in three staged passes over an arena-owned IR of
//! declarations: rough lowering walks the syntax tree and creates a skeleton
//! declaration per type-introducing item, import flattening resolves every
//! provisional import to the concrete type or module it denotes (rejecting
//! cycles), and type refinement substitutes deferred name references in
//! record fields with resolved ids. Every cross-reference between IR nodes is
//! a surrogate key into an append-only registry, never a pointer, which is
//! what allows forward references and cyclic reference graphs. Diagnostics
//! are accumulated in a sink and never abort a stage: each recoverable error
//! leaves a well-defined placeholder behind.

pub mod arena;
pub mod ast;
pub mod hir;
pub mod message;
pub mod modules;
pub mod name_resolution;
pub mod refine;
pub mod resolving;
pub mod rough;
pub mod symbol;
pub mod types;
