//! Static analysis of Lua projects: module graph, `require` resolution,
//! and Lua-specific diagnostics, over a parsed syntax model.

pub mod text;
pub mod assoc;
pub mod diagnostic;
pub mod shapes;
pub mod lookup;
pub mod classes;
pub mod syntax;
pub mod require_sites;
pub mod arity;
pub mod exports;
pub mod bindings;
pub mod members;
pub mod explain;
pub mod multi_return;
pub mod sequence;
pub mod key_order;
pub mod performance;
pub mod resolve;
pub mod order;
pub mod graph;
pub mod project;
pub mod requests;
pub mod workspace;
pub mod render;
pub mod outline;
pub mod parse;
