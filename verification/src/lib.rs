//! Analysis of a Java source unit: the call graph of its methods, the
//! control flow of each method as nested steps, and the rendering of that
//! flow as flowchart markup. Beside it stand the connection and settings
//! rules of the application that shows the diagrams.
//!
//! `parser` holds the entry points. `java_tree` reads source text into a
//! `syntax` tree; `collect`, `classify` and `extract` turn the tree into
//! the `graph`; `diagram` defines the markup, `render` and `chart` write
//! it; `laws` states what holds of every analysis and rendering.
use vstd::prelude::*;

pub mod chart;
pub mod classify;
pub mod collect;
pub mod diagram;
pub mod extract;
pub mod graph;
pub mod java_tree;
pub mod laws;
pub mod logfile;
pub mod model;
pub mod parser;
pub mod render;
pub mod settings;
pub mod syntax;
pub mod table;
pub mod text;
