//! Node-level transform core of a JSX-to-template compiler: it decides what is
//! static versus dynamic, assigns stable identifiers to dynamic nodes, rewrites
//! attribute keys, detects and rewrites loop patterns, and restructures
//! virtualization-list components into canonical low-level compositions.

pub mod attrs;
pub mod chars;
pub mod components;
pub mod context;
pub mod loops;
pub mod naming;
pub mod node;
pub mod text;
pub mod xscript;
