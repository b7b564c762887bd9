//! A small workflow-graph compiler: a document model of positioned, typed
//! nodes; a deterministic orderer over canvas positions; a Python code
//! generator; assembly of execution results; and a textual persistence codec.

pub mod model;
pub mod outside;
pub mod order;
pub mod codegen;
pub mod run;
pub mod codec;
