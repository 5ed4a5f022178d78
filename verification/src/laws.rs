//! What holds of every run of the rewriter.
pub mod consistency;
pub mod depth;
pub mod elision;
pub mod filtering;
pub mod frame;
pub mod order;
pub mod plain;
pub mod routing;
pub mod run;
pub mod wraps;
