//! One-way mirroring of a directory tree onto another: the path filter, the
//! in-memory trees, the decision engine and the plan of the execution engine.
pub mod path;
pub mod filter;
pub mod tree;
pub mod decision;
pub mod laws;
pub mod execute;
pub mod summary;
