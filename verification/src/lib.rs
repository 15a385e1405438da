//! Flattening a nested directory tree into a single directory means
//! every collected file needs a destination basename, and files that
//! share a basename need distinct ones. This crate holds that
//! name-conflict resolution logic, together with the basename
//! stem/extension split and the component-wise path containment test
//! used to validate the output directory. All filesystem traversal and
//! transfer is left to the surrounding application.

pub mod decimal;
pub mod names;
pub mod pathcheck;
pub mod resolve;
