//! Inspects a Java archive (including archives nested inside it) and reports
//! every enum type it contains: its fully-qualified internal name, its declared
//! constant members, whether it carries the tracked marker annotation, and
//! which archive it came from.

pub mod classfile;
pub mod errors;
pub mod evaluator;
pub mod scan;
pub mod strutil;
pub mod visitor;
pub mod zipio;
