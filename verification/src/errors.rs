//! Error taxonomy of the scan: archive-format errors, classfile-format
//! errors, filter-evaluation errors, and classpath-index errors. All of them
//! are fatal and abort the whole scan.

use vstd::prelude::*;

verus! {

/// Why a classfile could not be interpreted.
#[derive(Clone, Copy, Debug, PartialEq, Eq, Structural)]
pub enum ClassfileError {
    /// The bytes end before the structure they should hold.
    Truncated,
    /// The leading magic number is not the classfile magic.
    BadMagic,
    /// A constant-pool entry carries a tag this reader does not know.
    UnknownPoolTag,
    /// A reference into the constant pool does not resolve to an entry of the
    /// kind the referent requires.
    BadPoolIndex,
    /// A text constant that had to be decoded is not valid UTF-8.
    BadUtf8,
    /// An annotations attribute holds an element value of an unknown kind.
    MalformedAttribute,
}

/// Why a whole scan was aborted.
#[derive(Clone, Copy, Debug, PartialEq, Eq, Structural)]
pub enum ScanError {
    /// An archive or one of its entries could not be read or decompressed.
    ArchiveFormat,
    /// A classfile handed to the extractor was malformed.
    Classfile(ClassfileError),
    /// The configured filter pattern does not compile.
    InvalidPattern,
    /// A line of the classpath-index entry does not have the expected shape.
    MalformedIndexLine,
    /// Archives were nested more deeply than the traversal allows.
    NestingTooDeep,
}

} // verus!
