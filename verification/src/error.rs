//! Error types: one closed enum for the structural TIFF parse layer and one
//! for the whole-slide-image overlay.

use vstd::prelude::*;

verus! {

/// A failure of the structural TIFF parse layer.
#[derive(Debug, PartialEq, Eq, Structural, Copy, Clone)]
pub enum TiffError {
    /// The endian marker or the version discriminant is not recognized.
    HeaderBroken,
    /// An entry's `(data type, count)` combination is not supported;
    /// carries the 16-bit type code for diagnosis.
    EntryBroken(u16),
    /// A decode ran past the provided buffer; carries the least
    /// byte count that would have sufficed.
    InsufficientBuffer(u64),
    /// The directory structure is absurd: a cyclic directory chain,
    /// an entry count past the sanity cap, or a range past the end
    /// of the 64-bit address space.
    StructureBroken,
}

impl TiffError {
    /// A short diagnostic role name.
    pub fn describe(&self) -> (r: &'static str)
        ensures
            r@ == self.spec_describe(),
    {
        match *self {
            TiffError::HeaderBroken => "tiff header broken",
            TiffError::EntryBroken(_) => "tiff entry broken",
            TiffError::InsufficientBuffer(_) => "buffer length not enough",
            TiffError::StructureBroken => "tiff structure broken",
        }
    }

    /// The role name `describe` returns.
    pub open spec fn spec_describe(&self) -> Seq<char> {
        match *self {
            TiffError::HeaderBroken => "tiff header broken"@,
            TiffError::EntryBroken(_) => "tiff entry broken"@,
            TiffError::InsufficientBuffer(_) => "buffer length not enough"@,
            TiffError::StructureBroken => "tiff structure broken"@,
        }
    }
}

/// A failure of the whole-slide-image overlay.
#[derive(Debug, PartialEq, Eq, Structural, Copy, Clone)]
pub enum EozinError {
    /// The structural parse failed.
    Tiff(TiffError),
    /// The file holds no tiled directory that could serve as a level.
    NotAWsi,
    /// The requested level or tile is outside the known grid.
    OutOfIndex,
    /// The compression code of the level is not one this reader serves;
    /// carries the code.
    UnknownCompression(u16),
    /// A tile payload or table stream is shorter than its mandatory markers.
    InsufficientTile,
}

impl EozinError {
    /// A short diagnostic role name.
    pub fn describe(&self) -> (r: &'static str)
        ensures
            r@ == self.spec_describe(),
    {
        match *self {
            EozinError::Tiff(e) => e.describe(),
            EozinError::NotAWsi => "not a whole slide image",
            EozinError::OutOfIndex => "out of index",
            EozinError::UnknownCompression(_) => "unknown compression",
            EozinError::InsufficientTile => "tile buffer too short",
        }
    }

    /// The role name `describe` returns.
    pub open spec fn spec_describe(&self) -> Seq<char> {
        match *self {
            EozinError::Tiff(e) => e.spec_describe(),
            EozinError::NotAWsi => "not a whole slide image"@,
            EozinError::OutOfIndex => "out of index"@,
            EozinError::UnknownCompression(_) => "unknown compression"@,
            EozinError::InsufficientTile => "tile buffer too short"@,
        }
    }
}

impl From<TiffError> for EozinError {
    /// Wraps a parse-layer failure.
    fn from(e: TiffError) -> (r: EozinError) {
        EozinError::Tiff(e)
    }
}

impl vstd::std_specs::convert::FromSpecImpl<TiffError> for EozinError {
    open spec fn obeys_from_spec() -> bool {
        true
    }

    open spec fn from_spec(e: TiffError) -> EozinError {
        EozinError::Tiff(e)
    }
}

} // verus!
