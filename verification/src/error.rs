//! The ways in which cataloguing a file can fail.

use vstd::prelude::*;

verus! {

/// Why a file could not be catalogued. Any of these ends the run.
#[derive(Clone, Copy, Debug, PartialEq, Eq, Structural)]
pub enum CatalogError {
    /// The size or the modification time of the file could not be read.
    MetadataUnavailable,
    /// The video track carries no video settings to take the width from.
    UnresolvableResolution,
    /// The video codec is none of the recognised ones.
    UnknownVideoCodec,
    /// The audio track has no recognised channel count.
    UnknownChannelLayout,
    /// The name does not follow `<prefix><Title> (<Year>) ...`.
    MalformedName,
}

/// The text shown for each error.
pub open spec fn error_text(e: CatalogError) -> Seq<char> {
    match e {
        CatalogError::MetadataUnavailable => "Unable to retrieve metadata."@,
        CatalogError::UnresolvableResolution => "Could not find resolution!"@,
        CatalogError::UnknownVideoCodec => "Could not find video codec!"@,
        CatalogError::UnknownChannelLayout => "Failed to find channel info."@,
        CatalogError::MalformedName => "Could not read title and year from file name."@,
    }
}

impl CatalogError {
    /// The message to show the user.
    pub fn message(&self) -> (text: String)
        ensures
            text@ == error_text(*self),
    {
        match self {
            CatalogError::MetadataUnavailable => "Unable to retrieve metadata.".to_owned(),
            CatalogError::UnresolvableResolution => "Could not find resolution!".to_owned(),
            CatalogError::UnknownVideoCodec => "Could not find video codec!".to_owned(),
            CatalogError::UnknownChannelLayout => "Failed to find channel info.".to_owned(),
            CatalogError::MalformedName => "Could not read title and year from file name.".to_owned(),
        }
    }
}

} // verus!
