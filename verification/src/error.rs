use vstd::prelude::*;

verus! {

/// What can go wrong while building a picture. Where the error comes from
/// chrono or the image crate, it carries that crate's message.
#[derive(Debug, Clone, PartialEq, Eq)]
pub enum HimawariError {
    /// The zoom level is not one that the archive serves.
    InvalidZoomLevel,
    /// chrono could not read the date that the archive reported.
    DateParse(String),
    /// The image crate could not decode a tile.
    TileDecode(String),
    /// A tile does not fit on the picture at its place.
    TileOutOfBounds(String),
}

/// The message for each error: the image crate's or chrono's where the error
/// comes from them.
pub open spec fn error_message(e: HimawariError) -> Seq<char> {
    match e {
        HimawariError::InvalidZoomLevel => seq!['I', 'n', 'v', 'a', 'l', 'i', 'd', ' ', 'z', 'o', 'o', 'm', ' ', 'l', 'e', 'v', 'e', 'l'],
        HimawariError::DateParse(m) => m@,
        HimawariError::TileDecode(m) => m@,
        HimawariError::TileOutOfBounds(m) => m@,
    }
}

impl HimawariError {
    /// The message that describes the error.
    pub fn message(&self) -> (r: &str)
        ensures
            r@ == error_message(*self),
    {
        proof {
            reveal_strlit("Invalid zoom level");
        }
        match self {
            HimawariError::InvalidZoomLevel => "Invalid zoom level",
            HimawariError::DateParse(m) => m.as_str(),
            HimawariError::TileDecode(m) => m.as_str(),
            HimawariError::TileOutOfBounds(m) => m.as_str(),
        }
    }
}

} // verus!
