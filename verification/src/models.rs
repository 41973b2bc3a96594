//! The data model: the organizer mode, the encoding-format vocabulary, the
//! metadata record inferred from a release filename, and the result of the
//! external title lookup.

use vstd::prelude::*;
use crate::chars::lower_seq;
use crate::chars::str_to_chars;
use crate::chars::to_lower_vec;
use crate::chars::chars_eq;

verus! {

/// Which kind of media library a run reorganizes.
#[derive(Debug, Clone, Copy, PartialEq, Eq, Structural)]
pub enum OrganizerMode {
    Movies,
    TvShows,
}

impl OrganizerMode {
    /// The mode named by a command word, ASCII-case-insensitively:
    /// `movies` or `tvshows`; `None` for an unknown word.
    pub fn from(value: &str) -> (r: Option<OrganizerMode>)
        ensures
            r == (if lower_seq(value@) == seq!['m', 'o', 'v', 'i', 'e', 's'] {
                Some(OrganizerMode::Movies)
            } else if lower_seq(value@) == seq!['t', 'v', 's', 'h', 'o', 'w', 's'] {
                Some(OrganizerMode::TvShows)
            } else {
                None
            }),
    {
        let chars = str_to_chars(value);
        let l = to_lower_vec(&chars);
        let movies: Vec<char> = vec!['m', 'o', 'v', 'i', 'e', 's'];
        let tvshows: Vec<char> = vec!['t', 'v', 's', 'h', 'o', 'w', 's'];
        if chars_eq(&l, &movies) {
            Some(OrganizerMode::Movies)
        } else if chars_eq(&l, &tvshows) {
            Some(OrganizerMode::TvShows)
        } else {
            None
        }
    }
}

/// The encoding formats recognized in release names.
#[derive(Debug, Clone, Copy, PartialEq, Eq, Structural)]
pub enum MediaEncodingFormat {
    X264,
    X265,
    H264,
    H265,
}

/// Structured metadata inferred from one release filename.
#[derive(Debug, Clone)]
pub struct MovieMetadata {
    /// Raw stem (name before the last dot) prior to parsing.
    pub original_file_name: String,
    /// Inferred title, title-cased.
    pub media_name: String,
    /// Standalone 4-digit year in [1900, 2099].
    pub release_year: Option<u16>,
    /// Recognized encoding format, if any token named one exactly.
    pub encoding_format: Option<MediaEncodingFormat>,
    /// Normalized resolution: 720, 1080 or 2160.
    pub resolution: Option<u16>,
    /// Leftover tokens after the metadata phase began, in order.
    pub additional_data: Vec<String>,
    /// Lower-cased extension of the parsed filename.
    pub file_extension: String,
    /// Populated only by the external lookup, never guessed locally.
    pub imdb_id: Option<String>,
}

/// What the external title lookup returns on success.
#[derive(Debug, Clone)]
pub struct ImdbResult {
    pub title: String,
    pub id: String,
}

} // verus!
