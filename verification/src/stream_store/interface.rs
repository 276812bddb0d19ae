//! Identifiers and kinds of streams.
use crate::paths::extension;
use crate::paths::extension_of;
use crate::text::same_text;
use vstd::prelude::*;

verus! {

/// The key that no stream may have.
pub const INVALID_KEY: u32 = 0;

/// The key by which a stream is indexed.
#[derive(Debug, Clone, PartialEq, Eq, PartialOrd, Ord)]
pub enum StreamId {
    /// A stream that belongs to a football fixture, by the fixture's id.
    FootballAPI(u32),
    /// A stream that relates to no fixture.
    Untagged(u32),
    /// No identifier at all.
    Nothing,
}

impl StreamId {
    /// The numeric key of the identifier, if it has one.
    pub open spec fn raw_key(self) -> Option<u32> {
        match self {
            StreamId::FootballAPI(key) => Some(key),
            StreamId::Untagged(key) => Some(key),
            StreamId::Nothing => None,
        }
    }

    /// Whether the identifier carries the key that no stream may have. An
    /// identifier without a key is not invalid.
    pub fn is_invalid(&self) -> (invalid: bool)
        ensures
            invalid == (self.raw_key() == Some(INVALID_KEY)),
    {
        let key = match self {
            StreamId::FootballAPI(key) => key,
            StreamId::Untagged(key) => key,
            StreamId::Nothing => return false,
        };
        *key == INVALID_KEY
    }

    /// The numeric key of the identifier, if it has one.
    pub fn get_raw_key(&self) -> (key: Option<u32>)
        ensures
            key == self.raw_key(),
    {
        let key = match self {
            StreamId::FootballAPI(key) => key,
            StreamId::Untagged(key) => key,
            StreamId::Nothing => return None,
        };
        Some(*key)
    }
}

impl Default for StreamId {
    /// An untagged identifier with the invalid key.
    fn default() -> (id: StreamId)
        ensures
            id == StreamId::Untagged(INVALID_KEY),
    {
        StreamId::Untagged(INVALID_KEY)
    }
}

/// The streaming protocol of a source.
#[derive(Debug, Clone, Copy, PartialEq, Eq)]
pub enum StreamingType {
    HLS,
    DASH,
}

/// The protocol that the extension of a playlist stands for.
pub open spec fn streaming_type_of(path: Seq<char>) -> Option<StreamingType> {
    if extension_of(path) == Some("m3u8"@) {
        Some(StreamingType::HLS)
    } else if extension_of(path) == Some("dash"@) {
        Some(StreamingType::DASH)
    } else {
        None
    }
}

impl StreamingType {
    /// The protocol of the playlist at `path`, told by its extension, or
    /// `None` where the file is no playlist.
    pub fn of_path(path: &str) -> (kind: Option<StreamingType>)
        ensures
            kind == streaming_type_of(path@),
    {
        match extension(path) {
            Some(ext) => {
                if same_text(ext.as_str(), "m3u8") {
                    Some(StreamingType::HLS)
                } else if same_text(ext.as_str(), "dash") {
                    Some(StreamingType::DASH)
                } else {
                    None
                }
            },
            None => None,
        }
    }
}

} // verus!
