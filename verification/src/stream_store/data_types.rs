//! The records of the stream store: what a sidecar file holds, and what is
//! served from it.
use crate::paths::{below, extension, extension_of, relative_to, within};
use crate::text::same_text;
use vstd::prelude::*;
use vstd::string::*;

verus! {

/// One playable rendition of a stream.
#[derive(Debug, Clone, PartialEq, Eq)]
pub struct Source {
    pub url: String,
    pub typ: String,
}

/// A [`Source`] as contracts see it.
pub struct SourceView {
    pub url: Seq<char>,
    pub typ: Seq<char>,
}

impl View for Source {
    type V = SourceView;

    open spec fn view(&self) -> SourceView {
        SourceView { url: self.url@, typ: self.typ@ }
    }
}

/// The unit of registration. With bare paths for sources it is what a sidecar
/// file holds; with typed sources it is what is served.
#[derive(Debug, Clone, PartialEq, Eq)]
pub struct StreamMeta<T> {
    pub uuid: u128,
    pub sources: Vec<T>,
    pub description: String,
    /// Seconds since the Unix epoch.
    pub date: i64,
    pub live: Option<bool>,
}

/// A [`StreamMeta`] as contracts see it.
pub struct StreamMetaView<S> {
    pub uuid: u128,
    pub sources: Seq<S>,
    pub description: Seq<char>,
    pub date: i64,
    pub live: Option<bool>,
}

impl<T: View> View for StreamMeta<T> {
    type V = StreamMetaView<T::V>;

    open spec fn view(&self) -> StreamMetaView<T::V> {
        StreamMetaView {
            uuid: self.uuid,
            sources: self.sources@.map_values(|source: T| source@),
            description: self.description@,
            date: self.date,
            live: self.live,
        }
    }
}

pub type MetaFile = StreamMeta<String>;

pub type Stream = StreamMeta<Source>;

/// Why a registration failed.
#[derive(Debug, Clone, PartialEq, Eq)]
pub enum RegisterError {
    /// No source was given.
    SourceArgumentEmpty,
    /// The record could not be turned into a sidecar file; the text says why.
    ParseError(String),
    /// The sidecar file could not be written; the text says why.
    IoError(String),
}

/// The MIME type that an extension stands for, if it is one that is served.
pub open spec fn mime_of(ext: Option<Seq<char>>) -> Option<Seq<char>> {
    match ext {
        Some(e) => if e == "m3u8"@ || e == "m3u"@ {
            Some("application/x-mpegURL"@)
        } else if e == "dash"@ || e == "mpd"@ {
            Some("application/dash+xml"@)
        } else if e == "mp4"@ {
            Some("video/mp4"@)
        } else {
            None
        },
        None => None,
    }
}

/// The typed source that a path stands for: the path itself, with the MIME
/// type of its extension.
pub open spec fn typed_source(path: Seq<char>) -> Option<SourceView> {
    match mime_of(extension_of(path)) {
        Some(typ) => Some(SourceView { url: path, typ }),
        None => None,
    }
}

/// Whether every source of a raw record has an extension that is served.
pub open spec fn enrichable(raw: StreamMetaView<Seq<char>>) -> bool {
    forall|i: int| 0 <= i < raw.sources.len() ==> typed_source(#[trigger] raw.sources[i]).is_some()
}

/// The record that is served for a raw record: the same record, each source
/// with its MIME type.
pub open spec fn enriched(raw: StreamMetaView<Seq<char>>) -> StreamMetaView<SourceView> {
    StreamMetaView {
        uuid: raw.uuid,
        sources: raw.sources.map_values(|path: Seq<char>| typed_source(path).unwrap()),
        description: raw.description,
        date: raw.date,
        live: raw.live,
    }
}

/// The MIME type for an extension.
pub fn mime_type(ext: Option<&str>) -> (mime: Option<&'static str>)
    ensures
        match mime {
            Some(m) => mime_of(
                match ext {
                    Some(e) => Some(e@),
                    None => None,
                },
            ) == Some(m@),
            None => mime_of(
                match ext {
                    Some(e) => Some(e@),
                    None => None,
                },
            ).is_none(),
        },
{
    match ext {
        Some(e) => {
            if same_text(e, "m3u8") || same_text(e, "m3u") {
                Some("application/x-mpegURL")
            } else if same_text(e, "dash") || same_text(e, "mpd") {
                Some("application/dash+xml")
            } else if same_text(e, "mp4") {
                Some("video/mp4")
            } else {
                None
            }
        },
        None => None,
    }
}

impl Source {
    /// The typed source for a path, or `None` where the extension of the path
    /// is not one that is served.
    pub fn from_path(path: &str) -> (source: Option<Source>)
        ensures
            match source {
                Some(s) => typed_source(path@) == Some(s@),
                None => typed_source(path@).is_none(),
            },
    {
        let ext = extension(path);
        let mime = match &ext {
            Some(e) => mime_type(Some(e.as_str())),
            None => mime_type(None),
        };
        match mime {
            Some(typ) => Some(Source { url: String::from_str(path), typ: String::from_str(typ) }),
            None => None,
        }
    }
}

impl StreamMeta<Source> {
    /// The record that is served for a raw record. The MIME type of each
    /// source is inferred from its extension alone; a record with a source
    /// whose extension is not served has no served form.
    pub fn from_meta(meta: &MetaFile) -> (stream: Option<Stream>)
        ensures
            match stream {
                Some(s) => enrichable(meta@) && s@ == enriched(meta@),
                None => !enrichable(meta@),
            },
    {
        let mut sources: Vec<Source> = Vec::new();
        let n = meta.sources.len();
        let mut i: usize = 0;
        while i < n
            invariant
                i <= n,
                n == meta.sources@.len(),
                sources@.len() == i,
                forall|j: int|
                    0 <= j < i ==> typed_source(meta.sources@[j]@) == Some((#[trigger] sources@[j])@),
            decreases n - i,
        {
            match Source::from_path(meta.sources[i].as_str()) {
                Some(source) => sources.push(source),
                None => {
                    proof {
                        assert(meta@.sources[i as int] == meta.sources@[i as int]@);
                    }
                    return None;
                },
            }
            i += 1;
        }
        let stream = StreamMeta {
            uuid: meta.uuid,
            sources,
            live: meta.live,
            description: meta.description.clone(),
            date: meta.date,
        };
        proof {
            assert forall|j: int| 0 <= j < meta@.sources.len() implies typed_source(
                #[trigger] meta@.sources[j],
            ).is_some() by {
                assert(typed_source(meta.sources@[j]@) == Some(sources@[j]@));
            }
            assert(stream@.sources =~= enriched(meta@).sources) by {
                assert forall|j: int| 0 <= j < n implies stream@.sources[j] == enriched(
                    meta@,
                ).sources[j] by {
                    assert(typed_source(meta.sources@[j]@) == Some(sources@[j]@));
                }
            }
        }
        Some(stream)
    }
}

/// Enriching a record changes nothing but the type of its sources: the
/// identifier, the description, the date and the liveness stay, and the
/// sources are the same paths in the same order.
pub proof fn lemma_enriched_keeps_record(raw: StreamMetaView<Seq<char>>)
    requires
        enrichable(raw),
    ensures
        enriched(raw).uuid == raw.uuid,
        enriched(raw).description == raw.description,
        enriched(raw).date == raw.date,
        enriched(raw).live == raw.live,
        enriched(raw).sources.map_values(|source: SourceView| source.url) == raw.sources,
        forall|i: int|
            0 <= i < raw.sources.len() ==> mime_of(extension_of(raw.sources[i])) == Some(
                (#[trigger] enriched(raw).sources[i]).typ,
            ),
{
    assert(enriched(raw).sources.map_values(|source: SourceView| source.url) =~= raw.sources) by {
        assert forall|i: int| 0 <= i < raw.sources.len() implies enriched(raw).sources[i].url
            == raw.sources[i] by {
            assert(typed_source(raw.sources[i]).is_some());
        }
    }
    assert forall|i: int| 0 <= i < raw.sources.len() implies mime_of(extension_of(raw.sources[i]))
        == Some((#[trigger] enriched(raw).sources[i]).typ) by {
        assert(typed_source(raw.sources[i]).is_some());
    }
}

/// The content type that a segment is sent with, told by its extension.
pub open spec fn content_type_of(ext: Option<Seq<char>>) -> Option<Seq<char>> {
    match ext {
        Some(e) => if e == "m3u8"@ {
            Some("application/x-mpegURL"@)
        } else if e == "mp4"@ {
            Some("video/mp4"@)
        } else if e == "ts"@ {
            Some("video/mp2t"@)
        } else {
            None
        },
        None => None,
    }
}

/// The content type that the segment at `path` is sent with, or `None`
/// where its extension is not one that is served as a segment.
pub fn lookup_content_type(path: &str) -> (content_type: Option<&'static str>)
    ensures
        match content_type {
            Some(t) => content_type_of(extension_of(path@)) == Some(t@),
            None => content_type_of(extension_of(path@)).is_none(),
        },
{
    match extension(path) {
        Some(ext) => {
            if same_text(ext.as_str(), "m3u8") {
                Some("application/x-mpegURL")
            } else if same_text(ext.as_str(), "mp4") {
                Some("video/mp4")
            } else if same_text(ext.as_str(), "ts") {
                Some("video/mp2t")
            } else {
                None
            }
        },
        None => None,
    }
}

/// A source does not lie under the prefix that was to be stripped from it.
#[derive(Debug, Clone, Copy, PartialEq, Eq)]
pub struct StripPrefixError;

/// The source at `i` after the prefix was stripped from the sources before
/// `done`: those have lost the prefix, the others are as they were.
pub open spec fn stripped_until(
    sources: Seq<SourceView>,
    prefix: Seq<char>,
    done: int,
    i: int,
) -> SourceView {
    if i < done {
        SourceView { url: below(sources[i].url, prefix), typ: sources[i].typ }
    } else {
        sources[i]
    }
}

impl StreamMeta<Source> {
    /// Makes the URL of every source relative to `prefix`. The sources are
    /// taken in order; at the first that does not lie under `prefix` the work
    /// ends with an error, the sources before it stripped and the others
    /// untouched.
    pub fn strip_prefix(&mut self, prefix: &str) -> (outcome: Result<(), StripPrefixError>)
        ensures
            final(self)@.uuid == old(self)@.uuid,
            final(self)@.description == old(self)@.description,
            final(self)@.date == old(self)@.date,
            final(self)@.live == old(self)@.live,
            final(self)@.sources.len() == old(self)@.sources.len(),
            match outcome {
                Ok(_) => forall|i: int|
                    0 <= i < old(self)@.sources.len() ==> within(
                        (#[trigger] old(self)@.sources[i]).url,
                        prefix@,
                    ) && final(self)@.sources[i] == stripped_until(
                        old(self)@.sources,
                        prefix@,
                        old(self)@.sources.len() as int,
                        i,
                    ),
                Err(_) => exists|k: int|
                    {
                        &&& 0 <= k < old(self)@.sources.len()
                        &&& !within((#[trigger] old(self)@.sources[k]).url, prefix@)
                        &&& forall|i: int|
                            0 <= i < k ==> within((#[trigger] old(self)@.sources[i]).url, prefix@)
                        &&& forall|i: int|
                            0 <= i < old(self)@.sources.len() ==> (
                            #[trigger] final(self)@.sources[i]) == stripped_until(
                                old(self)@.sources,
                                prefix@,
                                k,
                                i,
                            )
                    },
            },
    {
        let n = self.sources.len();
        let mut i: usize = 0;
        while i < n
            invariant
                i <= n,
                n == self.sources@.len(),
                n == old(self).sources@.len(),
                self.uuid == old(self).uuid,
                self.description == old(self).description,
                self.date == old(self).date,
                self.live == old(self).live,
                forall|j: int|
                    0 <= j < i ==> within((#[trigger] old(self)@.sources[j]).url, prefix@),
                forall|j: int|
                    0 <= j < n ==> (#[trigger] self@.sources[j]) == stripped_until(
                        old(self)@.sources,
                        prefix@,
                        i as int,
                        j,
                    ),
            decreases n - i,
        {
            let ghost before = self@.sources;
            proof {
                assert(self@.sources[i as int] == old(self)@.sources[i as int]);
                assert(self@.sources[i as int] == self.sources@[i as int]@);
            }
            match relative_to(self.sources[i].url.as_str(), prefix) {
                Some(path) => {
                    self.sources[i].url = path;
                    proof {
                        assert forall|j: int| 0 <= j < n implies (#[trigger] self@.sources[j])
                            == stripped_until(old(self)@.sources, prefix@, i + 1, j) by {
                            if j != i {
                                assert(self@.sources[j] == before[j]);
                            }
                        }
                    }
                },
                None => {
                    return Err(StripPrefixError);
                },
            }
            i += 1;
        }
        Ok(())
    }
}

} // verus!
