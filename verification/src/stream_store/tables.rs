//! The two hash tables of the stream store and the identifiers of streams.
//!
//! The tables are `hashbrown::HashMap`s and the identifiers come from the
//! `uuid` crate. Verus does not look into either: what this file says of
//! them is taken on trust from their sources.
use crate::stream_store::data_types::Stream;
use vstd::prelude::*;

verus! {

/// The streams by identifier: a `hashbrown::HashMap<u128, Stream>`.
#[verifier::external_body]
pub struct StreamTable {
    inner: hashbrown::HashMap<u128, Stream>,
}

/// What a [`StreamTable`] holds.
pub uninterp spec fn streams_in(table: StreamTable) -> Map<u128, Stream>;

impl StreamTable {
    /// `HashMap::default`: a table that holds nothing.
    #[verifier::external_body]
    pub(crate) fn new() -> (fresh: Self)
        ensures
            streams_in(fresh).dom() == Set::<u128>::empty(),
    {
        StreamTable { inner: hashbrown::HashMap::default() }
    }

    /// `HashMap::insert`: afterwards `id` stands for `stream`, and nothing
    /// else has changed. What `id` stood for before is handed back.
    #[verifier::external_body]
    pub(crate) fn insert(&mut self, id: u128, stream: Stream) -> (previous: Option<Stream>)
        ensures
            streams_in(*final(self)) == streams_in(*old(self)).insert(id, stream),
            previous == (if streams_in(*old(self)).contains_key(id) {
                Some(streams_in(*old(self))[id])
            } else {
                None
            }),
    {
        self.inner.insert(id, stream)
    }

    /// `HashMap::remove`: afterwards `id` stands for nothing, and nothing else
    /// has changed. What `id` stood for before is handed back.
    #[verifier::external_body]
    pub(crate) fn remove(&mut self, id: u128) -> (previous: Option<Stream>)
        ensures
            streams_in(*final(self)) == streams_in(*old(self)).remove(id),
            previous == (if streams_in(*old(self)).contains_key(id) {
                Some(streams_in(*old(self))[id])
            } else {
                None
            }),
    {
        self.inner.remove(&id)
    }

    /// `HashMap::iter`, collected: every entry of the table once, in an order
    /// that is not specified.
    #[verifier::external_body]
    pub(crate) fn entries(&self) -> (entries: Vec<(u128, &Stream)>)
        ensures
            forall|i: int|
                0 <= i < entries@.len() ==> streams_in(*self).contains_key(
                    (#[trigger] entries@[i]).0,
                ) && streams_in(*self)[entries@[i].0] == *entries@[i].1,
            forall|i: int, j: int|
                0 <= i < j < entries@.len() ==> (#[trigger] entries@[i]).0 != (
                #[trigger] entries@[j]).0,
            forall|id: u128| #[trigger]
                streams_in(*self).contains_key(id) ==> exists|i: int|
                    0 <= i < entries@.len() && (#[trigger] entries@[i]).0 == id,
    {
        self.inner.iter().map(|(id, stream)| (*id, stream)).collect()
    }
}

/// The stream that owns each sidecar path: a
/// `hashbrown::HashMap<String, u128>`.
#[verifier::external_body]
pub struct OwnerTable {
    inner: hashbrown::HashMap<String, u128>,
}

/// What an [`OwnerTable`] holds, each path as its characters.
pub uninterp spec fn owners_in(table: OwnerTable) -> Map<Seq<char>, u128>;

impl OwnerTable {
    /// `HashMap::default`: a table that holds nothing.
    #[verifier::external_body]
    pub(crate) fn new() -> (fresh: Self)
        ensures
            owners_in(fresh).dom() == Set::<Seq<char>>::empty(),
    {
        OwnerTable { inner: hashbrown::HashMap::default() }
    }

    /// `HashMap::insert`: afterwards `path` is owned by `id`, and nothing else
    /// has changed. The former owner of `path` is handed back.
    #[verifier::external_body]
    pub(crate) fn insert(&mut self, path: String, id: u128) -> (previous: Option<u128>)
        ensures
            owners_in(*final(self)) == owners_in(*old(self)).insert(path@, id),
            previous == (if owners_in(*old(self)).contains_key(path@) {
                Some(owners_in(*old(self))[path@])
            } else {
                None
            }),
    {
        self.inner.insert(path, id)
    }

    /// `HashMap::remove`: afterwards `path` has no owner, and nothing else has
    /// changed. The former owner of `path` is handed back.
    #[verifier::external_body]
    pub(crate) fn remove(&mut self, path: &str) -> (previous: Option<u128>)
        ensures
            owners_in(*final(self)) == owners_in(*old(self)).remove(path@),
            previous == (if owners_in(*old(self)).contains_key(path@) {
                Some(owners_in(*old(self))[path@])
            } else {
                None
            }),
    {
        self.inner.remove(path)
    }
}

/// The sixteen digits that a UUID is written with.
pub open spec fn hex_digits() -> Seq<char> {
    seq!['0', '1', '2', '3', '4', '5', '6', '7', '8', '9', 'a', 'b', 'c', 'd', 'e', 'f']
}

/// The `i`th of the 32 hexadecimal digits of `id`, the most significant
/// first.
pub open spec fn nibble(id: u128, i: int) -> int {
    (id as int / vstd::arithmetic::power::pow(16, (31 - i) as nat)) % 16
}

/// The hyphenated form of a UUID: its 32 digits in lower case, in groups of
/// 8, 4, 4, 4 and 12 with a hyphen between them.
pub open spec fn hyphenated(id: u128) -> Seq<char> {
    Seq::new(
        36,
        |i: int|
            if i == 8 || i == 13 || i == 18 || i == 23 {
                '-'
            } else if i < 8 {
                hex_digits()[nibble(id, i)]
            } else if i < 13 {
                hex_digits()[nibble(id, i - 1)]
            } else if i < 18 {
                hex_digits()[nibble(id, i - 2)]
            } else if i < 23 {
                hex_digits()[nibble(id, i - 3)]
            } else {
                hex_digits()[nibble(id, i - 4)]
            },
    )
}

/// `Uuid::new_v4`, as a number: a random identifier. Nothing is claimed of
/// its value.
#[verifier::external_body]
pub(crate) fn fresh_uuid() -> u128 {
    uuid::Uuid::new_v4().as_u128()
}

/// `Display` of `Uuid`, for the UUID whose big-endian value is `id`: its
/// hyphenated form in lower case.
#[verifier::external_body]
pub(crate) fn uuid_text(id: u128) -> (text: String)
    ensures
        text@ == hyphenated(id),
{
    uuid::Uuid::from_u128(id).to_string()
}

} // verus!
