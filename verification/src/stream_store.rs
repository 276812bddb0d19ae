//! The stream store: an index of the streams that sidecar files under a root
//! directory describe.
//!
//! Disk is the single source of truth. The store itself never touches the
//! disk: its caller lists directories, reads and writes files, and hands the
//! store what it found. The store decides which files are worth reading,
//! keeps the index, and answers from it.
pub mod data_types;
pub mod file_watcher;
pub mod interface;
pub mod laws;
pub mod tables;

use self::data_types::{
    enrichable, enriched, MetaFile, RegisterError, SourceView, Stream, StreamMeta, StreamMetaView,
};
use self::file_watcher::{EventKind, WatchAction};
use self::tables::{fresh_uuid, hyphenated, owners_in, streams_in, uuid_text, OwnerTable, StreamTable};
use crate::cache_map::{found, inserted, promoted, valid_entries, CacheEntry, CacheMap};
use crate::paths::{below, extension, extension_of, is_within, join, joined, relative_to, within};
use crate::text::same_text;
use crate::text_hash::{hash_text, text_hash};
use vstd::prelude::*;
use vstd::string::*;

verus! {

/// The extension of a sidecar file.
pub const STREAM_EXT: &'static str = "stream";

/// How many segments the store keeps in memory.
pub const SEGMENT_SLOTS: usize = 32;

/// Whether a path names a sidecar file.
pub open spec fn is_sidecar(path: Seq<char>) -> bool {
    extension_of(path) == Some("stream"@)
}

/// The sidecar files among `children`, in their order.
pub open spec fn sidecars(children: Seq<Seq<char>>) -> Seq<Seq<char>> {
    children.filter(|path: Seq<char>| is_sidecar(path))
}

/// Paths as their characters.
pub open spec fn paths_view(paths: Seq<String>) -> Seq<Seq<char>> {
    paths.map_values(|path: String| path@)
}

/// Parsed sidecar files as contracts see them: the path of each file with the
/// record that it holds.
pub open spec fn found_view(found: Seq<(String, MetaFile)>) -> Seq<
    (Seq<char>, StreamMetaView<Seq<char>>),
> {
    found.map_values(|entry: (String, MetaFile)| (entry.0@, entry.1@))
}

/// The key under which the owner of `path` is looked up by a store with this
/// `root`: a path under the root is taken relative to it, any other as it
/// stands, which is how a path reads that is relative already.
pub open spec fn key_under(root: Seq<char>, path: Seq<char>) -> Seq<char> {
    if within(path, root) {
        below(path, root)
    } else {
        path
    }
}

/// Whether a store with this `root` takes the file at `path` with the record
/// `raw` into its index: the file is a sidecar file under the root, and the
/// record has a served form.
pub open spec fn admitted(root: Seq<char>, path: Seq<char>, raw: StreamMetaView<Seq<char>>) -> bool {
    is_sidecar(path) && within(path, root) && enrichable(raw)
}

/// The index of a stream store as contracts see it.
pub struct StoreView {
    /// The directory that holds the sidecar files.
    pub root: Seq<char>,
    /// The streams by identifier.
    pub streams: Map<u128, StreamMetaView<SourceView>>,
    /// The identifier of the stream that each sidecar path belongs to, the
    /// path taken relative to the root.
    pub owners: Map<Seq<char>, u128>,
}

impl StoreView {
    /// The key under which the owner of a path is looked up in `owners`.
    pub open spec fn key_of(self, path: Seq<char>) -> Seq<char> {
        key_under(self.root, path)
    }

    /// The index after the file at `path` was found to hold `raw`. A sidecar
    /// file under the root whose record has a served form is indexed: the
    /// record in its served form under its identifier, and the path, taken
    /// relative to the root, now belongs to it, whatever it belonged to
    /// before. Anything else is dropped and changes nothing.
    pub open spec fn indexed(self, path: Seq<char>, raw: StreamMetaView<Seq<char>>) -> StoreView {
        if admitted(self.root, path, raw) {
            StoreView {
                root: self.root,
                streams: self.streams.insert(raw.uuid, enriched(raw)),
                owners: self.owners.insert(below(path, self.root), raw.uuid),
            }
        } else {
            self
        }
    }

    /// The index after all of `found` was indexed, in order.
    pub open spec fn loaded(self, found: Seq<(Seq<char>, StreamMetaView<Seq<char>>)>) -> StoreView
        decreases found.len(),
    {
        if found.len() == 0 {
            self
        } else {
            self.loaded(found.drop_last()).indexed(found.last().0, found.last().1)
        }
    }

    /// Whether `path` is a sidecar path that belongs to some stream.
    pub open spec fn owns(self, path: Seq<char>) -> bool {
        is_sidecar(path) && self.owners.contains_key(self.key_of(path))
    }

    /// Whether the removal of `path` takes a stream out of the index.
    pub open spec fn drops(self, path: Seq<char>) -> bool {
        self.owns(path) && self.streams.contains_key(self.owners[self.key_of(path)])
    }

    /// The index after the file at `path` disappeared: a sidecar path that
    /// belongs to a stream is detached and its stream leaves the index. Any
    /// other path changes nothing.
    pub open spec fn without(self, path: Seq<char>) -> StoreView {
        if self.owns(path) {
            StoreView {
                root: self.root,
                streams: self.streams.remove(self.owners[self.key_of(path)]),
                owners: self.owners.remove(self.key_of(path)),
            }
        } else {
            self
        }
    }

    /// The index after all of `paths` disappeared, in order.
    pub open spec fn without_all(self, paths: Seq<Seq<char>>) -> StoreView
        decreases paths.len(),
    {
        if paths.len() == 0 {
            self
        } else {
            self.without_all(paths.drop_last()).without(paths.last())
        }
    }

    /// Whether the removal of `paths`, in order, takes any stream out of the
    /// index.
    pub open spec fn drops_any(self, paths: Seq<Seq<char>>) -> bool
        decreases paths.len(),
    {
        if paths.len() == 0 {
            false
        } else {
            self.drops_any(paths.drop_last()) || self.without_all(paths.drop_last()).drops(
                paths.last(),
            )
        }
    }
}

/// What the caller found at a path that it was asked to scan.
#[derive(Debug, Clone, PartialEq, Eq)]
pub enum Listing {
    /// The path is a file.
    File,
    /// The path is a directory with these direct children.
    Directory(Vec<String>),
}

/// Why a scan was refused.
#[derive(Debug, Clone, Copy, PartialEq, Eq)]
pub enum ScanError {
    /// The path does not lie under the root of the store.
    OutsideRoot,
}

/// The sidecar files that a scan of `path` has to parse.
pub open spec fn scan_plan(path: Seq<char>, listing: Listing) -> Seq<Seq<char>> {
    match listing {
        Listing::File => if is_sidecar(path) {
            seq![path]
        } else {
            seq![]
        },
        Listing::Directory(children) => sidecars(paths_view(children@)),
    }
}

/// Whether `path` names a sidecar file.
pub fn is_stream_file(path: &str) -> (yes: bool)
    ensures
        yes == is_sidecar(path@),
{
    match extension(path) {
        Some(ext) => same_text(ext.as_str(), STREAM_EXT),
        None => false,
    }
}

/// Provides video streams that are persisted on the filesystem, even while
/// they are being written.
pub struct LocalStreamStore {
    /// Directory which all stream files are written to.
    root: String,
    /// The index of found streams.
    stream_map: StreamTable,
    /// The stream that each sidecar path belongs to.
    uuid_lookup: OwnerTable,
    /// Segments that were read recently.
    segments: CacheMap<str, Vec<u8>, SEGMENT_SLOTS>,
}

impl View for LocalStreamStore {
    type V = StoreView;

    closed spec fn view(&self) -> StoreView {
        StoreView {
            root: self.root@,
            streams: streams_in(self.stream_map).map_values(|stream: Stream| stream@),
            owners: owners_in(self.uuid_lookup),
        }
    }
}

impl LocalStreamStore {
    /// The representation invariant: every stream is indexed under its own
    /// identifier.
    pub closed spec fn wf(&self) -> bool {
        &&& self.segments.wf()
        &&& forall|id: u128| #[trigger]
            streams_in(self.stream_map).contains_key(id) ==> streams_in(self.stream_map)[id].uuid
                == id
    }

    /// The segments in memory, least recently used first.
    pub closed spec fn segments(&self) -> Seq<CacheEntry<Vec<u8>>> {
        self.segments@
    }

    /// Every stream in the index carries the identifier that it is indexed
    /// under, and the segments in memory are the valid entries of a cache
    /// with `SEGMENT_SLOTS` slots.
    pub proof fn lemma_wf(&self)
        requires
            self.wf(),
        ensures
            forall|id: u128| #[trigger]
                self@.streams.contains_key(id) ==> self@.streams[id].uuid == id,
            valid_entries(self.segments(), SEGMENT_SLOTS as nat),
    {
        self.segments.lemma_wf();
    }

    /// A store for the sidecar files under `root`, with nothing indexed yet.
    pub fn new(root: String) -> (store: LocalStreamStore)
        ensures
            store.wf(),
            store@.root == root@,
            store@.streams == Map::<u128, StreamMetaView<SourceView>>::empty(),
            store@.owners == Map::<Seq<char>, u128>::empty(),
            store.segments() == Seq::<CacheEntry<Vec<u8>>>::empty(),
    {
        let store = LocalStreamStore {
            root,
            stream_map: StreamTable::new(),
            uuid_lookup: OwnerTable::new(),
            segments: CacheMap::new(),
        };
        proof {
            assert(streams_in(store.stream_map) =~= Map::<u128, Stream>::empty());
            assert(store@.streams =~= Map::<u128, StreamMetaView<SourceView>>::empty());
            assert(store@.owners =~= Map::<Seq<char>, u128>::empty());
        }
        store
    }

    /// The root directory of the store.
    pub fn root(&self) -> (root: &str)
        ensures
            root@ == self@.root,
    {
        self.root.as_str()
    }

    /// Decides which files a scan of `path` has to parse. `listing` says what
    /// the caller found there: a file, or a directory with its direct
    /// children. A path outside the root is refused; of what lies under it,
    /// exactly the sidecar files are to be parsed, in the order given.
    pub fn scan(&self, path: &str, listing: &Listing) -> (plan: Result<Vec<String>, ScanError>)
        ensures
            match plan {
                Ok(files) => within(path@, self@.root) && paths_view(files@) == scan_plan(
                    path@,
                    *listing,
                ),
                Err(e) => !within(path@, self@.root) && e == ScanError::OutsideRoot,
            },
    {
        if !is_within(path, self.root.as_str()) {
            return Err(ScanError::OutsideRoot);
        }
        let mut files: Vec<String> = Vec::new();
        match listing {
            Listing::File => {
                if is_stream_file(path) {
                    files.push(String::from_str(path));
                    proof {
                        assert(paths_view(files@) =~= seq![path@]);
                    }
                } else {
                    proof {
                        assert(paths_view(files@) =~= Seq::<Seq<char>>::empty());
                    }
                }
            },
            Listing::Directory(children) => {
                let ghost wanted = |path: Seq<char>| is_sidecar(path);
                let ghost all = paths_view(children@);
                proof {
                    reveal(Seq::filter);
                    assert(paths_view(files@) =~= all.take(0).filter(wanted));
                }
                let mut i: usize = 0;
                while i < children.len()
                    invariant
                        i <= children@.len(),
                        all == paths_view(children@),
                        wanted == |path: Seq<char>| is_sidecar(path),
                        paths_view(files@) == all.take(i as int).filter(wanted),
                    decreases children@.len() - i,
                {
                    let ghost before = paths_view(files@);
                    let wants = is_stream_file(children[i].as_str());
                    if wants {
                        files.push(children[i].clone());
                    }
                    proof {
                        reveal(Seq::filter);
                        let next = all.take(i + 1);
                        assert(next.drop_last() =~= all.take(i as int));
                        assert(next.last() == children@[i as int]@);
                        if wants {
                            assert(paths_view(files@) =~= before.push(children@[i as int]@));
                        }
                    }
                    i += 1;
                }
                proof {
                    assert(all.take(i as int) =~= all);
                }
            },
        }
        Ok(files)
    }

    /// Takes what was parsed from sidecar files into the index: each record
    /// in its served form, under its identifier, with its path below the
    /// root as owner. A file that is no sidecar file or does not lie under
    /// the root is skipped, and so is a record that has no served form.
    pub fn load(&mut self, found: &Vec<(String, MetaFile)>)
        requires
            old(self).wf(),
        ensures
            final(self).wf(),
            final(self)@ == old(self)@.loaded(found_view(found@)),
            final(self).segments() == old(self).segments(),
    {
        let ghost all = found_view(found@);
        let mut i: usize = 0;
        proof {
            assert(all.take(0) =~= Seq::empty());
        }
        while i < found.len()
            invariant
                i <= found@.len(),
                all == found_view(found@),
                self.wf(),
                self@ == old(self)@.loaded(all.take(i as int)),
                self.segments() == old(self).segments(),
            decreases found@.len() - i,
        {
            let ghost before = self@;
            let path = &found[i].0;
            let meta = &found[i].1;
            proof {
                let next = all.take(i + 1);
                assert(next.drop_last() =~= all.take(i as int));
                assert(next.last() == (path@, meta@));
            }
            if is_stream_file(path.as_str()) {
                if let Some(key) = relative_to(path.as_str(), self.root.as_str()) {
                    if let Some(stream) = Stream::from_meta(meta) {
                        let id = stream.uuid;
                        self.uuid_lookup.insert(key, id);
                        self.stream_map.insert(id, stream);
                        proof {
                            assert(self@.streams =~= before.streams.insert(id, stream@));
                        }
                    }
                }
            }
            i += 1;
        }
        proof {
            assert(all.take(i as int) =~= all);
        }
    }

    /// The key of `path` in the table of owners.
    fn key(&self, path: &str) -> (key: String)
        ensures
            key@ == self@.key_of(path@),
    {
        match relative_to(path, self.root.as_str()) {
            Some(rest) => rest,
            None => String::from_str(path),
        }
    }

    /// Takes the streams out of the index whose sidecar files disappeared.
    /// Paths that are no sidecar files, or that belong to no stream, are
    /// ignored. Says whether any stream left the index.
    pub fn removed(&mut self, paths: &Vec<String>) -> (any: bool)
        requires
            old(self).wf(),
        ensures
            final(self).wf(),
            final(self)@ == old(self)@.without_all(paths_view(paths@)),
            any == old(self)@.drops_any(paths_view(paths@)),
            final(self).segments() == old(self).segments(),
    {
        let ghost all = paths_view(paths@);
        let mut removed_count: usize = 0;
        let mut i: usize = 0;
        proof {
            assert(all.take(0) =~= Seq::empty());
        }
        while i < paths.len()
            invariant
                i <= paths@.len(),
                removed_count <= i,
                all == paths_view(paths@),
                self.wf(),
                self@ == old(self)@.without_all(all.take(i as int)),
                (removed_count > 0) == old(self)@.drops_any(all.take(i as int)),
                self.segments() == old(self).segments(),
            decreases paths@.len() - i,
        {
            let ghost before = self@;
            let file = paths[i].as_str();
            proof {
                let next = all.take(i + 1);
                assert(next.drop_last() =~= all.take(i as int));
                assert(next.last() == file@);
            }
            if is_stream_file(file) {
                let key = self.key(file);
                if let Some(uuid) = self.uuid_lookup.remove(key.as_str()) {
                    let gone = self.stream_map.remove(uuid);
                    proof {
                        assert(self@.streams =~= before.streams.remove(uuid));
                    }
                    if gone.is_some() {
                        removed_count += 1;
                    }
                } else {
                    proof {
                        assert(self@.owners =~= before.owners);
                    }
                }
            }
            i += 1;
        }
        proof {
            assert(all.take(i as int) =~= all);
        }
        removed_count > 0
    }
    /// Returns all available streams ready for playback, the most recent
    /// date first. Every stream of the index is listed exactly once; streams
    /// of the same date come in no particular order.
    pub fn get_available_streams(&self) -> (streams: Vec<&Stream>)
        requires
            self.wf(),
        ensures
            forall|i: int|
                0 <= i < streams@.len() ==> self@.streams.contains_key(
                    (#[trigger] streams@[i]).uuid,
                ) && self@.streams[streams@[i].uuid] == streams@[i]@,
            forall|i: int, j: int|
                0 <= i < j < streams@.len() ==> (#[trigger] streams@[i]).uuid != (
                #[trigger] streams@[j]).uuid,
            forall|id: u128| #[trigger]
                self@.streams.contains_key(id) ==> exists|i: int|
                    0 <= i < streams@.len() && (#[trigger] streams@[i]).uuid == id,
            forall|i: int, j: int|
                0 <= i < j < streams@.len() ==> (#[trigger] streams@[i]).date >= (
                #[trigger] streams@[j]).date,
    {
        let ghost table = streams_in(self.stream_map);
        let entries = self.stream_map.entries();
        let n = entries.len();
        let mut streams: Vec<&Stream> = Vec::with_capacity(n);
        let mut k: usize = 0;
        while k < n
            invariant
                k <= n,
                n == entries@.len(),
                streams@.len() == k,
                forall|i: int| 0 <= i < k ==> #[trigger] streams@[i] == entries@[i].1,
            decreases n - k,
        {
            streams.push(entries[k].1);
            k += 1;
        }
        proof {
            assert forall|i: int| 0 <= i < n implies table.contains_key(
                (#[trigger] streams@[i]).uuid,
            ) && table[streams@[i].uuid] == *streams@[i] by {
                assert(table.contains_key(entries@[i].0));
            }
            assert forall|i: int, j: int| 0 <= i < j < n implies (#[trigger] streams@[i]).uuid != (
            #[trigger] streams@[j]).uuid by {
                assert(table.contains_key(entries@[i].0));
                assert(table.contains_key(entries@[j].0));
                assert(entries@[i].0 != entries@[j].0);
            }
            assert forall|id: u128| #[trigger] table.contains_key(id) implies exists|i: int|
                0 <= i < n && (#[trigger] streams@[i]).uuid == id by {
                let w = choose|w: int| 0 <= w < n && (#[trigger] entries@[w]).0 == id;
                assert(streams@[w].uuid == id);
            }
        }
        let mut i: usize = 1;
        while i < n
            invariant
                1 <= i,
                n == streams@.len(),
                table == streams_in(self.stream_map),
                listed(streams@, table),
                forall|a: int, b: int|
                    0 <= a < b < i && b < n ==> (#[trigger] streams@[a]).date >= (
                    #[trigger] streams@[b]).date,
            decreases n - i,
        {
            let mut j: usize = i;
            while j > 0 && streams[j - 1].date < streams[j].date
                invariant
                    j <= i < n,
                    n == streams@.len(),
                    listed(streams@, table),
                    forall|a: int, b: int|
                        0 <= a < b <= i && a != j && b != j ==> (#[trigger] streams@[a]).date >= (
                        #[trigger] streams@[b]).date,
                    forall|b: int| j < b <= i ==> streams@[j as int].date >= (#[trigger] streams@[b]).date,
                decreases j,
            {
                let ghost before = streams@;
                let earlier = streams[j - 1];
                let later = streams[j];
                streams[j - 1] = later;
                streams[j] = earlier;
                proof {
                    lemma_swap_keeps_listed(before, table, j - 1, j as int);
                    assert(streams@ =~= before.update(j - 1, before[j as int]).update(
                        j as int,
                        before[j - 1],
                    ));
                }
                j -= 1;
            }
            i += 1;
        }
        proof {
            assert forall|i: int| 0 <= i < streams@.len() implies self@.streams.contains_key(
                (#[trigger] streams@[i]).uuid,
            ) && self@.streams[streams@[i].uuid] == streams@[i]@ by {
                assert(table.contains_key(streams@[i].uuid));
            }
            assert forall|id: u128| #[trigger] self@.streams.contains_key(id) implies exists|i: int|
                0 <= i < streams@.len() && (#[trigger] streams@[i]).uuid == id by {
                assert(table.contains_key(id));
            }
        }
        streams
    }

    /// Where the segment `file` lies on disk: `file` resolved against the
    /// root.
    pub fn segment_path(&self, file: &str) -> (path: String)
        ensures
            path@ == joined(self@.root, file@),
    {
        join(self.root.as_str(), file)
    }

    /// Looks for the bytes of the segment `file` among the segments in memory,
    /// where they are kept under the hash of the text of `file`. A hit
    /// counts as a use of the segment. After a miss the caller reads the file
    /// at [`Self::segment_path`] and hands the bytes to
    /// [`Self::store_segment`]. The index is not touched.
    pub fn get_segment(&mut self, file: &str) -> (bytes: Option<&Vec<u8>>)
        requires
            old(self).wf(),
        ensures
            final(self).wf(),
            final(self)@ == old(self)@,
            final(self).segments() == promoted(old(self).segments(), text_hash(file@)),
            match bytes {
                Some(b) => found(old(self).segments(), text_hash(file@)) == Some(*b),
                None => found(old(self).segments(), text_hash(file@)).is_none(),
            },
    {
        let hash = hash_text(file);
        self.segments.get_hashed(hash)
    }

    /// Keeps the bytes of the segment `file` in memory under the hash of the
    /// text of `file`, in place of the least recently used segment where the
    /// memory is full. The index is not touched.
    pub fn store_segment(&mut self, file: &str, bytes: Vec<u8>) -> (stored: &Vec<u8>)
        requires
            old(self).wf(),
        ensures
            final(self).wf(),
            final(self)@ == old(self)@,
            *stored == bytes,
            final(self).segments() == inserted(
                old(self).segments(),
                SEGMENT_SLOTS as nat,
                text_hash(file@),
                bytes,
            ),
    {
        let hash = hash_text(file);
        self.segments.insert_hashed(hash, bytes)
    }

    /// Prepares the registration of a new stream under a fresh identifier.
    /// Nothing is written and the index is not touched: the caller writes the
    /// sidecar file that the registration names, and the stream is indexed
    /// when that file is scanned.
    pub fn register(&self, description: String, sources: Vec<String>, date: i64) -> (outcome:
        Result<Registration, RegisterError>)
        ensures
            sources@.len() == 0 ==> outcome == Err::<Registration, RegisterError>(
                RegisterError::SourceArgumentEmpty,
            ),
            sources@.len() > 0 ==> match outcome {
                Ok(registration) => registration.is_for(
                    self@.root,
                    registration.meta.uuid,
                    description,
                    sources,
                    date,
                ),
                Err(_) => false,
            },
    {
        if sources.len() == 0 {
            return Err(RegisterError::SourceArgumentEmpty);
        }
        let id = fresh_uuid();
        self.registration(id, description, sources, date)
    }

    /// Prepares the registration of a new stream under the identifier `id`.
    /// A registration without sources is refused. Any other is granted: the
    /// record is live, and its sidecar file lies directly under the root,
    /// named by the identifier.
    pub fn registration(
        &self,
        id: u128,
        description: String,
        sources: Vec<String>,
        date: i64,
    ) -> (outcome: Result<Registration, RegisterError>)
        ensures
            sources@.len() == 0 ==> outcome == Err::<Registration, RegisterError>(
                RegisterError::SourceArgumentEmpty,
            ),
            sources@.len() > 0 ==> match outcome {
                Ok(registration) => registration.is_for(self@.root, id, description, sources, date),
                Err(_) => false,
            },
    {
        if sources.len() == 0 {
            return Err(RegisterError::SourceArgumentEmpty);
        }
        let mut name = uuid_text(id);
        name.append(".");
        name.append(STREAM_EXT);
        let file_name = join(self.root.as_str(), name.as_str());
        let meta = StreamMeta { uuid: id, sources, description, date, live: Some(true) };
        Ok(Registration { file_name, meta })
    }

    /// Reacts to a change that was observed under the root. For files that
    /// disappeared the index is updated at once. Files that appeared or
    /// changed have to be read first: the caller is told to scan them and to
    /// load what it finds. Any other kind of change is ignored.
    pub fn handle_debounce_event(&mut self, kind: EventKind, paths: &Vec<String>) -> (action:
        WatchAction)
        requires
            old(self).wf(),
        ensures
            final(self).wf(),
            final(self).segments() == old(self).segments(),
            match kind {
                EventKind::Create | EventKind::Modify => final(self)@ == old(self)@ && action
                    == WatchAction::Scan,
                EventKind::Remove => final(self)@ == old(self)@.without_all(paths_view(paths@))
                    && action == (if old(self)@.drops_any(paths_view(paths@)) {
                    WatchAction::Removed
                } else {
                    WatchAction::NothingRemoved
                }),
                EventKind::Other => final(self)@ == old(self)@ && action == WatchAction::Ignored,
            },
    {
        match kind {
            EventKind::Create | EventKind::Modify => WatchAction::Scan,
            EventKind::Remove => {
                if self.removed(paths) {
                    WatchAction::Removed
                } else {
                    WatchAction::NothingRemoved
                }
            },
            EventKind::Other => WatchAction::Ignored,
        }
    }
}

/// Whether `streams` lists every stream of `table` exactly once.
pub open spec fn listed(streams: Seq<&Stream>, table: Map<u128, Stream>) -> bool {
    &&& forall|i: int|
        0 <= i < streams.len() ==> table.contains_key((#[trigger] streams[i]).uuid)
            && table[streams[i].uuid] == *streams[i]
    &&& forall|i: int, j: int|
        0 <= i < streams.len() && 0 <= j < streams.len() && i != j ==> (#[trigger] streams[i]).uuid
            != (#[trigger] streams[j]).uuid
    &&& forall|id: u128| #[trigger]
        table.contains_key(id) ==> exists|i: int|
            0 <= i < streams.len() && (#[trigger] streams[i]).uuid == id
}

/// A list that holds every stream once still does so after two of its
/// places were exchanged.
proof fn lemma_swap_keeps_listed(streams: Seq<&Stream>, table: Map<u128, Stream>, a: int, b: int)
    requires
        listed(streams, table),
        0 <= a < streams.len(),
        0 <= b < streams.len(),
    ensures
        listed(streams.update(a, streams[b]).update(b, streams[a]), table),
{
    let swapped = streams.update(a, streams[b]).update(b, streams[a]);
    let from = |i: int|
        if i == a {
            b
        } else if i == b {
            a
        } else {
            i
        };
    assert forall|i: int| 0 <= i < swapped.len() implies table.contains_key(
        (#[trigger] swapped[i]).uuid,
    ) && table[swapped[i].uuid] == *swapped[i] by {
        assert(swapped[i] == streams[from(i)]);
    }
    assert forall|i: int, j: int|
        0 <= i < swapped.len() && 0 <= j < swapped.len() && i != j implies (#[trigger] swapped[i]).uuid
        != (#[trigger] swapped[j]).uuid by {
        assert(swapped[i] == streams[from(i)]);
        assert(swapped[j] == streams[from(j)]);
    }
    assert forall|id: u128| #[trigger] table.contains_key(id) implies exists|i: int|
        0 <= i < swapped.len() && (#[trigger] swapped[i]).uuid == id by {
        let w = choose|w: int| 0 <= w < streams.len() && (#[trigger] streams[w]).uuid == id;
        assert(swapped[from(w)] == streams[w]);
    }
}

/// Where the sidecar file of the stream `id` lies: directly under the root,
/// named by the hyphenated identifier, with the sidecar extension.
pub open spec fn sidecar_path(root: Seq<char>, id: u128) -> Seq<char> {
    joined(root, hyphenated(id) + "."@ + "stream"@)
}

/// A registration that was granted: the record of the new stream and the
/// sidecar file that has to be written for it.
#[derive(Debug, Clone, PartialEq, Eq)]
pub struct Registration {
    pub file_name: String,
    pub meta: MetaFile,
}

/// What became of the sidecar file of a registration.
#[derive(Debug, Clone, PartialEq, Eq)]
pub enum WriteOutcome {
    /// The file was written.
    Written,
    /// The record could not be turned into text.
    SerializeFailed(String),
    /// The file could not be written.
    WriteFailed(String),
}

impl Registration {
    /// Whether this is the registration of what was asked for, under `id`:
    /// a live record with the description, sources and date given, and the
    /// sidecar file of `id` under `root`.
    pub open spec fn is_for(
        self,
        root: Seq<char>,
        id: u128,
        description: String,
        sources: Vec<String>,
        date: i64,
    ) -> bool {
        &&& self.meta.uuid == id
        &&& self.meta.sources == sources
        &&& self.meta.description == description
        &&& self.meta.date == date
        &&& self.meta.live == Some(true)
        &&& self.file_name@ == sidecar_path(root, id)
    }

    /// Ends a registration: the identifier of the new stream once its sidecar
    /// file is written, and otherwise the error that says what went wrong.
    pub fn conclude(self, written: WriteOutcome) -> (outcome: Result<u128, RegisterError>)
        ensures
            outcome == match written {
                WriteOutcome::Written => Ok::<u128, RegisterError>(self.meta.uuid),
                WriteOutcome::SerializeFailed(why) => Err(RegisterError::ParseError(why)),
                WriteOutcome::WriteFailed(why) => Err(RegisterError::IoError(why)),
            },
    {
        match written {
            WriteOutcome::Written => Ok(self.meta.uuid),
            WriteOutcome::SerializeFailed(why) => Err(RegisterError::ParseError(why)),
            WriteOutcome::WriteFailed(why) => Err(RegisterError::IoError(why)),
        }
    }
}

} // verus!
