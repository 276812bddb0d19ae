use ronaldos_core::stream_store::data_types::{
    lookup_content_type, mime_type, MetaFile, RegisterError, Source, Stream, StreamMeta,
    StripPrefixError,
};
use ronaldos_core::stream_store::file_watcher::{
    EventKind, FileWatcher, WatchAction, WatchSignal, WatchStep,
};
use ronaldos_core::stream_store::interface::{StreamId, StreamingType};
use ronaldos_core::stream_store::{
    is_stream_file, Listing, LocalStreamStore, ScanError, WriteOutcome,
};
use ronaldos_core::text_hash::hash_text;

const ROOT: &str = "/tmp/test";

fn store() -> LocalStreamStore {
    LocalStreamStore::new(ROOT.to_string())
}

fn under_root(name: &str) -> String {
    format!("{}/{}", ROOT, name)
}

fn paths(names: &[&str]) -> Vec<String> {
    names.iter().map(|name| name.to_string()).collect()
}

fn source(url: &str, typ: &str) -> Source {
    Source { url: url.to_string(), typ: typ.to_string() }
}

fn assert_stream(mut a: Stream, mut b: Stream) {
    a.date = 0;
    b.date = a.date;
    assert_eq!(a, b);
}

fn indexed(store: &LocalStreamStore, uuid: u128) -> Option<Stream> {
    store.get_available_streams().into_iter().find(|stream| stream.uuid == uuid).cloned()
}

#[test]
fn test_scan() {
    let stream_store = store();
    let mut children: Vec<String> = Vec::new();
    assert_eq!(0, stream_store.scan(ROOT, &Listing::Directory(children.clone())).unwrap().len());

    children.push(under_root("asdfa.bla"));

    assert_eq!(0, stream_store.scan(ROOT, &Listing::Directory(children.clone())).unwrap().len());
    assert_eq!(0, stream_store.get_available_streams().len());

    let registration = stream_store
        .register("asdfas".to_string(), paths(&["test1.dash", "test1.m3u8"]), 1_700_000_000)
        .unwrap();
    children.push(registration.file_name.clone());

    assert_eq!(
        vec![registration.file_name.clone()],
        stream_store.scan(ROOT, &Listing::Directory(children.clone())).unwrap()
    );

    children.push(under_root("test1.dash"));

    assert_eq!(0, stream_store.scan(&under_root("test1.dash"), &Listing::File).unwrap().len());
    assert_eq!(1, stream_store.scan(ROOT, &Listing::Directory(children)).unwrap().len());
    assert_eq!(1, stream_store.scan(&registration.file_name, &Listing::File).unwrap().len());
}

#[test]
fn test_load_and_remove() {
    let mut stream_store = store();

    let first = stream_store
        .register("test1".to_string(), paths(&["test1.dash", "test1.m3u8"]), 1_700_000_000)
        .unwrap();
    let registered = first.meta.uuid;

    let children = vec![first.file_name.clone(), under_root("test1.dash"), under_root("blaat.dash")];
    let plan = stream_store.scan(ROOT, &Listing::Directory(children)).unwrap();
    assert_eq!(plan, vec![first.file_name.clone()]);
    stream_store.load(&vec![(first.file_name.clone(), first.meta.clone())]);
    assert_stream(
        Stream {
            uuid: registered,
            description: "test1".to_string(),
            date: 0,
            sources: vec![
                source("test1.dash", "application/dash+xml"),
                source("test1.m3u8", "application/x-mpegURL"),
            ],
            live: Some(true),
        },
        indexed(&stream_store, registered).unwrap(),
    );

    let second = stream_store
        .register("12345".to_string(), paths(&["test2.dash", "test_3.m3u8"]), 1_700_000_001)
        .unwrap();
    let uuid2 = second.meta.uuid;

    stream_store.load(&vec![(second.file_name.clone(), second.meta.clone())]);
    assert_stream(
        Stream {
            uuid: uuid2,
            description: "12345".to_string(),
            sources: vec![
                source("test2.dash", "application/dash+xml"),
                source("test_3.m3u8", "application/x-mpegURL"),
            ],
            date: 0,
            live: Some(true),
        },
        indexed(&stream_store, uuid2).unwrap(),
    );

    assert_stream(
        Stream {
            uuid: registered,
            description: "test1".to_string(),
            sources: vec![
                source("test1.dash", "application/dash+xml"),
                source("test1.m3u8", "application/x-mpegURL"),
            ],
            date: 0,
            live: Some(true),
        },
        indexed(&stream_store, registered).unwrap(),
    );

    assert!(!stream_store.removed(&vec![under_root("1234_test1.stream")]));

    stream_store.removed(&vec![second.file_name.clone()]);

    assert!(indexed(&stream_store, uuid2).is_none());
    assert!(indexed(&stream_store, registered).is_some());
}

#[test]
fn test_modification_of_stream_file() {
    let mut stream_store = store();

    let registration = stream_store
        .register("test1".to_string(), paths(&["test1.dash", "test1.m3u8"]), 1_700_000_000)
        .unwrap();
    let registered = registration.meta.uuid;
    stream_store.load(&vec![(registration.file_name.clone(), registration.meta.clone())]);
    assert!(indexed(&stream_store, registered).is_some());

    let mut meta = registration.meta.clone();
    meta.description = "kees".to_string();
    stream_store.load(&vec![(registration.file_name.clone(), meta)]);

    assert_eq!("kees", &indexed(&stream_store, registered).unwrap().description);
    assert_eq!(1, stream_store.get_available_streams().len());
}

#[test]
fn registered_stream_is_listed_after_the_initial_load() {
    let mut stream_store = store();
    assert!(stream_store.get_available_streams().is_empty());
    let registration = stream_store
        .register("match of the day".to_string(), paths(&["a.m3u8", "a.mp4"]), 42)
        .unwrap();
    assert!(stream_store.get_available_streams().is_empty());
    let plan = stream_store
        .scan(ROOT, &Listing::Directory(vec![registration.file_name.clone()]))
        .unwrap();
    let found: Vec<(String, MetaFile)> =
        plan.into_iter().map(|file| (file, registration.meta.clone())).collect();
    stream_store.load(&found);
    let streams = stream_store.get_available_streams();
    assert_eq!(streams.len(), 1);
    assert_eq!(streams[0].description, "match of the day");
    assert_eq!(
        streams[0].sources,
        vec![source("a.m3u8", "application/x-mpegURL"), source("a.mp4", "video/mp4")]
    );
    assert_eq!(streams[0].date, 42);
    assert_eq!(streams[0].live, Some(true));
    assert_eq!(streams[0].uuid, registration.meta.uuid);
}

#[test]
fn registration_names_the_sidecar_file_by_the_identifier() {
    let stream_store = store();
    let registration = stream_store
        .registration(
            0x67e5504410b1426f9247bb680e5fe0c8,
            "named".to_string(),
            paths(&["a.mp4"]),
            7,
        )
        .unwrap();
    assert_eq!(registration.file_name, "/tmp/test/67e55044-10b1-426f-9247-bb680e5fe0c8.stream");
    assert_eq!(
        registration.meta,
        StreamMeta {
            uuid: 0x67e5504410b1426f9247bb680e5fe0c8,
            sources: paths(&["a.mp4"]),
            description: "named".to_string(),
            date: 7,
            live: Some(true),
        }
    );
    assert!(is_stream_file(&registration.file_name));
    let low = stream_store.registration(10, String::new(), paths(&["a.mp4"]), 0).unwrap();
    assert_eq!(low.file_name, "/tmp/test/00000000-0000-0000-0000-00000000000a.stream");
}

#[test]
fn registration_without_sources_is_refused() {
    let stream_store = store();
    assert_eq!(
        stream_store.register("empty".to_string(), Vec::new(), 0),
        Err(RegisterError::SourceArgumentEmpty)
    );
    assert_eq!(
        stream_store.registration(1, "empty".to_string(), Vec::new(), 0),
        Err(RegisterError::SourceArgumentEmpty)
    );
}

#[test]
fn registrations_get_different_identifiers() {
    let stream_store = store();
    let a = stream_store.register("a".to_string(), paths(&["a.mp4"]), 0).unwrap();
    let b = stream_store.register("b".to_string(), paths(&["b.mp4"]), 0).unwrap();
    assert_ne!(a.meta.uuid, b.meta.uuid);
    assert_ne!(a.file_name, b.file_name);
}

#[test]
fn registration_ends_with_the_identifier_or_the_error() {
    let stream_store = store();
    let registration = stream_store.registration(9, "x".to_string(), paths(&["a.mp4"]), 0).unwrap();
    assert_eq!(registration.clone().conclude(WriteOutcome::Written), Ok(9));
    assert_eq!(
        registration.clone().conclude(WriteOutcome::SerializeFailed("bad".to_string())),
        Err(RegisterError::ParseError("bad".to_string()))
    );
    assert_eq!(
        registration.conclude(WriteOutcome::WriteFailed("disk full".to_string())),
        Err(RegisterError::IoError("disk full".to_string()))
    );
}

#[test]
fn scan_outside_the_root_is_refused() {
    let stream_store = store();
    assert_eq!(stream_store.scan("/tmp/other", &Listing::File), Err(ScanError::OutsideRoot));
    assert_eq!(
        stream_store.scan("/tmp/test2/a.stream", &Listing::File),
        Err(ScanError::OutsideRoot)
    );
    assert_eq!(stream_store.root(), ROOT);
}

#[test]
fn scan_keeps_the_order_of_the_sidecar_files() {
    let stream_store = store();
    let children = vec![
        under_root("b.stream"),
        under_root("notes.txt"),
        under_root("a.stream"),
        under_root(".stream"),
        under_root("c.stream.bak"),
    ];
    assert_eq!(
        stream_store.scan(ROOT, &Listing::Directory(children)).unwrap(),
        vec![under_root("b.stream"), under_root("a.stream")]
    );
}

fn meta(uuid: u128, description: &str, sources: &[&str], date: i64) -> MetaFile {
    StreamMeta {
        uuid,
        sources: paths(sources),
        description: description.to_string(),
        date,
        live: None,
    }
}

#[test]
fn streams_are_listed_most_recent_first() {
    let mut stream_store = store();
    stream_store.load(&vec![
        (under_root("1.stream"), meta(1, "oldest", &["a.mp4"], 10)),
        (under_root("2.stream"), meta(2, "newest", &["b.mp4"], 30)),
        (under_root("3.stream"), meta(3, "middle", &["c.mp4"], 20)),
        (under_root("4.stream"), meta(4, "before the epoch", &["d.mp4"], -5)),
    ]);
    let dates: Vec<i64> = stream_store.get_available_streams().iter().map(|s| s.date).collect();
    assert_eq!(dates, vec![30, 20, 10, -5]);
    let names: Vec<&str> =
        stream_store.get_available_streams().iter().map(|s| s.description.as_str()).collect();
    assert_eq!(names, vec!["newest", "middle", "oldest", "before the epoch"]);
}

#[test]
fn loading_twice_changes_nothing() {
    let mut stream_store = store();
    let found = vec![
        (under_root("1.stream"), meta(1, "one", &["a.mp4"], 10)),
        (under_root("2.stream"), meta(2, "two", &["b.m3u8"], 20)),
    ];
    stream_store.load(&found);
    let once: Vec<Stream> = stream_store.get_available_streams().into_iter().cloned().collect();
    stream_store.load(&found);
    let twice: Vec<Stream> = stream_store.get_available_streams().into_iter().cloned().collect();
    assert_eq!(once, twice);
    assert_eq!(twice.len(), 2);
}

#[test]
fn record_with_an_unknown_extension_is_dropped() {
    let mut stream_store = store();
    stream_store.load(&vec![
        (under_root("1.stream"), meta(1, "bad", &["a.mp4", "b.avi"], 10)),
        (under_root("2.stream"), meta(2, "good", &["b.mpd"], 20)),
    ]);
    let streams = stream_store.get_available_streams();
    assert_eq!(streams.len(), 1);
    assert_eq!(streams[0].uuid, 2);
    assert_eq!(streams[0].sources, vec![source("b.mpd", "application/dash+xml")]);
    assert_eq!(Stream::from_meta(&meta(1, "bad", &["noext"], 0)), None);
    assert_eq!(
        Stream::from_meta(&meta(1, "fine", &["v.m3u"], 5)),
        Some(StreamMeta {
            uuid: 1,
            sources: vec![source("v.m3u", "application/x-mpegURL")],
            description: "fine".to_string(),
            date: 5,
            live: None,
        })
    );
}

#[test]
fn mime_type_is_told_by_the_extension() {
    assert_eq!(mime_type(Some("m3u8")), Some("application/x-mpegURL"));
    assert_eq!(mime_type(Some("m3u")), Some("application/x-mpegURL"));
    assert_eq!(mime_type(Some("dash")), Some("application/dash+xml"));
    assert_eq!(mime_type(Some("mpd")), Some("application/dash+xml"));
    assert_eq!(mime_type(Some("mp4")), Some("video/mp4"));
    assert_eq!(mime_type(Some("MP4")), None);
    assert_eq!(mime_type(Some("")), None);
    assert_eq!(mime_type(None), None);
    assert_eq!(Source::from_path("/x/y.mp4"), Some(source("/x/y.mp4", "video/mp4")));
    assert_eq!(Source::from_path("/x/y"), None);
}

#[test]
fn removal_ignores_what_is_no_sidecar_file() {
    let mut stream_store = store();
    stream_store.load(&vec![(under_root("1.stream"), meta(1, "one", &["a.mp4"], 10))]);
    assert!(!stream_store.removed(&vec![under_root("a.mp4"), under_root("1.strea")]));
    assert_eq!(stream_store.get_available_streams().len(), 1);
    assert!(!stream_store.removed(&Vec::new()));
    assert!(stream_store.removed(&vec![under_root("a.mp4"), under_root("1.stream")]));
    assert!(stream_store.get_available_streams().is_empty());
    assert!(!stream_store.removed(&vec![under_root("1.stream")]));
}

#[test]
fn owner_is_found_by_the_path_below_the_root() {
    let mut stream_store = store();
    stream_store.load(&vec![(under_root("1.stream"), meta(1, "one", &["a.mp4"], 10))]);
    assert!(stream_store.removed(&vec!["1.stream".to_string()]));
    assert!(stream_store.get_available_streams().is_empty());
}

#[test]
fn path_passes_to_the_stream_that_was_found_there_last() {
    let mut stream_store = store();
    stream_store.load(&vec![
        (under_root("1.stream"), meta(1, "one", &["a.mp4"], 10)),
        (under_root("1.stream"), meta(2, "two", &["b.mp4"], 20)),
    ]);
    assert_eq!(stream_store.get_available_streams().len(), 2);
    assert!(stream_store.removed(&vec![under_root("1.stream")]));
    let left = stream_store.get_available_streams();
    assert_eq!(left.len(), 1);
    assert_eq!(left[0].uuid, 1);
}

#[test]
fn segments_are_served_from_memory_once_stored() {
    let mut stream_store = store();
    assert_eq!(stream_store.segment_path("live/seg1.ts"), "/tmp/test/live/seg1.ts");
    assert_eq!(stream_store.get_segment("live/seg1.ts"), None);
    assert_eq!(*stream_store.store_segment("live/seg1.ts", vec![1, 2, 3]), vec![1, 2, 3]);
    assert_eq!(stream_store.get_segment("live/seg1.ts"), Some(&vec![1, 2, 3]));
    assert_eq!(stream_store.get_segment("live/seg2.ts"), None);
    stream_store.store_segment("live/seg1.ts", vec![9]);
    assert_eq!(stream_store.get_segment("live/seg1.ts"), Some(&vec![9]));
}

#[test]
fn watch_events_are_turned_into_actions() {
    let mut stream_store = store();
    stream_store.load(&vec![(under_root("1.stream"), meta(1, "one", &["a.mp4"], 10))]);
    let changed = vec![under_root("1.stream")];
    assert_eq!(stream_store.handle_debounce_event(EventKind::Create, &changed), WatchAction::Scan);
    assert_eq!(stream_store.handle_debounce_event(EventKind::Modify, &changed), WatchAction::Scan);
    assert_eq!(stream_store.handle_debounce_event(EventKind::Other, &changed), WatchAction::Ignored);
    assert_eq!(stream_store.get_available_streams().len(), 1);
    assert_eq!(
        stream_store.handle_debounce_event(EventKind::Remove, &changed),
        WatchAction::Removed
    );
    assert!(stream_store.get_available_streams().is_empty());
    assert_eq!(
        stream_store.handle_debounce_event(EventKind::Remove, &changed),
        WatchAction::NothingRemoved
    );
}

#[test]
fn watcher_handles_nothing_after_shutdown() {
    let mut watcher = FileWatcher::new();
    assert!(!watcher.has_ended());
    assert_eq!(
        watcher.step(WatchSignal::Event(EventKind::Create)),
        WatchStep::Handle(EventKind::Create)
    );
    assert_eq!(watcher.step(WatchSignal::Idle), WatchStep::Wait);
    assert_eq!(watcher.step(WatchSignal::Shutdown), WatchStep::Exit);
    assert!(watcher.has_ended());
    assert_eq!(watcher.step(WatchSignal::Event(EventKind::Remove)), WatchStep::Exit);
    assert_eq!(watcher.step(WatchSignal::Idle), WatchStep::Exit);
    let mut closed = FileWatcher::new();
    assert_eq!(closed.step(WatchSignal::Closed), WatchStep::Exit);
    assert!(closed.has_ended());
}

#[test]
fn stream_identifiers_know_their_key() {
    assert!(StreamId::FootballAPI(0).is_invalid());
    assert!(StreamId::Untagged(0).is_invalid());
    assert!(!StreamId::Untagged(3).is_invalid());
    assert!(!StreamId::Nothing.is_invalid());
    assert!(StreamId::default().is_invalid());
    assert_eq!(StreamId::default(), StreamId::Untagged(0));
    assert_eq!(StreamId::FootballAPI(12).get_raw_key(), Some(12));
    assert_eq!(StreamId::Untagged(0).get_raw_key(), Some(0));
    assert_eq!(StreamId::Nothing.get_raw_key(), None);
}

#[test]
fn playlists_are_told_by_their_extension() {
    assert_eq!(StreamingType::of_path("live/index.m3u8"), Some(StreamingType::HLS));
    assert_eq!(StreamingType::of_path("live/index.dash"), Some(StreamingType::DASH));
    assert_eq!(StreamingType::of_path("live/index.mp4"), None);
    assert_eq!(StreamingType::of_path("live/index"), None);
}

#[test]
fn segments_get_their_content_type_from_the_extension() {
    assert_eq!(lookup_content_type("live/index.m3u8"), Some("application/x-mpegURL"));
    assert_eq!(lookup_content_type("a.mp4"), Some("video/mp4"));
    assert_eq!(lookup_content_type("live/seg-001.ts"), Some("video/mp2t"));
    assert_eq!(lookup_content_type("live/index.mpd"), None);
    assert_eq!(lookup_content_type("live/index"), None);
}

#[test]
fn strip_prefix_makes_the_sources_relative() {
    let mut stream: Stream = StreamMeta {
        uuid: 1,
        sources: vec![source("/data/a.mp4", "video/mp4"), source("/data/live/b.m3u8", "x")],
        description: "d".to_string(),
        date: 3,
        live: Some(false),
    };
    assert_eq!(stream.strip_prefix("/data"), Ok(()));
    assert_eq!(stream.sources, vec![source("a.mp4", "video/mp4"), source("live/b.m3u8", "x")]);
    assert_eq!(stream.description, "d");
    assert_eq!(stream.date, 3);
}

#[test]
fn strip_prefix_ends_at_the_first_source_outside() {
    let mut stream: Stream = StreamMeta {
        uuid: 1,
        sources: vec![
            source("/data/a.mp4", "video/mp4"),
            source("/other/b.mp4", "video/mp4"),
            source("/data/c.mp4", "video/mp4"),
        ],
        description: String::new(),
        date: 0,
        live: None,
    };
    assert_eq!(stream.strip_prefix("/data"), Err(StripPrefixError));
    assert_eq!(
        stream.sources,
        vec![
            source("a.mp4", "video/mp4"),
            source("/other/b.mp4", "video/mp4"),
            source("/data/c.mp4", "video/mp4"),
        ]
    );
}

#[test]
fn load_skips_what_is_no_sidecar_file_under_the_root() {
    let mut stream_store = store();
    stream_store.load(&vec![
        ("/tmp/other/1.stream".to_string(), meta(1, "outside the root", &["a.mp4"], 10)),
        ("/tmp/test2/2.stream".to_string(), meta(2, "beside the root", &["a.mp4"], 10)),
        (under_root("3.yaml"), meta(3, "no sidecar file", &["a.mp4"], 10)),
        (under_root("4"), meta(4, "no extension", &["a.mp4"], 10)),
        ("5.stream".to_string(), meta(5, "relative", &["a.mp4"], 10)),
        (under_root("6.stream"), meta(6, "good", &["a.mp4"], 10)),
    ]);
    let streams = stream_store.get_available_streams();
    assert_eq!(streams.len(), 1);
    assert_eq!(streams[0].uuid, 6);
    assert!(!stream_store.removed(&vec!["/tmp/other/1.stream".to_string()]));
    assert!(!stream_store.removed(&vec!["5.stream".to_string()]));
    assert!(stream_store.removed(&vec![under_root("6.stream")]));
}

#[test]
fn sidecar_file_in_a_directory_below_the_root_is_indexed_by_its_relative_path() {
    let mut stream_store = store();
    stream_store.load(&vec![(under_root("live/1.stream"), meta(1, "deep", &["a.mp4"], 10))]);
    assert_eq!(stream_store.get_available_streams().len(), 1);
    assert!(!stream_store.removed(&vec![under_root("1.stream")]));
    assert!(stream_store.removed(&vec!["live/1.stream".to_string()]));
    assert!(stream_store.get_available_streams().is_empty());
}

#[test]
fn hash_of_a_text_depends_on_the_text_alone() {
    let built: String = ["live/", "seg1", ".ts"].concat();
    assert_eq!(hash_text("live/seg1.ts"), hash_text(&built));
    assert_ne!(hash_text("live/seg1.ts"), hash_text("live/seg2.ts"));
    assert_ne!(hash_text(""), hash_text("a"));
    assert_ne!(hash_text("ab"), hash_text("ba"));
}

#[test]
fn segments_are_kept_under_the_hash_of_their_file() {
    let mut stream_store = store();
    for round in 0..40u8 {
        let file = format!("live/seg{}.ts", round);
        assert_eq!(stream_store.get_segment(&file), None);
        stream_store.store_segment(&file, vec![round]);
        assert_eq!(stream_store.get_segment(&file), Some(&vec![round]));
    }
    assert_eq!(stream_store.get_segment("live/seg0.ts"), None);
    assert_eq!(stream_store.get_segment("live/seg7.ts"), None);
    assert_eq!(stream_store.get_segment("live/seg8.ts"), Some(&vec![8]));
    assert_eq!(stream_store.get_segment("live/seg39.ts"), Some(&vec![39]));
}
